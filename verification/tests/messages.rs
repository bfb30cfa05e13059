use my_signalr_middleware::messages::{
    generate_negotiate_response, get_ping_payload, PayloadField, SignalrMessage,
    SignalrMessageError,
};
use my_signalr_middleware::process_connect::{connect_with, remove_hyphens};
use my_signalr_middleware::{process_connect, MySignalrConnection};

const TRANSPORTS: &str = ",\"availableTransports\":[{\"transport\":\"WebSockets\",\"transferFormats\":[\"Text\",\"Binary\"]},{\"transport\":\"ServerSentEvents\",\"transferFormats\":[\"Text\"]},{\"transport\":\"LongPolling\",\"transferFormats\":[\"Text\",\"Binary\"]}]}";

#[test]
fn negotiate_response_without_token() {
    let response = generate_negotiate_response(0, "abc", &None);
    assert_eq!(
        response,
        format!("{{\"negotiateVersion\":0,\"connectionId\":\"abc\"{}", TRANSPORTS)
    );
}

#[test]
fn negotiate_response_with_token() {
    let response = generate_negotiate_response(1, "abc", &Some("tok".to_string()));
    assert_eq!(
        response,
        format!(
            "{{\"negotiateVersion\":1,\"connectionId\":\"abc\",\"connectionToken\":\"tok\"{}",
            TRANSPORTS
        )
    );
}

#[test]
fn negotiate_response_echoes_every_version() {
    for version in [0usize, 1, 9, 10, 11, 99, 100, 12345, usize::MAX] {
        let response = generate_negotiate_response(version, "id", &None);
        assert_eq!(
            response,
            format!(
                "{{\"negotiateVersion\":{},\"connectionId\":\"id\"{}",
                version, TRANSPORTS
            )
        );
    }
}

#[test]
fn ping_payload_is_type_six() {
    assert_eq!(get_ping_payload(), "{\"type\":6}");
}

fn is_identifier(text: &str) -> bool {
    text.len() == 32
        && text
            .chars()
            .all(|c| c.is_ascii_digit() || ('a'..='f').contains(&c))
}

#[test]
fn negotiation_issues_a_token_above_version_zero() {
    for version in [1usize, 2, 7] {
        let (connection, response): (MySignalrConnection<()>, String) =
            process_connect(version, None, 10);
        let token = connection.connection_token.clone().unwrap();
        assert!(is_identifier(&connection.connection_id));
        assert!(is_identifier(&token));
        assert_ne!(connection.connection_id, token);
        assert_eq!(connection.negotiation_version, version);
        assert_eq!(connection.get_list_index(), &token);
        assert_eq!(
            response,
            generate_negotiate_response(
                version,
                &connection.connection_id,
                &connection.connection_token
            )
        );
        assert!(response.contains(&format!(",\"connectionToken\":\"{}\"", token)));
        assert!(response.starts_with(&format!("{{\"negotiateVersion\":{},", version)));
    }
}

#[test]
fn negotiation_issues_no_token_at_version_zero() {
    let (connection, response): (MySignalrConnection<()>, String) = process_connect(0, None, 10);
    assert!(connection.connection_token.is_none());
    assert!(is_identifier(&connection.connection_id));
    assert_eq!(connection.get_list_index(), &connection.connection_id);
    assert!(!response.contains("connectionToken"));
    assert!(response.starts_with("{\"negotiateVersion\":0,"));
}

#[test]
fn negotiation_draws_fresh_identifiers() {
    let (first, _): (MySignalrConnection<()>, String) = process_connect(1, None, 10);
    let (second, _): (MySignalrConnection<()>, String) = process_connect(1, None, 10);
    assert_ne!(first.connection_id, second.connection_id);
    assert_ne!(first.connection_token, second.connection_token);
}

#[test]
fn new_connection_is_connected_without_handshake() {
    let (connection, _): (MySignalrConnection<u8>, String) = process_connect(1, Some(4), 77);
    assert!(connection.is_connected());
    assert!(!connection.get_has_greeting());
    assert!(connection.in_web_socket_model());
    assert_eq!(connection.get_web_socket(), Some(4));
    assert_eq!(connection.created, 77);
    assert_eq!(connection.get_last_incoming(), 77);
    assert_eq!(connection.ctx, 0);
}

#[test]
fn identifiers_lose_their_hyphens() {
    assert_eq!(
        remove_hyphens("67e55044-10b1-426f-9247-bb680e5fe0c8"),
        "67e5504410b1426f9247bb680e5fe0c8"
    );
    assert_eq!(remove_hyphens(""), "");
    assert_eq!(remove_hyphens("---"), "");
    assert_eq!(remove_hyphens("a-é-b"), "aéb");

    let (connection, response): (MySignalrConnection<()>, String) = connect_with(
        "67e55044-10b1-426f-9247-bb680e5fe0c8",
        "00000000-1111-2222-3333-444444444444",
        1,
        None,
        5,
    );
    assert_eq!(connection.connection_id, "67e5504410b1426f9247bb680e5fe0c8");
    assert_eq!(
        connection.connection_token,
        Some("00000000111122223333444444444444".to_string())
    );
    assert_eq!(
        response,
        format!(
            "{{\"negotiateVersion\":1,\"connectionId\":\"67e5504410b1426f9247bb680e5fe0c8\",\"connectionToken\":\"00000000111122223333444444444444\"{}",
            TRANSPORTS
        )
    );

    let (connection, _): (MySignalrConnection<()>, String) = connect_with(
        "67e55044-10b1-426f-9247-bb680e5fe0c8",
        "00000000-1111-2222-3333-444444444444",
        0,
        None,
        5,
    );
    assert_eq!(connection.connection_token, None);
}

fn field<'s>(name: &'s str, text: Option<&'s str>, raw: Option<&'s [u8]>) -> PayloadField<'s> {
    PayloadField { name, text, raw }
}

#[test]
fn invocation_is_picked_out_of_the_fields() {
    let fields = [
        field("type", Some("1"), Some(b"1")),
        field("invocationId", Some("42"), Some(b"\"42\"")),
        field("target", Some("echo"), Some(b"\"echo\"")),
        field("arguments", None, Some(b"[1,2]")),
    ];
    let message = SignalrMessage::parse(&fields).ok().unwrap();
    assert_eq!(message.target, "echo");
    assert_eq!(message.arguments, b"[1,2]");
    assert_eq!(message.invocation_id, Some("42"));
    assert!(message.headers.is_none());
}

#[test]
fn invocation_without_id_has_none() {
    let fields = [
        field("target", Some("echo"), None),
        field("arguments", None, Some(b"[]")),
    ];
    let message = SignalrMessage::parse(&fields).ok().unwrap();
    assert_eq!(message.invocation_id, None);
    assert_eq!(message.arguments, b"[]");
}

#[test]
fn last_field_of_a_name_counts() {
    let fields = [
        field("target", Some("first"), None),
        field("arguments", None, Some(b"[1]")),
        field("target", Some("second"), None),
        field("arguments", None, Some(b"[2]")),
    ];
    let message = SignalrMessage::parse(&fields).ok().unwrap();
    assert_eq!(message.target, "second");
    assert_eq!(message.arguments, b"[2]");

    let fields = [
        field("target", Some("first"), None),
        field("arguments", None, Some(b"[1]")),
        field("target", None, Some(b"{}")),
    ];
    assert_eq!(
        SignalrMessage::parse(&fields).err(),
        Some(SignalrMessageError::TargetNotFound)
    );
}

#[test]
fn invocation_without_target_is_refused() {
    let fields = [field("arguments", None, Some(b"[1]"))];
    let error = SignalrMessage::parse(&fields).err().unwrap();
    assert_eq!(error, SignalrMessageError::TargetNotFound);
    assert_eq!(error.message(), "Target is not found");

    let none: [PayloadField; 0] = [];
    assert_eq!(
        SignalrMessage::parse(&none).err(),
        Some(SignalrMessageError::TargetNotFound)
    );
}

#[test]
fn invocation_without_arguments_is_refused() {
    let fields = [field("target", Some("echo"), None)];
    let error = SignalrMessage::parse(&fields).err().unwrap();
    assert_eq!(error, SignalrMessageError::ArgumentsNotFound);
    assert_eq!(error.message(), "Arguments is not found");
}
