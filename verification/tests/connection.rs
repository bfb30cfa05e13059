use my_signalr_middleware::decimal::{push_decimal, push_signed_decimal};
use my_signalr_middleware::signal_r_connection::ConnectionState;
use my_signalr_middleware::{MySignalrConnection, SignalRParam};

fn connection(web_socket: Option<i64>) -> MySignalrConnection<u8> {
    MySignalrConnection::new(
        "id1".to_string(),
        Some("token1".to_string()),
        1,
        web_socket,
        1_000,
    )
}

fn frame(connection: &MySignalrConnection<u8>, action: &str, parameter: SignalRParam) -> String {
    let frame = connection.send(action, &parameter).unwrap();
    String::from_utf8(frame.payload).unwrap()
}

#[test]
fn list_index_is_the_token_or_the_id() {
    assert_eq!(connection(None).get_list_index(), "token1");
    let bare: MySignalrConnection<u8> =
        MySignalrConnection::new("id1".to_string(), None, 0, None, 0);
    assert_eq!(bare.get_list_index(), "id1");
}

#[test]
fn send_without_transport_sends_nothing() {
    let connection = connection(None);
    assert!(connection.send("echo", &SignalRParam::Nothing).is_none());
    assert!(connection.send_ping_payload().is_none());
    assert!(connection.send_raw_payload("{}".to_string()).is_none());
}

#[test]
fn invocation_frame_of_each_parameter() {
    let connection = connection(Some(9));
    assert_eq!(
        connection.send("echo", &SignalRParam::Nothing).unwrap().web_socket_id,
        9
    );
    assert_eq!(
        frame(&connection, "echo", SignalRParam::Nothing),
        "{\"type\":1,\"target\":\"echo\",\"arguments\":[]}\u{1e}"
    );
    assert_eq!(
        frame(&connection, "echo", SignalRParam::JsonObject(b"{\"a\":1}")),
        "{\"type\":1,\"target\":\"echo\",\"arguments\":[{\"a\":1}]}\u{1e}"
    );
    assert_eq!(
        frame(&connection, "echo", SignalRParam::String("a\\\"b")),
        "{\"type\":1,\"target\":\"echo\",\"arguments\":[\"a\\\"b\"]}\u{1e}"
    );
    assert_eq!(
        frame(&connection, "echo", SignalRParam::Number(-42)),
        "{\"type\":1,\"target\":\"echo\",\"arguments\":[-42]}\u{1e}"
    );
    assert_eq!(
        frame(&connection, "echo", SignalRParam::Number(i64::MIN)),
        "{\"type\":1,\"target\":\"echo\",\"arguments\":[-9223372036854775808]}\u{1e}"
    );
    assert_eq!(
        frame(&connection, "echo", SignalRParam::Float("1.5")),
        "{\"type\":1,\"target\":\"echo\",\"arguments\":[1.5]}\u{1e}"
    );
    assert_eq!(
        frame(&connection, "echo", SignalRParam::Boolean(true)),
        "{\"type\":1,\"target\":\"echo\",\"arguments\":[true]}\u{1e}"
    );
    assert_eq!(
        frame(&connection, "echo", SignalRParam::Boolean(false)),
        "{\"type\":1,\"target\":\"echo\",\"arguments\":[false]}\u{1e}"
    );
    let items = vec![b"1".to_vec(), b"\"two\"".to_vec(), b"{}".to_vec()];
    assert_eq!(
        frame(&connection, "sum", SignalRParam::Raw(&items)),
        "{\"type\":1,\"target\":\"sum\",\"arguments\":[1,\"two\",{}]}\u{1e}"
    );
    let one = vec![b"1".to_vec()];
    assert_eq!(
        frame(&connection, "sum", SignalRParam::Raw(&one)),
        "{\"type\":1,\"target\":\"sum\",\"arguments\":[1]}\u{1e}"
    );
    let none: Vec<Vec<u8>> = Vec::new();
    assert_eq!(
        frame(&connection, "sum", SignalRParam::Raw(&none)),
        "{\"type\":1,\"target\":\"sum\",\"arguments\":[]}\u{1e}"
    );
    assert_eq!(
        frame(&connection, "größe", SignalRParam::Nothing),
        "{\"type\":1,\"target\":\"größe\",\"arguments\":[]}\u{1e}"
    );
}

#[test]
fn frames_end_with_the_record_separator() {
    let connection = connection(Some(3));
    let ping = connection.send_ping_payload().unwrap();
    assert_eq!(ping.web_socket_id, 3);
    assert_eq!(ping.text, "{\"type\":6}\u{1e}");
    assert_eq!(ping.text.as_bytes().last(), Some(&30u8));

    let raw = connection.send_raw_payload("{}".to_string()).unwrap();
    assert_eq!(raw.web_socket_id, 3);
    assert_eq!(raw.text, "{}\u{1e}");
}

#[test]
fn second_transport_kicks_the_first() {
    let mut connection = connection(None);
    assert!(connection.add_web_socket(5).is_none());
    assert!(connection.has_web_socket(5));
    assert!(!connection.in_web_socket_model());

    let notice = connection.add_web_socket(-6).unwrap();
    assert_eq!(notice.web_socket_id, 5);
    assert_eq!(
        notice.message,
        "Signalr WebSocket 5 has been kicked by Websocket -6 "
    );
    assert!(connection.has_web_socket(-6));
    assert!(!connection.has_web_socket(5));
    assert_eq!(
        connection.send("echo", &SignalRParam::Nothing).unwrap().web_socket_id,
        -6
    );
}

#[test]
fn disconnect_releases_the_transport_once() {
    let mut connection = connection(Some(5));
    assert!(connection.is_connected());
    assert_eq!(connection.disconnect(), Some(5));
    assert!(!connection.is_connected());
    assert_eq!(connection.get_web_socket(), None);
    assert_eq!(connection.disconnect(), None);
    assert!(!connection.is_connected());
    assert!(connection.send("echo", &SignalRParam::Nothing).is_none());
}

#[test]
fn activity_and_handshake_are_recorded() {
    let mut connection = connection(Some(5));
    assert_eq!(connection.get_last_incoming(), 1_000);
    connection.update_incoming_activity(2_000);
    assert_eq!(connection.get_last_incoming(), 2_000);
    assert_eq!(connection.created, 1_000);
    assert!(!connection.get_has_greeting());
    connection.set_has_greeting();
    assert!(connection.get_has_greeting());
    connection.set_has_greeting();
    assert!(connection.get_has_greeting());
}

#[test]
fn decimal_text_of_integers() {
    for n in [0u64, 1, 9, 10, 11, 99, 100, 101, 1234567890, u64::MAX] {
        let mut out = String::from("x");
        push_decimal(&mut out, n);
        assert_eq!(out, format!("x{}", n));
    }
    for n in [0i64, 1, -1, 9, -9, 10, -10, 1234, -1234, i64::MAX, i64::MIN, i64::MIN + 1] {
        let mut out = String::new();
        push_signed_decimal(&mut out, n);
        assert_eq!(out, n.to_string());
    }
}

#[test]
fn connection_goes_through_its_states() {
    let mut connection = connection(None);
    assert_eq!(connection.get_state(), ConnectionState::Negotiated);
    connection.add_web_socket(1);
    assert_eq!(connection.get_state(), ConnectionState::Attached);
    connection.update_incoming_activity(5);
    assert_eq!(connection.get_state(), ConnectionState::Attached);
    connection.set_has_greeting();
    assert_eq!(connection.get_state(), ConnectionState::Active);
    connection.add_web_socket(2);
    assert_eq!(connection.get_state(), ConnectionState::Active);
    connection.disconnect();
    assert_eq!(connection.get_state(), ConnectionState::Disconnected);
    connection.set_has_greeting();
    connection.update_incoming_activity(6);
    connection.disconnect();
    assert_eq!(connection.get_state(), ConnectionState::Disconnected);

    let attached: MySignalrConnection<u8> =
        MySignalrConnection::new("id".to_string(), None, 0, Some(3), 0);
    assert_eq!(attached.get_state(), ConnectionState::Attached);
}
