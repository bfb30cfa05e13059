use my_signalr_middleware::middleware::{
    compile_negotiate_uri, parse_version, NegotiateError, RequestFacts, RequestRoute,
};
use my_signalr_middleware::middleware_builder::DEFAULT_DISCONNECT_TIMEOUT_NANOS;
use my_signalr_middleware::{MiddlewareBuilder, MySignalrConnection, MySignalrMiddleware};

#[test]
fn test_negotiate_compilation() {
    let name = "/signalr";

    let result = compile_negotiate_uri(name);

    let segments: Vec<&str> = result.split('/').filter(|s| !s.is_empty()).collect();
    assert!(
        segments.len() >= 2
            && segments[0].eq_ignore_ascii_case("signalr")
            && segments[1].eq_ignore_ascii_case("negotiate")
    );
}

#[test]
fn negotiate_uri_adds_the_slashes_that_are_missing() {
    assert_eq!(compile_negotiate_uri("/signalr"), "/signalr/negotiate");
    assert_eq!(compile_negotiate_uri("signalr"), "/signalr/negotiate");
    assert_eq!(compile_negotiate_uri("/signalr/"), "/signalr/negotiate");
    assert_eq!(compile_negotiate_uri("signalr/"), "/signalr/negotiate");
    assert_eq!(compile_negotiate_uri(""), "//negotiate");
    assert_eq!(compile_negotiate_uri("/"), "/negotiate");
}

#[test]
fn hub_name_counts_in_lower_case() {
    let middleware = MySignalrMiddleware::new("/SignalR", 1_000);
    assert_eq!(middleware.get_hub_name(), "/signalr");
    assert_eq!(middleware.get_negotiate_path(), "/signalr/negotiate");
    assert_eq!(middleware.get_disconnect_timeout_nanos(), 1_000);
}

#[test]
fn version_is_read_as_decimal() {
    assert_eq!(parse_version("0"), Some(0));
    assert_eq!(parse_version("1"), Some(1));
    assert_eq!(parse_version("12"), Some(12));
    assert_eq!(parse_version("+5"), Some(5));
    assert_eq!(parse_version("007"), Some(7));
    assert_eq!(parse_version(""), None);
    assert_eq!(parse_version("+"), None);
    assert_eq!(parse_version("-1"), None);
    assert_eq!(parse_version("1a"), None);
    assert_eq!(parse_version(" 1"), None);
    assert_eq!(parse_version("++1"), None);
    assert_eq!(parse_version(&usize::MAX.to_string()), Some(usize::MAX));
    assert_eq!(parse_version("340282366920938463463374607431768211456"), None);
    let beyond = format!("{}0", usize::MAX);
    assert_eq!(parse_version(&beyond), None);
}

#[test]
fn version_agrees_with_the_standard_parser() {
    let samples = [
        "0", "1", "42", "+42", "", "+", "-", "-0", "+0", "00", "18446744073709551615",
        "18446744073709551616", "99999999999999999999", "1 ", "x", "1_000", "٣",
    ];
    for sample in samples {
        assert_eq!(parse_version(sample), sample.parse::<usize>().ok(), "{}", sample);
    }
}

fn facts(
    path_starts_with_hub: bool,
    has_web_socket_key: bool,
    is_raw_request: bool,
    is_post: bool,
    is_negotiate_path: bool,
) -> RequestFacts {
    RequestFacts {
        path_starts_with_hub,
        has_web_socket_key,
        is_raw_request,
        is_post,
        is_negotiate_path,
    }
}

#[test]
fn requests_are_routed() {
    let mut middleware = MySignalrMiddleware::new("signalr", 1);

    assert_eq!(
        middleware.handle_request(&facts(false, true, true, true, true)),
        RequestRoute::Next
    );
    assert_eq!(
        middleware.handle_request(&facts(true, true, true, false, false)),
        RequestRoute::UpgradeWebSocket { web_socket_id: 1 }
    );
    assert_eq!(
        middleware.handle_request(&facts(true, true, true, true, true)),
        RequestRoute::UpgradeWebSocket { web_socket_id: 2 }
    );
    assert_eq!(
        middleware.handle_request(&facts(true, true, false, true, true)),
        RequestRoute::Next
    );
    assert_eq!(
        middleware.handle_request(&facts(true, false, true, true, true)),
        RequestRoute::Negotiate
    );
    assert_eq!(
        middleware.handle_request(&facts(true, false, true, false, true)),
        RequestRoute::Next
    );
    assert_eq!(
        middleware.handle_request(&facts(true, false, true, true, false)),
        RequestRoute::Next
    );
    assert!(middleware.has_socket_id_left());
    assert_eq!(middleware.get_socket_id(), 3);
}

#[test]
fn negotiation_request_names_its_version() {
    let middleware = MySignalrMiddleware::new("signalr", 1);

    let (connection, response): (MySignalrConnection<()>, String) =
        middleware.handle_negotiate_request(Some("1"), 55).unwrap();
    assert_eq!(connection.negotiation_version, 1);
    assert!(connection.connection_token.is_some());
    assert_eq!(connection.created, 55);
    assert!(response.starts_with("{\"negotiateVersion\":1,\"connectionId\":\""));

    let (connection, response): (MySignalrConnection<()>, String) =
        middleware.handle_negotiate_request(None, 56).unwrap();
    assert_eq!(connection.negotiation_version, 0);
    assert!(connection.connection_token.is_none());
    assert!(response.starts_with("{\"negotiateVersion\":0,\"connectionId\":\""));
    assert!(!response.contains("connectionToken"));

    let refused = middleware.handle_negotiate_request::<()>(Some("one"), 57);
    assert!(matches!(
        refused,
        Err(NegotiateError::InvalidNegotiateVersion)
    ));
}

#[test]
fn builder_sets_the_hub_up() {
    let builder: MiddlewareBuilder<u32, &str> = MySignalrMiddleware::new_with_builder("/Hub");
    assert!(!builder.has_transport_callback());
    assert!(!builder.has_action("echo"));

    let builder = builder
        .with_action("echo".to_string(), 1)
        .with_action("sum".to_string(), 2)
        .with_transport_callback("life");
    assert!(builder.has_action("echo"));
    assert!(builder.has_action("sum"));
    assert!(!builder.has_action("ECHO"));
    assert!(builder.has_transport_callback());

    let (middleware, actions) = builder.build();
    assert_eq!(middleware.get_hub_name(), "/hub");
    assert_eq!(middleware.get_negotiate_path(), "/hub/negotiate");
    assert_eq!(
        middleware.get_disconnect_timeout_nanos(),
        DEFAULT_DISCONNECT_TIMEOUT_NANOS
    );
    assert_eq!(DEFAULT_DISCONNECT_TIMEOUT_NANOS, 60_000_000_000);
    assert_eq!(actions.on("echo"), Some(&1));
    assert_eq!(actions.on("sum"), Some(&2));
    assert_eq!(actions.get_transport_callbacks(), Some(&"life"));

    let builder: MiddlewareBuilder<u32, &str> =
        MiddlewareBuilder::new("hub".to_string()).set_disconnect_timeout(5);
    let (middleware, actions) = builder.build();
    assert_eq!(middleware.get_disconnect_timeout_nanos(), 5);
    assert_eq!(actions.on("echo"), None);
    assert_eq!(actions.get_transport_callbacks(), None);
}
