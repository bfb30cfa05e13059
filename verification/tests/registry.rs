use my_signalr_middleware::{MySignalrConnection, SignalrConnectionsList, SignalrList};

fn connection(id: &str, token: Option<&str>, web_socket: Option<i64>) -> MySignalrConnection<u8> {
    MySignalrConnection::new(
        id.to_string(),
        token.map(|t| t.to_string()),
        if token.is_some() { 1 } else { 0 },
        web_socket,
        100,
    )
}

fn keys(list: Vec<&MySignalrConnection<u8>>) -> Vec<String> {
    let mut keys: Vec<String> = list.iter().map(|c| c.get_list_index().clone()).collect();
    keys.sort();
    keys
}

#[test]
fn connection_is_found_by_token_or_id() {
    let mut list = SignalrConnectionsList::new();
    assert!(list.add_signalr_connection(connection("id1", Some("t1"), None)).is_none());
    assert!(list.add_signalr_connection(connection("id2", None, None)).is_none());

    assert_eq!(list.get_by_connection_token("t1").unwrap().connection_id, "id1");
    assert!(list.get_by_connection_token("id1").is_none());
    assert_eq!(list.get_by_connection_token("id2").unwrap().connection_id, "id2");
    assert!(list.get_by_web_socket_id(1).is_none());
}

#[test]
fn connection_created_with_transport_is_found_by_it() {
    let mut list = SignalrConnectionsList::new();
    list.add_signalr_connection(connection("id1", Some("t1"), Some(11)));
    assert_eq!(list.get_by_web_socket_id(11).unwrap().connection_id, "id1");
    assert!(list.get_by_web_socket_id(12).is_none());
}

#[test]
fn attach_finds_only_registered_tokens() {
    let mut list = SignalrConnectionsList::new();
    list.add_signalr_connection(connection("id1", Some("t1"), None));

    assert!(list.assign_web_socket("nope", 1).is_none());
    assert!(list.get_by_web_socket_id(1).is_none());

    let attached = list.assign_web_socket("t1", 1).unwrap();
    assert!(attached.kicked.is_none());
    let found = list.get_by_web_socket_id(1).unwrap();
    assert_eq!(found.connection_id, "id1");
    assert_eq!(found.get_web_socket(), Some(1));
    assert!(!found.in_web_socket_model());
}

#[test]
fn second_attach_evicts_the_first_transport() {
    let mut list = SignalrConnectionsList::new();
    list.add_signalr_connection(connection("id1", Some("t1"), None));
    list.assign_web_socket("t1", 1).unwrap();

    let attached = list.assign_web_socket("t1", 2).unwrap();
    let notice = attached.kicked.unwrap();
    assert_eq!(notice.web_socket_id, 1);
    assert_eq!(
        notice.message,
        "Signalr WebSocket 1 has been kicked by Websocket 2 "
    );
    assert!(list.get_by_web_socket_id(1).is_none());
    let found = list.get_by_web_socket_id(2).unwrap();
    assert_eq!(found.get_web_socket(), Some(2));
    let frame = found
        .send("echo", &my_signalr_middleware::SignalRParam::Nothing)
        .unwrap();
    assert_eq!(frame.web_socket_id, 2);

    let attached = list.assign_web_socket("t1", 3).unwrap();
    assert_eq!(attached.kicked.unwrap().web_socket_id, 2);
}

#[test]
fn removed_connection_is_unreachable() {
    let mut list = SignalrConnectionsList::new();
    list.add_signalr_connection(connection("id1", Some("t1"), None));
    list.add_signalr_connection(connection("id2", Some("t2"), None));
    list.assign_web_socket("t1", 1).unwrap();
    list.assign_web_socket("t2", 2).unwrap();
    list.add_tag_to_connection("t1", "asset", "BTC");
    list.add_tag_to_connection("t2", "asset", "BTC");
    list.add_tag_to_connection("t1", "user", "7");

    let removed = list.remove("t1").unwrap();
    assert_eq!(removed.web_socket, Some(1));
    assert_eq!(removed.connection.connection_id, "id1");
    assert!(!removed.connection.is_connected());
    assert_eq!(removed.connection.get_web_socket(), None);

    assert!(list.get_by_connection_token("t1").is_none());
    assert!(list.get_by_web_socket_id(1).is_none());
    assert_eq!(
        keys(list.get_tagged_connections_with_value("asset", "BTC").unwrap()),
        vec!["t2".to_string()]
    );
    assert_eq!(
        keys(list.get_tagged_connections("asset").unwrap()),
        vec!["t2".to_string()]
    );
    assert!(list.get_tagged_connections("user").is_none());
    assert!(list.get_tagged_connections_with_value("user", "7").is_none());
    assert_eq!(keys(list.get_all().unwrap()), vec!["t2".to_string()]);

    assert!(list.remove("t1").is_none());
    assert!(list.remove("never").is_none());
    assert_eq!(list.get_by_web_socket_id(2).unwrap().connection_id, "id2");
}

#[test]
fn tags_need_a_registered_connection() {
    let mut list: SignalrConnectionsList<u8> = SignalrConnectionsList::new();
    list.add_tag_to_connection("ghost", "asset", "BTC");
    assert!(list.get_tagged_connections("asset").is_none());

    list.add_signalr_connection(connection("id1", Some("t1"), None));
    list.add_tag_to_connection("t1", "asset", "BTC");
    list.add_tag_to_connection("id1", "asset", "BTC");
    assert_eq!(
        keys(list.get_tagged_connections("asset").unwrap()),
        vec!["t1".to_string()]
    );
    list.remove_tag_from_connection("ghost", "asset", "BTC");
    assert!(list.get_tagged_connections("asset").is_some());
    list.remove_tag_from_connection("t1", "asset", "BTC");
    assert!(list.get_tagged_connections("asset").is_none());
}

#[test]
fn tag_queries_hand_out_the_connections() {
    let mut list = SignalrConnectionsList::new();
    list.add_signalr_connection(connection("id1", Some("t1"), None));
    list.add_signalr_connection(connection("id2", Some("t2"), None));
    list.add_signalr_connection(connection("id3", Some("t3"), None));
    list.add_tag_to_connection("t1", "asset", "BTC");
    list.add_tag_to_connection("t2", "asset", "ETH");
    list.add_tag_to_connection("t3", "asset", "BTC");

    assert_eq!(
        keys(list.get_tagged_connections_with_value("asset", "BTC").unwrap()),
        vec!["t1".to_string(), "t3".to_string()]
    );
    assert_eq!(
        keys(list.get_tagged_connections("asset").unwrap()),
        vec!["t1".to_string(), "t2".to_string(), "t3".to_string()]
    );
    assert!(list.get_tagged_connections_with_value("asset", "XRP").is_none());
    assert!(list.get_tagged_connections("user").is_none());

    list.add_tag_to_connection("t3", "asset", "ETH");
    assert_eq!(
        keys(list.get_tagged_connections_with_value("asset", "BTC").unwrap()),
        vec!["t1".to_string()]
    );
    assert_eq!(
        keys(list.get_tagged_connections_with_value("asset", "ETH").unwrap()),
        vec!["t2".to_string(), "t3".to_string()]
    );
}

#[test]
fn snapshots_filter_and_find() {
    let mut list = SignalrConnectionsList::new();
    assert!(list.get_all().is_none());
    assert!(list.filter(|_| true).is_none());
    assert!(list.find_first(|_| true).is_none());

    list.add_signalr_connection(connection("id1", Some("t1"), Some(1)));
    list.add_signalr_connection(connection("id2", Some("t2"), None));
    list.add_signalr_connection(connection("id3", None, Some(3)));

    assert_eq!(
        keys(list.get_all().unwrap()),
        vec!["id3".to_string(), "t1".to_string(), "t2".to_string()]
    );
    assert_eq!(
        keys(list.filter(|c| c.in_web_socket_model()).unwrap()),
        vec!["id3".to_string(), "t1".to_string()]
    );
    assert!(list.filter(|c| c.negotiation_version > 5).is_none());
    assert_eq!(
        list.find_first(|c| c.connection_id == "id2").unwrap().get_list_index(),
        "t2"
    );
    assert!(list.find_first(|c| c.connection_id == "id9").is_none());
}

#[test]
fn same_key_displaces_the_connection_and_its_tags() {
    let mut list = SignalrConnectionsList::new();
    list.add_signalr_connection(connection("id1", Some("t1"), Some(1)));
    list.add_tag_to_connection("t1", "asset", "BTC");

    let displaced = list
        .add_signalr_connection(connection("id9", Some("t1"), Some(2)))
        .unwrap();
    assert_eq!(displaced.connection_id, "id1");
    assert_eq!(list.get_by_connection_token("t1").unwrap().connection_id, "id9");
    assert!(list.get_by_web_socket_id(1).is_none());
    assert_eq!(list.get_by_web_socket_id(2).unwrap().connection_id, "id9");
    assert!(list.get_tagged_connections("asset").is_none());
}

#[test]
fn registry_records_activity_and_handshake() {
    let mut list = SignalrConnectionsList::new();
    list.add_signalr_connection(connection("id1", Some("t1"), Some(1)));

    assert!(!list.update_incoming_activity(2, 500));
    assert!(list.update_incoming_activity(1, 500));
    assert_eq!(list.get_by_web_socket_id(1).unwrap().get_last_incoming(), 500);
    assert!(!list.get_by_web_socket_id(1).unwrap().get_has_greeting());

    assert!(!list.set_has_greeting(2));
    assert!(list.set_has_greeting(1));
    assert!(list.get_by_connection_token("t1").unwrap().get_has_greeting());
    assert_eq!(list.get_by_web_socket_id(1).unwrap().get_last_incoming(), 500);
}

#[test]
fn plain_list_keeps_both_indexes() {
    let mut list = SignalrList::new();
    assert!(list.get_all().is_empty());
    assert!(list.filter(|_| true).is_empty());

    list.add_signalr_connection(connection("id1", Some("t1"), None));
    list.add_signalr_connection(connection("id2", Some("t2"), Some(2)));
    assert_eq!(
        keys(list.get_all()),
        vec!["t1".to_string(), "t2".to_string()]
    );
    assert_eq!(
        keys(list.filter(|c| c.get_web_socket().is_some())),
        vec!["t2".to_string()]
    );
    assert_eq!(
        list.find_first(|c| c.get_web_socket().is_none()).unwrap().connection_id,
        "id1"
    );

    assert!(list.assign_web_socket("t1", 1).unwrap().kicked.is_none());
    assert_eq!(
        list.assign_web_socket("t1", 5).unwrap().kicked.unwrap().web_socket_id,
        1
    );
    assert!(list.get_by_web_socket_id(1).is_none());
    assert_eq!(list.get_by_web_socket_id(5).unwrap().connection_id, "id1");
    assert!(list.assign_web_socket("t9", 9).is_none());

    assert!(list.update_incoming_activity(5, 900));
    assert!(list.set_has_greeting(5));
    let found = list.get_by_connection_token("t1").unwrap();
    assert_eq!(found.get_last_incoming(), 900);
    assert!(found.get_has_greeting());

    let removed = list.remove("t2").unwrap();
    assert_eq!(removed.web_socket, Some(2));
    assert!(!removed.connection.is_connected());
    assert!(list.get_by_web_socket_id(2).is_none());
    assert!(list.get_by_connection_token("t2").is_none());
    assert!(list.remove("t2").is_none());
}
