use my_signalr_middleware::my_signal_r_action_callback::{
    deserialized, read_parameters, ParameterItem,
};
use my_signalr_middleware::signal_r_message_publisher::frames_for;
use my_signalr_middleware::{
    MySignalrCallbacksInstance, MySignalrConnection, SignalrConnectionsList,
    SignalrContractDeserializer, SignalrContractSerializer, SignalrMessagePublisher,
};

struct Pair {
    left: i64,
    right: i64,
}

impl SignalrContractSerializer for Pair {
    fn serialize(self) -> Vec<Vec<u8>> {
        vec![
            self.left.to_string().into_bytes(),
            self.right.to_string().into_bytes(),
        ]
    }
}

impl SignalrContractDeserializer for Pair {
    type Item = Pair;

    fn deserialize(data: &[&[u8]]) -> Result<Pair, String> {
        if data.len() != 2 {
            return Err(format!("expected 2 parameters, got {}", data.len()));
        }
        let read = |item: &[u8]| -> Result<i64, String> {
            std::str::from_utf8(item)
                .map_err(|_| "not text".to_string())?
                .parse::<i64>()
                .map_err(|_| "not a number".to_string())
        };
        Ok(Pair {
            left: read(data[0])?,
            right: read(data[1])?,
        })
    }
}

fn registry() -> SignalrConnectionsList<u8> {
    let mut list = SignalrConnectionsList::new();
    list.add_signalr_connection(MySignalrConnection::new(
        "id1".to_string(),
        Some("t1".to_string()),
        1,
        Some(1),
        0,
    ));
    list.add_signalr_connection(MySignalrConnection::new(
        "id2".to_string(),
        Some("t2".to_string()),
        1,
        None,
        0,
    ));
    list.add_signalr_connection(MySignalrConnection::new(
        "id3".to_string(),
        Some("t3".to_string()),
        1,
        Some(3),
        0,
    ));
    list.add_tag_to_connection("t1", "asset", "BTC");
    list.add_tag_to_connection("t2", "asset", "BTC");
    list.add_tag_to_connection("t3", "asset", "ETH");
    list
}

fn sockets(frames: &[my_signalr_middleware::signal_r_connection::OutboundFrame]) -> Vec<i64> {
    let mut sockets: Vec<i64> = frames.iter().map(|f| f.web_socket_id).collect();
    sockets.sort();
    sockets
}

const FRAME: &[u8] = b"{\"type\":1,\"target\":\"sum\",\"arguments\":[4,-5]}\x1e";

#[test]
fn broadcast_reaches_every_transport() {
    let list = registry();
    let publisher: SignalrMessagePublisher<Pair> = SignalrMessagePublisher::new("sum".to_string());
    let frames = publisher.broadcast_to_all(&list, Pair { left: 4, right: -5 });
    assert_eq!(sockets(&frames), vec![1, 3]);
    for frame in &frames {
        assert_eq!(frame.payload, FRAME);
    }

    let empty: SignalrConnectionsList<u8> = SignalrConnectionsList::new();
    assert!(publisher
        .broadcast_to_all(&empty, Pair { left: 4, right: -5 })
        .is_empty());
}

#[test]
fn tagged_publish_reaches_the_tagged_transports() {
    let list = registry();
    let publisher: SignalrMessagePublisher<Pair> = SignalrMessagePublisher::new("sum".to_string());

    let frames = publisher.send_to_tagged_connections(&list, "asset", Pair { left: 4, right: -5 });
    assert_eq!(sockets(&frames), vec![1, 3]);
    assert_eq!(frames[0].payload, FRAME);

    let frames = publisher.send_to_tagged_connections_with_value(
        &list,
        "asset",
        "BTC",
        Pair { left: 4, right: -5 },
    );
    assert_eq!(sockets(&frames), vec![1]);
    assert_eq!(frames[0].payload, FRAME);

    let frames = publisher.send_to_tagged_connections_with_value(
        &list,
        "asset",
        "XRP",
        Pair { left: 4, right: -5 },
    );
    assert!(frames.is_empty());
    assert!(publisher
        .send_to_tagged_connections(&list, "user", Pair { left: 4, right: -5 })
        .is_empty());
}

#[test]
fn publish_to_one_connection() {
    let list = registry();
    let publisher: SignalrMessagePublisher<Pair> = SignalrMessagePublisher::new("sum".to_string());
    let frame = publisher
        .send_to_connection(
            list.get_by_connection_token("t3").unwrap(),
            Pair { left: 4, right: -5 },
        )
        .unwrap();
    assert_eq!(frame.web_socket_id, 3);
    assert_eq!(frame.payload, FRAME);
    assert!(publisher
        .send_to_connection(
            list.get_by_connection_token("t2").unwrap(),
            Pair { left: 4, right: -5 },
        )
        .is_none());
}

#[test]
fn frames_follow_the_connections_in_order() {
    let list = registry();
    let connections = vec![
        list.get_by_connection_token("t3").unwrap(),
        list.get_by_connection_token("t2").unwrap(),
        list.get_by_connection_token("t1").unwrap(),
    ];
    let payload = vec![b"true".to_vec()];
    let frames = frames_for(&connections, "flag", &payload);
    assert_eq!(frames.len(), 2);
    assert_eq!(frames[0].web_socket_id, 3);
    assert_eq!(frames[1].web_socket_id, 1);
    assert_eq!(
        frames[0].payload,
        b"{\"type\":1,\"target\":\"flag\",\"arguments\":[true]}\x1e"
    );
}

#[test]
fn parameters_are_read_and_the_unreadable_reported() {
    let items = [
        ParameterItem::Value(b"1"),
        ParameterItem::Unreadable("bad item".to_string()),
        ParameterItem::Value(b"2"),
        ParameterItem::Unreadable("worse".to_string()),
    ];
    let (params, reports) = read_parameters(&items, "sum", b"[1,?,2,?]");
    assert_eq!(params, vec![&b"1"[..], &b"2"[..]]);
    assert_eq!(reports.len(), 2);
    assert_eq!(reports[0].process, "Signalr payload handler");
    assert_eq!(
        reports[0].message,
        "Can read parameters payloads. Err: bad item"
    );
    assert_eq!(reports[0].action, "sum");
    assert_eq!(reports[0].payload, b"[1,?,2,?]");
    assert_eq!(reports[1].message, "Can read parameters payloads. Err: worse");
}

#[test]
fn refused_parameters_are_reported() {
    let accepted: Result<u8, String> = Ok(5);
    assert_eq!(deserialized(accepted, "sum", b"[5]").ok(), Some(5));

    let refused: Result<u8, String> = Err("no".to_string());
    let report = deserialized(refused, "sum", b"[x]").err().unwrap();
    assert_eq!(report.process, "Signalr payload handler");
    assert_eq!(report.message, "Can not deserialize payload. Err: no");
    assert_eq!(report.action, "sum");
    assert_eq!(report.payload, b"[x]");
}

#[test]
fn handler_reads_the_contract() {
    let handler = MySignalrCallbacksInstance {
        action_name: "sum".to_string(),
        callback: (),
    };

    let items = [ParameterItem::Value(b"4"), ParameterItem::Value(b"-5")];
    let handled = handler.on::<Pair>(&items, b"[4,-5]");
    let contract = handled.contract.unwrap();
    assert_eq!((contract.left, contract.right), (4, -5));
    assert!(handled.reports.is_empty());

    let items = [ParameterItem::Value(b"4")];
    let handled = handler.on::<Pair>(&items, b"[4]");
    assert!(handled.contract.is_none());
    assert_eq!(handled.reports.len(), 1);
    assert_eq!(
        handled.reports[0].message,
        "Can not deserialize payload. Err: expected 2 parameters, got 1"
    );
    assert_eq!(handled.reports[0].action, "sum");
    assert_eq!(handled.reports[0].payload, b"[4]");

    let items = [
        ParameterItem::Value(b"4"),
        ParameterItem::Unreadable("eof".to_string()),
        ParameterItem::Value(b"6"),
    ];
    let handled = handler.on::<Pair>(&items, b"[4,");
    let contract = handled.contract.unwrap();
    assert_eq!((contract.left, contract.right), (4, 6));
    assert_eq!(handled.reports.len(), 1);
    assert_eq!(
        handled.reports[0].message,
        "Can read parameters payloads. Err: eof"
    );

    let items = [
        ParameterItem::Unreadable("eof".to_string()),
        ParameterItem::Value(b"x"),
        ParameterItem::Value(b"6"),
    ];
    let handled = handler.on::<Pair>(&items, b"[?,x,6]");
    assert!(handled.contract.is_none());
    assert_eq!(handled.reports.len(), 2);
    assert_eq!(
        handled.reports[0].message,
        "Can read parameters payloads. Err: eof"
    );
    assert_eq!(
        handled.reports[1].message,
        "Can not deserialize payload. Err: not a number"
    );
}
