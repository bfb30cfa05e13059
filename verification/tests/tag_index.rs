use my_signalr_middleware::string_map::StringMap;
use my_signalr_middleware::Tags;

fn sorted(list: Option<Vec<String>>) -> Vec<String> {
    let mut list = list.unwrap_or_default();
    list.sort();
    list
}

#[test]
fn empty_index_has_no_matches() {
    let tags = Tags::new();
    assert!(tags.get_tagged_connections("asset").is_none());
    assert!(tags.get_tagged_connections_with_value("asset", "BTC").is_none());
}

#[test]
fn setting_a_tag_again_moves_the_connection() {
    let mut tags = Tags::new();
    tags.add_tag("c1", "asset", "BTC");
    tags.add_tag("c1", "asset", "ETH");
    assert!(tags.get_tagged_connections_with_value("asset", "BTC").is_none());
    assert_eq!(
        sorted(tags.get_tagged_connections_with_value("asset", "ETH")),
        vec!["c1".to_string()]
    );
    assert_eq!(sorted(tags.get_tagged_connections("asset")), vec!["c1".to_string()]);

    tags.add_tag("c1", "asset", "ETH");
    assert_eq!(
        sorted(tags.get_tagged_connections_with_value("asset", "ETH")),
        vec!["c1".to_string()]
    );
}

#[test]
fn connection_is_listed_once_per_key() {
    let mut tags = Tags::new();
    tags.add_tag("c1", "asset", "BTC");
    tags.add_tag("c1", "asset", "BTC");
    tags.add_tag("c1", "user", "BTC");
    tags.add_tag("c2", "asset", "ETH");
    assert_eq!(
        sorted(tags.get_tagged_connections("asset")),
        vec!["c1".to_string(), "c2".to_string()]
    );
    assert_eq!(sorted(tags.get_tagged_connections("user")), vec!["c1".to_string()]);
}

#[test]
fn removing_the_last_member_prunes_the_bucket() {
    let mut tags = Tags::new();
    tags.add_tag("c1", "asset", "BTC");
    tags.add_tag("c2", "asset", "BTC");
    tags.remove_tag("c1", "asset", "BTC");
    assert_eq!(
        sorted(tags.get_tagged_connections_with_value("asset", "BTC")),
        vec!["c2".to_string()]
    );
    tags.remove_tag("c2", "asset", "BTC");
    assert!(tags.get_tagged_connections_with_value("asset", "BTC").is_none());
    assert!(tags.get_tagged_connections("asset").is_none());

    tags.remove_tag("c2", "asset", "BTC");
    tags.remove_tag("c9", "none", "none");
    assert!(tags.get_tagged_connections("asset").is_none());
}

#[test]
fn tag_goes_whatever_value_it_is_known_by() {
    let mut tags = Tags::new();
    tags.add_tag("c1", "asset", "BTC");
    tags.add_tag("c2", "asset", "ETH");
    tags.remove_tag("c1", "asset", "ETH");
    assert!(tags.get_tagged_connections_with_value("asset", "BTC").is_none());
    assert_eq!(
        sorted(tags.get_tagged_connections_with_value("asset", "ETH")),
        vec!["c2".to_string()]
    );
    assert_eq!(sorted(tags.get_tagged_connections("asset")), vec!["c2".to_string()]);
}

#[test]
fn removing_a_connection_drops_all_its_tags() {
    let mut tags = Tags::new();
    tags.add_tag("c1", "asset", "BTC");
    tags.add_tag("c1", "user", "7");
    tags.add_tag("c1", "room", "a");
    tags.add_tag("c2", "room", "a");
    tags.remove_connection("c1");
    assert!(tags.get_tagged_connections("asset").is_none());
    assert!(tags.get_tagged_connections("user").is_none());
    assert_eq!(sorted(tags.get_tagged_connections("room")), vec!["c2".to_string()]);
    tags.remove_connection("c1");
    tags.remove_connection("c9");
    assert_eq!(
        sorted(tags.get_tagged_connections_with_value("room", "a")),
        vec!["c2".to_string()]
    );
}

#[test]
fn both_directions_agree_after_many_changes() {
    let mut tags = Tags::new();
    let connections = ["c0", "c1", "c2", "c3"];
    let keys = ["k0", "k1", "k2"];
    let values = ["v0", "v1", "v2"];
    let mut model: Vec<(String, String, String)> = Vec::new();
    let mut seed: u32 = 12345;
    for _ in 0..400 {
        seed = seed.wrapping_mul(1103515245).wrapping_add(12345);
        let c = connections[(seed >> 16) as usize % connections.len()];
        seed = seed.wrapping_mul(1103515245).wrapping_add(12345);
        let k = keys[(seed >> 16) as usize % keys.len()];
        seed = seed.wrapping_mul(1103515245).wrapping_add(12345);
        let v = values[(seed >> 16) as usize % values.len()];
        seed = seed.wrapping_mul(1103515245).wrapping_add(12345);
        match (seed >> 16) % 5 {
            0 | 1 | 2 => {
                tags.add_tag(c, k, v);
                model.retain(|e| !(e.0 == c && e.1 == k));
                model.push((c.to_string(), k.to_string(), v.to_string()));
            }
            3 => {
                tags.remove_tag(c, k, v);
                model.retain(|e| !(e.0 == c && e.1 == k));
            }
            _ => {
                tags.remove_connection(c);
                model.retain(|e| e.0 != c);
            }
        }
        for k in keys {
            let mut expected: Vec<String> = model
                .iter()
                .filter(|e| e.1 == k)
                .map(|e| e.0.clone())
                .collect();
            expected.sort();
            assert_eq!(sorted(tags.get_tagged_connections(k)), expected);
            assert_eq!(tags.get_tagged_connections(k).is_none(), expected.is_empty());
            for v in values {
                let mut expected: Vec<String> = model
                    .iter()
                    .filter(|e| e.1 == k && e.2 == v)
                    .map(|e| e.0.clone())
                    .collect();
                expected.sort();
                assert_eq!(
                    tags.get_tagged_connections_with_value(k, v).is_none(),
                    expected.is_empty()
                );
                assert_eq!(sorted(tags.get_tagged_connections_with_value(k, v)), expected);
            }
        }
    }
}

#[test]
fn string_map_holds_one_value_per_key() {
    let mut map: StringMap<u32> = StringMap::new();
    assert!(map.is_empty());
    assert_eq!(map.len(), 0);
    assert_eq!(map.get("a"), None);
    assert!(!map.contains_key("a"));

    assert_eq!(map.insert("a".to_string(), 1), None);
    assert_eq!(map.insert("b".to_string(), 2), None);
    assert_eq!(map.insert("a".to_string(), 3), Some(1));
    assert_eq!(map.len(), 2);
    assert!(!map.is_empty());
    assert_eq!(map.get("a"), Some(&3));
    assert_eq!(map.get("b"), Some(&2));
    assert!(map.contains_key("b"));
    assert!(!map.contains_key("B"));

    let mut seen: Vec<(String, u32)> = (0..map.len())
        .map(|i| (map.key_at(i).clone(), *map.value_at(i)))
        .collect();
    seen.sort();
    assert_eq!(seen, vec![("a".to_string(), 3), ("b".to_string(), 2)]);

    assert_eq!(map.remove("a"), Some(3));
    assert_eq!(map.remove("a"), None);
    assert_eq!(map.get("a"), None);
    assert_eq!(map.len(), 1);
    assert_eq!(map.remove("b"), Some(2));
    assert!(map.is_empty());
}
