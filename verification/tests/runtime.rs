use rmw_zenoh_rs::attachment::Attachment;
use rmw_zenoh_rs::context::Context;
use rmw_zenoh_rs::endpoint::Endpoint;
use rmw_zenoh_rs::endpoint_info::EndpointInfo;
use rmw_zenoh_rs::endpoint_info::EntityType;
use rmw_zenoh_rs::entity_node::Node;
use rmw_zenoh_rs::event::Event;
use rmw_zenoh_rs::graph_cache::GraphCache;
use rmw_zenoh_rs::guard_condition::GuardCondition;
use rmw_zenoh_rs::qos::default_qos;
use rmw_zenoh_rs::qos::rmw_qos_profile_t;
use rmw_zenoh_rs::qos::rmw_time_t;
use rmw_zenoh_rs::service::rmw_request_id_t;
use rmw_zenoh_rs::service::QueryMap;
use rmw_zenoh_rs::graph_cache_utils::get_names_and_types;
use rmw_zenoh_rs::graph_cache_utils::str_cmp;
use rmw_zenoh_rs::wait::resolve_ready;

fn keep_last_qos(depth: usize) -> rmw_qos_profile_t {
    rmw_qos_profile_t {
        history: 1,
        depth,
        reliability: 1,
        durability: 2,
        deadline: rmw_time_t { sec: 9, nsec: 9 },
        lifespan: rmw_time_t { sec: 9, nsec: 9 },
        liveliness: 1,
        liveliness_lease_duration: rmw_time_t { sec: 9, nsec: 9 },
        avoid_ros_namespace_conventions: false,
    }
}

fn test_gid() -> [u8; 16] {
    [1, 2, 3, 4, 5, 6, 7, 8, 9, 10, 11, 12, 13, 14, 15, 16]
}

#[test]
fn attachment_round_trip() {
    let a = Attachment::new(42, 1000, test_gid());
    let bytes = a.to_bytes();
    let decoded = Attachment::from_bytes(&bytes).unwrap();
    assert_eq!(decoded.sequence_number, 42);
    assert_eq!(decoded.source_timestamp, 1000);
    let expected: Vec<i8> = test_gid().iter().map(|&b| b as i8).collect();
    assert_eq!(decoded.source_gid.to_vec(), expected);
}

#[test]
fn attachment_round_trip_negative_values() {
    let a = Attachment::new(-7, -123456789, [0xFF; 16]);
    let decoded = Attachment::from_bytes(&a.to_bytes()).unwrap();
    assert_eq!(decoded, a);
    assert_eq!(decoded.source_gid[0], -1);
}

#[test]
fn attachment_missing_gid_fails() {
    let a = Attachment::new(42, 1000, test_gid());
    let mut bytes = a.to_bytes();
    // Keep only the first two fields; the source_gid tag is missing.
    bytes.truncate(49);
    assert!(Attachment::from_bytes(&bytes).is_err());
}

#[test]
fn attachment_unknown_tag_fails() {
    let bytes: Vec<u8> = vec![3, b'a', b'b', b'c'];
    assert!(Attachment::from_bytes(&bytes).is_err());
}

#[test]
fn attachment_long_length_prefix_fails() {
    // A tag length prefix of two or more bytes is rejected.
    let bytes: Vec<u8> = vec![0x8F, 0x00, b'a'];
    assert!(Attachment::from_bytes(&bytes).is_err());
}

#[test]
fn attachment_empty_stream_fails() {
    let bytes: Vec<u8> = Vec::new();
    assert!(Attachment::from_bytes(&bytes).is_err());
}

#[test]
fn attachment_truncated_value_fails() {
    let a = Attachment::new(42, 1000, test_gid());
    let mut bytes = a.to_bytes();
    // Cut into the middle of the sequence-number value.
    bytes.truncate(20);
    assert!(Attachment::from_bytes(&bytes).is_err());
}

fn empty_endpoint(qos: rmw_qos_profile_t) -> Endpoint<i32> {
    let mut info = EndpointInfo::default();
    info.qos = qos;
    Endpoint {
        info,
        sequence_number: 1,
        recv_fifo: Vec::new(),
    }
}

#[test]
fn keep_last_queue_keeps_most_recent() {
    let mut ep = empty_endpoint(keep_last_qos(3));
    for i in 1..=6 {
        ep.push_recv_data(i as i64, i);
    }
    assert_eq!(ep.take_message(), Some((4, 4)));
    assert_eq!(ep.take_message(), Some((5, 5)));
    assert_eq!(ep.take_message(), Some((6, 6)));
    assert_eq!(ep.take_message(), None);
}

#[test]
fn keep_all_queue_grows() {
    let mut qos = keep_last_qos(2);
    qos.history = 2;
    let mut ep = empty_endpoint(qos);
    for i in 1..=5 {
        ep.push_recv_data(i as i64, i);
    }
    for i in 1..=5 {
        assert_eq!(ep.take_message(), Some((i as i64, i)));
    }
    assert_eq!(ep.take_message(), None);
}

#[test]
fn sequence_numbers_start_at_one_and_increase() {
    let mut ep = empty_endpoint(keep_last_qos(3));
    assert_eq!(ep.next_sequence_number(), 1);
    assert_eq!(ep.next_sequence_number(), 2);
    assert_eq!(ep.next_sequence_number(), 3);
}

fn entity_key(domain: usize, node_id: usize, entity_id: usize, kind: EntityType, name: &str) -> String {
    let info = EndpointInfo {
        domain_id: domain,
        z_id: "zid".to_string(),
        node_id,
        entity_id,
        entity_type: kind,
        enclave: "e".to_string(),
        namespace: "ns".to_string(),
        node_name: "robot".to_string(),
        endpoint_name: name.to_string(),
        endpoint_type: "ty".to_string(),
        endpoint_typehash: "h".to_string(),
        qos: default_qos(),
    };
    info.to_string()
}

#[test]
fn graph_cache_appear_then_disappear_removes_entry() {
    let mut cache = GraphCache::new();
    let key = entity_key(0, 0, 1, EntityType::Publisher, "chatter");
    cache.insert_entity(&key);
    let kinds = vec![EntityType::Publisher];
    assert_eq!(cache.count_endpoint("", "", "", &kinds), 1);
    cache.remove_entity(&key);
    assert_eq!(cache.count_endpoint("", "", "", &kinds), 0);
}

#[test]
fn graph_cache_disappear_without_appear_is_noop() {
    let mut cache = GraphCache::new();
    let key_a = entity_key(0, 0, 1, EntityType::Publisher, "chatter");
    let key_b = entity_key(0, 0, 2, EntityType::Publisher, "chatter");
    cache.insert_entity(&key_a);
    cache.remove_entity(&key_b);
    let kinds = vec![EntityType::Publisher];
    assert_eq!(cache.count_endpoint("", "", "", &kinds), 1);
}

#[test]
fn graph_cache_ignores_foreign_keys() {
    let mut cache = GraphCache::new();
    cache.insert_entity("some/random/zenoh/key");
    let kinds = vec![
        EntityType::Node,
        EntityType::Publisher,
        EntityType::Subscriber,
        EntityType::Service,
        EntityType::Client,
    ];
    assert_eq!(cache.count_endpoint("", "", "", &kinds), 0);
    assert!(!cache.guard_condition.triggered);
}

#[test]
fn graph_cache_count_filters_by_kind() {
    let mut cache = GraphCache::new();
    cache.insert_entity(&entity_key(0, 0, 1, EntityType::Publisher, "chatter"));
    cache.insert_entity(&entity_key(0, 0, 2, EntityType::Publisher, "chatter"));
    cache.insert_entity(&entity_key(0, 1, 1, EntityType::Publisher, "chatter"));
    cache.insert_entity(&entity_key(0, 1, 2, EntityType::Subscriber, "chatter"));
    let pubs = vec![EntityType::Publisher];
    assert_eq!(cache.count_endpoint("", "", "chatter", &pubs), 3);
    let subs = vec![EntityType::Subscriber];
    assert_eq!(cache.count_endpoint("", "", "chatter", &subs), 1);
    let list = cache.get_endpoint_list("", "", "chatter", &pubs);
    assert_eq!(list.len(), 3);
    assert!(list.iter().all(|e| e.entity_type == EntityType::Publisher));
}

#[test]
fn graph_cache_lists_in_ascending_key_order() {
    let mut cache = GraphCache::new();
    // Appear events in descending key order; queries must still list in
    // ascending discovery-key order, as an ordered map iterates.
    cache.insert_entity(&entity_key(0, 0, 3, EntityType::Publisher, "chatter"));
    cache.insert_entity(&entity_key(0, 0, 1, EntityType::Publisher, "chatter"));
    cache.insert_entity(&entity_key(0, 0, 2, EntityType::Publisher, "chatter"));
    let pubs = vec![EntityType::Publisher];
    let list = cache.get_endpoint_list("", "", "", &pubs);
    let ids: Vec<usize> = list.iter().map(|e| e.entity_id).collect();
    assert_eq!(ids, vec![1, 2, 3]);
}

#[test]
fn graph_cache_refreshes_entry_in_place() {
    let mut cache = GraphCache::new();
    let key = entity_key(0, 0, 1, EntityType::Publisher, "chatter");
    cache.insert_entity(&key);
    cache.insert_entity(&key);
    let kinds = vec![EntityType::Publisher];
    assert_eq!(cache.count_endpoint("", "", "", &kinds), 1);
}

#[test]
fn graph_cache_namespace_filters() {
    let mut cache = GraphCache::new();
    cache.insert_entity(&entity_key(0, 0, 1, EntityType::Publisher, "chatter"));
    let kinds = vec![EntityType::Publisher];
    assert_eq!(cache.count_endpoint("ns", "robot", "", &kinds), 1);
    assert_eq!(cache.count_endpoint("other", "robot", "", &kinds), 0);
    assert_eq!(cache.count_endpoint("ns", "other", "", &kinds), 0);
    // Empty namespace and node name together match everything.
    assert_eq!(cache.count_endpoint("", "", "", &kinds), 1);
}

#[test]
fn guard_condition_is_level_triggered() {
    let mut sources: Vec<GuardCondition> = vec![GuardCondition::new()];
    assert!(!resolve_ready(&mut sources));
    sources[0].trigger();
    sources[0].trigger();
    assert!(resolve_ready(&mut sources));
    // One ready cycle consumed the latch.
    assert!(!resolve_ready(&mut sources));
}

#[test]
fn wait_with_zero_sources_times_out() {
    let mut sources: Vec<GuardCondition> = Vec::new();
    assert!(!resolve_ready(&mut sources));
}

#[test]
fn wait_zero_timeout_with_empty_queue_times_out() {
    let mut sources: Vec<Endpoint<i32>> = vec![empty_endpoint(keep_last_qos(3))];
    assert!(!resolve_ready(&mut sources));
    sources[0].push_recv_data(1, 10);
    assert!(resolve_ready(&mut sources));
    // The queue is not consumed by the wait cycle itself.
    assert_eq!(sources[0].take_message(), Some((1, 10)));
}

#[test]
fn events_are_empty_sources_until_queued() {
    let mut sources: Vec<Event> = vec![Event::new(0)];
    assert!(!resolve_ready(&mut sources));
    sources[0].event_queue.push(());
    assert!(resolve_ready(&mut sources));
    // Events are drained by their reader, not by the wait cycle.
    assert!(resolve_ready(&mut sources));
}

#[test]
fn context_and_node_counters() {
    let mut ctx = Context::new(5, "enclave");
    assert_eq!(ctx.domain_id, 5);
    assert_eq!(ctx.generate_node_id(), 0);
    assert_eq!(ctx.generate_node_id(), 1);
    let mut node = Node::new(&mut ctx, "zid", "ns", "robot");
    assert_eq!(node.info.domain_id, 5);
    assert_eq!(node.info.node_id, 2);
    assert_eq!(node.info.entity_id, 0);
    assert_eq!(node.info.entity_type, EntityType::Node);
    assert_eq!(node.info.enclave, "enclave");
    assert_eq!(node.generate_entity_id(), 1);
    assert_eq!(node.generate_entity_id(), 2);
}

#[test]
fn endpoint_new_fills_identity() {
    let mut ctx = Context::new(0, "e");
    let mut node = Node::new(&mut ctx, "zid", "ns", "robot");
    let ep: Endpoint<i32> = Endpoint::new(
        &mut node,
        EntityType::Subscriber,
        "chatter",
        "ty",
        keep_last_qos(4),
    );
    assert_eq!(ep.info.entity_id, 1);
    assert_eq!(ep.info.entity_type, EntityType::Subscriber);
    assert_eq!(ep.info.endpoint_name, "chatter");
    assert_eq!(ep.info.endpoint_type, "ty");
    assert_eq!(ep.info.qos, keep_last_qos(4));
    assert_eq!(ep.sequence_number, 1);
    assert!(ep.is_empty());
    assert_eq!(node.next_entity_id, 2);
}

#[test]
fn request_hash_is_deterministic() {
    let id = rmw_request_id_t {
        writer_guid: [1; 16],
        sequence_number: 7,
    };
    let other = rmw_request_id_t {
        writer_guid: [1; 16],
        sequence_number: 8,
    };
    assert_eq!(id.get_hash(), id.get_hash());
    assert_ne!(id.get_hash(), other.get_hash());
}

#[test]
fn string_comparison_is_lexicographic() {
    assert_eq!(str_cmp("abc", "abd"), -1);
    assert_eq!(str_cmp("abc", "abc"), 0);
    assert_eq!(str_cmp("abd", "abc"), 1);
    assert_eq!(str_cmp("ab", "abc"), -1);
    assert_eq!(str_cmp("abc", "ab"), 1);
    assert_eq!(str_cmp("", ""), 0);
    assert_eq!(str_cmp("", "a"), -1);
}

#[test]
fn names_and_types_groups_and_sorts() {
    let mut infos = Vec::new();
    for (name, ty) in [("beta", "T2"), ("alpha", "T2"), ("alpha", "T1"), ("beta", "T2")] {
        let mut info = EndpointInfo::default();
        info.endpoint_name = name.to_string();
        info.endpoint_type = ty.to_string();
        infos.push(info);
    }
    let nt = get_names_and_types(&infos);
    assert_eq!(nt.len(), 2);
    assert_eq!(nt[0].0, "alpha");
    assert_eq!(nt[0].1, vec!["T1".to_string(), "T2".to_string()]);
    assert_eq!(nt[1].0, "beta");
    assert_eq!(nt[1].1, vec!["T2".to_string()]);
}

#[test]
fn query_map_insert_remove() {
    let mut map: QueryMap<String> = QueryMap::new();
    map.insert(1, "a".to_string());
    map.insert(2, "b".to_string());
    map.insert(1, "c".to_string());
    assert_eq!(map.remove(1), Some("c".to_string()));
    assert_eq!(map.remove(1), None);
    assert_eq!(map.remove(2), Some("b".to_string()));
    assert_eq!(map.remove(3), None);
}
