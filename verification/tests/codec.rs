use rmw_zenoh_rs::endpoint_info::EndpointInfo;
use rmw_zenoh_rs::endpoint_info::EntityType;
use rmw_zenoh_rs::qos::default_qos;
use rmw_zenoh_rs::qos::rmw_qos_profile_t;
use rmw_zenoh_rs::qos::rmw_time_t;
use rmw_zenoh_rs::text::parse_u32_str;
use rmw_zenoh_rs::text::parse_u64_str;
use rmw_zenoh_rs::text::parse_usize_str;
use rmw_zenoh_rs::text::to_dec_string;

fn sample_qos() -> rmw_qos_profile_t {
    rmw_qos_profile_t {
        history: 2,
        depth: 42,
        reliability: 2,
        durability: 2,
        deadline: rmw_time_t { sec: 1, nsec: 2 },
        lifespan: rmw_time_t { sec: 3, nsec: 4 },
        liveliness: 3,
        liveliness_lease_duration: rmw_time_t { sec: 5, nsec: 6 },
        avoid_ros_namespace_conventions: false,
    }
}

fn sample_info() -> EndpointInfo {
    EndpointInfo {
        domain_id: 7,
        z_id: "abc123".to_string(),
        node_id: 1,
        entity_id: 5,
        entity_type: EntityType::Publisher,
        enclave: "enc".to_string(),
        namespace: "ns/sub".to_string(),
        node_name: "talker".to_string(),
        endpoint_name: "chatter".to_string(),
        endpoint_type: "std_msgs::msg::String".to_string(),
        endpoint_typehash: "hash1".to_string(),
        qos: sample_qos(),
    }
}

#[test]
fn decimal_rendering_and_parsing() {
    assert_eq!(to_dec_string(0), "0");
    assert_eq!(to_dec_string(1234567890), "1234567890");
    assert_eq!(to_dec_string(u64::MAX), "18446744073709551615");
    assert_eq!(parse_u64_str("123"), Some(123));
    assert_eq!(parse_u64_str(""), None);
    assert_eq!(parse_u64_str("12a"), None);
    assert_eq!(parse_u64_str("18446744073709551615"), Some(u64::MAX));
    assert_eq!(parse_u64_str("18446744073709551616"), None);
    assert_eq!(parse_u32_str("4294967295"), Some(u32::MAX));
    assert_eq!(parse_u32_str("4294967296"), None);
    assert_eq!(parse_usize_str("10"), Some(10));
}

#[test]
fn mangle_replaces_separators() {
    assert_eq!(EndpointInfo::mangle_name("a/b/c"), "a%b%c");
    assert_eq!(EndpointInfo::mangle_name(""), "%");
    assert_eq!(EndpointInfo::mangle_name("plain"), "plain");
}

#[test]
fn demangle_inverts_mangle() {
    assert_eq!(EndpointInfo::demangle_name("a%b%c"), "a/b/c");
    let name = "cmd/vel";
    assert_eq!(
        EndpointInfo::demangle_name(&EndpointInfo::mangle_name(name)),
        name
    );
}

#[test]
fn qos_default_renders_all_empty() {
    assert_eq!(default_qos().to_string(), "::,:,:,:,,");
}

#[test]
fn qos_string_round_trip() {
    let q = sample_qos();
    assert_eq!(q.to_string(), "2:2:2,42:1,2:3,4:3,5,6");
    assert_eq!(rmw_qos_profile_t::from_str(&q.to_string()), Ok(q));
    let d = default_qos();
    assert_eq!(rmw_qos_profile_t::from_str(&d.to_string()), Ok(d));
}

#[test]
fn qos_parse_rejects_wrong_segment_counts() {
    assert!(rmw_qos_profile_t::from_str("").is_err());
    assert!(rmw_qos_profile_t::from_str("::,:,:,").is_err());
    assert!(rmw_qos_profile_t::from_str(":::,:,:,:,,").is_err());
    assert!(rmw_qos_profile_t::from_str(":::,:,:,,").is_err());
}

#[test]
fn qos_parse_ignores_unparsable_fields() {
    let parsed = rmw_qos_profile_t::from_str("notanumber::,:,:,:,,").unwrap();
    assert_eq!(parsed, default_qos());
}

#[test]
fn qos_validity() {
    assert!(default_qos().is_valid());
    let mut q = default_qos();
    q.reliability = 3;
    assert!(!q.is_valid());
    q = default_qos();
    q.history = 3;
    assert!(!q.is_valid());
    q = default_qos();
    q.durability = 3;
    assert!(!q.is_valid());
    q = default_qos();
    q.liveliness = 4;
    assert!(!q.is_valid());
}

#[test]
fn qos_set_default_profile_resolves_sentinels() {
    let mut q = rmw_qos_profile_t {
        history: 0,
        depth: 0,
        reliability: 0,
        durability: 0,
        deadline: rmw_time_t { sec: 0, nsec: 0 },
        lifespan: rmw_time_t { sec: 0, nsec: 0 },
        liveliness: 0,
        liveliness_lease_duration: rmw_time_t { sec: 0, nsec: 0 },
        avoid_ros_namespace_conventions: false,
    };
    q.set_default_profile();
    assert_eq!(q, default_qos());

    let mut custom = sample_qos();
    custom.set_default_profile();
    assert_eq!(custom, sample_qos());
}

#[test]
fn key_expr_exact_form() {
    let info = sample_info();
    assert_eq!(
        info.to_string(),
        "@ros2_lv/7/abc123/1/5/MP/enc/ns%sub/talker/chatter/std_msgs::msg::String/hash1/2:2:2,42:1,2:3,4:3,5,6"
    );
    assert_eq!(
        info.get_endpoint_keyexpr(),
        "7/chatter/std_msgs::msg::String/hash1"
    );
}

#[test]
fn key_expr_round_trip_endpoint() {
    let info = sample_info();
    let decoded = EndpointInfo::from_str(&info.to_string()).unwrap();
    assert_eq!(decoded, info);
}

#[test]
fn key_expr_round_trip_node() {
    let info = EndpointInfo {
        domain_id: 0,
        z_id: "deadbeef".to_string(),
        node_id: 3,
        entity_id: 0,
        entity_type: EntityType::Node,
        enclave: "e".to_string(),
        namespace: "n".to_string(),
        node_name: "robot".to_string(),
        endpoint_name: String::new(),
        endpoint_type: String::new(),
        endpoint_typehash: String::new(),
        qos: default_qos(),
    };
    assert_eq!(info.to_string(), "@ros2_lv/0/deadbeef/3/0/NN/e/n/robot");
    let decoded = EndpointInfo::from_str(&info.to_string()).unwrap();
    assert_eq!(decoded, info);
}

#[test]
fn key_expr_decode_errors() {
    // Too few segments.
    assert!(EndpointInfo::from_str("@ros2_lv/0/zid/0/0/NN/e/n").is_err());
    // Wrong admin prefix.
    assert!(EndpointInfo::from_str("@other/0/zid/0/0/NN/e/n/name").is_err());
    // Non-node kind with only nine segments.
    assert!(EndpointInfo::from_str("@ros2_lv/0/zid/0/1/MP/e/n/name").is_err());
    // Unknown entity tag.
    assert!(EndpointInfo::from_str(
        "@ros2_lv/0/zid/0/1/XX/e/n/name/t/ty/h/::,:,:,:,,"
    )
    .is_err());
    // Malformed numeric segment.
    assert!(EndpointInfo::from_str("@ros2_lv/x/zid/0/0/NN/e/n/name").is_err());
    // Malformed QoS segment.
    assert!(EndpointInfo::from_str("@ros2_lv/0/zid/0/1/MP/e/n/name/t/ty/h/junk").is_err());
}

#[test]
fn key_expr_decode_tolerates_extra_node_segments() {
    // A node key with trailing segments still decodes, as announced keys
    // are only required to begin with the nine node segments.
    let decoded = EndpointInfo::from_str("@ros2_lv/0/zid/0/0/NN/e/n/name/extra").unwrap();
    assert_eq!(decoded.node_name, "name");
    assert_eq!(decoded.entity_type, EntityType::Node);
}

#[test]
fn entity_tags() {
    assert_eq!(EntityType::Publisher.to_string(), "MP");
    assert_eq!(EntityType::Subscriber.to_string(), "MS");
    assert_eq!(EntityType::Service.to_string(), "SS");
    assert_eq!(EntityType::Client.to_string(), "SC");
    assert_eq!(EntityType::Node.to_string(), "NN");
    assert_eq!(EntityType::from_str("MS"), Ok(EntityType::Subscriber));
    assert!(EntityType::from_str("ZZ").is_err());
    assert!(EntityType::from_str("M").is_err());
}
