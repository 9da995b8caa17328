use sha2::Digest;

use rmw_zenoh_rs::endpoint_info::EndpointInfo;
use rmw_zenoh_rs::endpoint_info::EntityType;
use rmw_zenoh_rs::qos::default_qos;

fn sample_info() -> EndpointInfo {
    EndpointInfo {
        domain_id: 3,
        z_id: "zid".to_string(),
        node_id: 0,
        entity_id: 4,
        entity_type: EntityType::Client,
        enclave: "e".to_string(),
        namespace: "ns".to_string(),
        node_name: "robot".to_string(),
        endpoint_name: "add_two_ints".to_string(),
        endpoint_type: "srv".to_string(),
        endpoint_typehash: "h".to_string(),
        qos: default_qos(),
    }
}

#[test]
fn gid_is_truncated_hash_of_key() {
    let info = sample_info();
    let gid = info.get_gid();
    let digest = sha2::Sha256::digest(info.to_string().as_bytes());
    assert_eq!(&gid[..], &digest[..16]);
}

#[test]
fn equal_keys_yield_equal_gids() {
    let a = sample_info();
    let b = sample_info();
    assert_eq!(a.get_gid(), b.get_gid());
    let mut c = sample_info();
    c.entity_id = 5;
    assert_ne!(a.get_gid(), c.get_gid());
}
