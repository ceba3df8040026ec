//! Routing behavior: slot-map validation, owner lookup, redirect-URL
//! construction, and the decimal rendering it rests on.

use shardcache::routing::MappingError;
use shardcache::routing::NodeEntry;
use shardcache::routing::SlotMap;
use shardcache::routing::is_loopback_addr;
use shardcache::routing::redirect_url;
use shardcache::routing::u64_to_dec;

fn entry(start: u64, end: u64, addr: &str, port: u16, id: &str) -> NodeEntry {
    NodeEntry {
        start_slot: start,
        end_slot: end,
        address: addr.to_string(),
        port,
        node_id: id.to_string(),
    }
}

#[test]
fn decimal_rendering() {
    assert_eq!(u64_to_dec(0), "0");
    assert_eq!(u64_to_dec(7), "7");
    assert_eq!(u64_to_dec(10), "10");
    assert_eq!(u64_to_dec(27000), "27000");
    assert_eq!(u64_to_dec(1_000_000_007), "1000000007");
}

#[test]
fn loopback_addresses() {
    assert!(is_loopback_addr(&"127.0.0.1".to_string()));
    assert!(is_loopback_addr(&"127.1.2.3".to_string()));
    assert!(is_loopback_addr(&"::1".to_string()));
    assert!(!is_loopback_addr(&"10.0.0.5".to_string()));
    assert!(!is_loopback_addr(&"128.0.0.1".to_string()));
}

#[test]
fn redirect_scenario() {
    // Slot map says uid "x" belongs to the node at 10.0.0.5:7000; with the
    // fixed offset of 20000 the redirect goes to port 27000, path /s3/x.
    let url = redirect_url(&"10.0.0.5".to_string(), 7000, &"x".to_string());
    assert_eq!(url, "http://10.0.0.5:27000/s3/x");
}

#[test]
fn redirect_loopback_uses_localhost() {
    let url = redirect_url(&"127.0.0.1".to_string(), 6379, &"file.bin".to_string());
    assert_eq!(url, "http://localhost:26379/s3/file.bin");
}

#[test]
fn redirect_target_is_idempotent() {
    let first = redirect_url(&"10.0.0.5".to_string(), 7000, &"x".to_string());
    let second = redirect_url(&"10.0.0.5".to_string(), 7000, &"x".to_string());
    assert_eq!(first, second);
}

#[test]
fn slot_map_accepts_contiguous_topology() {
    let entries = vec![
        entry(0, 8000, "10.0.0.5", 7000, "node-b"),
        entry(8001, 16383, "10.0.0.6", 7001, "node-c"),
    ];
    let m = SlotMap::from_entries(entries, "node-a".to_string());
    assert!(m.is_ok());
}

#[test]
fn slot_map_rejects_empty_topology() {
    let m = SlotMap::from_entries(vec![], "node-a".to_string());
    assert_eq!(m.err(), Some(MappingError::MalformedTopology));
}

#[test]
fn slot_map_rejects_gap() {
    let entries = vec![
        entry(0, 8000, "10.0.0.5", 7000, "node-b"),
        entry(8002, 16383, "10.0.0.6", 7001, "node-c"),
    ];
    let m = SlotMap::from_entries(entries, "node-a".to_string());
    assert_eq!(m.err(), Some(MappingError::MalformedTopology));
}

#[test]
fn slot_map_rejects_short_coverage() {
    let entries = vec![entry(0, 16000, "10.0.0.5", 7000, "node-b")];
    let m = SlotMap::from_entries(entries, "node-a".to_string());
    assert_eq!(m.err(), Some(MappingError::MalformedTopology));
}

#[test]
fn slot_map_rejects_port_without_offset_room() {
    let entries = vec![entry(0, 16383, "10.0.0.5", 60000, "node-b")];
    let m = SlotMap::from_entries(entries, "node-a".to_string());
    assert_eq!(m.err(), Some(MappingError::MalformedTopology));
}

#[test]
fn lookup_redirects_only_to_other_nodes() {
    let remote = SlotMap::from_entries(
        vec![entry(0, 16383, "10.0.0.5", 7000, "node-b")],
        "node-a".to_string(),
    )
    .unwrap();
    let r = remote.lookup_node_for(&"x".to_string());
    assert_eq!(r, Some(("10.0.0.5".to_string(), 7000)));

    let own = SlotMap::from_entries(
        vec![entry(0, 16383, "10.0.0.5", 7000, "node-a")],
        "node-a".to_string(),
    )
    .unwrap();
    assert_eq!(own.lookup_node_for(&"x".to_string()), None, "never redirect to self");
}
