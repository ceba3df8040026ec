//! Manager behavior: routing composition, one-shot map installation,
//! clearing, configuration choices, hashing, and the stats report.

use shardcache::PORT_OFFSET_TO_WEB_SERVER;
use shardcache::SHARD_COUNT;
use shardcache::hashing::cluster_slot;
use shardcache::hashing::shard_hash;
use shardcache::manager::ConcurrentDiskCache;
use shardcache::manager::ConnectorChoice;
use shardcache::manager::RouteDecision;
use shardcache::manager::ServerConfig;
use shardcache::routing::NodeEntry;
use shardcache::routing::SlotMap;
use shardcache::shard::BlobOutcome;
use shardcache::shard::LookupStep;
use shardcache::stats::ShardStat;
use shardcache::stats::StatEntry;
use shardcache::stats::render_stats;
use shardcache::stats::used_pct;

fn whole_range_map(id_of_owner: &str, my_id: &str) -> SlotMap {
    SlotMap::from_entries(
        vec![NodeEntry {
            start_slot: 0,
            end_slot: 16383,
            address: "10.0.0.5".to_string(),
            port: 7000,
            node_id: id_of_owner.to_string(),
        }],
        my_id.to_string(),
    )
    .unwrap()
}

#[test]
fn hashes_are_deterministic_and_slots_bounded() {
    assert_eq!(shard_hash(&"abc".to_string()), shard_hash(&"abc".to_string()));
    assert_ne!(shard_hash(&"abc".to_string()), shard_hash(&"abd".to_string()));
    assert!(cluster_slot(&"abc".to_string()) < 16384);
    assert!(cluster_slot(&"".to_string()) < 16384);
}

#[test]
fn route_before_init_asks_for_initialization() {
    let cache = ConcurrentDiskCache::new("/cache".to_string(), 6, "http://blob".to_string());
    assert!(!cache.mapping_initialized());
    assert!(matches!(cache.route(&"x".to_string()), RouteDecision::NeedsInit));
}

#[test]
fn route_redirects_to_remote_owner_without_touching_shards() {
    let mut cache = ConcurrentDiskCache::new("/cache".to_string(), 6, "http://blob".to_string());
    assert!(cache.install_slot_map(whole_range_map("node-b", "node-a")));
    match cache.route(&"x".to_string()) {
        RouteDecision::Redirect(url) => assert_eq!(url, "http://10.0.0.5:27000/s3/x"),
        other => panic!("expected a redirect, got {:?}", other),
    }
    // No shard saw the request: all stay empty.
    for i in 0..cache.shard_count() {
        assert_eq!(cache.shard_at(i).size(), 0);
        assert_eq!(cache.shard_at(i).file_count(), 0);
    }
}

#[test]
fn route_serves_locally_when_self_owns_slot() {
    let mut cache = ConcurrentDiskCache::new("/cache".to_string(), 6, "http://blob".to_string());
    assert!(cache.install_slot_map(whole_range_map("node-a", "node-a")));
    match cache.route(&"x".to_string()) {
        RouteDecision::Local(idx) => {
            assert_eq!(idx, (shard_hash(&"x".to_string()) % SHARD_COUNT) as usize);
            assert!(idx < cache.shard_count());
        }
        other => panic!("expected local handling, got {:?}", other),
    }
}

#[test]
fn redirect_decision_is_stable_while_map_unchanged() {
    let mut cache = ConcurrentDiskCache::new("/cache".to_string(), 6, "http://blob".to_string());
    assert!(cache.install_slot_map(whole_range_map("node-b", "node-a")));
    let first = match cache.route(&"x".to_string()) {
        RouteDecision::Redirect(url) => url,
        other => panic!("expected a redirect, got {:?}", other),
    };
    let second = match cache.route(&"x".to_string()) {
        RouteDecision::Redirect(url) => url,
        other => panic!("expected a redirect, got {:?}", other),
    };
    assert_eq!(first, second);
}

#[test]
fn slot_map_installs_only_once() {
    let mut cache = ConcurrentDiskCache::new("/cache".to_string(), 6, "http://blob".to_string());
    assert!(cache.install_slot_map(whole_range_map("node-b", "node-a")));
    assert!(cache.mapping_initialized());
    assert!(!cache.install_slot_map(whole_range_map("node-c", "node-a")));
    // The first map won: the redirect still goes to node-b's address.
    match cache.route(&"x".to_string()) {
        RouteDecision::Redirect(url) => assert_eq!(url, "http://10.0.0.5:27000/s3/x"),
        other => panic!("expected a redirect, got {:?}", other),
    }
}

#[test]
fn manager_fetch_steps_and_clear() {
    let mut cache = ConcurrentDiskCache::new("/cache".to_string(), 6, "http://blob".to_string());
    let uid = "file-1".to_string();
    let idx = (shard_hash(&uid) % SHARD_COUNT) as usize;
    assert!(matches!(cache.shard_on_location(idx, &None), LookupStep::Miss));
    let (path, evicted) = cache.shard_on_blob(idx, &uid, BlobOutcome::Fetched).unwrap();
    assert_eq!(path, "/cache/file-1");
    assert!(evicted.is_empty());
    assert_eq!(cache.shard_at(idx).size(), 1);

    match cache.shard_on_location(idx, &Some(uid.clone())) {
        LookupStep::Hit(p) => assert_eq!(p, "/cache/file-1"),
        LookupStep::Miss => panic!("a recorded location must be a hit"),
    }

    let drained = cache.clear();
    assert_eq!(drained, vec![uid]);
    for i in 0..cache.shard_count() {
        assert_eq!(cache.shard_at(i).size(), 0);
    }
}

#[test]
fn stats_report_rows_and_contended_entry() {
    let st = ShardStat {
        current_size: 1,
        max_size: 2,
        used_pct: used_pct(1, 2),
        file_count: 1,
        files: vec!["a".to_string()],
    };
    let entries = vec![StatEntry::Snapshot(st), StatEntry::Contended];
    let report = render_stats(&"T".to_string(), &entries);
    assert_eq!(
        report,
        "Cache Stats at T\nShard 0: size=1/2 used=50% files=1 [a]\nTimeout while trying to lock shard 1\n"
    );
}

#[test]
fn stats_snapshot_from_manager() {
    let cache = ConcurrentDiskCache::new("/cache".to_string(), 6, "http://blob".to_string());
    let report = cache.get_stats();
    assert!(report.starts_with("Cache Stats at "));
    assert!(report.contains("Shard 0: size=0/2 used=0% files=0 []"));
    assert!(report.contains("Shard 2:"));
}

#[test]
fn percentage_is_integer_and_safe() {
    assert_eq!(used_pct(0, 0), 0);
    assert_eq!(used_pct(5, 0), 0);
    assert_eq!(used_pct(1, 2), 50);
    assert_eq!(used_pct(2, 2), 100);
    assert_eq!(used_pct(3, 2), 150);
}

#[test]
fn connector_choice_prefers_mock_then_requires_full_real_config() {
    let mut cfg = ServerConfig {
        redis_port: 7000,
        cache_dir: "/cache".to_string(),
        bucket: None,
        region_name: None,
        access_key: None,
        secret_key: None,
        use_mock_s3_endpoint: Some("http://mock".to_string()),
        max_size: 6,
        bucket_size: 1,
    };
    match cfg.connector_choice() {
        Some(ConnectorChoice::Mock(e)) => assert_eq!(e, "http://mock"),
        other => panic!("expected the mock connector, got {:?}", other),
    }

    cfg.use_mock_s3_endpoint = None;
    assert!(cfg.connector_choice().is_none(), "missing real-store settings");

    cfg.bucket = Some("b".to_string());
    cfg.region_name = Some("r".to_string());
    cfg.access_key = Some("k".to_string());
    cfg.secret_key = Some("s".to_string());
    match cfg.connector_choice() {
        Some(ConnectorChoice::Real { bucket, .. }) => assert_eq!(bucket, "b"),
        other => panic!("expected the real connector, got {:?}", other),
    }
}

#[test]
fn web_server_port_follows_offset_convention() {
    let cfg = ServerConfig {
        redis_port: 7000,
        cache_dir: "/cache".to_string(),
        bucket: None,
        region_name: None,
        access_key: None,
        secret_key: None,
        use_mock_s3_endpoint: Some("http://mock".to_string()),
        max_size: 6,
        bucket_size: 1,
    };
    assert_eq!(cfg.web_server_port(), 27000);
    assert_eq!(PORT_OFFSET_TO_WEB_SERVER, 20000);
}
