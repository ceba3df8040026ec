//! Shard behavior driven end to end: hit/miss steps, LRU order, eviction,
//! and the interplay with a location-record store, simulated here by a
//! plain in-memory map.

use std::collections::HashMap;

use shardcache::shard::BlobOutcome;
use shardcache::shard::DiskCache;
use shardcache::shard::FetchError;
use shardcache::shard::LookupStep;
use shardcache::shard::classify_status;

/// Drive one fetch against a shard, with `store` standing in for the
/// metadata store and `blob_has` for whether blob storage has the uid.
/// Counts every blob-storage request in `blob_calls`.
fn fetch(
    shard: &mut DiskCache,
    store: &mut HashMap<String, String>,
    blob_has: bool,
    uid: &str,
    blob_calls: &mut u32,
) -> Result<String, FetchError> {
    let loc = store.get(uid).cloned();
    match shard.on_location(&loc) {
        LookupStep::Hit(path) => Ok(path),
        LookupStep::Miss => {
            *blob_calls += 1;
            let outcome = if blob_has { BlobOutcome::Fetched } else { BlobOutcome::NotFound };
            match shard.on_blob_result(&uid.to_string(), outcome) {
                Ok((path, evicted)) => {
                    for f in evicted {
                        store.remove(&f);
                    }
                    store.insert(uid.to_string(), uid.to_string());
                    Ok(path)
                }
                Err(e) => Err(e),
            }
        }
    }
}

#[test]
fn miss_then_fill_tracks_file() {
    let mut shard = DiskCache::new("/cache".to_string(), 2, "http://blob".to_string());
    let mut store = HashMap::new();
    let mut calls = 0;
    let path = fetch(&mut shard, &mut store, true, "a", &mut calls).unwrap();
    assert_eq!(path, "/cache/a");
    assert_eq!(shard.size(), 1);
    assert_eq!(shard.files(), vec!["a".to_string()]);
    assert_eq!(store.get("a"), Some(&"a".to_string()));
    assert_eq!(calls, 1);
}

#[test]
fn hit_path_makes_no_second_blob_call() {
    let mut shard = DiskCache::new("/cache".to_string(), 2, "http://blob".to_string());
    let mut store = HashMap::new();
    let mut calls = 0;
    fetch(&mut shard, &mut store, true, "a", &mut calls).unwrap();
    assert_eq!(calls, 1);
    let path = fetch(&mut shard, &mut store, true, "a", &mut calls).unwrap();
    assert_eq!(path, "/cache/a");
    assert_eq!(calls, 1, "second fetch must be served without a blob-storage call");
}

#[test]
fn blob_not_found_is_not_found() {
    let mut shard = DiskCache::new("/cache".to_string(), 2, "http://blob".to_string());
    let mut store = HashMap::new();
    let mut calls = 0;
    let r = fetch(&mut shard, &mut store, false, "missing", &mut calls);
    assert_eq!(r, Err(FetchError::NotFound));
    assert_eq!(shard.size(), 0);
    assert!(store.is_empty());
}

#[test]
fn upstream_failure_changes_nothing() {
    let mut shard = DiskCache::new("/cache".to_string(), 2, "http://blob".to_string());
    let r = shard.on_blob_result(&"a".to_string(), BlobOutcome::Failure);
    assert_eq!(r, Err(FetchError::UpstreamError));
    assert_eq!(shard.size(), 0);
    assert_eq!(shard.file_count(), 0);
}

#[test]
fn lru_concrete_scenario() {
    // Capacity two: insert "a", "b"; re-access "a"; insert "c".  "b" is the
    // least recently used, is evicted, and its location record goes away.
    let mut shard = DiskCache::new("/cache".to_string(), 2, "http://blob".to_string());
    let mut store = HashMap::new();
    let mut calls = 0;

    fetch(&mut shard, &mut store, true, "a", &mut calls).unwrap();
    fetch(&mut shard, &mut store, true, "b", &mut calls).unwrap();
    assert_eq!(shard.files(), vec!["a".to_string(), "b".to_string()]);

    fetch(&mut shard, &mut store, true, "a", &mut calls).unwrap();
    assert_eq!(shard.files(), vec!["b".to_string(), "a".to_string()]);

    fetch(&mut shard, &mut store, true, "c", &mut calls).unwrap();
    assert_eq!(shard.files(), vec!["a".to_string(), "c".to_string()]);
    assert_eq!(shard.size(), 2);
    assert!(store.get("b").is_none(), "evicted uid's location record must be removed");
    assert_eq!(store.get("a"), Some(&"a".to_string()));
    assert_eq!(store.get("c"), Some(&"c".to_string()));
}

#[test]
fn lru_without_reaccess_evicts_first_inserted() {
    let mut shard = DiskCache::new("/cache".to_string(), 2, "http://blob".to_string());
    let mut store = HashMap::new();
    let mut calls = 0;
    fetch(&mut shard, &mut store, true, "a", &mut calls).unwrap();
    fetch(&mut shard, &mut store, true, "b", &mut calls).unwrap();
    fetch(&mut shard, &mut store, true, "c", &mut calls).unwrap();
    assert_eq!(shard.files(), vec!["b".to_string(), "c".to_string()]);
    assert!(store.get("a").is_none());
}

#[test]
fn evicted_uid_is_fetched_from_blob_again() {
    let mut shard = DiskCache::new("/cache".to_string(), 1, "http://blob".to_string());
    let mut store = HashMap::new();
    let mut calls = 0;
    fetch(&mut shard, &mut store, true, "a", &mut calls).unwrap();
    assert_eq!(calls, 1);
    fetch(&mut shard, &mut store, true, "b", &mut calls).unwrap();
    assert_eq!(calls, 2);
    assert!(store.get("a").is_none());
    // "a" was evicted: the next fetch is a miss and goes back to blob storage.
    fetch(&mut shard, &mut store, true, "a", &mut calls).unwrap();
    assert_eq!(calls, 3);
}

#[test]
fn ensure_capacity_enforces_bound() {
    let mut shard = DiskCache::new("/cache".to_string(), 2, "http://blob".to_string());
    let mut store = HashMap::new();
    let mut calls = 0;
    fetch(&mut shard, &mut store, true, "a", &mut calls).unwrap();
    fetch(&mut shard, &mut store, true, "b", &mut calls).unwrap();
    assert_eq!(shard.size(), 2);
    let evicted = shard.ensure_capacity();
    assert_eq!(evicted, vec!["a".to_string()]);
    assert_eq!(shard.size(), 1);
    assert!(shard.size() <= shard.capacity());
    assert_eq!(shard.files(), vec!["b".to_string()]);
}

#[test]
fn update_access_never_duplicates() {
    let mut shard = DiskCache::new("/cache".to_string(), 4, "http://blob".to_string());
    let mut store = HashMap::new();
    let mut calls = 0;
    fetch(&mut shard, &mut store, true, "a", &mut calls).unwrap();
    fetch(&mut shard, &mut store, true, "b", &mut calls).unwrap();
    shard.update_access(&"a".to_string());
    shard.update_access(&"a".to_string());
    assert_eq!(shard.files(), vec!["b".to_string(), "a".to_string()]);
    assert_eq!(shard.file_count(), 2);
}

#[test]
fn drain_empties_the_shard() {
    let mut shard = DiskCache::new("/cache".to_string(), 4, "http://blob".to_string());
    let mut store = HashMap::new();
    let mut calls = 0;
    fetch(&mut shard, &mut store, true, "a", &mut calls).unwrap();
    fetch(&mut shard, &mut store, true, "b", &mut calls).unwrap();
    let drained = shard.drain();
    assert_eq!(drained, vec!["a".to_string(), "b".to_string()]);
    assert_eq!(shard.size(), 0);
    assert_eq!(shard.file_count(), 0);
}

#[test]
fn status_classification() {
    assert!(matches!(classify_status(404), BlobOutcome::NotFound));
    assert!(matches!(classify_status(200), BlobOutcome::Fetched));
    assert!(matches!(classify_status(299), BlobOutcome::Fetched));
    assert!(matches!(classify_status(300), BlobOutcome::Failure));
    assert!(matches!(classify_status(500), BlobOutcome::Failure));
    assert!(matches!(classify_status(199), BlobOutcome::Failure));
}

#[test]
fn failed_deletion_drops_tracking_but_keeps_count() {
    // Fail-open eviction: the victim leaves the access order either way,
    // but the size count is freed only when its file really was deleted.
    let mut shard = DiskCache::new("/cache".to_string(), 1, "http://blob".to_string());
    shard.on_blob_result(&"a".to_string(), BlobOutcome::Fetched).unwrap();
    assert_eq!(shard.size(), 1);

    let victim = shard.evict_candidate();
    assert_eq!(victim, Some("a".to_string()));
    shard.evict_commit(false);
    assert_eq!(shard.file_count(), 0, "the victim is never re-enqueued");
    assert_eq!(shard.size(), 1, "a failed deletion does not free the count");
    assert_eq!(shard.evict_candidate(), None, "nothing left to evict");
}

#[test]
fn successful_eviction_frees_count() {
    let mut shard = DiskCache::new("/cache".to_string(), 1, "http://blob".to_string());
    shard.on_blob_result(&"a".to_string(), BlobOutcome::Fetched).unwrap();
    let victim = shard.evict_candidate().unwrap();
    assert_eq!(victim, "a");
    shard.evict_commit(true);
    assert_eq!(shard.size(), 0);
    assert_eq!(shard.file_count(), 0);
}
