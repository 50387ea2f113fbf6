use edv::project::rendering::cache::RenderCache;
use edv::project::AssetId;
use edv::utility::time::Duration;

fn asset(n: u128) -> AssetId {
    AssetId::from_u128(n)
}

fn paths(v: &[edv::project::rendering::cache::CacheEntry]) -> Vec<String> {
    v.iter().map(|e| e.path.clone()).collect()
}

#[test]
fn cache_paths_and_lookup() {
    let mut cache = RenderCache::new("/tmp/edv_cache", None, 0);
    assert_eq!(cache.cache_dir(), "/tmp/edv_cache");
    assert_eq!(
        cache.cache_path(asset(1), 42),
        "/tmp/edv_cache/asset_00000000-0000-0000-0000-000000000001_42.cache"
    );
    let slash = RenderCache::new("cache/", Some(10), 3);
    assert_eq!(slash.cache_path(asset(2), 7), "cache/asset_00000000-0000-0000-0000-000000000002_7.cache");
    assert_eq!(slash.current_size(), 3);
    assert_eq!(slash.max_size(), Some(10));

    assert!(cache.get(asset(1), 42).is_none());
    let dropped = cache.record(asset(1), 42, "a".to_string(), Duration::from_millis(1000), 100, 5);
    assert!(dropped.is_empty());
    assert_eq!(cache.get(asset(1), 42).unwrap().path, "a");
    assert_eq!(cache.get(asset(1), 42).unwrap().metadata.file_size, 100);
    assert!(cache.get(asset(1), 43).is_none());
    assert_eq!(cache.current_size(), 100);
    cache.record(asset(1), 42, "b".to_string(), Duration::from_millis(1000), 50, 6);
    assert_eq!(cache.get(asset(1), 42).unwrap().path, "b");
    assert_eq!(cache.current_size(), 150);
    cache.set_enabled(false);
    assert!(!cache.is_enabled());
    assert!(cache.get(asset(1), 42).is_none());
}

#[test]
fn oldest_entries_are_evicted() {
    let mut cache = RenderCache::new("c", Some(250), 0);
    assert!(cache.record(asset(1), 1, "one".to_string(), Duration::from_millis(1), 100, 30).is_empty());
    assert!(cache.record(asset(2), 1, "two".to_string(), Duration::from_millis(1), 100, 10).is_empty());
    let dropped = cache.record(asset(3), 1, "three".to_string(), Duration::from_millis(1), 100, 20);
    assert_eq!(paths(&dropped), vec!["two".to_string()]);
    assert_eq!(cache.current_size(), 200);
    assert!(cache.get(asset(2), 1).is_none());
    let dropped = cache.record(asset(4), 1, "four".to_string(), Duration::from_millis(1), 300, 40);
    assert_eq!(paths(&dropped), vec!["one".to_string(), "three".to_string(), "four".to_string()]);
    assert_eq!(cache.current_size(), 0);
}

#[test]
fn invalidation_and_clearing() {
    let mut cache = RenderCache::new("c", None, 1000);
    cache.record(asset(1), 1, "a1".to_string(), Duration::from_millis(1), 10, 1);
    cache.record(asset(1), 2, "a2".to_string(), Duration::from_millis(1), 20, 2);
    cache.record(asset(2), 1, "b1".to_string(), Duration::from_millis(1), 30, 3);
    assert_eq!(cache.current_size(), 1060);
    let dropped = cache.invalidate(asset(1), Some(2));
    assert_eq!(paths(&dropped), vec!["a2".to_string()]);
    assert_eq!(cache.current_size(), 1040);
    let dropped = cache.invalidate(asset(1), None);
    assert_eq!(paths(&dropped), vec!["a1".to_string()]);
    assert!(cache.get(asset(2), 1).is_some());
    let dropped = cache.clear();
    assert_eq!(paths(&dropped), vec!["b1".to_string()]);
    assert_eq!(cache.current_size(), 0);
    assert!(cache.get(asset(2), 1).is_none());
}
