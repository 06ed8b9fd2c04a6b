use knowledge_mcp::cache::{CacheError, ContentCache};

fn read_ok(content: &str) -> impl FnOnce() -> Result<String, CacheError> + '_ {
    move || Ok(content.to_string())
}

#[test]
fn test_cache_new() {
    let cache = ContentCache::new(100);
    assert!(cache.is_empty());
    assert_eq!(cache.stats().capacity, 100);
}

#[test]
fn test_cache_get_or_read() {
    let mut cache = ContentCache::new(10);

    // First read goes to the reader
    let content = cache.get_or_read("test", 1, read_ok("# Test Content")).unwrap();
    assert_eq!(content, "# Test Content");
    assert_eq!(cache.len(), 1);

    // Second read is served from the cache
    let content2 = cache
        .get_or_read("test", 1, || -> Result<String, CacheError> { panic!("should hit the cache") })
        .unwrap();
    assert_eq!(content2, "# Test Content");
}

#[test]
fn test_cache_invalidation_on_modify() {
    let mut cache = ContentCache::new(10);

    let content1 = cache.get_or_read("test", 1, read_ok("Original content")).unwrap();
    assert_eq!(content1, "Original content");

    // A newer modification time makes the cache read again
    let content2 = cache.get_or_read("test", 2, read_ok("Modified content")).unwrap();
    assert_eq!(content2, "Modified content");
}

#[test]
fn test_cache_invalidate() {
    let mut cache = ContentCache::new(10);
    cache.get_or_read("test", 1, read_ok("Content")).unwrap();
    assert_eq!(cache.len(), 1);

    cache.invalidate("test");
    assert_eq!(cache.len(), 0);
}

#[test]
fn test_cache_clear() {
    let mut cache = ContentCache::new(10);

    for i in 0..5 {
        let content = format!("Content {}", i);
        cache.get_or_read(&format!("test{}", i), 1, read_ok(&content)).unwrap();
    }

    assert_eq!(cache.len(), 5);
    cache.clear();
    assert!(cache.is_empty());
}

#[test]
fn test_cache_lru_eviction() {
    let mut cache = ContentCache::new(3); // Small cache

    for i in 0..5 {
        let content = format!("Content {}", i);
        cache.get_or_read(&format!("test{}", i), 1, read_ok(&content)).unwrap();
    }

    // Cache should only have 3 entries (LRU evicted oldest)
    assert_eq!(cache.len(), 3);
}

#[test]
fn cache_zero_capacity_holds_one() {
    let mut cache = ContentCache::new(0);
    assert_eq!(cache.stats().capacity, 1);
    cache.get_or_read("a", 1, read_ok("A")).unwrap();
    cache.get_or_read("b", 1, read_ok("B")).unwrap();
    assert_eq!(cache.len(), 1);
}

#[test]
fn cache_read_errors_are_passed_on_and_not_cached() {
    let mut cache = ContentCache::new(2);
    let r = cache.get_or_read("gone", 1, || {
        Err(CacheError::ReadError { path: "/v/gone.md".to_string(), reason: "missing".to_string() })
    });
    assert!(matches!(r, Err(CacheError::ReadError { .. })));
    assert!(cache.is_empty());
}

#[test]
fn cache_evicts_least_recently_used() {
    let mut cache = ContentCache::new(2);
    cache.get_or_read("a", 1, read_ok("A")).unwrap();
    cache.get_or_read("b", 1, read_ok("B")).unwrap();
    // Using "a" makes "b" the least recently used.
    cache.get_or_read("a", 1, read_ok("unused")).unwrap();
    cache.get_or_read("c", 1, read_ok("C")).unwrap();
    assert_eq!(cache.get_or_read("a", 1, read_ok("reread")).unwrap(), "A");
    assert_eq!(cache.get_or_read("b", 1, read_ok("B again")).unwrap(), "B again");
    assert_eq!(cache.stats().entries, 2);
}
