use rust_lru::cache::Cache;

#[test]
fn test_lru_cache_basic_operations() {
    let mut cache = Cache::new(2);

    cache.put("key_a".to_string(), "value_a".to_string());
    cache.put("key_b".to_string(), "value_b".to_string());

    assert_eq!(cache.get(&"key_a".to_string()), Some(&"value_a".to_string()));
    assert_eq!(cache.get(&"key_b".to_string()), Some(&"value_b".to_string()));
}

#[test]
fn test_lru_cache_eviction_order() {
    let mut cache = Cache::new(2);

    cache.put("key_a".to_string(), "value_a".to_string());
    cache.put("key_b".to_string(), "value_b".to_string());

    // Reading key_b refreshes it, so key_a is now the least recently used.
    cache.get(&"key_b".to_string());

    // The cache is full: inserting key_c evicts key_a.
    cache.put("key_c".to_string(), "value_c".to_string());

    assert_eq!(cache.get(&"key_a".to_string()), None);
    assert_eq!(cache.get(&"key_b".to_string()), Some(&"value_b".to_string()));
    assert_eq!(cache.get(&"key_c".to_string()), Some(&"value_c".to_string()));
}

#[test]
fn test_lru_cache_zero_capacity() {
    let mut cache = Cache::new(0);

    // A zero-capacity cache retains nothing: put is a no-op.
    cache.put("key_a".to_string(), "value_a".to_string());

    assert_eq!(cache.get(&"key_a".to_string()), None);
}

#[test]
fn test_lru_cache_overwrite_value() {
    let mut cache = Cache::new(2);

    cache.put("key_a".to_string(), "value_a".to_string());
    cache.put("key_a".to_string(), "value_newa".to_string());

    assert_eq!(cache.get(&"key_a".to_string()), Some(&"value_newa".to_string()));
}

#[test]
fn test_lru_cache_eviction_with_full_capacity() {
    let mut cache = Cache::new(4);

    cache.put("key_a".to_string(), "value_a".to_string());
    cache.put("key_b".to_string(), "value_b".to_string());
    cache.put("key_c".to_string(), "value_c".to_string());
    cache.put("key_d".to_string(), "value_d".to_string());

    // Reading key_a refreshes it, so key_b is the least recently used.
    cache.get(&"key_a".to_string());

    // The cache is full: inserting key_e evicts key_b.
    cache.put("key_e".to_string(), "value_e".to_string());

    assert_eq!(cache.get(&"key_a".to_string()), Some(&"value_a".to_string()));
    assert_eq!(cache.get(&"key_b".to_string()), None);
    assert_eq!(cache.get(&"key_c".to_string()), Some(&"value_c".to_string()));
    assert_eq!(cache.get(&"key_d".to_string()), Some(&"value_d".to_string()));
    assert_eq!(cache.get(&"key_e".to_string()), Some(&"value_e".to_string()));
}
