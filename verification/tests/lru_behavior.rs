use rust_lru::cache::Cache;
use rust_lru::operation::CacheOperations;

#[test]
fn refresh_by_get_protects_key_from_eviction() {
    // Capacity 2: after get(a), inserting c evicts b, not a.
    let mut cache = Cache::new(2);
    cache.put("a".to_string(), 1u32);
    cache.put("b".to_string(), 2u32);
    assert_eq!(cache.get(&"a".to_string()), Some(&1));
    cache.put("c".to_string(), 3u32);
    assert_eq!(cache.get(&"b".to_string()), None);
    assert_eq!(cache.get(&"a".to_string()), Some(&1));
    assert_eq!(cache.get(&"c".to_string()), Some(&3));
    assert_eq!(cache.len(), 2);
}

#[test]
fn single_slot_keeps_only_latest_key() {
    // Capacity 1: the second put evicts the first key.
    let mut cache = Cache::new(1);
    cache.put("a".to_string(), 1u32);
    cache.put("b".to_string(), 2u32);
    assert_eq!(cache.get(&"a".to_string()), None);
    assert_eq!(cache.get(&"b".to_string()), Some(&2));
    assert_eq!(cache.len(), 1);
}

#[test]
fn eviction_removes_exactly_one_entry() {
    let mut cache = Cache::new(2);
    cache.put("a".to_string(), 1u32);
    cache.put("b".to_string(), 2u32);
    cache.put("c".to_string(), 3u32);
    assert_eq!(cache.len(), 2);
    assert_eq!(cache.get(&"a".to_string()), None);
    assert_eq!(cache.get(&"b".to_string()), Some(&2));
    assert_eq!(cache.get(&"c".to_string()), Some(&3));
}

#[test]
fn miss_does_not_touch_recency() {
    // A failed get leaves the order alone: a stays least recently used.
    let mut cache = Cache::new(2);
    cache.put("a".to_string(), 1u32);
    cache.put("b".to_string(), 2u32);
    assert_eq!(cache.get(&"x".to_string()), None);
    cache.put("c".to_string(), 3u32);
    assert_eq!(cache.get(&"a".to_string()), None);
    assert_eq!(cache.get(&"b".to_string()), Some(&2));
}

#[test]
fn overwrite_keeps_length_and_refreshes() {
    let mut cache = Cache::new(2);
    cache.put("a".to_string(), 1u32);
    cache.put("b".to_string(), 2u32);
    // Rebinding a refreshes it, so the next eviction removes b.
    cache.put("a".to_string(), 10u32);
    assert_eq!(cache.len(), 2);
    cache.put("c".to_string(), 3u32);
    assert_eq!(cache.get(&"b".to_string()), None);
    assert_eq!(cache.get(&"a".to_string()), Some(&10));
}

#[test]
fn remove_returns_value_and_drops_entry() {
    let mut cache = Cache::new(3);
    cache.put("a".to_string(), 1u32);
    cache.put("b".to_string(), 2u32);
    assert_eq!(cache.remove(&"a".to_string()), Some(1));
    assert_eq!(cache.len(), 1);
    assert_eq!(cache.get(&"a".to_string()), None);
    assert_eq!(cache.remove(&"x".to_string()), None);
    assert_eq!(cache.len(), 1);
}

#[test]
fn clear_empties_and_is_idempotent() {
    let mut cache = Cache::new(3);
    cache.put("a".to_string(), 1u32);
    cache.put("b".to_string(), 2u32);
    cache.clear();
    assert!(cache.is_empty());
    assert_eq!(cache.len(), 0);
    cache.clear();
    assert!(cache.is_empty());
    assert_eq!(cache.len(), 0);
    assert_eq!(cache.get(&"a".to_string()), None);
    // The capacity is retained after clear.
    cache.put("c".to_string(), 3u32);
    assert_eq!(cache.get(&"c".to_string()), Some(&3));
}

#[test]
fn zero_capacity_stays_empty_under_all_operations() {
    let mut cache = Cache::new(0);
    assert!(cache.is_empty());
    cache.put("a".to_string(), 1u32);
    assert!(cache.is_empty());
    assert_eq!(cache.len(), 0);
    assert_eq!(cache.get(&"a".to_string()), None);
    assert_eq!(cache.remove(&"a".to_string()), None);
    cache.clear();
    assert!(cache.is_empty());
}

#[test]
fn describe_names_capacity_and_keys_in_order() {
    let mut cache = Cache::new(3);
    cache.put("a".to_string(), 1u32);
    cache.put("b".to_string(), 2u32);
    assert_eq!(cache.describe(), "Cache [Capacity: 3, Keys: [a, b, ]]");
    // A successful read reorders the keys.
    cache.get(&"a".to_string());
    assert_eq!(cache.describe(), "Cache [Capacity: 3, Keys: [b, a, ]]");
}

#[test]
fn describe_renders_multi_digit_capacity() {
    let cache: Cache<u32> = Cache::new(120);
    assert_eq!(cache.describe(), "Cache [Capacity: 120, Keys: []]");
}

#[test]
fn trait_calls_match_inherent_behavior() {
    let mut cache: Cache<u32> = Cache::new(2);
    CacheOperations::put(&mut cache, "a".to_string(), 1u32);
    CacheOperations::put(&mut cache, "b".to_string(), 2u32);
    assert_eq!(CacheOperations::get(&mut cache, &"a".to_string()), Some(&1));
    assert_eq!(CacheOperations::remove(&mut cache, &"b".to_string()), Some(2));
    CacheOperations::clear(&mut cache);
    assert!(cache.is_empty());
}
