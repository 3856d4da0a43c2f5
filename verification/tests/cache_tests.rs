use freeix::dns_cache::{CacheKey, DnsCache};
use freeix::lru_cache::LruCache;

#[test]
fn test_basic_operations() {
    let mut cache: LruCache<i32> = LruCache::new(3);
    cache.insert("a".into(), 1, 60_000);
    cache.insert("b".into(), 2, 60_000);
    cache.insert("c".into(), 3, 60_000);

    assert_eq!(cache.get(&"a".into()), Some(1));
    assert_eq!(cache.get(&"d".into()), None);
    assert_eq!(cache.len(), 3);
}

#[test]
fn test_eviction() {
    let mut cache: LruCache<i32> = LruCache::new(2);
    cache.insert("a".into(), 1, 60_000);
    cache.insert("b".into(), 2, 60_000);
    cache.insert("c".into(), 3, 60_000); // evicts "a"

    assert_eq!(cache.get(&"a".into()), None);
    assert_eq!(cache.get(&"c".into()), Some(3));
}

#[test]
fn test_ttl_expiry() {
    // One millisecond to live, read five milliseconds later.
    let mut cache: LruCache<i32> = LruCache::new(10);
    cache.insert_at("x".into(), 42, 1_000_000, 0);
    assert_eq!(cache.get_at(&"x".into(), 5_000_000), None);
}

#[test]
fn lru_entry_alive_until_ttl_passes() {
    let mut cache: LruCache<i32> = LruCache::new(4);
    cache.insert_at("k".into(), 7, 100, 1_000);
    assert_eq!(cache.get_at(&"k".into(), 1_100), Some(7));
    assert_eq!(cache.get_at(&"k".into(), 1_101), None);
    assert_eq!(cache.len(), 0);
}

#[test]
fn lru_get_refreshes_recency() {
    let mut cache: LruCache<i32> = LruCache::new(2);
    cache.insert_at("a".into(), 1, 1_000, 0);
    cache.insert_at("b".into(), 2, 1_000, 1);
    assert_eq!(cache.get_at(&"a".into(), 2), Some(1));
    cache.insert_at("c".into(), 3, 1_000, 3); // evicts "b", used least recently
    assert_eq!(cache.get_at(&"b".into(), 4), None);
    assert_eq!(cache.get_at(&"a".into(), 4), Some(1));
    assert_eq!(cache.get_at(&"c".into(), 4), Some(3));
}

#[test]
fn lru_insert_replaces_value() {
    let mut cache: LruCache<i32> = LruCache::new(2);
    cache.insert_at("a".into(), 1, 1_000, 0);
    cache.insert_at("a".into(), 5, 1_000, 1);
    assert_eq!(cache.len(), 1);
    assert_eq!(cache.get_at(&"a".into(), 2), Some(5));
}

#[test]
fn lru_stats_count_hits_and_misses() {
    let mut cache: LruCache<i32> = LruCache::new(3);
    cache.insert_at("a".into(), 1, 1_000, 0);
    let _ = cache.get_at(&"a".into(), 1);
    let _ = cache.get_at(&"z".into(), 1);
    let _ = cache.get_at(&"y".into(), 1);
    let s = cache.stats();
    assert_eq!(s.hits, 1);
    assert_eq!(s.misses, 2);
    assert_eq!(s.size, 1);
    assert_eq!(s.capacity, 3);
}

#[test]
fn lru_remove_and_clear() {
    let mut cache: LruCache<i32> = LruCache::new(3);
    cache.insert_at("a".into(), 1, 1_000, 0);
    cache.insert_at("b".into(), 2, 1_000, 0);
    assert_eq!(cache.remove(&"a".into()), Some(1));
    assert_eq!(cache.remove(&"a".into()), None);
    assert_eq!(cache.len(), 1);
    cache.clear();
    assert!(cache.is_empty());
}

#[test]
fn lru_evict_expired_drops_only_expired() {
    let mut cache: LruCache<i32> = LruCache::new(5);
    cache.insert_at("old".into(), 1, 10, 0);
    cache.insert_at("new".into(), 2, 1_000, 0);
    assert_eq!(cache.evict_expired_at(100), 1);
    assert_eq!(cache.len(), 1);
    assert_eq!(cache.get_at(&"new".into(), 100), Some(2));
}

fn key(name: &str, t: u16) -> CacheKey {
    CacheKey { name: name.to_string(), record_type: t }
}

#[test]
fn dns_cache_hit_then_expiry() {
    let mut cache: DnsCache<u32> = DnsCache::new(10);
    cache.insert_at(key("example.com", 1), 9, 60, 1_000);
    assert_eq!(cache.get_at(&key("example.com", 1), 1_050), Some(9));
    assert_eq!(cache.get_at(&key("example.com", 28), 1_050), None);
    assert_eq!(cache.get_at(&key("example.com", 1), 1_061), None);
    let s = cache.stats();
    assert_eq!(s.hits, 1);
    assert_eq!(s.misses, 2);
}

#[test]
fn dns_cache_full_drops_oldest_quarter() {
    let mut cache: DnsCache<u32> = DnsCache::new(10);
    for i in 0..10u32 {
        cache.insert_at(key(&format!("d{}.com", i), 1), i, 1_000, i as u64);
    }
    assert_eq!(cache.len(), 10);
    cache.insert_at(key("new.com", 1), 99, 1_000, 20);
    assert_eq!(cache.len(), 9);
    assert_eq!(cache.stats().evictions, 2);
    assert_eq!(cache.get_at(&key("d0.com", 1), 21), None);
    assert_eq!(cache.get_at(&key("d1.com", 1), 21), None);
    assert_eq!(cache.get_at(&key("d2.com", 1), 21), Some(2));
    assert_eq!(cache.get_at(&key("new.com", 1), 21), Some(99));
}

#[test]
fn dns_cache_full_drops_expired_first() {
    let mut cache: DnsCache<u32> = DnsCache::new(2);
    cache.insert_at(key("a.com", 1), 1, 5, 0);
    cache.insert_at(key("b.com", 1), 2, 1_000, 0);
    cache.insert_at(key("c.com", 1), 3, 1_000, 10);
    assert_eq!(cache.len(), 2);
    assert_eq!(cache.stats().evictions, 1);
    assert_eq!(cache.get_at(&key("b.com", 1), 11), Some(2));
    assert_eq!(cache.get_at(&key("c.com", 1), 11), Some(3));
}

#[test]
fn dns_cache_stays_within_capacity() {
    let mut cache: DnsCache<u32> = DnsCache::new(4);
    for i in 0..20u32 {
        cache.insert_at(key(&format!("n{}.com", i), 1), i, 1_000, i as u64);
        assert!(cache.len() <= 4);
    }
    let mut tiny: DnsCache<u32> = DnsCache::new(2);
    tiny.insert_at(key("a.com", 1), 1, 1_000, 0);
    tiny.insert_at(key("b.com", 1), 2, 1_000, 0);
    tiny.insert_at(key("c.com", 1), 3, 1_000, 0);
    // Below four entries a quarter of the capacity is nothing, so the cache grows.
    assert_eq!(tiny.len(), 3);
}

#[test]
fn lru_update_in_full_cache_evicts_nothing() {
    let mut cache: LruCache<i32> = LruCache::new(2);
    cache.insert("a".into(), 1, 60_000);
    cache.insert("b".into(), 2, 60_000);
    cache.insert("a".into(), 10, 60_000);
    assert_eq!(cache.get(&"a".into()), Some(10));
    assert_eq!(cache.get(&"b".into()), Some(2));
    assert_eq!(cache.len(), 2);
}
