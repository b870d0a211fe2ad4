use ea_compiler::jit_cache::{CachedJIT, JITCache, JITCacheConfig};
use std::collections::HashMap;

fn test_config(max_cache_size: usize, max_cache_age_seconds: u64, dir: &str) -> JITCacheConfig {
    JITCacheConfig {
        max_cache_size,
        max_cache_age_seconds,
        enable_statistics: true,
        enable_persistence: false,
        cache_directory: dir.to_string(),
    }
}

#[test]
fn test_jit_cache_basic_operations() {
    let config = test_config(1000, 3600, ".test_cache");
    let mut cache = JITCache::with_config(config);

    // Test cache miss
    assert!(cache.get("test_code").is_none());

    // Store entry
    let machine_code = vec![0x48, 0x89, 0xE5];
    let symbol_table = HashMap::new();
    cache
        .put("test_code", machine_code.clone(), 0x1000, symbol_table.clone(), 1024, 100_000_000)
        .unwrap();

    // Test cache hit
    let cached = cache.get("test_code").unwrap();
    assert_eq!(cached.machine_code, machine_code);
    assert_eq!(cached.main_entry_point, 0x1000);
    assert_eq!(cached.memory_usage, 1024);
    assert_eq!(cached.hit_count, 1);
}

#[test]
fn test_jit_cache_eviction() {
    let config = test_config(2, 3600, ".test_cache_eviction");
    let mut cache = JITCache::with_config(config);

    cache.put("code1", vec![0x90], 0x1000, HashMap::new(), 512, 10_000_000).unwrap();
    cache.put("code2", vec![0x91], 0x2000, HashMap::new(), 512, 20_000_000).unwrap();

    // Cache should be at capacity
    assert_eq!(cache.size(), 2);

    cache.put("code3", vec![0x92], 0x3000, HashMap::new(), 512, 30_000_000).unwrap();

    // Cache should still be at max capacity
    assert_eq!(cache.size(), 2);

    assert!(cache.get("code1").is_none(), "Oldest entry should be evicted");
    assert!(cache.get("code2").is_some(), "Second entry should remain");
    assert!(cache.get("code3").is_some(), "Newest entry should exist");
}

#[test]
fn test_source_hashing() {
    let config = test_config(1000, 3600, ".test_cache");
    let cache = JITCache::with_config(config);

    let hash1 = cache.hash_source("fn main() { print(42); }");
    let hash2 = cache.hash_source("fn main() { print(42); }");
    assert_eq!(hash1, hash2);

    let hash3 = cache.hash_source("fn main() { print(43); }");
    assert_ne!(hash1, hash3);
}

#[test]
fn test_jit_execution_stats() {
    // A freshly initialized default cache.
    let cache = JITCache::new();
    let stats = cache.get_stats();
    let _total_lookups = stats.total_lookups;
    let _cache_hits = stats.cache_hits;
    let _cache_misses = stats.cache_misses;
    assert_eq!(stats.total_lookups, stats.cache_hits + stats.cache_misses);
}

#[test]
fn test_jit_cache_statistics() {
    let config = test_config(1000, 3600, ".test_cache");
    let mut cache = JITCache::with_config(config);

    cache.get("non_existent");
    let stats = cache.get_stats();
    assert_eq!(stats.total_lookups, 1);
    assert_eq!(stats.cache_misses, 1);
    assert_eq!(stats.cache_hits, 0);

    cache.put("test", vec![0x90], 0x1000, HashMap::new(), 512, 50_000_000).unwrap();
    cache.get("test");

    let stats = cache.get_stats();
    assert_eq!(stats.total_lookups, 2);
    assert_eq!(stats.cache_hits, 1);
    assert_eq!(stats.time_saved, 50_000_000);
    assert_eq!(stats.memory_saved, 512);
}

#[test]
fn test_jit_cache_age_expiration() {
    let config = test_config(100, 0, ".test_cache");
    let mut cache = JITCache::with_config(config);
    cache.put("test", vec![0x90], 0x1000, HashMap::new(), 512, 10_000_000).unwrap();
    // With a maximum age of zero every entry has expired.
    assert!(cache.get("test").is_none());
}

#[test]
fn lookups_at_given_times() {
    let mut cache = JITCache::with_config(test_config(10, 2, ".t"));
    cache.put_at("src", vec![1, 2], 7, HashMap::new(), 3, 4, 1_000).unwrap();
    // Still fresh just under two seconds later.
    let hit = cache.get_at("src", 1_000 + 1_999_999_999).unwrap();
    assert_eq!(hit.compiled_at, 1_000);
    assert_eq!(hit.hit_count, 1);
    // The stored entry keeps its own hit count.
    assert_eq!(cache.entries()[0].hit_count, 0);
    // Two whole seconds old: expired.
    assert!(cache.get_at("src", 1_000 + 2_000_000_000).is_none());
    let stats = cache.get_stats();
    assert_eq!(stats.total_lookups, 2);
    assert_eq!(stats.cache_hits, 1);
    assert_eq!(stats.cache_misses, 1);
}

#[test]
fn storing_again_replaces_in_place() {
    let mut cache = JITCache::with_config(test_config(10, 100, ".t"));
    cache.put_at("a", vec![1], 1, HashMap::new(), 0, 0, 10).unwrap();
    cache.put_at("b", vec![2], 2, HashMap::new(), 0, 0, 20).unwrap();
    cache.put_at("a", vec![3], 3, HashMap::new(), 0, 0, 30).unwrap();
    assert_eq!(cache.size(), 2);
    assert_eq!(cache.entries()[0].machine_code, vec![3]);
    assert_eq!(cache.entries()[1].machine_code, vec![2]);
}

#[test]
fn eviction_drops_expired_then_oldest() {
    let mut cache = JITCache::with_config(test_config(2, 1, ".t"));
    cache.put_at("old", vec![1], 0, HashMap::new(), 0, 0, 0).unwrap();
    cache.put_at("mid", vec![2], 0, HashMap::new(), 0, 0, 600_000_000).unwrap();
    // At 1.5 s the first entry has expired; the third store evicts it first.
    cache.put_at("new", vec![3], 0, HashMap::new(), 0, 0, 1_500_000_000).unwrap();
    assert_eq!(cache.size(), 2);
    assert_eq!(cache.get_stats().evictions, 1);
    let kept: Vec<u64> = cache.entries().iter().map(|e| e.compiled_at).collect();
    assert_eq!(kept, vec![600_000_000, 1_500_000_000]);
}

#[test]
fn eviction_without_expiry_drops_the_oldest() {
    let mut cache = JITCache::with_config(test_config(2, 100, ".t"));
    cache.put_at("a", vec![1], 0, HashMap::new(), 0, 0, 30).unwrap();
    cache.put_at("b", vec![2], 0, HashMap::new(), 0, 0, 10).unwrap();
    cache.put_at("c", vec![3], 0, HashMap::new(), 0, 0, 20).unwrap();
    assert_eq!(cache.size(), 2);
    assert_eq!(cache.get_stats().evictions, 1);
    assert!(cache.get_at("b", 40).is_none());
    assert!(cache.get_at("a", 40).is_some());
    assert!(cache.get_at("c", 40).is_some());
}

#[test]
fn restored_entries_keep_only_fresh_ones() {
    let mut cache = JITCache::with_config(test_config(10, 5, ".t"));
    let h = cache.hash_source("x");
    let fresh = CachedJIT {
        source_hash: h,
        machine_code: vec![9],
        main_entry_point: 1,
        symbol_table: HashMap::new(),
        compiled_at: 10_000_000_000,
        memory_usage: 0,
        compilation_time: 0,
        hit_count: 4,
    };
    let stale = CachedJIT { source_hash: h.wrapping_add(1), compiled_at: 0, ..fresh.clone() };
    cache.restore_entries(vec![fresh, stale], 12_000_000_000);
    assert_eq!(cache.size(), 1);
    assert_eq!(cache.get_at("x", 12_000_000_000).unwrap().hit_count, 5);
    cache.clear();
    assert!(cache.is_empty());
    assert_eq!(cache.get_stats().total_lookups, 0);
}

#[test]
fn store_and_lookup_by_hash() {
    let mut cache = JITCache::with_config(test_config(10, 60, ".t"));
    let entry = CachedJIT {
        source_hash: 42,
        machine_code: vec![9, 8],
        main_entry_point: 1,
        symbol_table: HashMap::new(),
        compiled_at: 100,
        memory_usage: 5,
        compilation_time: 6,
        hit_count: 0,
    };
    cache.store(entry, 100);
    let hit = cache.get_by_hash(42, 100).unwrap();
    assert_eq!(hit.machine_code, vec![9, 8]);
    assert_eq!(hit.hit_count, 1);
    assert!(cache.get_by_hash(43, 100).is_none());
    let stats = cache.get_stats();
    assert_eq!(stats.time_saved, 6);
    assert_eq!(stats.memory_saved, 5);
}
