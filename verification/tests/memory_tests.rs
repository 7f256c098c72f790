use daf::memory::MemoryCache;
use daf::model::Tier;

fn sorted(mut v: Vec<String>) -> Vec<String> {
    v.sort();
    v
}

#[test]
fn new_cache_is_empty() {
    let mut c: MemoryCache<u64> = MemoryCache::new(3);
    assert!(!c.has("a"));
    assert!(c.get("a").unwrap().is_none());
    assert!(c._dfs_collect().is_empty());
    assert_eq!(c.tier(), Tier::L1);
}

#[test]
fn set_then_get_reads_back_with_tier_l1() {
    let mut c: MemoryCache<u64> = MemoryCache::new(3);
    c.set("user:1".to_string(), 7).unwrap();
    let e = c.get("user:1").unwrap().unwrap();
    assert_eq!(e.value, 7);
    assert_eq!(e.origin_tier, Tier::L1);
    c.set("user:1".to_string(), 8).unwrap();
    assert_eq!(c.get("user:1").unwrap().unwrap().value, 8);
    assert_eq!(c._dfs_collect(), vec!["user:1".to_string()]);
}

#[test]
fn full_cache_evicts_least_recently_used() {
    let mut c: MemoryCache<u64> = MemoryCache::new(2);
    c.set("a".to_string(), 1).unwrap();
    c.set("b".to_string(), 2).unwrap();
    // reading "a" makes "b" the least recently used key
    assert_eq!(c.get("a").unwrap().unwrap().value, 1);
    c.set("c".to_string(), 3).unwrap();
    assert!(c.has("a"));
    assert!(!c.has("b"));
    assert!(c.has("c"));
    assert_eq!(sorted(c._dfs_collect()), vec!["a".to_string(), "c".to_string()]);
}

#[test]
fn overwrite_refreshes_recency() {
    let mut c: MemoryCache<u64> = MemoryCache::new(2);
    c.set("a".to_string(), 1).unwrap();
    c.set("b".to_string(), 2).unwrap();
    c.set("a".to_string(), 10).unwrap();
    c.set("c".to_string(), 3).unwrap();
    assert!(c.has("a"));
    assert!(!c.has("b"));
    assert_eq!(c.get("a").unwrap().unwrap().value, 10);
}

#[test]
fn eviction_without_reads_drops_oldest_write() {
    let mut c: MemoryCache<u64> = MemoryCache::new(1);
    c.set("a".to_string(), 1).unwrap();
    c.set("b".to_string(), 2).unwrap();
    assert!(!c.has("a"));
    assert_eq!(c.get("b").unwrap().unwrap().value, 2);
}

#[test]
fn unbounded_cache_never_evicts() {
    let mut c: MemoryCache<u64> = MemoryCache::new(0);
    for i in 0..50u64 {
        c.set(format!("k{}", i), i).unwrap();
    }
    for i in 0..50u64 {
        assert_eq!(c.get(&format!("k{}", i)).unwrap().unwrap().value, i);
    }
    assert_eq!(c._bfs_collect().len(), 50);
}

#[test]
fn delete_removes_only_that_key() {
    let mut c: MemoryCache<u64> = MemoryCache::new(5);
    c.set("a".to_string(), 1).unwrap();
    c.set("b".to_string(), 2).unwrap();
    c.delete("a").unwrap();
    c.delete("missing").unwrap();
    assert!(!c.has("a"));
    assert!(c.has("b"));
    // the freed slot is reused without evicting "b"
    c.set("x".to_string(), 9).unwrap();
    assert!(c.has("b"));
}

#[test]
fn delete_prefix_counts_and_removes_prefixed_keys() {
    let mut c: MemoryCache<String> = MemoryCache::new(0);
    c.set("user:1".to_string(), "a".to_string()).unwrap();
    c.set("user:2".to_string(), "b".to_string()).unwrap();
    c.set("order:1".to_string(), "c".to_string()).unwrap();
    c.set("use".to_string(), "d".to_string()).unwrap();
    assert_eq!(sorted(c._trie_collect("user:")), vec!["user:1".to_string(), "user:2".to_string()]);
    assert_eq!(c.delete_prefix("user:").unwrap(), 2);
    assert!(!c.has("user:1"));
    assert!(!c.has("user:2"));
    assert!(c.has("order:1"));
    assert!(c.has("use"));
    assert_eq!(c.delete_prefix("nothing").unwrap(), 0);
    // a key counts as its own prefix
    assert_eq!(c.delete_prefix("use").unwrap(), 1);
    assert!(!c.has("use"));
}

#[test]
fn shake_counts_like_delete_prefix() {
    let mut c: MemoryCache<u64> = MemoryCache::new(10);
    c.set("p/1".to_string(), 1).unwrap();
    c.set("p/2".to_string(), 2).unwrap();
    c.set("q/1".to_string(), 3).unwrap();
    assert_eq!(c.shake("p/").unwrap(), 2usize);
    assert_eq!(c._dfs_collect(), vec!["q/1".to_string()]);
    // bounded recency list stays consistent after a prefix deletion
    for i in 0..12u64 {
        c.set(format!("r{}", i), i).unwrap();
    }
    assert_eq!(c._dfs_collect().len(), 10);
}

#[test]
fn non_ascii_prefixes_count_characters() {
    let mut c: MemoryCache<u64> = MemoryCache::new(0);
    c.set("héllo".to_string(), 1).unwrap();
    c.set("hé".to_string(), 2).unwrap();
    c.set("he".to_string(), 3).unwrap();
    assert_eq!(c.delete_prefix("hé").unwrap(), 2);
    assert!(c.has("he"));
}

#[test]
fn clear_empties_everything() {
    let mut c: MemoryCache<u64> = MemoryCache::new(2);
    c.set("a".to_string(), 1).unwrap();
    c.set("b".to_string(), 2).unwrap();
    c.clear().unwrap();
    assert!(!c.has("a"));
    assert!(c._dfs_collect().is_empty());
    c.set("c".to_string(), 3).unwrap();
    c.set("d".to_string(), 4).unwrap();
    assert!(c.has("c") && c.has("d"));
}
