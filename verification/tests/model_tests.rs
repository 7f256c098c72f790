use daf::model::{AlgorithmStats, CacheEntry, DeleteInfo, Generation, ResourceId, Tier, UserId};

#[test]
fn advance_from_missing_starts_at_one() {
    assert_eq!(Generation::Missing.advance(), Generation::Valid(1));
    assert_eq!(Generation::Valid(1).advance(), Generation::Valid(2));
    assert_eq!(Generation::Valid(41).advance().as_u64(), Some(42));
}

#[test]
fn missing_generation_has_no_number() {
    assert_eq!(Generation::Missing.as_u64(), None);
    assert_eq!(Generation::default(), Generation::Missing);
    assert_eq!(Generation::Valid(5).as_u64(), Some(5));
}

#[test]
fn identifiers_wrap_their_text() {
    assert_eq!(ResourceId::new("r-1").0, "r-1");
    assert_eq!(UserId::new("alice").0, "alice");
    assert_eq!(ResourceId::new("a"), ResourceId::new("a"));
    let d = DeleteInfo { resource_id: ResourceId::new("gone") };
    assert_eq!(d.resource_id.0, "gone");
}

#[test]
fn algorithm_stats_keep_their_counters() {
    let s = AlgorithmStats::new(10, 4, 3);
    assert_eq!(s.iterations, 10);
    assert_eq!(s.cache_hits, 4);
    assert_eq!(s.memo_size, 3);
}

#[test]
fn cache_entry_clone_keeps_value_and_tier() {
    let e = CacheEntry { value: vec![1u8, 2], origin_tier: Tier::L3 };
    let c = e.clone();
    assert_eq!(c.value, vec![1, 2]);
    assert_eq!(c.origin_tier, Tier::L3);
}
