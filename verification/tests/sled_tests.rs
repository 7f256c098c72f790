use daf::model::Tier;
use daf::sled_store::{failure, found_entry, SledCache};

fn temp_cache() -> SledCache {
    let db = sled::Config::new().temporary(true).open().unwrap();
    SledCache::new(db)
}

#[test]
fn sled_set_then_get_reads_bytes_back_from_l4() {
    let c = temp_cache();
    c.set("k", Some(vec![1, 2, 3])).unwrap();
    let e = c.get("k").unwrap().unwrap();
    assert_eq!(e.value, vec![1, 2, 3]);
    assert_eq!(e.origin_tier, Tier::L4);
    assert!(c.get("other").unwrap().is_none());
    assert_eq!(c.tier(), Tier::L4);
}

#[test]
fn sled_refuses_values_that_are_not_bytes() {
    let c = temp_cache();
    let err = c.set("k", None).unwrap_err();
    assert_eq!(err.0, "SledCache requires Vec<u8> values; serialize before set");
    assert!(c.get("k").unwrap().is_none());
}

#[test]
fn sled_delete_and_clear() {
    let c = temp_cache();
    c.set("a", Some(vec![1])).unwrap();
    c.set("b", Some(vec![2])).unwrap();
    c.delete("a").unwrap();
    assert!(c.get("a").unwrap().is_none());
    assert!(c.get("b").unwrap().is_some());
    c.clear().unwrap();
    assert!(c.get("b").unwrap().is_none());
}

#[test]
fn sled_delete_prefix_counts_removed_keys() {
    let c = temp_cache();
    c.set("user:1", Some(vec![1])).unwrap();
    c.set("user:2", Some(vec![2])).unwrap();
    c.set("item:1", Some(vec![3])).unwrap();
    assert_eq!(c.delete_prefix("user:").unwrap(), 2);
    assert!(c.get("user:1").unwrap().is_none());
    assert!(c.get("item:1").unwrap().is_some());
    assert_eq!(c.shake("item").unwrap(), 1usize);
    assert_eq!(c.shake("item").unwrap(), 0usize);
}

#[test]
fn sled_outcomes_become_tier_answers() {
    let e = found_entry(Some(vec![9])).unwrap();
    assert_eq!(e.value, vec![9]);
    assert_eq!(e.origin_tier, Tier::L4);
    assert!(found_entry(None).is_none());
    assert_eq!(failure("sled get error: ", "io").0, "sled get error: io");
}

#[test]
fn sled_remove_listed_counts_and_stops_at_scan_error() {
    let c = temp_cache();
    c.set("a", Some(vec![1])).unwrap();
    c.set("b", Some(vec![2])).unwrap();
    c.set("c", Some(vec![3])).unwrap();
    let items = vec![Ok(b"a".to_vec()), Ok(b"b".to_vec())];
    assert_eq!(c.remove_listed(&items).unwrap(), 2);
    assert!(c.get("a").unwrap().is_none());
    assert!(c.get("b").unwrap().is_none());
    let items = vec![Ok(b"c".to_vec()), Err(sled::Error::Unsupported("gone".to_string()))];
    let err = c.remove_listed(&items).unwrap_err();
    assert!(err.0.starts_with("sled scan error: "));
    assert!(c.get("c").unwrap().is_none());
}

#[test]
fn sled_remove_listed_empty_list_is_zero() {
    let c = temp_cache();
    let items: Vec<Result<Vec<u8>, sled::Error>> = Vec::new();
    assert_eq!(c.remove_listed(&items).unwrap(), 0);
    let items = vec![Err(sled::Error::Unsupported("bad page".to_string())), Ok(b"x".to_vec())];
    assert!(c.remove_listed(&items).unwrap_err().0.starts_with("sled scan error: "));
}
