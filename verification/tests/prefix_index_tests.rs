use daf::prefix_index::PrefixIndex;

fn sorted(mut v: Vec<String>) -> Vec<String> {
    v.sort();
    v
}

#[test]
fn recorded_key_is_found_under_each_prefix() {
    let mut ix = PrefixIndex::new();
    ix.record("abc");
    assert_eq!(ix.lookup("a"), vec!["abc".to_string()]);
    assert_eq!(ix.lookup("ab"), vec!["abc".to_string()]);
    assert_eq!(ix.lookup("abc"), vec!["abc".to_string()]);
    assert!(ix.lookup("abcd").is_empty());
    assert!(ix.lookup("b").is_empty());
}

#[test]
fn lookup_gives_each_key_once() {
    let mut ix = PrefixIndex::new();
    ix.record("k1");
    ix.record("k1");
    ix.record("k2");
    assert_eq!(sorted(ix.lookup("k")), vec!["k1".to_string(), "k2".to_string()]);
}

#[test]
fn forget_drops_every_record() {
    let mut ix = PrefixIndex::new();
    ix.record("k1");
    ix.record("k1");
    ix.record("k2");
    ix.forget("k1");
    assert_eq!(ix.lookup("k"), vec!["k2".to_string()]);
    assert!(ix.lookup("k1").is_empty());
    ix.forget("absent");
    assert_eq!(ix.lookup("k"), vec!["k2".to_string()]);
}

#[test]
fn take_prefix_detaches_the_keys() {
    let mut ix = PrefixIndex::new();
    ix.record("user:1");
    ix.record("user:2");
    ix.record("item:1");
    let keys = ix.take_prefix("user:").unwrap();
    assert_eq!(sorted(keys), vec!["user:1".to_string(), "user:2".to_string()]);
    assert!(ix.lookup("user").is_empty());
    assert_eq!(ix.lookup("i"), vec!["item:1".to_string()]);
}

#[test]
fn take_prefix_without_keys_is_prefix_not_found() {
    let mut ix = PrefixIndex::new();
    ix.record("a");
    let err = ix.take_prefix("b").unwrap_err();
    assert_eq!(err.0, "prefix not found");
    assert_eq!(ix.lookup("a"), vec!["a".to_string()]);
}

#[test]
fn clear_forgets_everything() {
    let mut ix = PrefixIndex::new();
    ix.record("a");
    ix.clear();
    assert!(ix.lookup("a").is_empty());
}

#[test]
fn empty_prefix_lists_nothing() {
    let mut ix = PrefixIndex::new();
    ix.record("a");
    assert!(ix.lookup("").is_empty());
    assert_eq!(ix.take_prefix("").unwrap_err().0, "prefix not found");
    assert_eq!(ix.lookup("a"), vec!["a".to_string()]);
}
