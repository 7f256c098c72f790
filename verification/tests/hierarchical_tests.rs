use daf::error::CacheError;
use daf::hierarchical::{store_after, StoreStep};
use daf::hierarchical::{
    backfill_after, lookup_after, lookup_start, sweep_after, sweep_start, tally_after,
    tally_start, HierarchicalCache, LookupReply, LookupStep, SweepStep, TallyStep,
};
use daf::model::Tier;

fn full() -> HierarchicalCache<&'static str> {
    HierarchicalCache::new(Some("l0"), "l1", "l2", "l3", "l4", Some("l5"))
}

#[test]
fn accessors_hand_back_the_tiers() {
    let h = full();
    assert_eq!(h.l0(), Some(&"l0"));
    assert_eq!(*h.l1(), "l1");
    assert_eq!(*h.l2(), "l2");
    assert_eq!(*h.l3(), "l3");
    assert_eq!(*h.l4(), "l4");
    assert_eq!(h.l5(), Some(&"l5"));
    assert_eq!(h.tier(), Tier::L1);
    let partial = HierarchicalCache::new(None, 1, 2, 3, 4, None);
    assert_eq!(partial.l0(), None);
    assert_eq!(partial.l5(), None);
}

#[test]
fn tiers_lists_all_six_in_order() {
    let h = full();
    let t: Vec<&str> = h.tiers().unwrap().into_iter().copied().collect();
    assert_eq!(t, vec!["l0", "l1", "l2", "l3", "l4", "l5"]);
}

#[test]
fn tiers_reports_missing_l0_first() {
    let h = HierarchicalCache::new(None, 1, 2, 3, 4, None);
    assert_eq!(h.tiers().unwrap_err().0, "L0 cache tier is not configured");
    let h = HierarchicalCache::new(Some(0), 1, 2, 3, 4, None);
    assert_eq!(h.tiers().unwrap_err().0, "L5 cache tier is not configured");
}

#[test]
fn writes_go_to_l0_then_l1() {
    assert_eq!(full().store_targets(), vec![Tier::L0, Tier::L1]);
    let h = HierarchicalCache::new(None, 1, 2, 3, 4, Some(5));
    assert_eq!(h.store_targets(), vec![Tier::L1]);
}

fn is_ask(s: &LookupStep, i: usize) -> bool {
    matches!(s, LookupStep::Ask(j) if *j == i)
}

#[test]
fn lookup_walks_tiers_until_a_hit() {
    assert!(is_ask(&lookup_start(), 0));
    assert!(is_ask(&lookup_after(0, LookupReply::Miss), 1));
    assert!(is_ask(&lookup_after(2, LookupReply::Miss), 3));
    assert!(matches!(lookup_after(5, LookupReply::Miss), LookupStep::Missing));
}

#[test]
fn hit_in_l0_is_returned_directly() {
    assert!(matches!(lookup_after(0, LookupReply::Hit), LookupStep::Found));
}

#[test]
fn hit_below_l0_is_backfilled_into_l1() {
    assert!(matches!(lookup_after(3, LookupReply::Hit), LookupStep::Backfill(Tier::L1)));
    assert!(matches!(lookup_after(1, LookupReply::Hit), LookupStep::Backfill(Tier::L1)));
    assert!(matches!(backfill_after(Ok(())), LookupStep::Found));
    match backfill_after(Err(CacheError::new("l1 down"))) {
        LookupStep::Fail(e) => assert_eq!(e.0, "l1 down"),
        _ => panic!("expected failure"),
    }
}

#[test]
fn tier_failure_stops_the_lookup() {
    match lookup_after(2, LookupReply::Failed(CacheError::new("boom"))) {
        LookupStep::Fail(e) => assert_eq!(e.0, "boom"),
        _ => panic!("expected failure"),
    }
}

#[test]
fn sweep_visits_each_tier_and_stops_on_error() {
    assert!(matches!(sweep_start(), SweepStep::Visit(0)));
    assert!(matches!(sweep_after(0, Ok(())), SweepStep::Visit(1)));
    assert!(matches!(sweep_after(5, Ok(())), SweepStep::Done));
    match sweep_after(4, Err(CacheError::new("x"))) {
        SweepStep::Fail(e) => assert_eq!(e.0, "x"),
        _ => panic!("expected failure"),
    }
}

#[test]
fn tally_sums_counts_across_tiers() {
    let mut step = tally_start();
    let counts = [1u64, 0, 2, 3, 0, 4];
    loop {
        match step {
            TallyStep::Visit(i, total) => step = tally_after(i, total, Ok(counts[i])),
            TallyStep::Done(total) => {
                assert_eq!(total, 10);
                break;
            }
            TallyStep::Fail(_) => panic!("unexpected failure"),
        }
    }
    match tally_after(2, 5, Err(CacheError::new("down"))) {
        TallyStep::Fail(e) => assert_eq!(e.0, "down"),
        _ => panic!("expected failure"),
    }
}

/// Drives a read over six tier answers; returns the tiers asked and the end step.
fn run_lookup(mut replies: Vec<Option<LookupReply>>) -> (Vec<usize>, LookupStep) {
    let mut asked = Vec::new();
    let mut step = lookup_start();
    loop {
        match step {
            LookupStep::Ask(i) => {
                asked.push(i);
                step = lookup_after(i, replies[i].take().unwrap());
            }
            other => return (asked, other),
        }
    }
}

#[test]
fn lookup_stops_at_first_answer() {
    let (asked, end) = run_lookup(vec![
        Some(LookupReply::Miss),
        Some(LookupReply::Miss),
        Some(LookupReply::Hit),
        Some(LookupReply::Hit),
        Some(LookupReply::Miss),
        Some(LookupReply::Miss),
    ]);
    assert_eq!(asked, vec![0, 1, 2]);
    assert!(matches!(end, LookupStep::Backfill(Tier::L1)));

    let (asked, end) = run_lookup((0..6).map(|_| Some(LookupReply::Miss)).collect());
    assert_eq!(asked, vec![0, 1, 2, 3, 4, 5]);
    assert!(matches!(end, LookupStep::Missing));

    let (asked, end) = run_lookup(vec![
        Some(LookupReply::Miss),
        Some(LookupReply::Failed(CacheError::new("l1"))),
        Some(LookupReply::Hit),
        None,
        None,
        None,
    ]);
    assert_eq!(asked, vec![0, 1]);
    match end {
        LookupStep::Fail(e) => assert_eq!(e.0, "l1"),
        _ => panic!("expected failure"),
    }
}

#[test]
fn sweep_reports_first_failing_tier() {
    let outcomes = [Ok(()), Ok(()), Err("l2"), Err("l3"), Ok(()), Ok(())];
    let mut visited = Vec::new();
    let mut step = sweep_start();
    let end = loop {
        match step {
            SweepStep::Visit(i) => {
                visited.push(i);
                step = sweep_after(i, outcomes[i].map_err(CacheError::new));
            }
            other => break other,
        }
    };
    assert_eq!(visited, vec![0, 1, 2]);
    match end {
        SweepStep::Fail(e) => assert_eq!(e.0, "l2"),
        _ => panic!("expected failure"),
    }
}

#[test]
fn write_goes_to_l0_then_l1_and_stops_on_failure() {
    assert!(matches!(full().store_start(), StoreStep::Write(Tier::L0)));
    let h = HierarchicalCache::new(None, 1, 2, 3, 4, None);
    assert!(matches!(h.store_start(), StoreStep::Write(Tier::L1)));
    assert!(matches!(store_after(Tier::L0, Ok(())), StoreStep::Write(Tier::L1)));
    assert!(matches!(store_after(Tier::L1, Ok(())), StoreStep::Done));
    match store_after(Tier::L0, Err(CacheError::new("l0 down"))) {
        StoreStep::Fail(e) => assert_eq!(e.0, "l0 down"),
        _ => panic!("expected failure"),
    }
}
