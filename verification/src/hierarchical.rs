//! The cache hierarchy: six tiers, L0 (closest) to L5 (farthest), of
//! which L0 and L5 are optional. The decisions of each operation on the
//! hierarchy stand here as steps: the caller asks a tier, reports its
//! answer, and is told what to do next.

use vstd::prelude::*;

use crate::error::CacheError;
use crate::model::Tier;

verus! {

/// The number of tiers in a full hierarchy.
pub const TIER_COUNT: usize = 6;

/// Six cache tiers; `l0` and `l5` may be left out.
pub struct HierarchicalCache<C> {
    l0: Option<C>,
    l1: C,
    l2: C,
    l3: C,
    l4: C,
    l5: Option<C>,
}

impl<C> HierarchicalCache<C> {
    pub closed spec fn slot_l0(&self) -> Option<C> {
        self.l0
    }

    pub closed spec fn slot_l1(&self) -> C {
        self.l1
    }

    pub closed spec fn slot_l2(&self) -> C {
        self.l2
    }

    pub closed spec fn slot_l3(&self) -> C {
        self.l3
    }

    pub closed spec fn slot_l4(&self) -> C {
        self.l4
    }

    pub closed spec fn slot_l5(&self) -> Option<C> {
        self.l5
    }

    /// Whether the optional tiers L0 and L5 are both present, which the
    /// operations that walk every tier need.
    pub open spec fn complete(&self) -> bool {
        self.slot_l0() is Some && self.slot_l5() is Some
    }

    /// The six tiers in order, when all are present.
    pub open spec fn all_tiers(&self) -> Seq<C> {
        seq![
            self.slot_l0().unwrap(),
            self.slot_l1(),
            self.slot_l2(),
            self.slot_l3(),
            self.slot_l4(),
            self.slot_l5().unwrap(),
        ]
    }

    pub fn new(l0: Option<C>, l1: C, l2: C, l3: C, l4: C, l5: Option<C>) -> (res: Self)
        ensures
            res.slot_l0() == l0,
            res.slot_l1() == l1,
            res.slot_l2() == l2,
            res.slot_l3() == l3,
            res.slot_l4() == l4,
            res.slot_l5() == l5,
    {
        HierarchicalCache { l0, l1, l2, l3, l4, l5 }
    }

    pub fn l0(&self) -> (res: Option<&C>)
        ensures
            match (res, self.slot_l0()) {
                (Some(a), Some(b)) => *a == b,
                (None, None) => true,
                _ => false,
            },
    {
        match &self.l0 {
            Some(c) => Some(c),
            None => None,
        }
    }

    pub fn l1(&self) -> (res: &C)
        ensures
            *res == self.slot_l1(),
    {
        &self.l1
    }

    pub fn l2(&self) -> (res: &C)
        ensures
            *res == self.slot_l2(),
    {
        &self.l2
    }

    pub fn l3(&self) -> (res: &C)
        ensures
            *res == self.slot_l3(),
    {
        &self.l3
    }

    pub fn l4(&self) -> (res: &C)
        ensures
            *res == self.slot_l4(),
    {
        &self.l4
    }

    pub fn l5(&self) -> (res: Option<&C>)
        ensures
            match (res, self.slot_l5()) {
                (Some(a), Some(b)) => *a == b,
                (None, None) => true,
                _ => false,
            },
    {
        match &self.l5 {
            Some(c) => Some(c),
            None => None,
        }
    }

    /// The tier the hierarchy reports itself as.
    pub fn tier(&self) -> (res: Tier)
        ensures
            res == Tier::L1,
    {
        Tier::L1
    }

    /// The six tiers in order, for the operations that walk every tier.
    /// A missing L0 is reported first, then a missing L5.
    pub fn tiers(&self) -> (res: Result<Vec<&C>, CacheError>)
        ensures
            match res {
                Ok(v) => self.complete() && v@.len() == TIER_COUNT && forall|i: int|
                    0 <= i < TIER_COUNT ==> *#[trigger] v@[i] == self.all_tiers()[i],
                Err(e) => !self.complete() && e.0@ == (if self.slot_l0() is None {
                    "L0 cache tier is not configured"@
                } else {
                    "L5 cache tier is not configured"@
                }),
            },
    {
        let l0 = match &self.l0 {
            Some(c) => c,
            None => {
                return Err(CacheError::new("L0 cache tier is not configured"));
            },
        };
        let l5 = match &self.l5 {
            Some(c) => c,
            None => {
                return Err(CacheError::new("L5 cache tier is not configured"));
            },
        };
        let mut v: Vec<&C> = Vec::new();
        v.push(l0);
        v.push(&self.l1);
        v.push(&self.l2);
        v.push(&self.l3);
        v.push(&self.l4);
        v.push(l5);
        Ok(v)
    }

    /// A write starts at L0 when it is present, and at L1 otherwise.
    pub fn store_start(&self) -> (res: StoreStep)
        ensures
            res == StoreStep::Write(
                if self.slot_l0() is Some {
                    Tier::L0
                } else {
                    Tier::L1
                },
            ),
    {
        if self.l0.is_some() {
            StoreStep::Write(Tier::L0)
        } else {
            StoreStep::Write(Tier::L1)
        }
    }

    /// The tiers a write goes to, in order: L0 when it is present, then L1.
    pub fn store_targets(&self) -> (res: Vec<Tier>)
        ensures
            res@ == (if self.slot_l0() is Some {
                seq![Tier::L0, Tier::L1]
            } else {
                seq![Tier::L1]
            }),
    {
        let mut v: Vec<Tier> = Vec::new();
        if self.l0.is_some() {
            v.push(Tier::L0);
        }
        v.push(Tier::L1);
        proof {
            if self.slot_l0() is Some {
                assert(v@ =~= seq![Tier::L0, Tier::L1]);
            } else {
                assert(v@ =~= seq![Tier::L1]);
            }
        }
        v
    }
}

/// What a write to the hierarchy does next.
pub enum StoreStep {
    /// Write the value to this tier (L0 or L1), then report how that went.
    Write(Tier),
    /// Every write succeeded.
    Done,
    /// Report this error.
    Fail(CacheError),
}

/// The step after the write to `tier` (L0 or L1) answered `outcome`: a
/// failure stops the walk and is reported; a write to L0 is followed by
/// one to L1; the write to L1 ends the walk.
pub open spec fn store_next(tier: Tier, outcome: Result<(), CacheError>) -> StoreStep {
    match outcome {
        Ok(()) => if tier == Tier::L0 {
            StoreStep::Write(Tier::L1)
        } else {
            StoreStep::Done
        },
        Err(e) => StoreStep::Fail(e),
    }
}

/// The step after the write to `tier` (L0 or L1) answered `outcome`.
pub fn store_after(tier: Tier, outcome: Result<(), CacheError>) -> (res: StoreStep)
    requires
        tier == Tier::L0 || tier == Tier::L1,
    ensures
        res == store_next(tier, outcome),
{
    match outcome {
        Ok(()) => match tier {
            Tier::L0 => StoreStep::Write(Tier::L1),
            _ => StoreStep::Done,
        },
        Err(e) => StoreStep::Fail(e),
    }
}

/// What a write ends with, when L0 is present or not, the write to L0
/// answers `r0` and the write to L1 answers `r1`.
pub open spec fn store_run(has_l0: bool, r0: Result<(), CacheError>, r1: Result<(), CacheError>) -> StoreStep {
    if has_l0 {
        match store_next(Tier::L0, r0) {
            StoreStep::Write(t) => store_next(t, r1),
            other => other,
        }
    } else {
        store_next(Tier::L1, r1)
    }
}

/// A write goes to L0 first when it is present: a failure there is
/// reported and L1 is not written; otherwise the write to L1 decides the
/// outcome.
pub proof fn lemma_store_walk(has_l0: bool, r0: Result<(), CacheError>, r1: Result<(), CacheError>)
    ensures
        store_run(has_l0, r0, r1) == (if has_l0 && r0 is Err {
            StoreStep::Fail(r0->Err_0)
        } else {
            match r1 {
                Ok(()) => StoreStep::Done,
                Err(e) => StoreStep::Fail(e),
            }
        }),
{
}

/// What a tier answered to a read.
pub enum LookupReply {
    Hit,
    Miss,
    Failed(CacheError),
}

/// What a read of the hierarchy does next.
pub enum LookupStep {
    /// Ask the tier at this position (0 to 5).
    Ask(usize),
    /// Copy the entry that was found into this tier (always L1), then
    /// report how that went.
    Backfill(Tier),
    /// Hand back the entry that was found.
    Found,
    /// Report that no tier holds the key.
    Missing,
    /// Report this error.
    Fail(CacheError),
}

/// The step after the tier at position `i` answered `reply`: a hit below
/// L0 is first copied into L1; a miss moves on to the next tier, or ends
/// the read after the last; a failure ends it.
pub open spec fn lookup_next(i: int, reply: LookupReply) -> LookupStep {
    match reply {
        LookupReply::Hit => if i > 0 {
            LookupStep::Backfill(Tier::L1)
        } else {
            LookupStep::Found
        },
        LookupReply::Miss => if i + 1 < TIER_COUNT {
            LookupStep::Ask((i + 1) as usize)
        } else {
            LookupStep::Missing
        },
        LookupReply::Failed(e) => LookupStep::Fail(e),
    }
}

/// A read starts by asking L0.
pub fn lookup_start() -> (res: LookupStep)
    ensures
        res == LookupStep::Ask(0),
{
    LookupStep::Ask(0)
}

/// The step after the tier at position `tier` answered `reply`.
pub fn lookup_after(tier: usize, reply: LookupReply) -> (res: LookupStep)
    requires
        tier < TIER_COUNT,
    ensures
        res == lookup_next(tier as int, reply),
{
    match reply {
        LookupReply::Hit => if tier > 0 {
            LookupStep::Backfill(Tier::L1)
        } else {
            LookupStep::Found
        },
        LookupReply::Miss => if tier + 1 < TIER_COUNT {
            LookupStep::Ask(tier + 1)
        } else {
            LookupStep::Missing
        },
        LookupReply::Failed(e) => LookupStep::Fail(e),
    }
}

/// The step after the copy into L1: the found entry is handed back, or
/// the copy's error is reported.
pub fn backfill_after(outcome: Result<(), CacheError>) -> (res: LookupStep)
    ensures
        res == (match outcome {
            Ok(()) => LookupStep::Found,
            Err(e) => LookupStep::Fail(e),
        }),
{
    match outcome {
        Ok(()) => LookupStep::Found,
        Err(e) => LookupStep::Fail(e),
    }
}

/// What a read whose tiers answer `replies` (tier `i` answering
/// `replies[i]`) ends with, once it has asked tier `i` and the ones
/// after it as far as needed.
pub open spec fn lookup_from(i: int, replies: Seq<LookupReply>) -> LookupStep
    decreases TIER_COUNT - i,
{
    if 0 <= i < TIER_COUNT && i < replies.len() {
        match lookup_next(i, replies[i]) {
            LookupStep::Ask(j) => lookup_from(j as int, replies),
            other => other,
        }
    } else {
        LookupStep::Missing
    }
}

/// The position of the first tier at or after `i` that did not miss,
/// if any.
pub open spec fn first_answer(i: int, replies: Seq<LookupReply>) -> Option<int>
    decreases TIER_COUNT - i,
{
    if 0 <= i < TIER_COUNT && i < replies.len() {
        if replies[i] is Miss {
            first_answer(i + 1, replies)
        } else {
            Some(i)
        }
    } else {
        None
    }
}

/// A read of the hierarchy stops at the first tier that does not miss:
/// a hit there is handed back at once when it is L0 and copied into L1
/// first otherwise; a failure there is reported; when every tier misses,
/// the read reports that the key is missing.
pub proof fn lemma_lookup_first_answer(i: int, replies: Seq<LookupReply>)
    requires
        0 <= i <= TIER_COUNT,
        replies.len() == TIER_COUNT,
    ensures
        lookup_from(i, replies) == (match first_answer(i, replies) {
            None => LookupStep::Missing,
            Some(j) => match replies[j] {
                LookupReply::Failed(e) => LookupStep::Fail(e),
                _ => if j > 0 {
                    LookupStep::Backfill(Tier::L1)
                } else {
                    LookupStep::Found
                },
            },
        }),
    decreases TIER_COUNT - i,
{
    if i < TIER_COUNT {
        lemma_lookup_first_answer(i + 1, replies);
    }
}

/// What an operation that goes to every tier in turn does next.
pub enum SweepStep {
    /// Go to the tier at this position (0 to 5).
    Visit(usize),
    /// Every tier succeeded.
    Done,
    /// Report this error.
    Fail(CacheError),
}

/// The step after the tier at position `i` answered `outcome`.
pub open spec fn sweep_next(i: int, outcome: Result<(), CacheError>) -> SweepStep {
    match outcome {
        Ok(()) => if i + 1 < TIER_COUNT {
            SweepStep::Visit((i + 1) as usize)
        } else {
            SweepStep::Done
        },
        Err(e) => SweepStep::Fail(e),
    }
}

/// A sweep (delete, clear) starts at L0.
pub fn sweep_start() -> (res: SweepStep)
    ensures
        res == SweepStep::Visit(0),
{
    SweepStep::Visit(0)
}

/// The step after the tier at position `tier` answered `outcome`: an
/// error stops the sweep; success moves on, or ends it after the last tier.
pub fn sweep_after(tier: usize, outcome: Result<(), CacheError>) -> (res: SweepStep)
    requires
        tier < TIER_COUNT,
    ensures
        res == sweep_next(tier as int, outcome),
{
    match outcome {
        Ok(()) => if tier + 1 < TIER_COUNT {
            SweepStep::Visit(tier + 1)
        } else {
            SweepStep::Done
        },
        Err(e) => SweepStep::Fail(e),
    }
}

/// What an operation that counts across every tier does next.
pub enum TallyStep {
    /// Go to the tier at this position, carrying the running total.
    Visit(usize, u64),
    /// Every tier succeeded; this is the total.
    Done(u64),
    /// Report this error.
    Fail(CacheError),
}

/// The step after the tier at position `i` answered `outcome` while the
/// running total was `total`.
pub open spec fn tally_next(i: int, total: int, outcome: Result<u64, CacheError>) -> TallyStep {
    match outcome {
        Ok(n) => if i + 1 < TIER_COUNT {
            TallyStep::Visit((i + 1) as usize, (total + n) as u64)
        } else {
            TallyStep::Done((total + n) as u64)
        },
        Err(e) => TallyStep::Fail(e),
    }
}

/// A tally (delete_prefix, shake) starts at L0 with a total of 0.
pub fn tally_start() -> (res: TallyStep)
    ensures
        res == TallyStep::Visit(0, 0),
{
    TallyStep::Visit(0, 0)
}

/// Whether adding the tier's count to the running total stays within `u64`.
pub open spec fn tally_fits(total: u64, outcome: Result<u64, CacheError>) -> bool {
    match outcome {
        Ok(n) => total + n <= u64::MAX,
        Err(_) => true,
    }
}

/// The step after the tier at position `tier` answered `outcome`: an
/// error stops the tally; a count is added to the running total.
pub fn tally_after(tier: usize, total: u64, outcome: Result<u64, CacheError>) -> (res: TallyStep)
    requires
        tier < TIER_COUNT,
        tally_fits(total, outcome),
    ensures
        res == tally_next(tier as int, total as int, outcome),
{
    match outcome {
        Ok(n) => if tier + 1 < TIER_COUNT {
            TallyStep::Visit(tier + 1, total + n)
        } else {
            TallyStep::Done(total + n)
        },
        Err(e) => TallyStep::Fail(e),
    }
}

/// The sum of the first `k` counts.
pub open spec fn sum_counts(counts: Seq<u64>, k: int) -> int
    decreases k,
{
    if k <= 0 {
        0
    } else {
        sum_counts(counts, k - 1) + counts[k - 1]
    }
}

/// What a tally ends with, when the running total is `total` after the
/// first `i` tiers and every tier from `i` on succeeds with the count in
/// `counts`.
pub open spec fn tally_from(i: int, total: int, counts: Seq<u64>) -> TallyStep
    decreases TIER_COUNT - i,
{
    if 0 <= i < TIER_COUNT && i < counts.len() {
        match tally_next(i, total, Ok(counts[i])) {
            TallyStep::Visit(j, t) => tally_from(j as int, t as int, counts),
            other => other,
        }
    } else {
        TallyStep::Done(total as u64)
    }
}

/// When every tier succeeds and the counts add up within `u64`, a tally
/// ends with the sum of the tiers' counts.
pub proof fn lemma_tally_sums(i: int, counts: Seq<u64>)
    requires
        0 <= i <= TIER_COUNT,
        counts.len() == TIER_COUNT,
        sum_counts(counts, TIER_COUNT as int) <= u64::MAX,
    ensures
        tally_from(i, sum_counts(counts, i), counts) == TallyStep::Done(
            sum_counts(counts, TIER_COUNT as int) as u64,
        ),
    decreases TIER_COUNT - i,
{
    lemma_sum_monotone(counts, i, TIER_COUNT as int);
    if i < TIER_COUNT {
        lemma_sum_monotone(counts, i + 1, TIER_COUNT as int);
        lemma_tally_sums(i + 1, counts);
        assert(sum_counts(counts, i + 1) == sum_counts(counts, i) + counts[i]);
        lemma_sum_monotone(counts, 0, i + 1);
        let t = (sum_counts(counts, i) + counts[i]) as u64;
        assert(t as int == sum_counts(counts, i + 1));
    }
}

/// Sums of counts grow with the number of counts taken.
pub proof fn lemma_sum_monotone(counts: Seq<u64>, a: int, b: int)
    requires
        0 <= a <= b <= counts.len(),
    ensures
        sum_counts(counts, a) <= sum_counts(counts, b),
    decreases b - a,
{
    if a < b {
        lemma_sum_monotone(counts, a, b - 1);
    }
}

/// What a sweep ends with, once it has visited tier `i` and the ones
/// after it as far as needed, when tier `j` answers `outcomes[j]`.
pub open spec fn sweep_from(i: int, outcomes: Seq<Result<(), CacheError>>) -> SweepStep
    decreases TIER_COUNT - i,
{
    if 0 <= i < TIER_COUNT && i < outcomes.len() {
        match sweep_next(i, outcomes[i]) {
            SweepStep::Visit(j) => sweep_from(j as int, outcomes),
            other => other,
        }
    } else {
        SweepStep::Done
    }
}

/// The position of the first failing tier at or after `i`, if any.
pub open spec fn first_failure(i: int, outcomes: Seq<Result<(), CacheError>>) -> Option<int>
    decreases TIER_COUNT - i,
{
    if 0 <= i < TIER_COUNT && i < outcomes.len() {
        if outcomes[i] is Err {
            Some(i)
        } else {
            first_failure(i + 1, outcomes)
        }
    } else {
        None
    }
}

/// A sweep succeeds when every tier succeeds, and otherwise reports the
/// error of the first tier that failed.
pub proof fn lemma_sweep_first_failure(i: int, outcomes: Seq<Result<(), CacheError>>)
    requires
        0 <= i <= TIER_COUNT,
        outcomes.len() == TIER_COUNT,
    ensures
        sweep_from(i, outcomes) == (match first_failure(i, outcomes) {
            None => SweepStep::Done,
            Some(j) => SweepStep::Fail(outcomes[j]->Err_0),
        }),
    decreases TIER_COUNT - i,
{
    if i < TIER_COUNT {
        lemma_sweep_first_failure(i + 1, outcomes);
    }
}

/// A tier that fails ends a tally with its own error, whatever its
/// position and whatever the running total.
pub proof fn lemma_tally_failure_stops(i: int, total: int, e: CacheError)
    requires
        0 <= i < TIER_COUNT,
    ensures
        tally_next(i, total, Err(e)) == TallyStep::Fail(e),
{
}

/// What a tally ends with, once it has visited tier `i` with running
/// total `total` and the tiers after it as far as needed, when tier `j`
/// answers `outcomes[j]`.
pub open spec fn tally_walk(i: int, total: int, outcomes: Seq<Result<u64, CacheError>>) -> TallyStep
    decreases TIER_COUNT - i,
{
    if 0 <= i < TIER_COUNT && i < outcomes.len() {
        match tally_next(i, total, outcomes[i]) {
            TallyStep::Visit(j, t) => tally_walk(j as int, t as int, outcomes),
            other => other,
        }
    } else {
        TallyStep::Done(total as u64)
    }
}

/// The position of the first failing tier at or after `i`, if any.
pub open spec fn first_tally_failure(i: int, outcomes: Seq<Result<u64, CacheError>>) -> Option<
    int,
>
    decreases TIER_COUNT - i,
{
    if 0 <= i < TIER_COUNT && i < outcomes.len() {
        if outcomes[i] is Err {
            Some(i)
        } else {
            first_tally_failure(i + 1, outcomes)
        }
    } else {
        None
    }
}

/// A tally with a failing tier reports the error of the first one that
/// fails, and no total.
pub proof fn lemma_tally_first_failure(
    i: int,
    total: int,
    outcomes: Seq<Result<u64, CacheError>>,
)
    requires
        0 <= i <= TIER_COUNT,
        outcomes.len() == TIER_COUNT,
        first_tally_failure(i, outcomes) is Some,
    ensures
        tally_walk(i, total, outcomes) == TallyStep::Fail(
            outcomes[first_tally_failure(i, outcomes)->Some_0]->Err_0,
        ),
    decreases TIER_COUNT - i,
{
    if i < TIER_COUNT && outcomes[i] is Ok {
        let n = outcomes[i]->Ok_0;
        lemma_tally_first_failure(i + 1, ((total + n) as u64) as int, outcomes);
    }
}

} // verus!
