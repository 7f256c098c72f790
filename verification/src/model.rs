//! Plain data shared by every cache tier: tier labels, cache entries,
//! identifiers and generation counters.

use vstd::prelude::*;

verus! {

/// The position of a cache in the hierarchy, from the closest (`L0`)
/// to the farthest (`L5`).
#[derive(Debug, Clone, Copy, PartialEq, Eq, Structural)]
pub enum Tier {
    L0,
    L1,
    L2,
    L3,
    L4,
    L5,
}

/// A cached value together with the tier that produced it.
#[derive(Debug)]
pub struct CacheEntry<V> {
    pub value: V,
    pub origin_tier: Tier,
}

impl<V: Clone> Clone for CacheEntry<V> {
    fn clone(&self) -> (res: Self)
        ensures
            res.origin_tier == self.origin_tier,
            cloned::<V>(self.value, res.value),
    {
        CacheEntry { value: self.value.clone(), origin_tier: self.origin_tier }
    }
}

/// Identifier of a stored resource.
#[derive(Debug, Clone, PartialEq, Eq, Hash)]
pub struct ResourceId(pub String);

impl ResourceId {
    /// Wraps the given text as a resource identifier.
    pub fn new(s: &str) -> (res: Self)
        ensures
            res.0@ == s@,
    {
        ResourceId(s.to_owned())
    }
}

/// Identifier of a user; never empty.
#[derive(Debug, Clone, PartialEq, Eq, Hash)]
pub struct UserId(pub String);

impl UserId {
    /// Wraps the given non-empty text as a user identifier.
    pub fn new(s: &str) -> (res: Self)
        requires
            s@.len() > 0,
        ensures
            res.0@ == s@,
    {
        UserId(s.to_owned())
    }
}

/// The identifier of a resource that a delete request names.
#[derive(Debug, Clone)]
pub struct DeleteInfo {
    pub resource_id: ResourceId,
}

/// Counters that an algorithm reports after a run.
#[derive(Debug, Clone, Copy, PartialEq, Eq, Structural)]
pub struct AlgorithmStats {
    pub iterations: u64,
    pub cache_hits: u64,
    pub memo_size: usize,
}

impl AlgorithmStats {
    pub fn new(iterations: u64, cache_hits: u64, memo_size: usize) -> (res: Self)
        ensures
            res.iterations == iterations,
            res.cache_hits == cache_hits,
            res.memo_size == memo_size,
    {
        AlgorithmStats { iterations, cache_hits, memo_size }
    }
}

/// A generation counter: either missing, or a positive number that
/// grows by one at each advance.
#[derive(Debug, Clone, Copy, PartialEq, Eq, Structural)]
pub enum Generation {
    Missing,
    Valid(u64),
}

impl Default for Generation {
    fn default() -> (res: Self)
        ensures
            res == Generation::Missing,
    {
        Generation::Missing
    }
}

impl Generation {
    /// A generation is well formed when a valid counter is positive.
    pub open spec fn wf(self) -> bool {
        match self {
            Generation::Valid(n) => n > 0,
            Generation::Missing => true,
        }
    }

    /// The counter as a number, if there is one.
    pub open spec fn number(self) -> Option<u64> {
        match self {
            Generation::Valid(n) => Some(n),
            Generation::Missing => None,
        }
    }

    /// The generation that follows this one.
    pub open spec fn next(self) -> Generation {
        match self {
            Generation::Missing => Generation::Valid(1),
            Generation::Valid(n) => Generation::Valid((n + 1) as u64),
        }
    }

    /// Whether this generation can still advance without overflow.
    pub open spec fn can_advance(self) -> bool {
        match self {
            Generation::Valid(n) => n < u64::MAX,
            Generation::Missing => true,
        }
    }

    pub fn as_u64(&self) -> (res: Option<u64>)
        requires
            self.wf(),
        ensures
            res == self.number(),
    {
        match self {
            Generation::Valid(n) => Some(*n),
            Generation::Missing => None,
        }
    }

    pub fn advance(self) -> (res: Self)
        requires
            self.can_advance(),
        ensures
            res == self.next(),
    {
        match self {
            Generation::Missing => Generation::Valid(1),
            Generation::Valid(n) => Generation::Valid(n + 1),
        }
    }
}

/// Advancing a well-formed generation gives a well-formed generation
/// whose number is one more than the old number, counting a missing
/// generation as zero.
pub proof fn lemma_advance_increments(g: Generation)
    requires
        g.wf(),
        g.can_advance(),
    ensures
        g.next().wf(),
        g.next().number() == Some(
            (match g.number() {
                Some(n) => n + 1,
                None => 1int,
            }) as u64,
        ),
{
}

/// Two generations that advance to the same generation were equal.
pub proof fn lemma_advance_injective(a: Generation, b: Generation)
    requires
        a.wf(),
        b.wf(),
        a.can_advance(),
        b.can_advance(),
        a.next() == b.next(),
    ensures
        a == b,
{
}

} // verus!
