//! The in-process cache tier (L1): a map from keys to entries, a
//! least-recently-used list that bounds its size, and a key index that
//! serves prefix invalidation.

use vstd::prelude::*;
use vstd::hash_map::StringHashMap;

use crate::error::CacheError;
use crate::model::{CacheEntry, Tier};
use crate::recency::{
    lemma_drop_first, lemma_filter_agree, lemma_filter_contains_iff, lemma_filter_filter,
    lemma_filter_no_duplicates, lemma_no_duplicates_len, lemma_push_fresh, lemma_remove_index,
    lemma_touched, lemma_without, lemma_filter_all, lemma_filter_order, precedes, lru_bounded, lru_capacity, lru_clear, lru_order, lru_pop,
    lru_pop_lru, lru_promote, lru_put, lru_unbounded, other_than, touched, without,
};
use crate::text::{copy_keys, has_prefix, outside_prefix, same, starts_with, views};

verus! {

/// What a memory cache holds: its entries, the recency order of its keys
/// (least recently used first; empty when the cache is unbounded) and its
/// size bound (0 for none).
pub struct MemoryCacheView<V> {
    pub entries: Map<Seq<char>, CacheEntry<V>>,
    pub recency: Seq<Seq<char>>,
    pub max_size: nat,
}

impl<V> MemoryCacheView<V> {
    /// Whether the cache evicts to stay within `max_size` entries.
    pub open spec fn bounded(self) -> bool {
        self.max_size > 0
    }

    /// The states a memory cache can be in: finitely many entries, all
    /// from tier L1; when
    /// bounded, at most `max_size` of them, each listed once in the
    /// recency order; when unbounded, no recency order.
    pub open spec fn valid(self) -> bool {
        &&& self.entries.dom().finite()
        &&& forall|k: Seq<char>| #[trigger]
            self.entries.contains_key(k) ==> self.entries[k].origin_tier == Tier::L1
        &&& if self.bounded() {
            &&& self.recency.no_duplicates()
            &&& self.recency.to_set() == self.entries.dom()
            &&& self.entries.dom().len() <= self.max_size
        } else {
            self.recency == Seq::<Seq<char>>::empty()
        }
    }

    /// The state after a read of `k`: a hit in a bounded cache makes `k`
    /// the most recently used key.
    pub open spec fn after_get(self, k: Seq<char>) -> Self {
        if self.bounded() && self.entries.contains_key(k) {
            MemoryCacheView { recency: touched(self.recency, k), ..self }
        } else {
            self
        }
    }

    /// The state after a write of `e` under `k`: an existing key is
    /// overwritten and becomes the most recently used; a new key in a
    /// full bounded cache first evicts the least recently used key.
    pub open spec fn after_set(self, k: Seq<char>, e: CacheEntry<V>) -> Self {
        if self.entries.contains_key(k) {
            MemoryCacheView {
                entries: self.entries.insert(k, e),
                recency: if self.bounded() {
                    touched(self.recency, k)
                } else {
                    self.recency
                },
                max_size: self.max_size,
            }
        } else if self.bounded() && self.entries.len() >= self.max_size {
            MemoryCacheView {
                entries: self.entries.remove(self.recency[0]).insert(k, e),
                recency: self.recency.drop_first().push(k),
                max_size: self.max_size,
            }
        } else {
            MemoryCacheView {
                entries: self.entries.insert(k, e),
                recency: if self.bounded() {
                    self.recency.push(k)
                } else {
                    self.recency
                },
                max_size: self.max_size,
            }
        }
    }

    /// The state after `k` is deleted.
    pub open spec fn after_delete(self, k: Seq<char>) -> Self {
        if self.entries.contains_key(k) {
            MemoryCacheView {
                entries: self.entries.remove(k),
                recency: if self.bounded() {
                    without(self.recency, k)
                } else {
                    self.recency
                },
                max_size: self.max_size,
            }
        } else {
            self
        }
    }

    /// The keys that start with the non-empty prefix `p`.
    pub open spec fn prefixed(self, p: Seq<char>) -> Set<Seq<char>> {
        self.entries.dom().filter(|k: Seq<char>| has_prefix(k, p))
    }

    /// The state after every key that starts with `p` is deleted.
    pub open spec fn after_delete_prefix(self, p: Seq<char>) -> Self {
        MemoryCacheView {
            entries: self.entries.remove_keys(self.prefixed(p)),
            recency: self.recency.filter(outside_prefix(p)),
            max_size: self.max_size,
        }
    }

    /// The state after every entry is dropped.
    pub open spec fn cleared(self) -> Self {
        MemoryCacheView {
            entries: Map::empty(),
            recency: Seq::empty(),
            max_size: self.max_size,
        }
    }
}

/// An in-process cache with least-recently-used eviction (when
/// `max_size` is positive) and prefix invalidation.
#[verifier::reject_recursive_types(V)]
pub struct MemoryCache<V> {
    cache: StringHashMap<CacheEntry<V>>,
    lru: lru::LruCache<String, ()>,
    keys: Vec<String>,
    max_size: usize,
}

impl<V> View for MemoryCache<V> {
    type V = MemoryCacheView<V>;

    closed spec fn view(&self) -> MemoryCacheView<V> {
        MemoryCacheView {
            entries: self.cache@,
            recency: if self.max_size > 0 {
                lru_order(self.lru)
            } else {
                Seq::empty()
            },
            max_size: self.max_size as nat,
        }
    }
}

/// The test that passes a key unless it is among `t` and starts with `p`.
pub open spec fn not_removed(t: Seq<Seq<char>>, p: Seq<char>) -> spec_fn(Seq<char>) -> bool {
    |x: Seq<char>| !(t.contains(x) && has_prefix(x, p))
}

/// Removes `k` from a list of distinct keys.
fn forget_key(keys: &mut Vec<String>, k: &str)
    requires
        views(old(keys)@).no_duplicates(),
    ensures
        views(final(keys)@).no_duplicates(),
        views(final(keys)@).to_set() == views(old(keys)@).to_set().remove(k@),
{
    let ghost start = views(keys@);
    let mut i: usize = 0;
    while i < keys.len()
        invariant
            views(keys@) == start,
            start == views(old(keys)@),
            start.no_duplicates(),
            forall|j: int| 0 <= j < i ==> start[j] != k@,
        decreases keys.len() - i,
    {
        if same(keys[i].as_str(), k) {
            keys.remove(i);
            proof {
                assert(start[i as int] == k@);
                assert(views(keys@) =~= start.remove(i as int));
                lemma_remove_index(start, i as int);
            }
            return;
        }
        i = i + 1;
    }
    assert(!start.contains(k@));
    assert(start.to_set().remove(k@) =~= start.to_set());
}

impl<V> MemoryCache<V> {
    /// The internal invariant: the key index lists each held key once,
    /// and a bounded cache's recency list lists each held key once and
    /// never grows beyond the bound.
    pub closed spec fn wf(&self) -> bool {
        &&& forall|k: Seq<char>| #[trigger]
            self.cache@.contains_key(k) ==> self.cache@[k].origin_tier == Tier::L1
        &&& views(self.keys@).no_duplicates()
        &&& views(self.keys@).to_set() == self.cache@.dom()
        &&& if self.max_size > 0 {
            &&& lru_capacity(self.lru) == self.max_size
            &&& lru_order(self.lru).no_duplicates()
            &&& lru_order(self.lru).to_set() == self.cache@.dom()
            &&& self.cache@.dom().len() <= self.max_size
        } else {
            true
        }
    }

    /// A well-formed cache is in a valid state.
    pub proof fn lemma_wf_valid(&self)
        requires
            self.wf(),
        ensures
            self@.valid(),
    {
        lemma_no_duplicates_len(views(self.keys@));
    }

    /// An empty cache that holds at most `max_size` entries, or any
    /// number of them when `max_size` is 0.
    pub fn new(max_size: usize) -> (res: Self)
        ensures
            res.wf(),
            res@.valid(),
            res@.entries == Map::<Seq<char>, CacheEntry<V>>::empty(),
            res@.recency == Seq::<Seq<char>>::empty(),
            res@.max_size == max_size,
    {
        let lru = if max_size > 0 {
            lru_bounded(max_size)
        } else {
            lru_unbounded()
        };
        let res = MemoryCache { cache: StringHashMap::new(), lru, keys: Vec::new(), max_size };
        proof {
            assert(views(res.keys@) =~= Seq::<Seq<char>>::empty());
            assert(views(res.keys@).to_set() =~= res.cache@.dom());
            assert(res@.entries.dom() =~= Set::<Seq<char>>::empty());
        }
        res
    }

    /// The tier this cache serves.
    pub fn tier(&self) -> (res: Tier)
        ensures
            res == Tier::L1,
    {
        Tier::L1
    }

    /// Looks up `key`; a hit in a bounded cache makes `key` the most
    /// recently used key. The entry handed back is a clone of the one held.
    pub fn get(&mut self, key: &str) -> (res: Result<Option<CacheEntry<V>>, CacheError>) where
        V: Clone,
        requires
            old(self).wf(),
        ensures
            final(self).wf(),
            final(self)@ == old(self)@.after_get(key@),
            res matches Ok(r) && match r {
                Some(e) => {
                    &&& old(self)@.entries.contains_key(key@)
                    &&& e.origin_tier == Tier::L1
                    &&& cloned::<V>(old(self)@.entries[key@].value, e.value)
                },
                None => !old(self)@.entries.contains_key(key@),
            },
    {
        let found = match self.cache.get(key) {
            Some(e) => Some(e.clone()),
            None => None,
        };
        if found.is_some() && self.max_size > 0 {
            lru_promote(&mut self.lru, key);
            proof {
                lemma_touched(lru_order(old(self).lru), key@);
                assert(lru_order(old(self).lru).to_set().insert(key@) =~= self.cache@.dom());
            }
        }
        Ok(found)
    }

    /// Drops the least recently used key of a full bounded cache.
    fn evict_oldest(&mut self)
        requires
            old(self).wf(),
            old(self).max_size > 0,
            old(self).cache@.dom().len() >= old(self).max_size,
        ensures
            final(self).wf(),
            final(self).max_size == old(self).max_size,
            lru_order(final(self).lru) == lru_order(old(self).lru).drop_first(),
            final(self).cache@ == old(self).cache@.remove(lru_order(old(self).lru)[0]),
            final(self).cache@.dom().len() == old(self).cache@.dom().len() - 1,
    {
        proof {
            lemma_no_duplicates_len(lru_order(self.lru));
        }
        let victim = lru_pop_lru(&mut self.lru);
        match victim {
            Some(k) => {
                forget_key(&mut self.keys, k.as_str());
                self.cache.remove(k.as_str());
                proof {
                    let old_order = lru_order(old(self).lru);
                    lemma_drop_first(old_order);
                    assert(old_order.contains(old_order[0]));
                    assert(self.cache@.dom() =~= old(self).cache@.dom().remove(k@));
                    assert(views(self.keys@).to_set() =~= self.cache@.dom());
                    assert(lru_order(self.lru).to_set() =~= self.cache@.dom());
                }
            },
            None => {},
        }
    }

    /// Stores `value` under `key` as an entry from tier L1. A new key in a
    /// full bounded cache first evicts the least recently used key.
    pub fn set(&mut self, key: String, value: V) -> (res: Result<(), CacheError>)
        requires
            old(self).wf(),
        ensures
            final(self).wf(),
            res is Ok,
            final(self)@ == old(self)@.after_set(
                key@,
                CacheEntry { value: value, origin_tier: Tier::L1 },
            ),
    {
        let entry = CacheEntry { value, origin_tier: Tier::L1 };
        if self.cache.contains_key(key.as_str()) {
            if self.max_size > 0 {
                lru_promote(&mut self.lru, key.as_str());
                proof {
                    lemma_touched(lru_order(old(self).lru), key@);
                    assert(lru_order(old(self).lru).to_set().insert(key@) =~= self.cache@.dom());
                }
            }
            self.cache.insert(key, entry);
            proof {
                assert(self.cache@.dom() =~= old(self).cache@.dom());
            }
        } else {
            if self.max_size > 0 && self.cache.len() >= self.max_size {
                self.evict_oldest();
            }
            let ghost mid = *self;
            if self.max_size > 0 {
                proof {
                    lemma_no_duplicates_len(lru_order(self.lru));
                    assert(!lru_order(self.lru).contains(key@));
                }
                lru_put(&mut self.lru, key.clone());
                proof {
                    lemma_push_fresh(lru_order(mid.lru), key@);
                }
            }
            let ghost before_push = views(self.keys@);
            self.keys.push(key.clone());
            proof {
                assert(!before_push.contains(key@));
                assert(views(self.keys@) =~= before_push.push(key@));
                lemma_push_fresh(before_push, key@);
            }
            self.cache.insert(key, entry);
            proof {
                assert(self.cache@.dom() =~= mid.cache@.dom().insert(key@));
                assert(views(self.keys@).to_set() =~= self.cache@.dom());
                lemma_no_duplicates_len(views(self.keys@));
                lemma_no_duplicates_len(before_push);
                if self.max_size > 0 {
                    assert(lru_order(self.lru).to_set() =~= self.cache@.dom());
                }
                if old(self).max_size > 0 && old(self).cache@.dom().len() >= old(self).max_size {
                    assert(self@.entries =~= old(self)@.entries.remove(
                        old(self)@.recency[0],
                    ).insert(key@, entry));
                }
            }
        }
        Ok(())
    }

    /// Removes `key`, if it is held.
    pub fn delete(&mut self, key: &str) -> (res: Result<(), CacheError>)
        requires
            old(self).wf(),
        ensures
            final(self).wf(),
            res is Ok,
            final(self)@ == old(self)@.after_delete(key@),
    {
        if self.cache.contains_key(key) {
            forget_key(&mut self.keys, key);
            self.cache.remove(key);
            if self.max_size > 0 {
                lru_pop(&mut self.lru, key);
                proof {
                    lemma_without(lru_order(old(self).lru), key@);
                }
            }
            proof {
                assert(self.cache@.dom() =~= old(self).cache@.dom().remove(key@));
                assert(views(self.keys@).to_set() =~= self.cache@.dom());
                if self.max_size > 0 {
                    assert(lru_order(self.lru).to_set() =~= self.cache@.dom());
                }
            }
        }
        Ok(())
    }

    /// Removes every key that starts with `prefix` and returns how many
    /// there were.
    fn remove_prefixed(&mut self, prefix: &str) -> (count: usize)
        requires
            old(self).wf(),
            prefix@.len() > 0,
        ensures
            final(self).wf(),
            final(self)@ == old(self)@.after_delete_prefix(prefix@),
            count == old(self)@.prefixed(prefix@).len(),
    {
        let ghost p = prefix@;
        let ghost hp = |k: Seq<char>| has_prefix(k, p);
        let mut old_keys: Vec<String> = Vec::new();
        std::mem::swap(&mut old_keys, &mut self.keys);
        let ghost all = views(old_keys@);
        let ghost start = *old(self);
        let mut kept: Vec<String> = Vec::new();
        let mut count: usize = 0;
        proof {
            let order = lru_order(self.lru);
            assert(all.take(0) =~= Seq::<Seq<char>>::empty());
            assert forall|j: int| 0 <= j < order.len() implies not_removed(all.take(0), p)(
                #[trigger] order[j],
            ) by {}
            lemma_filter_all(order, not_removed(all.take(0), p));
            assert(all.take(0).filter(hp) =~= Seq::<Seq<char>>::empty()) by {
                reveal(Seq::filter);
            }
            assert(all.take(0).filter(outside_prefix(p)) =~= Seq::<Seq<char>>::empty()) by {
                reveal(Seq::filter);
            }
            assert(views(kept@) =~= Seq::<Seq<char>>::empty());
            assert(self.cache@ =~= start.cache@.remove_keys(Set::<Seq<char>>::empty()));
            assert(all.take(0).filter(hp).to_set() =~= Set::<Seq<char>>::empty());
        }
        let n: usize = old_keys.len();
        let mut i: usize = 0;
        while i < n
            invariant
                n == old_keys.len(),
                all == views(old_keys@),
                all.no_duplicates(),
                all.to_set() == start.cache@.dom(),
                prefix@ == p,
                p.len() > 0,
                hp == (|k: Seq<char>| has_prefix(k, p)),
                i <= n,
                self.max_size == start.max_size,
                lru_capacity(self.lru) == lru_capacity(start.lru),
                views(kept@) == all.take(i as int).filter(outside_prefix(p)),
                count == all.take(i as int).filter(hp).len(),
                self.cache@ == start.cache@.remove_keys(all.take(i as int).filter(hp).to_set()),
                self.max_size > 0 ==> lru_order(self.lru) == lru_order(start.lru).filter(
                    not_removed(all.take(i as int), p),
                ),
            decreases n - i,
        {
            let k = &old_keys[i];
            let ghost t = all.take(i as int);
            let ghost t1 = all.take(i as int + 1);
            proof {
                assert(t1 =~= t.push(all[i as int]));
                assert(all[i as int] == k@);
                t.lemma_filter_push(k@, hp);
                t.lemma_filter_push(k@, outside_prefix(p));
            }
            if starts_with(k.as_str(), prefix) {
                self.cache.remove(k.as_str());
                if self.max_size > 0 {
                    let ghost before = lru_order(self.lru);
                    lru_pop(&mut self.lru, k.as_str());
                    proof {
                        let q = not_removed(t, p);
                        let q1 = not_removed(t1, p);
                        lemma_filter_filter(lru_order(start.lru), q, other_than(k@));
                        assert(has_prefix(k@, p));
                        assert forall|x: Seq<char>| #[trigger] q1(x) == (q(x) && other_than(k@)(x)) by {
                            if x == k@ {
                                assert(t1[t.len() as int] == x);
                            } else {
                                if t1.contains(x) {
                                    let j = choose|j: int| 0 <= j < t1.len() && t1[j] == x;
                                    assert(j < t.len());
                                    assert(t[j] == x);
                                }
                                if t.contains(x) {
                                    let j = choose|j: int| 0 <= j < t.len() && t[j] == x;
                                    assert(t1[j] == x);
                                }
                            }
                        }
                        assert(q1 =~= (|x: Seq<char>| q(x) && other_than(k@)(x)));
                    }
                }
                count = count + 1;
                proof {
                    assert(t.filter(hp).len() <= t.len()) by {
                        t.lemma_filter_len(hp);
                    }
                    assert(t1.filter(hp).to_set() =~= t.filter(hp).to_set().insert(k@)) by {
                        t.filter(hp).lemma_push_to_set_commute(k@);
                    }
                    assert(self.cache@ =~= start.cache@.remove_keys(t1.filter(hp).to_set()));
                }
            } else {
                kept.push(k.clone());
                proof {
                    assert(views(kept@) =~= t1.filter(outside_prefix(p)));
                    assert(t1.filter(hp) == t.filter(hp));
                    if self.max_size > 0 {
                        let q = not_removed(t, p);
                        let q1 = not_removed(t1, p);
                        assert forall|x: Seq<char>| #[trigger] q1(x) == q(x) by {
                            if x == k@ {
                                assert(!has_prefix(k@, p));
                            } else {
                                if t1.contains(x) {
                                    let j = choose|j: int| 0 <= j < t1.len() && t1[j] == x;
                                    assert(j < t.len());
                                    assert(t[j] == x);
                                }
                                if t.contains(x) {
                                    let j = choose|j: int| 0 <= j < t.len() && t[j] == x;
                                    assert(t1[j] == x);
                                }
                            }
                        }
                        assert(q1 =~= q);
                    }
                }
            }
            i = i + 1;
        }
        self.keys = kept;
        proof {
            assert(all.take(n as int) =~= all);
            let removed = all.filter(hp);
            lemma_filter_no_duplicates(all, hp);
            lemma_filter_no_duplicates(all, outside_prefix(p));
            lemma_no_duplicates_len(removed);
            assert forall|x: Seq<char>| removed.to_set().contains(x) <==> start@.prefixed(p).contains(
                x,
            ) by {
                lemma_filter_contains_iff(all, hp, x);
            }
            assert(removed.to_set() =~= start@.prefixed(p));
            assert forall|x: Seq<char>| views(self.keys@).to_set().contains(x) <==> self.cache@.dom().contains(x) by {
                lemma_filter_contains_iff(all, outside_prefix(p), x);
                lemma_filter_contains_iff(all, hp, x);
            }
            assert(views(self.keys@).to_set() =~= self.cache@.dom());
            assert(self.cache@.dom().subset_of(start.cache@.dom()));
            vstd::set_lib::lemma_len_subset(self.cache@.dom(), start.cache@.dom());
            if self.max_size > 0 {
                let order = lru_order(start.lru);
                let q = not_removed(all, p);
                assert forall|j: int| 0 <= j < order.len() implies q(#[trigger] order[j])
                    == outside_prefix(p)(order[j]) by {
                    assert(order.to_set().contains(order[j]));
                }
                lemma_filter_agree(order, q, outside_prefix(p));
                lemma_filter_no_duplicates(order, outside_prefix(p));
                assert forall|x: Seq<char>| lru_order(self.lru).to_set().contains(x) <==> self.cache@.dom().contains(x) by {
                    lemma_filter_contains_iff(order, outside_prefix(p), x);
                    lemma_filter_contains_iff(all, hp, x);
                }
                assert(lru_order(self.lru).to_set() =~= self.cache@.dom());
            }
            assert(self@.entries =~= start@.after_delete_prefix(p).entries);
        }
        count
    }

    /// Removes every key that starts with `prefix` and returns how many
    /// there were.
    pub fn delete_prefix(&mut self, prefix: &str) -> (res: Result<u64, CacheError>)
        requires
            old(self).wf(),
            prefix@.len() > 0,
        ensures
            final(self).wf(),
            final(self)@ == old(self)@.after_delete_prefix(prefix@),
            res matches Ok(n) && n == old(self)@.prefixed(prefix@).len(),
    {
        let count: usize = self.remove_prefixed(prefix);
        Ok(count as u64)
    }

    /// Removes every key that starts with `prefix` and returns how many
    /// there were.
    pub fn shake(&mut self, prefix: &str) -> (res: Result<usize, CacheError>)
        requires
            old(self).wf(),
            prefix@.len() > 0,
        ensures
            final(self).wf(),
            final(self)@ == old(self)@.after_delete_prefix(prefix@),
            res matches Ok(n) && n == old(self)@.prefixed(prefix@).len(),
    {
        let count: usize = self.remove_prefixed(prefix);
        Ok(count)
    }

    /// Drops every entry.
    pub fn clear(&mut self) -> (res: Result<(), CacheError>)
        requires
            old(self).wf(),
        ensures
            final(self).wf(),
            res is Ok,
            final(self)@ == old(self)@.cleared(),
    {
        self.cache.clear();
        self.keys = Vec::new();
        lru_clear(&mut self.lru);
        proof {
            assert(views(self.keys@) =~= Seq::<Seq<char>>::empty());
            assert(views(self.keys@).to_set() =~= self.cache@.dom());
            assert(lru_order(self.lru).to_set() =~= self.cache@.dom());
            assert(self.cache@.dom() =~= Set::<Seq<char>>::empty());
        }
        Ok(())
    }

    /// Whether `key` is held.
    pub fn has(&self, key: &str) -> (res: bool)
        ensures
            res == self@.entries.contains_key(key@),
    {
        self.cache.contains_key(key)
    }

    /// Every held key, once each.
    pub fn _dfs_collect(&self) -> (res: Vec<String>)
        requires
            self.wf(),
        ensures
            views(res@).no_duplicates(),
            views(res@).to_set() == self@.entries.dom(),
    {
        copy_keys(&self.keys)
    }

    /// Every held key, once each (the same set as `_dfs_collect`).
    pub fn _bfs_collect(&self) -> (res: Vec<String>)
        requires
            self.wf(),
        ensures
            views(res@).no_duplicates(),
            views(res@).to_set() == self@.entries.dom(),
    {
        self._dfs_collect()
    }

    /// Every held key that starts with `prefix`, once each.
    pub fn _trie_collect(&self, prefix: &str) -> (res: Vec<String>)
        requires
            self.wf(),
            prefix@.len() > 0,
        ensures
            views(res@).no_duplicates(),
            views(res@).to_set() == self@.prefixed(prefix@),
    {
        let ghost hp = |k: Seq<char>| has_prefix(k, prefix@);
        let ghost all = views(self.keys@);
        let mut out: Vec<String> = Vec::new();
        let mut i: usize = 0;
        while i < self.keys.len()
            invariant
                i <= self.keys.len(),
                all == views(self.keys@),
                prefix@.len() > 0,
                hp == (|k: Seq<char>| has_prefix(k, prefix@)),
                views(out@) == all.take(i as int).filter(hp),
            decreases self.keys.len() - i,
        {
            proof {
                assert(all.take(i as int + 1) =~= all.take(i as int).push(all[i as int]));
                all.take(i as int).lemma_filter_push(all[i as int], hp);
            }
            if starts_with(self.keys[i].as_str(), prefix) {
                out.push(self.keys[i].clone());
                proof {
                    assert(views(out@) =~= all.take(i as int + 1).filter(hp));
                }
            }
            i = i + 1;
        }
        proof {
            assert(all.take(self.keys.len() as int) =~= all);
            lemma_filter_no_duplicates(all, hp);
            assert forall|x: Seq<char>| views(out@).to_set().contains(x) <==> self@.prefixed(
                prefix@,
            ).contains(x) by {
                lemma_filter_contains_iff(all, hp, x);
            }
            assert(views(out@).to_set() =~= self@.prefixed(prefix@));
        }
        out
    }
}

/// A write is read back: after `e` is stored under `k`, the cache holds
/// exactly `e` under `k`, whatever it held before.
pub proof fn lemma_get_after_set<V>(v: MemoryCacheView<V>, k: Seq<char>, e: CacheEntry<V>)
    requires
        v.valid(),
    ensures
        v.after_set(k, e).entries.contains_key(k),
        v.after_set(k, e).entries[k] == e,
        v.after_set(k, e).after_get(k).entries == v.after_set(k, e).entries,
{
}

/// A write touches no other key, except that a new key in a full bounded
/// cache evicts the least recently used key.
pub proof fn lemma_set_keeps_others<V>(
    v: MemoryCacheView<V>,
    k: Seq<char>,
    e: CacheEntry<V>,
    other: Seq<char>,
)
    requires
        v.valid(),
        other != k,
        v.entries.contains_key(other),
        !(v.bounded() && !v.entries.contains_key(k) && v.entries.len() >= v.max_size && other
            == v.recency[0]),
    ensures
        v.after_set(k, e).entries.contains_key(other),
        v.after_set(k, e).entries[other] == v.entries[other],
{
}

/// Eviction picks the least recently used key: when a bounded cache is
/// full and takes a new key, the key at the front of the recency order
/// leaves, and it is the only one.
pub proof fn lemma_eviction_victim<V>(v: MemoryCacheView<V>, k: Seq<char>, e: CacheEntry<V>)
    requires
        v.valid(),
        v.bounded(),
        !v.entries.contains_key(k),
        v.entries.len() >= v.max_size,
    ensures
        v.recency.len() > 0,
        v.entries.contains_key(v.recency[0]),
        !v.after_set(k, e).entries.contains_key(v.recency[0]),
        v.after_set(k, e).entries.dom() == v.entries.dom().remove(v.recency[0]).insert(k),
{
    lemma_no_duplicates_len(v.recency);
    assert(v.recency.to_set().contains(v.recency[0]));
    assert(v.after_set(k, e).entries.dom() =~= v.entries.dom().remove(v.recency[0]).insert(k));
}

/// A key just read is not the next to be evicted while any other key is
/// held: reading moves it to the most recently used end.
pub proof fn lemma_read_key_not_next_victim<V>(v: MemoryCacheView<V>, k: Seq<char>)
    requires
        v.valid(),
        v.bounded(),
        v.entries.contains_key(k),
        v.entries.len() >= 2,
    ensures
        v.after_get(k).recency.len() == v.recency.len(),
        v.after_get(k).recency[0] != k,
        v.after_get(k).recency.last() == k,
{
    lemma_no_duplicates_len(v.recency);
    lemma_without(v.recency, k);
    lemma_no_duplicates_len(without(v.recency, k));
    lemma_filter_contains_iff(v.recency, other_than(k), k);
    assert(v.recency.to_set().contains(k));
    let w = without(v.recency, k);
    assert(w.len() >= 1);
    assert(w.contains(w[0]));
}

/// A deleted key is gone and every other key keeps its entry.
pub proof fn lemma_delete_removes<V>(v: MemoryCacheView<V>, k: Seq<char>, other: Seq<char>)
    requires
        v.valid(),
        other != k,
    ensures
        !v.after_delete(k).entries.contains_key(k),
        v.after_delete(k).entries.contains_key(other) == v.entries.contains_key(other),
        v.entries.contains_key(other) ==> v.after_delete(k).entries[other] == v.entries[other],
{
}

/// Prefix deletion drops exactly the keys that start with the prefix and
/// leaves every other entry as it was.
pub proof fn lemma_delete_prefix_exact<V>(v: MemoryCacheView<V>, p: Seq<char>, x: Seq<char>)
    requires
        v.valid(),
        p.len() > 0,
    ensures
        v.after_delete_prefix(p).entries.contains_key(x) <==> (v.entries.contains_key(x)
            && !has_prefix(x, p)),
        v.after_delete_prefix(p).entries.contains_key(x) ==> v.after_delete_prefix(p).entries[x]
            == v.entries[x],
{
}

/// Every operation keeps a cache in a valid state (writes store L1
/// entries, as `set` makes them): in particular a bounded cache never
/// holds more entries than its bound.
pub proof fn lemma_operations_keep_valid<V>(
    v: MemoryCacheView<V>,
    k: Seq<char>,
    e: CacheEntry<V>,
    p: Seq<char>,
)
    requires
        v.valid(),
        e.origin_tier == Tier::L1,
    ensures
        v.after_get(k).valid(),
        v.after_set(k, e).valid(),
        v.after_delete(k).valid(),
        v.after_delete_prefix(p).valid(),
        v.cleared().valid(),
{
    let d = v.entries.dom();
    let after = v.after_delete_prefix(p);
    assert(after.entries.dom() =~= d.difference(v.prefixed(p)));
    vstd::set_lib::lemma_len_subset(after.entries.dom(), d);
    if v.bounded() {
        lemma_no_duplicates_len(v.recency);
        if d.contains(k) {
            lemma_touched(v.recency, k);
            assert(v.recency.to_set().insert(k) =~= d);
            assert(v.after_set(k, e).entries.dom() =~= d);
            lemma_without(v.recency, k);
            assert(v.after_delete(k).entries.dom() =~= d.remove(k));
            vstd::set_lib::lemma_len_subset(d.remove(k), d);
        } else if v.entries.len() >= v.max_size {
            lemma_drop_first(v.recency);
            assert(v.recency.to_set().contains(v.recency[0]));
            assert(!v.recency.drop_first().contains(k));
            lemma_push_fresh(v.recency.drop_first(), k);
            assert(v.after_set(k, e).entries.dom() =~= d.remove(v.recency[0]).insert(k));
        } else {
            assert(!v.recency.contains(k));
            lemma_push_fresh(v.recency, k);
            assert(v.after_set(k, e).entries.dom() =~= d.insert(k));
        }
        lemma_filter_no_duplicates(v.recency, outside_prefix(p));
        assert forall|x: Seq<char>| after.recency.to_set().contains(x) <==> after.entries.dom().contains(x) by {
            lemma_filter_contains_iff(v.recency, outside_prefix(p), x);
        }
        assert(after.recency.to_set() =~= after.entries.dom());
        vstd::set_lib::lemma_len_subset(after.entries.dom(), d);
        assert(v.cleared().recency.to_set() =~= v.cleared().entries.dom());
    } else {
        assert(v.recency.filter(outside_prefix(p)) =~= Seq::<Seq<char>>::empty()) by {
            reveal(Seq::filter);
        }
    }
    assert(v.cleared().entries.dom() =~= Set::<Seq<char>>::empty());
}

/// A stored key becomes the most recently used key of a bounded cache,
/// whether it was new or already held.
pub proof fn lemma_set_makes_most_recent<V>(v: MemoryCacheView<V>, k: Seq<char>, e: CacheEntry<V>)
    requires
        v.valid(),
        v.bounded(),
    ensures
        v.after_set(k, e).recency.len() > 0,
        v.after_set(k, e).recency.last() == k,
{
}

/// Clearing drops every entry and keeps the size bound: a cache bounded
/// before it is cleared evicts at the same bound afterwards.
pub proof fn lemma_clear_keeps_bound<V>(v: MemoryCacheView<V>)
    ensures
        v.cleared().max_size == v.max_size,
        v.cleared().entries.dom().len() == 0,
        v.cleared().bounded() == v.bounded(),
{
    assert(v.cleared().entries.dom() =~= Set::<Seq<char>>::empty());
}

/// Prefix deletion keeps the recency order of the keys it does not drop:
/// of two kept keys, the one used less recently before is still used less
/// recently after.
pub proof fn lemma_delete_prefix_keeps_order<V>(
    v: MemoryCacheView<V>,
    p: Seq<char>,
    a: Seq<char>,
    b: Seq<char>,
)
    requires
        !has_prefix(a, p),
        !has_prefix(b, p),
    ensures
        precedes(v.after_delete_prefix(p).recency, a, b) <==> precedes(v.recency, a, b),
{
    lemma_filter_order(v.recency, outside_prefix(p), a, b);
}

} // verus!
