//! A prefix index over ASCII keys: for every non-empty leading part of
//! every recorded key, the list of recorded keys that start with it.
//! The L2 tier keeps one beside its store, to find the keys that a prefix
//! invalidation must drop.

use vstd::prelude::*;
use vstd::hash_map::StringHashMap;
use vstd::string::{StrSliceExecFns, StringExecFns};

use crate::error::CacheError;
use crate::recency::{
    lemma_filter_contains_iff, lemma_filter_filter, lemma_filter_agree, lemma_filter_all,
    lemma_filter_no_duplicates, other_than,
};
use crate::text::{copy_keys, has_prefix, outside_prefix, same, under, views};
use vstd::utf8::is_ascii_chars;

verus! {

/// The test that passes every key that `t` does not hold.
pub open spec fn not_in(t: Seq<Seq<char>>) -> spec_fn(Seq<char>) -> bool {
    |k: Seq<char>| !t.contains(k)
}

/// A prefix index. Its view is the list of recorded keys, in the order
/// they were recorded (a key recorded twice appears twice).
pub struct PrefixIndex {
    index: StringHashMap<Vec<String>>,
    recorded: Ghost<Seq<Seq<char>>>,
}

impl View for PrefixIndex {
    type V = Seq<Seq<char>>;

    closed spec fn view(&self) -> Seq<Seq<char>> {
        self.recorded@
    }
}

/// `v` without the entries equal to `k`.
fn drop_key(v: &Vec<String>, k: &str) -> (res: Vec<String>)
    ensures
        views(res@) == views(v@).filter(other_than(k@)),
{
    let ghost all = views(v@);
    let mut out: Vec<String> = Vec::new();
    let mut i: usize = 0;
    proof {
        assert(all.take(0).filter(other_than(k@)) =~= Seq::<Seq<char>>::empty()) by {
            reveal(Seq::filter);
        }
        assert(views(out@) =~= Seq::<Seq<char>>::empty());
    }
    while i < v.len()
        invariant
            i <= v.len(),
            all == views(v@),
            views(out@) == all.take(i as int).filter(other_than(k@)),
        decreases v.len() - i,
    {
        proof {
            assert(all.take(i as int + 1) =~= all.take(i as int).push(all[i as int]));
            all.take(i as int).lemma_filter_push(all[i as int], other_than(k@));
        }
        if !same(v[i].as_str(), k) {
            let ghost before = out@;
            let c = v[i].clone();
            out.push(c);
            proof {
                assert(views(out@) =~= views(before).push(c@));
            }
        }
        i = i + 1;
    }
    proof {
        assert(all.take(v.len() as int) =~= all);
    }
    out
}

impl PrefixIndex {
    /// The internal invariant: every recorded key is ASCII; a prefix is
    /// indexed exactly when some recorded key starts with it, and its list
    /// is the recorded keys that start with it, in recording order.
    pub closed spec fn wf(&self) -> bool {
        &&& forall|i: int| 0 <= i < self@.len() ==> is_ascii_chars(#[trigger] self@[i])
        &&& forall|p: Seq<char>| #[trigger]
            self.index@.contains_key(p) <==> p.len() > 0 && self@.filter(under(p)).len() > 0
        &&& forall|p: Seq<char>| #[trigger]
            self.index@.contains_key(p) ==> views(self.index@[p]@) == self@.filter(under(p))
    }

    /// The distinct recorded keys that start with `p`.
    pub open spec fn keys_under(self, p: Seq<char>) -> Set<Seq<char>> {
        self@.filter(under(p)).to_set()
    }

    /// An index with nothing recorded.
    pub fn new() -> (res: Self)
        ensures
            res.wf(),
            res@ == Seq::<Seq<char>>::empty(),
    {
        let res = PrefixIndex { index: StringHashMap::new(), recorded: Ghost(Seq::empty()) };
        proof {
            assert forall|p: Seq<char>| #[trigger]
                res.index@.contains_key(p) <==> p.len() > 0 && res@.filter(under(p)).len() > 0 by {
                reveal(Seq::filter);
            }
        }
        res
    }

    /// Records `key` under each of its non-empty leading parts.
    pub fn record(&mut self, key: &str)
        requires
            old(self).wf(),
            key.is_ascii(),
        ensures
            final(self).wf(),
            final(self)@ == old(self)@.push(key@),
    {
        let n: usize = key.unicode_len();
        let ghost r0 = self@;
        let ghost r1 = r0.push(key@);
        let ghost m0 = self.index@;
        proof {
            assert forall|p: Seq<char>| #[trigger] r1.filter(under(p)) == (if under(p)(key@) {
                r0.filter(under(p)).push(key@)
            } else {
                r0.filter(under(p))
            }) by {
                r0.lemma_filter_push(key@, under(p));
            }
        }
        let mut i: usize = 0;
        while i < n
            invariant
                0 <= i <= n,
                n == key@.len(),
                key.is_ascii(),
                self@ == r0,
                r0 == old(self)@,
                r1 == r0.push(key@),
                m0 == old(self).index@,
                old(self).wf(),
                forall|p: Seq<char>| #[trigger] r1.filter(under(p)) == (if under(p)(key@) {
                    r0.filter(under(p)).push(key@)
                } else {
                    r0.filter(under(p))
                }),
                forall|p: Seq<char>| #[trigger]
                    self.index@.contains_key(p) <==> (m0.contains_key(p) || (has_prefix(key@, p)
                        && p.len() <= i)),
                forall|p: Seq<char>| #[trigger]
                    self.index@.contains_key(p) ==> views(self.index@[p]@) == (if has_prefix(
                        key@,
                        p,
                    ) && p.len() <= i {
                        r1.filter(under(p))
                    } else {
                        r0.filter(under(p))
                    }),
            decreases n - i,
        {
            let part = key.substring_ascii(0, i + 1);
            let ghost p = part@;
            proof {
                assert(has_prefix(key@, p));
            }
            let mut list = match self.index.get(part) {
                Some(v) => copy_keys(v),
                None => Vec::new(),
            };
            proof {
                assert(old(self).index@.contains_key(p) <==> p.len() > 0 && r0.filter(under(p)).len()
                    > 0);
                if !self.index@.contains_key(p) {
                    assert(!m0.contains_key(p));
                    assert(r0.filter(under(p)).len() == 0);
                    assert(views(list@) =~= r0.filter(under(p)));
                }
            }
            let ghost before = list@;
            list.push(key.to_owned());
            proof {
                assert(views(list@) =~= views(before).push(key@));
                assert(under(p)(key@));
            }
            self.index.insert(String::from_str(part), list);
            proof {
                assert forall|q: Seq<char>| #[trigger]
                    self.index@.contains_key(q) <==> (m0.contains_key(q) || (has_prefix(key@, q)
                        && q.len() <= i + 1)) by {
                    if has_prefix(key@, q) && q.len() == i + 1 {
                        assert(q =~= key@.subrange(0, i as int + 1));
                        assert(q =~= p);
                    }
                    if q == p {
                        assert(q.len() == i + 1);
                    }
                }
                assert forall|q: Seq<char>| #[trigger]
                    self.index@.contains_key(q) implies views(self.index@[q]@) == (if has_prefix(
                        key@,
                        q,
                    ) && q.len() <= i + 1 {
                        r1.filter(under(q))
                    } else {
                        r0.filter(under(q))
                    }) by {
                    if has_prefix(key@, q) && q.len() == i + 1 {
                        assert(q =~= key@.subrange(0, i as int + 1));
                        assert(q =~= p);
                    }
                }
            }
            i = i + 1;
        }
        self.recorded = Ghost(r1);
        proof {
            assert forall|j: int| 0 <= j < self@.len() implies is_ascii_chars(#[trigger] self@[j]) by {
                if j == r0.len() {
                    assert(self@[j] == key@);
                } else {
                    assert(self@[j] == r0[j]);
                }
            }
            assert forall|p: Seq<char>| #[trigger]
                self.index@.contains_key(p) <==> p.len() > 0 && self@.filter(under(p)).len()
                > 0 by {
                if has_prefix(key@, p) {
                    assert(p.len() <= n);
                }
            }
            assert forall|p: Seq<char>| #[trigger] self.index@.contains_key(p) implies views(
                self.index@[p]@,
            ) == self@.filter(under(p)) by {
                if has_prefix(key@, p) {
                    assert(p.len() <= n);
                }
            }
        }
    }

    /// Drops every record of `key`.
    pub fn forget(&mut self, key: &str)
        requires
            old(self).wf(),
            key.is_ascii(),
        ensures
            final(self).wf(),
            final(self)@ == old(self)@.filter(other_than(key@)),
    {
        let n: usize = key.unicode_len();
        let ghost r0 = self@;
        let ghost r1 = r0.filter(other_than(key@));
        let ghost m0 = self.index@;
        proof {
            assert forall|p: Seq<char>| #[trigger] r1.filter(under(p)) == (if under(p)(key@) {
                r0.filter(under(p)).filter(other_than(key@))
            } else {
                r0.filter(under(p))
            }) by {
                lemma_filter_filter(r0, other_than(key@), under(p));
                lemma_filter_filter(r0, under(p), other_than(key@));
                let a = |x: Seq<char>| other_than(key@)(x) && under(p)(x);
                let b = |x: Seq<char>| under(p)(x) && other_than(key@)(x);
                assert(a =~= b);
                if !under(p)(key@) {
                    let f = r0.filter(under(p));
                    assert forall|j: int| 0 <= j < f.len() implies other_than(key@)(
                        #[trigger] f[j],
                    ) by {
                        r0.lemma_filter_pred(under(p), j);
                    }
                    lemma_filter_all(f, other_than(key@));
                }
            }
        }
        let mut i: usize = 0;
        while i < n
            invariant
                0 <= i <= n,
                n == key@.len(),
                key.is_ascii(),
                self@ == r0,
                r0 == old(self)@,
                r1 == r0.filter(other_than(key@)),
                m0 == old(self).index@,
                old(self).wf(),
                forall|p: Seq<char>| #[trigger] r1.filter(under(p)) == (if under(p)(key@) {
                    r0.filter(under(p)).filter(other_than(key@))
                } else {
                    r0.filter(under(p))
                }),
                forall|p: Seq<char>| #[trigger]
                    self.index@.contains_key(p) <==> (if has_prefix(key@, p) && p.len() <= i {
                        p.len() > 0 && r1.filter(under(p)).len() > 0
                    } else {
                        m0.contains_key(p)
                    }),
                forall|p: Seq<char>| #[trigger]
                    self.index@.contains_key(p) ==> views(self.index@[p]@) == (if has_prefix(
                        key@,
                        p,
                    ) && p.len() <= i {
                        r1.filter(under(p))
                    } else {
                        r0.filter(under(p))
                    }),
            decreases n - i,
        {
            let part = key.substring_ascii(0, i + 1);
            let ghost p = part@;
            proof {
                assert(has_prefix(key@, p));
            }
            let found = match self.index.get(part) {
                Some(v) => Some(drop_key(v, key)),
                None => None,
            };
            match found {
                Some(rest) => {
                    if rest.len() == 0 {
                        self.index.remove(part);
                    } else {
                        self.index.insert(String::from_str(part), rest);
                    }
                },
                None => {
                    proof {
                        assert(old(self).index@.contains_key(p) <==> p.len() > 0 && r0.filter(
                            under(p),
                        ).len() > 0);
                        assert(!m0.contains_key(p));
                        assert(r0.filter(under(p)).len() == 0);
                        r0.filter(under(p)).lemma_filter_len(other_than(key@));
                    }
                },
            }
            proof {
                assert forall|q: Seq<char>| #[trigger]
                    self.index@.contains_key(q) <==> (if has_prefix(key@, q) && q.len() <= i + 1 {
                        q.len() > 0 && r1.filter(under(q)).len() > 0
                    } else {
                        m0.contains_key(q)
                    }) by {
                    if has_prefix(key@, q) && q.len() == i + 1 {
                        assert(q =~= key@.subrange(0, i as int + 1));
                        assert(q =~= p);
                    }
                    if q == p {
                        assert(q.len() == i + 1);
                    }
                }
                assert forall|q: Seq<char>| #[trigger]
                    self.index@.contains_key(q) implies views(self.index@[q]@) == (if has_prefix(
                        key@,
                        q,
                    ) && q.len() <= i + 1 {
                        r1.filter(under(q))
                    } else {
                        r0.filter(under(q))
                    }) by {
                    if has_prefix(key@, q) && q.len() == i + 1 {
                        assert(q =~= key@.subrange(0, i as int + 1));
                        assert(q =~= p);
                    }
                }
            }
            i = i + 1;
        }
        self.recorded = Ghost(r1);
        proof {
            assert forall|j: int| 0 <= j < self@.len() implies is_ascii_chars(#[trigger] self@[j]) by {
                lemma_filter_contains_iff(r0, other_than(key@), self@[j]);
                assert(r1.contains(r1[j]));
                let k = choose|k: int| 0 <= k < r0.len() && r0[k] == r1[j];
                assert(is_ascii_chars(r0[k]));
            }
            assert forall|p: Seq<char>| #[trigger]
                self.index@.contains_key(p) <==> p.len() > 0 && self@.filter(under(p)).len()
                > 0 by {
                if has_prefix(key@, p) {
                    assert(p.len() <= n);
                }
            }
            assert forall|p: Seq<char>| #[trigger] self.index@.contains_key(p) implies views(
                self.index@[p]@,
            ) == self@.filter(under(p)) by {
                if has_prefix(key@, p) {
                    assert(p.len() <= n);
                }
            }
        }
    }

    /// The distinct recorded keys that start with `prefix`, each once
    /// (none for the empty prefix, which the index never lists).
    pub fn lookup(&self, prefix: &str) -> (res: Vec<String>)
        requires
            self.wf(),
        ensures
            views(res@).no_duplicates(),
            views(res@).to_set() == self.keys_under(prefix@),
    {
        let ghost p = prefix@;
        let mut out: Vec<String> = Vec::new();
        match self.index.get(prefix) {
            Some(list) => {
                let ghost all = views(list@);
                let mut i: usize = 0;
                while i < list.len()
                    invariant
                        i <= list.len(),
                        all == views(list@),
                        views(out@).no_duplicates(),
                        views(out@).to_set() == all.take(i as int).to_set(),
                    decreases list.len() - i,
                {
                    let mut seen = false;
                    let mut j: usize = 0;
                    while j < out.len()
                        invariant
                            j <= out.len(),
                            i < list.len(),
                            all == views(list@),
                            seen == (exists|m: int| 0 <= m < j && out@[m]@ == list@[i as int]@),
                        decreases out.len() - j,
                    {
                        if same(out[j].as_str(), list[i].as_str()) {
                            seen = true;
                            assert(out@[j as int]@ == list@[i as int]@);
                        }
                        j = j + 1;
                    }
                    proof {
                        assert(all.take(i as int + 1) =~= all.take(i as int).push(all[i as int]));
                        all.take(i as int).lemma_push_to_set_commute(all[i as int]);
                    }
                    if !seen {
                        let ghost before = views(out@);
                        let c = list[i].clone();
                        out.push(c);
                        proof {
                            assert(views(out@) =~= before.push(all[i as int]));
                            assert(!before.contains(all[i as int]));
                            crate::recency::lemma_push_fresh(before, all[i as int]);
                        }
                    } else {
                        proof {
                            let m = choose|m: int| 0 <= m < out.len() && out@[m]@ == list@[i as int]@;
                            assert(views(out@)[m] == all[i as int]);
                            assert(views(out@).contains(all[i as int]));
                            assert(views(out@).to_set().contains(all[i as int]));
                            assert(views(out@).to_set() =~= all.take(i as int + 1).to_set());
                        }
                    }
                    i = i + 1;
                }
                proof {
                    assert(all.take(list.len() as int) =~= all);
                }
            },
            None => {
                proof {
                    let f = self@.filter(under(p));
                    if f.len() > 0 {
                        assert(f.contains(f[0]));
                        lemma_filter_contains_iff(self@, under(p), f[0]);
                    }
                    assert(self@.filter(under(p)).len() == 0);
                    assert(views(out@) =~= Seq::<Seq<char>>::empty());
                    assert(self.keys_under(p) =~= Set::<Seq<char>>::empty());
                    assert(views(out@).to_set() =~= Set::<Seq<char>>::empty());
                }
            },
        }
        out
    }

    /// Detaches every recorded key that starts with `prefix` (none, for
    /// the empty prefix): the distinct keys are handed back, once each, and no
    /// longer recorded. With no such key, nothing changes and the result
    /// is the error "prefix not found".
    pub fn take_prefix(&mut self, prefix: &str) -> (res: Result<Vec<String>, CacheError>)
        requires
            old(self).wf(),
        ensures
            final(self).wf(),
            match res {
                Ok(keys) => {
                    &&& old(self).keys_under(prefix@).len() > 0
                    &&& views(keys@).no_duplicates()
                    &&& views(keys@).to_set() == old(self).keys_under(prefix@)
                    &&& final(self)@ == old(self)@.filter(outside_prefix(prefix@))
                },
                Err(e) => {
                    &&& old(self).keys_under(prefix@).len() == 0
                    &&& e.0@ == "prefix not found"@
                    &&& final(self)@ == old(self)@
                },
            },
    {
        let keys = self.lookup(prefix);
        proof {
            crate::recency::lemma_no_duplicates_len(views(keys@));
        }
        if keys.len() == 0 {
            return Err(CacheError::new("prefix not found"));
        }
        let ghost r0 = self@;
        let ghost ks = views(keys@);
        proof {
            assert(ks.take(0) =~= Seq::<Seq<char>>::empty());
            assert forall|j: int| 0 <= j < r0.len() implies not_in(ks.take(0))(#[trigger] r0[j]) by {}
            lemma_filter_all(r0, not_in(ks.take(0)));
        }
        let mut i: usize = 0;
        while i < keys.len()
            invariant
                i <= keys.len(),
                self.wf(),
                ks == views(keys@),
                ks.no_duplicates(),
                ks.to_set() == r0.filter(under(prefix@)).to_set(),
                forall|j: int| 0 <= j < r0.len() ==> is_ascii_chars(#[trigger] r0[j]),
                self@ == r0.filter(not_in(ks.take(i as int))),
            decreases keys.len() - i,
        {
            let ghost k = ks[i as int];
            proof {
                assert(ks.to_set().contains(k));
                lemma_filter_contains_iff(r0, under(prefix@), k);
                let j = choose|j: int| 0 <= j < r0.len() && r0[j] == k;
                assert(is_ascii_chars(r0[j]));
            }
            self.forget(keys[i].as_str());
            proof {
                let t = ks.take(i as int);
                let t1 = ks.take(i as int + 1);
                assert(t1 =~= t.push(k));
                lemma_filter_filter(r0, not_in(t), other_than(k));
                assert forall|x: Seq<char>| #[trigger] not_in(t1)(x) == (not_in(t)(x) && other_than(k)(x)) by {
                    if x == k {
                        assert(t1[t.len() as int] == x);
                    } else {
                        if t1.contains(x) {
                            let j = choose|j: int| 0 <= j < t1.len() && t1[j] == x;
                            assert(j < t.len());
                            assert(t[j] == x);
                        }
                        if t.contains(x) {
                            let j = choose|j: int| 0 <= j < t.len() && t[j] == x;
                            assert(t1[j] == x);
                        }
                    }
                }
                assert(not_in(t1) =~= (|x: Seq<char>| not_in(t)(x) && other_than(k)(x)));
            }
            i = i + 1;
        }
        proof {
            assert(ks.take(keys.len() as int) =~= ks);
            assert forall|j: int| 0 <= j < r0.len() implies not_in(ks)(#[trigger] r0[j])
                == outside_prefix(prefix@)(r0[j]) by {
                lemma_filter_contains_iff(r0, under(prefix@), r0[j]);
                assert(r0.contains(r0[j]));
                assert(ks.contains(r0[j]) == ks.to_set().contains(r0[j]));
            }
            lemma_filter_agree(r0, not_in(ks), outside_prefix(prefix@));
        }
        Ok(keys)
    }

    /// Drops every record.
    pub fn clear(&mut self)
        ensures
            final(self).wf(),
            final(self)@ == Seq::<Seq<char>>::empty(),
    {
        self.index.clear();
        self.recorded = Ghost(Seq::empty());
        proof {
            assert forall|p: Seq<char>| #[trigger]
                self.index@.contains_key(p) <==> p.len() > 0 && self@.filter(under(p)).len() > 0 by {
                reveal(Seq::filter);
            }
        }
    }
}

/// A recorded key is found under each of its non-empty leading parts.
pub proof fn lemma_record_then_lookup(r: Seq<Seq<char>>, k: Seq<char>, p: Seq<char>)
    requires
        has_prefix(k, p),
    ensures
        r.push(k).filter(under(p)).to_set().contains(k),
{
    r.lemma_filter_push(k, under(p));
    assert(r.filter(under(p)).push(k)[r.filter(under(p)).len() as int] == k);
}

/// A forgotten key is found under no prefix.
pub proof fn lemma_forget_then_lookup(r: Seq<Seq<char>>, k: Seq<char>, p: Seq<char>)
    ensures
        !r.filter(other_than(k)).filter(under(p)).to_set().contains(k),
{
    let f = r.filter(other_than(k));
    lemma_filter_contains_iff(f, under(p), k);
    lemma_filter_contains_iff(r, other_than(k), k);
}

/// After the keys under a prefix are taken, none is left under it.
pub proof fn lemma_take_prefix_empties(r: Seq<Seq<char>>, p: Seq<char>, x: Seq<char>)
    ensures
        !r.filter(outside_prefix(p)).filter(under(p)).to_set().contains(x),
{
    let f = r.filter(outside_prefix(p));
    lemma_filter_contains_iff(f, under(p), x);
    lemma_filter_contains_iff(r, outside_prefix(p), x);
}

} // verus!
