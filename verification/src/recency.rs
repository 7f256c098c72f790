//! The `lru` crate's recency list, as the memory cache uses it: keys are
//! strings, values carry nothing, and the list runs from the least
//! recently used key (first) to the most recently used one (last).

use vstd::prelude::*;

verus! {

#[verifier::external_type_specification]
#[verifier::external_body]
#[verifier::reject_recursive_types(K)]
#[verifier::reject_recursive_types(V)]
#[verifier::reject_recursive_types(S)]
pub struct ExLruCache<K, V, S>(lru::LruCache<K, V, S>);

#[verifier::external_type_specification]
#[verifier::external_body]
pub struct ExLruHasher(lru::DefaultHasher);

/// The keys that an `lru::LruCache` holds, from least to most recently used.
pub uninterp spec fn lru_order(c: lru::LruCache<String, ()>) -> Seq<Seq<char>>;

/// The number of keys an `lru::LruCache` holds before it evicts.
pub uninterp spec fn lru_capacity(c: lru::LruCache<String, ()>) -> nat;

/// The test that passes every key but `k`.
pub open spec fn other_than(k: Seq<char>) -> spec_fn(Seq<char>) -> bool {
    |x: Seq<char>| x != k
}

/// `s` without any occurrence of `k`.
pub open spec fn without(s: Seq<Seq<char>>, k: Seq<char>) -> Seq<Seq<char>> {
    s.filter(other_than(k))
}

/// `s` with `k` moved (or added) to the most recently used end.
pub open spec fn touched(s: Seq<Seq<char>>, k: Seq<char>) -> Seq<Seq<char>> {
    without(s, k).push(k)
}

/// `lru::LruCache::new`: an empty cache that holds at most `cap` keys.
#[verifier::external_body]
pub(crate) fn lru_bounded(cap: usize) -> (res: lru::LruCache<String, ()>)
    requires
        cap > 0,
    ensures
        lru_order(res) == Seq::<Seq<char>>::empty(),
        lru_capacity(res) == cap,
{
    lru::LruCache::new(std::num::NonZeroUsize::new(cap).unwrap())
}

/// `lru::LruCache::unbounded`: an empty cache whose capacity is the
/// largest `usize`.
#[verifier::external_body]
pub(crate) fn lru_unbounded() -> (res: lru::LruCache<String, ()>)
    ensures
        lru_order(res) == Seq::<Seq<char>>::empty(),
        lru_capacity(res) == usize::MAX,
{
    lru::LruCache::unbounded()
}

/// `lru::LruCache::put`: a key already held moves to the most recently
/// used end; a new key goes there, after the least recently used key
/// has been dropped when the cache was full.
#[verifier::external_body]
pub(crate) fn lru_put(c: &mut lru::LruCache<String, ()>, k: String)
    ensures
        lru_capacity(*final(c)) == lru_capacity(*old(c)),
        lru_order(*final(c)) == (if lru_order(*old(c)).contains(k@) {
            touched(lru_order(*old(c)), k@)
        } else if lru_order(*old(c)).len() == lru_capacity(*old(c)) {
            lru_order(*old(c)).drop_first().push(k@)
        } else {
            lru_order(*old(c)).push(k@)
        }),
{
    c.put(k, ());
}

/// `lru::LruCache::promote`: a held key moves to the most recently used
/// end; the result says whether the key was held.
#[verifier::external_body]
pub(crate) fn lru_promote(c: &mut lru::LruCache<String, ()>, k: &str) -> (res: bool)
    ensures
        res == lru_order(*old(c)).contains(k@),
        lru_capacity(*final(c)) == lru_capacity(*old(c)),
        lru_order(*final(c)) == (if res {
            touched(lru_order(*old(c)), k@)
        } else {
            lru_order(*old(c))
        }),
{
    c.promote(k)
}

/// `lru::LruCache::pop`: the key leaves the cache.
#[verifier::external_body]
pub(crate) fn lru_pop(c: &mut lru::LruCache<String, ()>, k: &str)
    ensures
        lru_capacity(*final(c)) == lru_capacity(*old(c)),
        lru_order(*final(c)) == without(lru_order(*old(c)), k@),
{
    c.pop(k);
}

/// `lru::LruCache::pop_lru`: the least recently used key leaves the
/// cache and is handed back; nothing happens to an empty cache.
#[verifier::external_body]
pub(crate) fn lru_pop_lru(c: &mut lru::LruCache<String, ()>) -> (res: Option<String>)
    ensures
        lru_capacity(*final(c)) == lru_capacity(*old(c)),
        lru_order(*old(c)).len() == 0 ==> res is None && lru_order(*final(c)) == lru_order(*old(c)),
        lru_order(*old(c)).len() > 0 ==> res is Some && res.unwrap()@ == lru_order(*old(c))[0]
            && lru_order(*final(c)) == lru_order(*old(c)).drop_first(),
{
    c.pop_lru().map(|(k, _)| k)
}

/// `lru::LruCache::clear`: every key leaves the cache.
#[verifier::external_body]
pub(crate) fn lru_clear(c: &mut lru::LruCache<String, ()>)
    ensures
        lru_capacity(*final(c)) == lru_capacity(*old(c)),
        lru_order(*final(c)) == Seq::<Seq<char>>::empty(),
{
    c.clear();
}

/// Filtering keeps exactly the elements that pass.
pub proof fn lemma_filter_contains_iff(s: Seq<Seq<char>>, p: spec_fn(Seq<char>) -> bool, x: Seq<char>)
    ensures
        s.filter(p).contains(x) <==> s.contains(x) && p(x),
{
    broadcast use vstd::seq_lib::group_filter_ensures;

    if s.filter(p).contains(x) {
        s.lemma_filter_contains_rev(p, x);
        let i = choose|i: int| 0 <= i < s.filter(p).len() && s.filter(p)[i] == x;
        assert(p(s.filter(p)[i]));
    }
    if s.contains(x) && p(x) {
        let i = choose|i: int| 0 <= i < s.len() && s[i] == x;
        assert(s.filter(p).contains(s[i]));
    }
}

/// Filtering a sequence without duplicates leaves no duplicates.
pub proof fn lemma_filter_no_duplicates(s: Seq<Seq<char>>, p: spec_fn(Seq<char>) -> bool)
    requires
        s.no_duplicates(),
    ensures
        s.filter(p).no_duplicates(),
    decreases s.len(),
{
    reveal(Seq::filter);
    if s.len() > 0 {
        let rest = s.drop_last();
        assert(rest.no_duplicates());
        lemma_filter_no_duplicates(rest, p);
        if p(s.last()) {
            lemma_filter_contains_iff(rest, p, s.last());
            assert(!rest.contains(s.last()));
            let f = rest.filter(p);
            assert forall|i: int, j: int|
                0 <= i < f.push(s.last()).len() && 0 <= j < f.push(s.last()).len() && i != j
                implies f.push(s.last())[i] != f.push(s.last())[j] by {
                if i < f.len() && j == f.len() {
                    assert(f.contains(f[i]));
                }
                if j < f.len() && i == f.len() {
                    assert(f.contains(f[j]));
                }
            }
        }
    }
}

/// Filtering twice is filtering once by both tests.
pub proof fn lemma_filter_filter(
    s: Seq<Seq<char>>,
    p: spec_fn(Seq<char>) -> bool,
    q: spec_fn(Seq<char>) -> bool,
)
    ensures
        s.filter(p).filter(q) == s.filter(|x: Seq<char>| p(x) && q(x)),
    decreases s.len(),
{
    reveal(Seq::filter);
    if s.len() > 0 {
        lemma_filter_filter(s.drop_last(), p, q);
        let pq = |x: Seq<char>| p(x) && q(x);
        if p(s.last()) {
            s.drop_last().filter(p).lemma_filter_push(s.last(), q);
        }
        assert(s.filter(pq) == (if pq(s.last()) {
            s.drop_last().filter(pq).push(s.last())
        } else {
            s.drop_last().filter(pq)
        }));
    }
}

/// A sequence without duplicates, viewed as a set, has as many members
/// as the sequence has elements.
pub proof fn lemma_no_duplicates_len(s: Seq<Seq<char>>)
    requires
        s.no_duplicates(),
    ensures
        s.to_set().len() == s.len(),
        s.to_set().finite(),
{
    s.unique_seq_to_set();
}

/// Removing a key from a sequence without duplicates removes it from
/// the set of its members and keeps the sequence free of duplicates.
pub proof fn lemma_without(s: Seq<Seq<char>>, k: Seq<char>)
    requires
        s.no_duplicates(),
    ensures
        without(s, k).no_duplicates(),
        without(s, k).to_set() == s.to_set().remove(k),
{
    lemma_filter_no_duplicates(s, other_than(k));
    assert forall|x: Seq<char>| without(s, k).to_set().contains(x) <==> s.to_set().remove(k).contains(
        x,
    ) by {
        lemma_filter_contains_iff(s, other_than(k), x);
    }
    assert(without(s, k).to_set() =~= s.to_set().remove(k));
}

/// Appending a new key to a sequence without duplicates keeps it free of
/// duplicates and adds the key to its set of members.
pub proof fn lemma_push_fresh(s: Seq<Seq<char>>, k: Seq<char>)
    requires
        s.no_duplicates(),
        !s.contains(k),
    ensures
        s.push(k).no_duplicates(),
        s.push(k).to_set() == s.to_set().insert(k),
{
    assert forall|i: int, j: int|
        0 <= i < s.push(k).len() && 0 <= j < s.push(k).len() && i != j implies s.push(k)[i]
        != s.push(k)[j] by {
        if i == s.len() {
            assert(s.contains(s[j]));
        }
        if j == s.len() {
            assert(s.contains(s[i]));
        }
    }
    assert forall|x: Seq<char>| s.push(k).to_set().contains(x) <==> s.to_set().insert(k).contains(
        x,
    ) by {
        if s.push(k).contains(x) {
            let i = choose|i: int| 0 <= i < s.push(k).len() && s.push(k)[i] == x;
            if i < s.len() {
                assert(s.contains(s[i]));
            }
        }
        if s.contains(x) {
            let i = choose|i: int| 0 <= i < s.len() && s[i] == x;
            assert(s.push(k)[i] == x);
        }
        if x == k {
            assert(s.push(k)[s.len() as int] == k);
        }
    }
    assert(s.push(k).to_set() =~= s.to_set().insert(k));
}

/// Moving a key to the most recently used end keeps a sequence free of
/// duplicates and adds the key to its set of members.
pub proof fn lemma_touched(s: Seq<Seq<char>>, k: Seq<char>)
    requires
        s.no_duplicates(),
    ensures
        touched(s, k).no_duplicates(),
        touched(s, k).to_set() == s.to_set().insert(k),
{
    lemma_without(s, k);
    lemma_filter_contains_iff(s, other_than(k), k);
    lemma_push_fresh(without(s, k), k);
    assert(s.to_set().remove(k).insert(k) =~= s.to_set().insert(k));
}

/// Dropping the first element of a sequence without duplicates removes
/// exactly that element from its set of members.
pub proof fn lemma_drop_first(s: Seq<Seq<char>>)
    requires
        s.no_duplicates(),
        s.len() > 0,
    ensures
        s.drop_first().no_duplicates(),
        s.drop_first().to_set() == s.to_set().remove(s[0]),
{
    assert forall|x: Seq<char>|
        s.drop_first().to_set().contains(x) <==> s.to_set().remove(s[0]).contains(x) by {
        if s.drop_first().contains(x) {
            let i = choose|i: int| 0 <= i < s.drop_first().len() && s.drop_first()[i] == x;
            assert(s[i + 1] == x);
        }
        if s.contains(x) && x != s[0] {
            let i = choose|i: int| 0 <= i < s.len() && s[i] == x;
            assert(i != 0);
            assert(s.drop_first()[i - 1] == x);
        }
    }
    assert(s.drop_first().to_set() =~= s.to_set().remove(s[0]));
}

/// Filtering by two tests that agree on every element gives the same
/// sequence.
pub proof fn lemma_filter_agree(
    s: Seq<Seq<char>>,
    p: spec_fn(Seq<char>) -> bool,
    q: spec_fn(Seq<char>) -> bool,
)
    requires
        forall|i: int| 0 <= i < s.len() ==> p(#[trigger] s[i]) == q(s[i]),
    ensures
        s.filter(p) == s.filter(q),
    decreases s.len(),
{
    reveal(Seq::filter);
    if s.len() > 0 {
        let r = s.drop_last();
        assert forall|i: int| 0 <= i < r.len() implies p(#[trigger] r[i]) == q(r[i]) by {
            assert(r[i] == s[i]);
        }
        lemma_filter_agree(r, p, q);
        assert(p(s[s.len() - 1]) == q(s[s.len() - 1]));
    }
}

/// Removing the element at an index from a sequence without duplicates
/// removes exactly that element from its set of members.
pub proof fn lemma_remove_index(s: Seq<Seq<char>>, i: int)
    requires
        s.no_duplicates(),
        0 <= i < s.len(),
    ensures
        s.remove(i).no_duplicates(),
        s.remove(i).to_set() == s.to_set().remove(s[i]),
{
    s.remove_ensures(i);
    let r = s.remove(i);
    assert forall|a: int, b: int| 0 <= a < r.len() && 0 <= b < r.len() && a != b implies r[a]
        != r[b] by {
        let a2 = if a < i { a } else { a + 1 };
        let b2 = if b < i { b } else { b + 1 };
        assert(r[a] == s[a2]);
        assert(r[b] == s[b2]);
    }
    assert forall|x: Seq<char>| r.to_set().contains(x) <==> s.to_set().remove(s[i]).contains(
        x,
    ) by {
        if r.contains(x) {
            let a = choose|a: int| 0 <= a < r.len() && r[a] == x;
            let a2 = if a < i { a } else { a + 1 };
            assert(r[a] == s[a2]);
            assert(s.contains(x));
        }
        if s.contains(x) && x != s[i] {
            let a = choose|a: int| 0 <= a < s.len() && s[a] == x;
            assert(a != i);
            if a < i {
                assert(r[a] == x);
            } else {
                assert(r[a - 1] == x);
            }
        }
    }
    assert(r.to_set() =~= s.to_set().remove(s[i]));
}

/// Filtering by a test that every element passes changes nothing.
pub proof fn lemma_filter_all(s: Seq<Seq<char>>, p: spec_fn(Seq<char>) -> bool)
    requires
        forall|i: int| 0 <= i < s.len() ==> p(#[trigger] s[i]),
    ensures
        s.filter(p) == s,
    decreases s.len(),
{
    reveal(Seq::filter);
    if s.len() > 0 {
        let r = s.drop_last();
        assert forall|i: int| 0 <= i < r.len() implies p(#[trigger] r[i]) by {
            assert(r[i] == s[i]);
        }
        lemma_filter_all(r, p);
        assert(p(s[s.len() - 1]));
        assert(r.push(s.last()) =~= s);
    }
}

/// Whether `a` stands before `b` in `s`.
pub open spec fn precedes(s: Seq<Seq<char>>, a: Seq<char>, b: Seq<char>) -> bool {
    exists|i: int, j: int| 0 <= i < j < s.len() && #[trigger] s[i] == a && #[trigger] s[j] == b
}

/// Filtering keeps the order of what it keeps: `a` stands before `b`
/// after filtering exactly when both pass and `a` stood before `b`.
pub proof fn lemma_filter_order(
    s: Seq<Seq<char>>,
    p: spec_fn(Seq<char>) -> bool,
    a: Seq<char>,
    b: Seq<char>,
)
    ensures
        precedes(s.filter(p), a, b) <==> (precedes(s, a, b) && p(a) && p(b)),
    decreases s.len(),
{
    reveal(Seq::filter);
    if s.len() == 0 {
        return;
    }
    let d = s.drop_last();
    let l = s.last();
    lemma_filter_order(d, p, a, b);
    let fd = d.filter(p);
    let f = s.filter(p);
    assert(f == (if p(l) { fd.push(l) } else { fd }));
    if precedes(f, a, b) {
        let (i, j) = choose|i: int, j: int|
            0 <= i < j < f.len() && #[trigger] f[i] == a && #[trigger] f[j] == b;
        broadcast use vstd::seq_lib::group_filter_ensures;
        if p(l) && j == fd.len() {
            assert(f[i] == fd[i]);
            assert(p(fd[i]));
            lemma_filter_contains_iff(d, p, a);
            assert(fd.contains(a));
            let k = choose|k: int| 0 <= k < d.len() && d[k] == a;
            assert(s[k] == a && s[s.len() - 1] == b);
            assert(p(b));
        } else {
            assert(f[i] == fd[i] && f[j] == fd[j]);
            assert(precedes(fd, a, b));
            let (k, m) = choose|k: int, m: int|
                0 <= k < m < d.len() && #[trigger] d[k] == a && #[trigger] d[m] == b;
            assert(s[k] == a && s[m] == b);
        }
    }
    if precedes(s, a, b) && p(a) && p(b) {
        let (i, j) = choose|i: int, j: int|
            0 <= i < j < s.len() && #[trigger] s[i] == a && #[trigger] s[j] == b;
        if j == s.len() - 1 {
            assert(d[i] == a);
            lemma_filter_contains_iff(d, p, a);
            let k = choose|k: int| 0 <= k < fd.len() && fd[k] == a;
            assert(f[k] == a && f[fd.len() as int] == b);
        } else {
            assert(d[i] == a && d[j] == b);
            assert(precedes(d, a, b));
            let (k, m) = choose|k: int, m: int|
                0 <= k < m < fd.len() && #[trigger] fd[k] == a && #[trigger] fd[m] == b;
            assert(f[k] == a && f[m] == b);
        }
    }
}

} // verus!
