//! Prefix tests on strings, counted in characters.

use vstd::prelude::*;
use vstd::string::StrSliceExecFns;

verus! {

/// Whether `prefix` is a non-empty leading part of `key` (or all of it).
pub open spec fn has_prefix(key: Seq<char>, prefix: Seq<char>) -> bool {
    prefix.len() > 0 && prefix.is_prefix_of(key)
}

/// The test that passes keys starting with the non-empty prefix `p`.
pub open spec fn under(p: Seq<char>) -> spec_fn(Seq<char>) -> bool {
    |k: Seq<char>| has_prefix(k, p)
}

/// The test that passes keys that do not start with the non-empty prefix `p`.
pub open spec fn outside_prefix(p: Seq<char>) -> spec_fn(Seq<char>) -> bool {
    |k: Seq<char>| !has_prefix(k, p)
}

/// The character views of a list of strings.
pub open spec fn views(v: Seq<String>) -> Seq<Seq<char>> {
    v.map_values(|s: String| s@)
}

/// Whether `key` begins with `prefix`, comparing characters.
pub fn starts_with(key: &str, prefix: &str) -> (res: bool)
    ensures
        res == prefix@.is_prefix_of(key@),
{
    let n: usize = prefix.unicode_len();
    let m: usize = key.unicode_len();
    if n > m {
        return false;
    }
    let mut i: usize = 0;
    while i < n
        invariant
            n == prefix@.len(),
            m == key@.len(),
            n <= m,
            i <= n,
            forall|j: int| 0 <= j < i ==> prefix@[j] == key@[j],
        decreases n - i,
    {
        if prefix.get_char(i) != key.get_char(i) {
            return false;
        }
        i = i + 1;
    }
    assert(prefix@ =~= key@.subrange(0, n as int));
    true
}

/// Whether two strings hold the same characters.
pub fn same(a: &str, b: &str) -> (res: bool)
    ensures
        res == (a@ == b@),
{
    if a.unicode_len() != b.unicode_len() {
        return false;
    }
    let r = starts_with(a, b);
    if r {
        assert(a@ =~= b@);
    }
    r
}

/// A copy of a list of strings.
pub(crate) fn copy_keys(v: &Vec<String>) -> (res: Vec<String>)
    ensures
        views(res@) == views(v@),
{
    let mut out: Vec<String> = Vec::new();
    let mut i: usize = 0;
    while i < v.len()
        invariant
            i <= v.len(),
            views(out@) == views(v@).take(i as int),
        decreases v.len() - i,
    {
        let ghost before = out@;
        let c = v[i].clone();
        out.push(c);
        proof {
            assert(views(before).len() == i);
            assert(out@ == before.push(c));
            assert(views(out@) =~= views(v@).take(i as int + 1)) by {
                assert forall|j: int| 0 <= j < i implies views(out@)[j] == views(before)[j] by {
                    assert(out@[j] == before[j]);
                }
            }
        }
        i = i + 1;
    }
    proof {
        assert(views(v@).take(v.len() as int) =~= views(v@));
    }
    out
}

} // verus!
