//! Sets of variables, kept as boolean vectors indexed by variable id.

use vstd::prelude::*;

verus! {

/// The set of indices marked true.
pub open spec fn bm(s: Seq<bool>) -> Set<int> {
    Set::new(|i: int| 0 <= i < s.len() && s[i])
}

/// An all-false vector of length `n`.
pub fn bitset_new(n: usize) -> (r: Vec<bool>)
    ensures
        r@.len() == n,
        forall|i: int| 0 <= i < n ==> !r@[i],
{
    let mut r: Vec<bool> = Vec::new();
    let mut i: usize = 0;
    while i < n
        invariant
            i <= n,
            r@.len() == i,
            forall|j: int| 0 <= j < i ==> !r@[j],
        decreases n - i,
    {
        r.push(false);
        i = i + 1;
    }
    r
}

/// Marks every index marked in `src` into `dst`.
pub fn bitset_or(dst: Vec<bool>, src: &Vec<bool>) -> (r: Vec<bool>)
    requires
        dst@.len() == src@.len(),
    ensures
        r@.len() == dst@.len(),
        forall|i: int| 0 <= i < r@.len() ==> r@[i] == (dst@[i] || src@[i]),
{
    let mut out = dst;
    let n = out.len();
    let mut i: usize = 0;
    while i < n
        invariant
            n == out@.len(),
            n == src@.len(),
            i <= n,
            forall|j: int| 0 <= j < i ==> out@[j] == (dst@[j] || src@[j]),
            forall|j: int| i <= j < n ==> out@[j] == dst@[j],
        decreases n - i,
    {
        let ghost before = out@;
        let c = src[i];
        if c {
            out[i] = true;
        }
        proof {
            assert forall|j: int| 0 <= j < i + 1 implies out@[j] == (dst@[j] || src@[j]) by {
                if j < i {
                    assert(out@[j] == before[j]);
                }
            }
            assert forall|j: int| i + 1 <= j < n implies out@[j] == dst@[j] by {
                assert(out@[j] == before[j]);
            }
        }
        i = i + 1;
    }
    out
}

/// Whether any index is marked.
pub fn bitset_any(v: &Vec<bool>) -> (r: bool)
    ensures
        r == exists|i: int| 0 <= i < v@.len() && v@[i],
{
    let n = v.len();
    let mut i: usize = 0;
    while i < n
        invariant
            n == v@.len(),
            i <= n,
            forall|j: int| 0 <= j < i ==> !v@[j],
        decreases n - i,
    {
        if v[i] {
            return true;
        }
        i = i + 1;
    }
    false
}

/// Whether some index is marked in both vectors.
pub fn bitset_intersects(a: &Vec<bool>, b: &Vec<bool>) -> (r: bool)
    requires
        a@.len() == b@.len(),
    ensures
        r == exists|i: int| 0 <= i < a@.len() && a@[i] && b@[i],
{
    let n = a.len();
    let mut i: usize = 0;
    while i < n
        invariant
            n == a@.len(),
            n == b@.len(),
            i <= n,
            forall|j: int| 0 <= j < i ==> !(a@[j] && b@[j]),
        decreases n - i,
    {
        if a[i] && b[i] {
            return true;
        }
        i = i + 1;
    }
    false
}

/// Number of indices not marked.
pub open spec fn count_false(s: Seq<bool>) -> int
    decreases s,
{
    if s.len() == 0 {
        0
    } else {
        count_false(s.drop_last()) + if s.last() {
            0int
        } else {
            1int
        }
    }
}

pub proof fn lemma_count_false_nonneg(s: Seq<bool>)
    ensures
        count_false(s) >= 0,
    decreases s,
{
    if s.len() > 0 {
        lemma_count_false_nonneg(s.drop_last());
    }
}

/// Marking an unmarked index lowers the count by one.
pub proof fn lemma_count_false_update(s: Seq<bool>, i: int)
    requires
        0 <= i < s.len(),
        !s[i],
    ensures
        count_false(s.update(i, true)) == count_false(s) - 1,
    decreases s,
{
    let t = s.update(i, true);
    if i == s.len() - 1 {
        assert(t.drop_last() =~= s.drop_last());
    } else {
        assert(t.drop_last() =~= s.drop_last().update(i, true));
        assert(t.last() == s.last());
        lemma_count_false_update(s.drop_last(), i);
    }
}

} // verus!

