//! Order statistics: the value that a given number of the entries of a list lie below.
use vstd::prelude::*;

verus! {

/// How many of the first `k` entries are at most `x`.
pub open spec fn at_most(v: Seq<i64>, x: int, k: int) -> int
    decreases k,
{
    if k <= 0 {
        0
    } else {
        at_most(v, x, k - 1) + if v[k - 1] <= x {
            1int
        } else {
            0
        }
    }
}

/// `r` stands at place `k` when the entries are sorted: more than `k` entries are at most `r`,
/// and at most `k` are less.
pub open spec fn is_nth(v: Seq<i64>, k: int, r: i64) -> bool {
    &&& at_most(v, r as int, v.len() as int) > k
    &&& at_most(v, r - 1, v.len() as int) <= k
}

proof fn lemma_all(v: Seq<i64>, x: int, k: int)
    requires
        0 <= k <= v.len(),
        forall|i: int| 0 <= i < k ==> #[trigger] v[i] <= x,
    ensures
        at_most(v, x, k) == k,
    decreases k,
{
    if k > 0 {
        lemma_all(v, x, k - 1);
    }
}

proof fn lemma_none(v: Seq<i64>, x: int, k: int)
    requires
        0 <= k <= v.len(),
        forall|i: int| 0 <= i < k ==> #[trigger] v[i] > x,
    ensures
        at_most(v, x, k) == 0,
    decreases k,
{
    if k > 0 {
        lemma_none(v, x, k - 1);
    }
}

/// What stands at a place is one of the entries.
pub proof fn law_nth_is_an_entry(v: Seq<i64>, k: int, r: i64)
    requires
        is_nth(v, k, r),
    ensures
        exists|i: int| 0 <= i < v.len() && #[trigger] v[i] == r,
{
    if forall|i: int| 0 <= i < v.len() ==> #[trigger] v[i] != r {
        lemma_same(v, r as int, v.len() as int);
    }
}

proof fn lemma_same(v: Seq<i64>, x: int, k: int)
    requires
        0 <= k <= v.len(),
        forall|i: int| 0 <= i < v.len() ==> #[trigger] v[i] != x,
    ensures
        at_most(v, x, k) == at_most(v, x - 1, k),
    decreases k,
{
    if k > 0 {
        lemma_same(v, x, k - 1);
        assert(v[k - 1] != x);
    }
}

proof fn lemma_grows(v: Seq<i64>, x: int, y: int, k: int)
    requires
        x <= y,
    ensures
        at_most(v, x, k) <= at_most(v, y, k),
    decreases k,
{
    if k > 0 {
        lemma_grows(v, x, y, k - 1);
    }
}

/// Only one value stands at a place.
pub proof fn law_nth_is_unique(v: Seq<i64>, k: int, a: i64, b: i64)
    requires
        is_nth(v, k, a),
        is_nth(v, k, b),
    ensures
        a == b,
{
    let n = v.len() as int;
    if a < b {
        lemma_grows(v, a as int, b - 1, n);
    }
    if b < a {
        lemma_grows(v, b as int, a - 1, n);
    }
}

fn count(v: &Vec<i64>, x: i64) -> (r: usize)
    ensures
        r == at_most(v@, x as int, v@.len() as int),
{
    let mut c: usize = 0;
    let mut i: usize = 0;
    while i < v.len()
        invariant
            i <= v@.len(),
            c <= i,
            c == at_most(v@, x as int, i as int),
        decreases v@.len() - i,
    {
        if v[i] <= x {
            c = c + 1;
        }
        i = i + 1;
    }
    c
}

/// The entry that stands at place `k` when the entries, none of them negative, are sorted.
pub fn nth(v: &Vec<i64>, k: usize) -> (r: i64)
    requires
        k < v@.len(),
        forall|i: int| 0 <= i < v@.len() ==> 0 <= #[trigger] v@[i],
    ensures
        is_nth(v@, k as int, r),
        r >= 0,
{
    let (mut lo, mut hi): (i64, i64) = (0, i64::MAX);
    proof {
        lemma_all(v@, i64::MAX as int, v@.len() as int);
        lemma_none(v@, -1, v@.len() as int);
    }
    while lo < hi
        invariant
            0 <= lo <= hi,
            at_most(v@, hi as int, v@.len() as int) > k,
            at_most(v@, lo - 1, v@.len() as int) <= k,
        decreases hi - lo,
    {
        let mid: i64 = lo + (hi - lo) / 2;
        if count(v, mid) > k {
            hi = mid;
        } else {
            lo = mid + 1;
        }
    }
    lo
}

} // verus!
