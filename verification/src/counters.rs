//! Rows of counters.
use vstd::prelude::*;
use crate::census::up;

verus! {

/// Raise one of a row of counters.
pub fn raise(c: &mut Vec<u64>, i: usize)
    requires
        i < old(c)@.len(),
    ensures
        final(c)@ == old(c)@.update(i as int, up(old(c)@[i as int])),
{
    let v: u64 = c[i];
    c.set(
        i,
        if v < u64::MAX {
            v + 1
        } else {
            0
        },
    );
}

/// A row of counters that are zero.
pub fn zeros(n: usize) -> (c: Vec<u64>)
    ensures
        c@ == Seq::new(n as nat, |i: int| 0u64),
{
    let mut c: Vec<u64> = Vec::new();
    let mut i: usize = 0;
    while i < n
        invariant
            i <= n,
            c@ == Seq::new(i as nat, |j: int| 0u64),
        decreases n - i,
    {
        c.push(0);
        i = i + 1;
        assert(c@ =~= Seq::new(i as nat, |j: int| 0u64));
    }
    c
}

/// A copy of a row of counters.
pub fn copy(c: &Vec<u64>) -> (r: Vec<u64>)
    ensures
        r@ == c@,
{
    let mut r: Vec<u64> = Vec::new();
    let mut i: usize = 0;
    while i < c.len()
        invariant
            i <= c@.len(),
            r@ == c@.take(i as int),
        decreases c@.len() - i,
    {
        r.push(c[i]);
        i = i + 1;
        assert(r@ =~= c@.take(i as int));
    }
    assert(c@.take(c@.len() as int) =~= c@);
    r
}

} // verus!
