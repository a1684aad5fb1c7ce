//! Which way the cost of a vector was computed, counted.
use vstd::prelude::*;
use crate::census::up;
use crate::counters::{copy, raise, zeros};

verus! {

/// A counter for each of three ways.
pub struct SatdPath {
    pub c: Vec<u64>,
}

impl SatdPath {
    pub open spec fn wf(self) -> bool {
        self.c@.len() == 3
    }
}

/// Counters that are zero.
pub fn new() -> (s: SatdPath)
    ensures
        s.c@ == Seq::new(3, |i: int| 0u64),
        s.wf(),
{
    SatdPath { c: zeros(3) }
}

/// Way `i` was taken.
pub fn bump(s: &mut SatdPath, i: usize)
    requires
        old(s).wf(),
        i < 3,
    ensures
        final(s).c@ == old(s).c@.update(i as int, up(old(s).c@[i as int])),
        final(s).wf(),
{
    raise(&mut s.c, i);
}

/// Set all counters to zero.
pub fn reset(s: &mut SatdPath)
    ensures
        final(s).c@ == Seq::new(3, |i: int| 0u64),
        final(s).wf(),
{
    s.c = zeros(3);
}

/// The counters.
pub fn snapshot(s: &SatdPath) -> (r: Vec<u64>)
    ensures
        r@ == s.c@,
{
    copy(&s.c)
}

} // verus!
