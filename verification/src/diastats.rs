//! How often each rung of the walk was tried, and how often it brought something.
use vstd::prelude::*;
use crate::census::up;
use crate::counters::{raise, zeros};

verus! {

/// Two counters for each of six rungs: trials, and improvements.
pub struct DiaStats {
    pub c: Vec<u64>,
}

impl DiaStats {
    pub open spec fn wf(self) -> bool {
        self.c@.len() == 12
    }
}

/// Counters that are zero.
pub fn new() -> (s: DiaStats)
    ensures
        s.c@ == Seq::new(12, |i: int| 0u64),
        s.wf(),
{
    DiaStats { c: zeros(12) }
}

/// Rung `i` was tried.
pub fn ev(s: &mut DiaStats, i: usize)
    requires
        old(s).wf(),
        i < 6,
    ensures
        final(s).c@ == old(s).c@.update(2 * i, up(old(s).c@[2 * i])),
        final(s).wf(),
{
    raise(&mut s.c, 2 * i);
}

/// Rung `i` brought something.
pub fn imp(s: &mut DiaStats, i: usize)
    requires
        old(s).wf(),
        i < 6,
    ensures
        final(s).c@ == old(s).c@.update(2 * i + 1, up(old(s).c@[2 * i + 1])),
        final(s).wf(),
{
    raise(&mut s.c, 2 * i + 1);
}

/// Set all counters to zero.
pub fn reset(s: &mut DiaStats)
    ensures
        final(s).c@ == Seq::new(12, |i: int| 0u64),
        final(s).wf(),
{
    s.c = zeros(12);
}

/// The trials and improvements of each rung.
pub fn snapshot(s: &DiaStats) -> (r: Vec<(u64, u64)>)
    requires
        s.wf(),
    ensures
        r@.len() == 6,
        forall|i: int| 0 <= i < 6 ==> #[trigger] r@[i] == (s.c@[2 * i], s.c@[2 * i + 1]),
{
    let mut r: Vec<(u64, u64)> = Vec::new();
    let mut i: usize = 0;
    while i < 6
        invariant
            i <= 6,
            s.wf(),
            r@.len() == i,
            forall|j: int| 0 <= j < i ==> #[trigger] r@[j] == (s.c@[2 * j], s.c@[2 * j + 1]),
        decreases 6 - i,
    {
        r.push((s.c[2 * i], s.c[2 * i + 1]));
        i = i + 1;
    }
    r
}

} // verus!
