//! How often each position and each pass of the refinement below whole samples was tried, and how
//! often it brought something.
use vstd::prelude::*;
use crate::census::up;
use crate::counters::{copy, raise, zeros};

verus! {

/// The counters, for half and for quarter samples: trials and improvements of eight positions, and
/// of six passes; and how often a vector was tried again.
pub struct SpStats {
    pub pos: Vec<u64>,
    pub it: Vec<u64>,
    pub again: u64,
}

impl SpStats {
    pub open spec fn wf(self) -> bool {
        self.pos@.len() == 32 && self.it@.len() == 24
    }
}

/// Where the trials of a position are counted; positions from the eighth on count as one.
pub open spec fn pos_cell(st: int, pos: int) -> int {
    2 * (8 * st + if pos < 7 {
        pos
    } else {
        7
    })
}

/// Where the trials of a pass are counted; the passes count from 1, those from the sixth on as
/// one.
pub open spec fn it_cell(st: int, it: int) -> int {
    2 * (6 * st + if it <= 1 {
        0
    } else if it <= 6 {
        it - 1
    } else {
        5
    })
}

fn pos_at(st: usize, pos: usize) -> (r: usize)
    requires
        st < 2,
    ensures
        r == pos_cell(st as int, pos as int),
        r + 1 < 32,
{
    2 * (8 * st + if pos < 7 {
        pos
    } else {
        7
    })
}

fn it_at(st: usize, it: u32) -> (r: usize)
    requires
        st < 2,
    ensures
        r == it_cell(st as int, it as int),
        r + 1 < 24,
{
    let k: usize = if it <= 1 {
        0
    } else if it <= 6 {
        (it - 1) as usize
    } else {
        5
    };
    2 * (6 * st + k)
}

/// Counters that are zero.
pub fn new() -> (s: SpStats)
    ensures
        s.pos@ == Seq::new(32, |i: int| 0u64),
        s.it@ == Seq::new(24, |i: int| 0u64),
        s.again == 0,
        s.wf(),
{
    SpStats { pos: zeros(32), it: zeros(24), again: 0 }
}

/// A position was tried in a pass, for half samples (0) or quarter samples (1).
pub fn ev(s: &mut SpStats, st: usize, pos: usize, it: u32)
    requires
        old(s).wf(),
        st < 2,
    ensures
        ({
            let p = pos_cell(st as int, pos as int);
            let i = it_cell(st as int, it as int);
            &&& final(s).pos@ == old(s).pos@.update(p, up(old(s).pos@[p]))
            &&& final(s).it@ == old(s).it@.update(i, up(old(s).it@[i]))
        }),
        final(s).again == old(s).again,
        final(s).wf(),
{
    let (p, i): (usize, usize) = (pos_at(st, pos), it_at(st, it));
    raise(&mut s.pos, p);
    raise(&mut s.it, i);
}

/// A position brought something in a pass.
pub fn imp(s: &mut SpStats, st: usize, pos: usize, it: u32)
    requires
        old(s).wf(),
        st < 2,
    ensures
        ({
            let p = pos_cell(st as int, pos as int) + 1;
            let i = it_cell(st as int, it as int) + 1;
            &&& final(s).pos@ == old(s).pos@.update(p, up(old(s).pos@[p]))
            &&& final(s).it@ == old(s).it@.update(i, up(old(s).it@[i]))
        }),
        final(s).again == old(s).again,
        final(s).wf(),
{
    let (p, i): (usize, usize) = (pos_at(st, pos) + 1, it_at(st, it) + 1);
    raise(&mut s.pos, p);
    raise(&mut s.it, i);
}

/// A vector was tried again.
pub fn redundant(s: &mut SpStats)
    ensures
        *final(s) == (SpStats { again: up(old(s).again), ..*old(s) }),
{
    s.again = if s.again < u64::MAX {
        s.again + 1
    } else {
        0
    };
}

/// Set all counters to zero.
pub fn reset(s: &mut SpStats)
    ensures
        final(s).pos@ == Seq::new(32, |i: int| 0u64),
        final(s).it@ == Seq::new(24, |i: int| 0u64),
        final(s).again == 0,
        final(s).wf(),
{
    *s = new();
}

/// The counters of positions, and of passes.
pub fn snapshot(s: &SpStats) -> (r: (Vec<u64>, Vec<u64>))
    ensures
        r.0@ == s.pos@,
        r.1@ == s.it@,
{
    (copy(&s.pos), copy(&s.it))
}

/// How often a vector was tried again.
pub fn redundant_count(s: &SpStats) -> (r: u64)
    ensures
        r == s.again,
{
    s.again
}

} // verus!
