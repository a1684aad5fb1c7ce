//! How the macroblocks of B slices were coded, counted.
use vstd::prelude::*;
use crate::census::up;

verus! {

/// The counters, which stand still unless they are on.
#[derive(Clone, Copy, PartialEq, Eq, Structural, Debug)]
pub struct BStats {
    pub on: bool,
    /// Macroblocks that were skipped.
    pub skip: u64,
    /// Macroblocks that were not free to skip.
    pub coded: u64,
    /// Of these, those that direct prediction won.
    pub dirwin: u64,
    /// Of these, those that were divided.
    pub split: u64,
}

/// One of the counters.
#[derive(Clone, Copy, PartialEq, Eq, Structural, Debug)]
pub enum Which {
    Skip,
    Coded,
    DirWin,
    Split,
}

impl BStats {
    /// A counter is raised.
    pub open spec fn bumped(self, w: Which) -> BStats {
        if !self.on {
            self
        } else {
            match w {
                Which::Skip => BStats { skip: up(self.skip), ..self },
                Which::Coded => BStats { coded: up(self.coded), ..self },
                Which::DirWin => BStats { dirwin: up(self.dirwin), ..self },
                Which::Split => BStats { split: up(self.split), ..self },
            }
        }
    }
}

fn next(n: u64) -> (r: u64)
    ensures
        r == up(n),
{
    if n < u64::MAX {
        n + 1
    } else {
        0
    }
}

/// Raise a counter, if they are on.
pub fn bump(s: &mut BStats, w: Which)
    ensures
        *final(s) == old(s).bumped(w),
{
    if s.on {
        match w {
            Which::Skip => {
                s.skip = next(s.skip);
            },
            Which::Coded => {
                s.coded = next(s.coded);
            },
            Which::DirWin => {
                s.dirwin = next(s.dirwin);
            },
            Which::Split => {
                s.split = next(s.split);
            },
        }
    }
}

} // verus!
