//! Which tools of the motion search a frame is sent through, by what it shows.
use vstd::prelude::*;

verus! {

/// The tools that a frame is sent through.
#[derive(Clone, Copy, PartialEq, Eq, Structural, Debug)]
pub struct Route {
    /// Search a grid where the walk has stalled.
    pub me_wide: bool,
    /// Walk whole samples by plain differences.
    pub sadfp: bool,
    /// Price vectors smoothly.
    pub mv_smooth: bool,
    /// Divide macroblocks.
    pub do_splits: bool,
}

/// What a frame shows beside its thresholds.
#[derive(Clone, Copy, PartialEq, Eq, Structural, Debug)]
pub struct Signs {
    /// One vector predicts nearly all of it.
    pub pan: bool,
    /// A wide search finds little more than a narrow one.
    pub cramped: bool,
    /// A search in whole samples gains, and not because of a flash.
    pub moving: bool,
    /// The same, beside the threshold for the price of vectors.
    pub smooth: bool,
    /// A search gains enough for macroblocks to be divided, where that is asked.
    pub dividing: Option<bool>,
}

impl Route {
    /// Where a frame is sent: without a reference, where it is sent anyway. A pan or a cramped
    /// frame is searched without the grid. In a frame that is not fast, the signs decide between
    /// the measures where the modes leave it to the frame.
    pub open spec fn taken(
        self,
        has_refs: bool,
        fast: bool,
        sadfp_mode: u32,
        smooth_mode: u32,
        s: Signs,
    ) -> Route {
        let asked = sadfp_mode == 1 && !fast && has_refs;
        Route {
            me_wide: self.me_wide && !(has_refs && (s.pan || s.cramped)),
            sadfp: if asked {
                s.moving
            } else {
                self.sadfp
            },
            mv_smooth: if asked && smooth_mode == 1 {
                s.smooth
            } else {
                self.mv_smooth
            },
            do_splits: match s.dividing {
                Some(d) if asked => d,
                _ => self.do_splits,
            },
        }
    }
}

/// Send a frame through its tools.
pub fn route(
    start: Route,
    has_refs: bool,
    fast: bool,
    sadfp_mode: u32,
    smooth_mode: u32,
    s: Signs,
) -> (r: Route)
    ensures
        r == start.taken(has_refs, fast, sadfp_mode, smooth_mode, s),
{
    let mut r: Route = start;
    if has_refs && (s.pan || s.cramped) {
        r.me_wide = false;
    }
    if sadfp_mode == 1 && !fast && has_refs {
        r.sadfp = s.moving;
        if smooth_mode == 1 {
            r.mv_smooth = s.smooth;
        }
        if let Some(d) = s.dividing {
            r.do_splits = d;
        }
    }
    r
}

/// A frame without a reference is sent where it is sent anyway.
pub proof fn law_no_reference_no_detour(start: Route, fast: bool, a: u32, b: u32, s: Signs)
    ensures
        start.taken(false, fast, a, b, s) == start,
{
}

} // verus!
