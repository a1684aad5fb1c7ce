//! Switches of the motion search: each is set, or left to an outer setting, or to its default.
use vstd::prelude::*;
use crate::search::{DIA_DEFAULT, DIA_RUNGS};

verus! {

/// The value of a switch that was not set.
pub const UNSET: u32 = 0xffff_ffff;

/// The switches.
#[derive(Clone, Copy, PartialEq, Eq, Structural, Debug)]
pub struct Knobs {
    /// How vectors are priced: 0 in steps, 1 as the frame asks, 2 smoothly, 3 as measured.
    pub mv_smooth: u32,
    /// Whether whole samples are walked by plain differences: 0 no, 1 as the frame asks, 2 yes.
    pub me_sadfp: u32,
    /// Whether neighbours below whole samples are judged together.
    pub sp_fc: u32,
    /// Whether neighbours at whole samples are judged together.
    pub me_fc: u32,
    /// The gain of a search, in thousandths, below which macroblocks are not divided.
    pub split_mg: u32,
    /// How often a ring is repeated at most; 0 for any number.
    pub sp_maxit: u32,
    /// The rungs of the walk.
    pub dia_mask: u32,
}

/// Switches that are all unset.
pub fn new_knobs() -> (k: Knobs)
    ensures
        k == (Knobs {
            mv_smooth: UNSET,
            me_sadfp: UNSET,
            sp_fc: UNSET,
            me_fc: UNSET,
            split_mg: UNSET,
            sp_maxit: UNSET,
            dia_mask: UNSET,
        }),
{
    Knobs {
        mv_smooth: UNSET,
        me_sadfp: UNSET,
        sp_fc: UNSET,
        me_fc: UNSET,
        split_mg: UNSET,
        sp_maxit: UNSET,
        dia_mask: UNSET,
    }
}

/// Price vectors smoothly, or in steps.
pub fn set_mv_smooth(k: &mut Knobs, on: bool)
    ensures
        *final(k) == (Knobs {
            mv_smooth: if on {
                2
            } else {
                0
            },
            ..*old(k)
        }),
{
    k.mv_smooth = if on {
        2
    } else {
        0
    };
}

/// Set how vectors are priced; what is above the last mode is taken for it.
pub fn set_mv_smooth_mode(k: &mut Knobs, m: u32)
    ensures
        *final(k) == (Knobs {
            mv_smooth: if m < 3 {
                m
            } else {
                3
            },
            ..*old(k)
        }),
{
    k.mv_smooth = if m < 3 {
        m
    } else {
        3
    };
}

/// Walk whole samples by plain differences everywhere, or nowhere.
pub fn set_me_sadfp(k: &mut Knobs, on: bool)
    ensures
        *final(k) == (Knobs {
            me_sadfp: if on {
                2
            } else {
                0
            },
            ..*old(k)
        }),
{
    k.me_sadfp = if on {
        2
    } else {
        0
    };
}

/// Set where whole samples are walked by plain differences; what is above the last mode is taken
/// for it.
pub fn set_me_sadfp_mode(k: &mut Knobs, m: u32)
    ensures
        *final(k) == (Knobs {
            me_sadfp: if m < 2 {
                m
            } else {
                2
            },
            ..*old(k)
        }),
{
    k.me_sadfp = if m < 2 {
        m
    } else {
        2
    };
}

/// Judge neighbours below whole samples together, or one by one.
pub fn set_sp_fc(k: &mut Knobs, on: bool)
    ensures
        *final(k) == (Knobs {
            sp_fc: if on {
                1
            } else {
                0
            },
            ..*old(k)
        }),
{
    k.sp_fc = if on {
        1
    } else {
        0
    };
}

/// Judge neighbours at whole samples together, or one by one.
pub fn set_me_fc(k: &mut Knobs, on: bool)
    ensures
        *final(k) == (Knobs {
            me_fc: if on {
                1
            } else {
                0
            },
            ..*old(k)
        }),
{
    k.me_fc = if on {
        1
    } else {
        0
    };
}

/// Set the gain, in thousandths, below which macroblocks are not divided.
pub fn set_split_mg(k: &mut Knobs, milli: u32)
    ensures
        *final(k) == (Knobs { split_mg: milli, ..*old(k) }),
{
    k.split_mg = milli;
}

/// Set how often a ring is repeated at most.
pub fn set_sp_maxit(k: &mut Knobs, n: u32)
    ensures
        *final(k) == (Knobs { sp_maxit: n, ..*old(k) }),
{
    k.sp_maxit = n;
}

/// Set the rungs of the walk.
pub fn set_dia_mask(k: &mut Knobs, m: u32)
    ensures
        *final(k) == (Knobs { dia_mask: m, ..*old(k) }),
{
    k.dia_mask = m;
}

/// The outer setting, or the default without one.
pub open spec fn or_default(outer: Option<u32>, default: u32) -> u32 {
    match outer {
        Some(v) => v,
        None => default,
    }
}

fn outer_or(outer: Option<u32>, default: u32) -> (r: u32)
    ensures
        r == or_default(outer, default),
{
    match outer {
        Some(v) => v,
        None => default,
    }
}

/// A switch: what it was set to, or else the outer setting, or else the default.
pub open spec fn resolved(knob: u32, outer: Option<u32>, default: u32) -> u32 {
    if knob != UNSET {
        knob
    } else {
        or_default(outer, default)
    }
}

impl Knobs {
    /// How vectors are priced in a frame: 0 in steps, 1 smoothly, 2 as measured.
    pub open spec fn cost_kind(self, outer: Option<u32>, frame_smooth: bool) -> u32 {
        let mode = if self.mv_smooth <= 3 {
            self.mv_smooth
        } else {
            or_default(outer, 1)
        };
        if mode == 0 {
            0
        } else if mode == 1 {
            if frame_smooth {
                1
            } else {
                0
            }
        } else if mode == 2 {
            1
        } else {
            2
        }
    }

    /// How vectors are priced.
    pub fn mv_smooth_mode(&self, outer: Option<u32>) -> (r: u32)
        ensures
            r == if self.mv_smooth <= 3 {
                self.mv_smooth
            } else {
                or_default(outer, 1)
            },
    {
        if self.mv_smooth <= 3 {
            self.mv_smooth
        } else {
            outer_or(outer, 1)
        }
    }

    /// How vectors are priced in a frame.
    pub fn mv_cost_kind(&self, outer: Option<u32>, frame_smooth: bool) -> (r: u32)
        ensures
            r == self.cost_kind(outer, frame_smooth),
            r <= 2,
    {
        let mode: u32 = self.mv_smooth_mode(outer);
        if mode == 0 {
            0
        } else if mode == 1 {
            if frame_smooth {
                1
            } else {
                0
            }
        } else if mode == 2 {
            1
        } else {
            2
        }
    }

    /// Where whole samples are walked by plain differences.
    pub fn me_sadfp_mode(&self, outer: Option<u32>) -> (r: u32)
        ensures
            r == resolved(self.me_sadfp, outer, 1),
    {
        if self.me_sadfp != UNSET {
            self.me_sadfp
        } else {
            outer_or(outer, 1)
        }
    }

    /// How often a ring is repeated at most.
    pub fn sp_maxit(&self, outer: Option<u32>) -> (r: u32)
        ensures
            r == resolved(self.sp_maxit, outer, 0),
    {
        if self.sp_maxit != UNSET {
            self.sp_maxit
        } else {
            outer_or(outer, 0)
        }
    }

    /// Whether neighbours below whole samples are judged together.
    pub fn sp_fc_enabled(&self, outer: Option<bool>) -> (r: bool)
        ensures
            r == if self.sp_fc <= 1 {
                self.sp_fc == 1
            } else {
                outer == Some(true)
            },
    {
        if self.sp_fc == 0 {
            false
        } else if self.sp_fc == 1 {
            true
        } else {
            match outer {
                Some(b) => b,
                None => false,
            }
        }
    }

    /// Whether neighbours at whole samples are judged together.
    pub fn me_fc_enabled(&self, outer: Option<bool>) -> (r: bool)
        ensures
            r == if self.me_fc <= 1 {
                self.me_fc == 1
            } else {
                outer != Some(false)
            },
    {
        if self.me_fc == 0 {
            false
        } else if self.me_fc == 1 {
            true
        } else {
            match outer {
                Some(b) => b,
                None => true,
            }
        }
    }

    /// The rungs of the walk: as set, or those listed outside if any of them is one, or the
    /// default.
    pub fn dia_mask(&self, outer: Option<&Vec<i32>>) -> (r: u32)
        ensures
            r == if self.dia_mask != UNSET {
                self.dia_mask
            } else {
                match outer {
                    Some(v) => if mask_of(v@, 5) != 0 {
                        mask_of(v@, 5) as u32
                    } else {
                        DIA_DEFAULT
                    },
                    None => DIA_DEFAULT,
                }
            },
    {
        if self.dia_mask != UNSET {
            return self.dia_mask;
        }
        match outer {
            Some(v) => {
                let m: u32 = rung_mask(v);
                if m == 0 {
                    DIA_DEFAULT
                } else {
                    m
                }
            },
            None => DIA_DEFAULT,
        }
    }
}

/// The mask of the first `k` rungs that stand in a list: bit `i` for rung `i`.
pub open spec fn mask_of(want: Seq<i32>, k: int) -> int
    decreases k,
{
    if k <= 0 {
        0
    } else {
        mask_of(want, k - 1) + if want.contains(DIA_RUNGS@[k - 1]) {
            weight(k - 1)
        } else {
            0
        }
    }
}

/// The weight of bit `i`.
pub open spec fn weight(i: int) -> int {
    if i <= 0 {
        1
    } else if i == 1 {
        2
    } else if i == 2 {
        4
    } else if i == 3 {
        8
    } else {
        16
    }
}

fn listed(want: &Vec<i32>, r: i32) -> (b: bool)
    ensures
        b == want@.contains(r),
{
    let mut i: usize = 0;
    while i < want.len()
        invariant
            i <= want@.len(),
            forall|j: int| 0 <= j < i ==> #[trigger] want@[j] != r,
        decreases want@.len() - i,
    {
        if want[i] == r {
            assert(want@.contains(r));
            return true;
        }
        i = i + 1;
    }
    false
}

/// The mask of the rungs that stand in a list.
pub fn rung_mask(want: &Vec<i32>) -> (r: u32)
    ensures
        r == mask_of(want@, 5),
        r <= 31,
{
    let mut m: u32 = 0;
    let mut w: u32 = 1;
    let mut i: usize = 0;
    while i < 5
        invariant
            i <= 5,
            i < 5 ==> w == weight(i as int),
            m == mask_of(want@, i as int),
            i < 5 ==> m < w,
            m <= 31,
            w <= 32,
        decreases 5 - i,
    {
        if listed(want, DIA_RUNGS[i]) {
            m = m + w;
        }
        w = w * 2;
        i = i + 1;
    }
    m
}

/// The rungs of the walk for blocks with a side of 4: as set, or those listed outside, or the last
/// alone.
pub fn dia_sub_mask(knob: u32, outer: Option<&Vec<i32>>) -> (r: u32)
    ensures
        r == if knob != UNSET {
            knob
        } else {
            match outer {
                Some(v) => mask_of(v@, 5) as u32,
                None => 16,
            }
        },
{
    if knob != UNSET {
        return knob;
    }
    match outer {
        Some(v) => rung_mask(v),
        None => 16,
    }
}

/// The pattern of the refinement below whole samples, if one is forced; an outer setting stays in
/// force.
pub fn subpel_pattern_override(knob: &mut u32, outer: Option<u32>) -> (r: Option<u32>)
    ensures
        r == if *old(knob) != UNSET {
            Some(*old(knob))
        } else {
            outer
        },
        *final(knob) == resolved(*old(knob), outer, UNSET),
{
    if *knob != UNSET {
        return Some(*knob);
    }
    if let Some(e) = outer {
        *knob = e;
        return Some(e);
    }
    None
}

/// The pattern of the refinement below whole samples, which stays in force.
pub fn subpel_pattern(knob: &mut u32, outer: Option<u32>) -> (r: u32)
    ensures
        r == resolved(*old(knob), outer, 0),
        *final(knob) == r,
{
    if *knob == UNSET {
        *knob = outer_or(outer, 0);
    }
    *knob
}

/// How many refinements are watched, and the share in percent that the first ring must have
/// brought: nothing is watched unless it is asked for outside and not switched off.
pub fn sp_dispatch_cfg(knob: u32, on: bool, learn: Option<u32>, share: Option<i64>) -> (r: (u32, i64))
    ensures
        r == if knob == 0 || !on {
            (0u32, 0i64)
        } else {
            (
                or_default(learn, 200),
                match share {
                    Some(t) => t,
                    None => 67,
                },
            )
        },
{
    if knob == 0 || !on {
        return (0, 0);
    }
    (
        outer_or(learn, 200),
        match share {
            Some(t) => t,
            None => 67,
        },
    )
}

/// An entry of a table of vector costs with a charge on every vector but that of no difference.
pub open spec fn charged(c: u16, d: int, bias: u16) -> u16 {
    if d == 0 {
        c
    } else if c + bias > 0xffff {
        0xffff
    } else {
        (c + bias) as u16
    }
}

/// A table of vector costs with a charge on every vector but that of no difference.
pub fn build_true_biased(table: &Vec<u16>, bias_q4: u16) -> (r: Vec<u16>)
    ensures
        r@.len() == table@.len(),
        forall|d: int| 0 <= d < r@.len() ==> #[trigger] r@[d] == charged(table@[d], d, bias_q4),
{
    let mut r: Vec<u16> = Vec::new();
    let mut d: usize = 0;
    while d < table.len()
        invariant
            d <= table@.len(),
            r@.len() == d,
            forall|i: int|
                0 <= i < d ==> #[trigger] r@[i] == charged(table@[i], i, bias_q4),
        decreases table@.len() - d,
    {
        let s: u32 = table[d] as u32 + bias_q4 as u32;
        r.push(
            if d == 0 {
                table[d]
            } else if s > 0xffff {
                0xffff
            } else {
                s as u16
            },
        );
        d = d + 1;
    }
    r
}

} // verus!
