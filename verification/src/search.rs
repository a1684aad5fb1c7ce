//! The motion search: a rate-aware walk from the predicted vectors to a cheap one.
use vstd::prelude::*;
use vstd::arithmetic::div_mod::*;
use crate::arith;
use crate::bits;
use crate::bits::mvd_bits;
use crate::frame::FrameEncoder;
use crate::distortion;
use crate::kernels;
use crate::kernels::{price, served, Kernels, McJob, Phase, Price};
use crate::mbstate::RefFrame;
use crate::pixels;
use crate::pixels::{at_spot, block_variance};

verus! {

/// The rate model of a component of a vector difference.
pub enum MvRate {
    /// The length of its signed Exp-Golomb code.
    Golomb,
    /// A table over its magnitude, which holds its last entry for all larger ones.
    Table(Vec<u16>),
}

impl MvRate {
    /// A table has 4096 entries.
    pub open spec fn wf(self) -> bool {
        self matches MvRate::Table(t) ==> t@.len() == 4096
    }

    /// What a difference is charged, in bits or in the table's unit.
    pub open spec fn bits(self, d: int) -> int {
        match self {
            MvRate::Golomb => bits::mvd_rate(d),
            MvRate::Table(t) => t@[arith::min(arith::abs(d), 4095)] as int,
        }
    }

    /// What a difference is charged.
    pub fn charge(&self, d: i32) -> (r: u32)
        requires
            self.wf(),
        ensures
            r == self.bits(d as int),
            r <= 65535,
    {
        match self {
            MvRate::Golomb => mvd_bits(d),
            MvRate::Table(t) => {
                let a: u32 = arith::abs_i32(d);
                if a < 4095 {
                    t[a as usize] as u32
                } else {
                    t[4095] as u32
                }
            },
        }
    }
}

/// A candidate and its cost.
#[derive(Clone, Copy)]
pub struct Found {
    pub mv: (i32, i32),
    pub cost: i64,
}

/// A candidate and its cost as mathematical integers.
pub struct Spot {
    pub x: int,
    pub y: int,
    pub c: int,
}

impl Found {
    pub open spec fn spot(self) -> Spot {
        Spot { x: self.mv.0 as int, y: self.mv.1 as int, c: self.cost as int }
    }
}

/// The largest cost of a candidate.
pub const COST_MAX: i64 = 0x200_0000_0000;

/// The better one of `s` and the candidate `(x, y)`, which wraps around; a tie keeps `s`.
pub open spec fn better(f: spec_fn(int, int) -> int, x: int, y: int, s: Spot) -> Spot {
    let (u, v) = (arith::wrap(x), arith::wrap(y));
    if f(u, v) < s.c {
        Spot { x: u, y: v, c: f(u, v) }
    } else {
        s
    }
}

/// The best of `s` and the candidates from number `i` on; the first one of equals.
pub open spec fn scan(
    f: spec_fn(int, int) -> int,
    cands: Seq<(int, int)>,
    i: int,
    s: Spot,
) -> Spot
    decreases cands.len() - i,
{
    if i >= cands.len() {
        s
    } else {
        scan(f, cands, i + 1, better(f, cands[i].0, cands[i].1, s))
    }
}

/// One pass over the ring from offset `i` on, around a centre that moves with every
/// improvement.
pub open spec fn cascade(
    f: spec_fn(int, int) -> int,
    ring: Seq<(int, int)>,
    i: int,
    s: Spot,
) -> Spot
    decreases ring.len() - i,
{
    if i >= ring.len() {
        s
    } else {
        cascade(f, ring, i + 1, better(f, s.x + ring[i].0, s.y + ring[i].1, s))
    }
}

/// The ring, around `s`.
pub open spec fn around(ring: Seq<(int, int)>, s: Spot) -> Seq<(int, int)> {
    Seq::new(ring.len(), |i: int| (s.x + ring[i].0, s.y + ring[i].1))
}

/// The four neighbours at distance `d`.
pub open spec fn ring4(d: int) -> Seq<(int, int)> {
    seq![(d, 0int), (-d, 0int), (0int, d), (0int, -d)]
}

/// The eight neighbours at distance `d`.
pub open spec fn ring8(d: int) -> Seq<(int, int)> {
    seq![
        (d, 0int),
        (-d, 0int),
        (0int, d),
        (0int, -d),
        (d, d),
        (-d, -d),
        (d, -d),
        (-d, d),
    ]
}

/// The centre and its eight neighbours at distance `d`, row by row.
pub open spec fn ring9(d: int) -> Seq<(int, int)> {
    seq![
        (-d, -d),
        (0int, -d),
        (d, -d),
        (-d, 0int),
        (0int, 0int),
        (d, 0int),
        (-d, d),
        (0int, d),
        (d, d),
    ]
}

/// The points of the grid of every second sample within `r` samples of `(cx, cy)`, row by
/// row.
pub open spec fn grid(cx: int, cy: int, r: int) -> Seq<(int, int)> {
    let n = arith::max(r + 1, 0);
    Seq::new(
        (n * n) as nat,
        |k: int| (cx + 4 * (2 * (k % n) - r), cy + 4 * (2 * (k / n) - r)),
    )
}

/// The nearest whole-sample position; halfway it is the higher one. Behind the last one it wraps
/// around.
pub open spec fn snapped(v: int) -> int {
    arith::wrap(((v + 2) / 4) * 4)
}

/// The cost of a scan only falls.
pub proof fn lemma_scan_falls(
    f: spec_fn(int, int) -> int,
    cands: Seq<(int, int)>,
    i: int,
    s: Spot,
)
    ensures
        scan(f, cands, i, s).c <= s.c,
        s.c == f(s.x, s.y) ==> scan(f, cands, i, s).c == f(
            scan(f, cands, i, s).x,
            scan(f, cands, i, s).y,
        ),
        forall|j: int|
            i <= j < cands.len() && 0 <= i ==> scan(f, cands, i, s).c <= f(
                arith::wrap((#[trigger] cands[j]).0),
                arith::wrap(cands[j].1),
            ),
    decreases cands.len() - i,
{
    if i < cands.len() {
        let t = better(f, cands[i].0, cands[i].1, s);
        lemma_scan_falls(f, cands, i + 1, t);
        assert forall|j: int| i <= j < cands.len() && 0 <= i implies scan(f, cands, i, s).c <= f(
            arith::wrap((#[trigger] cands[j]).0),
            arith::wrap(cands[j].1),
        ) by {
            if j > i {
                assert(scan(f, cands, i + 1, t).c <= f(
                    arith::wrap(cands[j].0),
                    arith::wrap(cands[j].1),
                ));
            }
        }
    }
}

/// The cost of a cascade only falls.
pub proof fn lemma_cascade_falls(
    f: spec_fn(int, int) -> int,
    ring: Seq<(int, int)>,
    i: int,
    s: Spot,
)
    ensures
        cascade(f, ring, i, s).c <= s.c,
        s.c == f(s.x, s.y) ==> cascade(f, ring, i, s).c == f(
            cascade(f, ring, i, s).x,
            cascade(f, ring, i, s).y,
        ),
        cascade(f, ring, i, s).c == s.c ==> cascade(f, ring, i, s) == s,
    decreases ring.len() - i,
{
    if i < ring.len() {
        lemma_cascade_falls(f, ring, i + 1, better(f, s.x + ring[i].0, s.y + ring[i].1, s));
    }
}

/// The distances of the whole-sample walk, in quarter samples.
pub const DIA_RUNGS: [i32; 5] = [64, 32, 16, 8, 4];

/// The rungs that are walked unless another choice is made.
pub const DIA_DEFAULT: u32 = 28;

/// The rungs from number `i` on whose bits are set in `mask`, which is shifted along.
pub open spec fn chosen_rungs(mask: int, i: int) -> Seq<int>
    decreases 5 - i,
{
    if i >= 5 {
        Seq::empty()
    } else if mask % 2 == 1 {
        seq![DIA_RUNGS@[i] as int] + chosen_rungs(mask / 2, i + 1)
    } else {
        chosen_rungs(mask / 2, i + 1)
    }
}

/// The choices of the motion search.
#[derive(Clone, Copy)]
pub struct MeOptions {
    /// Start the walk from a whole-sample position.
    pub me_snap: bool,
    /// Walk whole samples by plain differences.
    pub sadfp: bool,
    /// The rungs of the walk, as a mask, and those for blocks with a side of 4.
    pub dia_mask: u32,
    pub dia_sub_mask: u32,
    /// Judge the four neighbours together where they can be read in place.
    pub fc: bool,
    /// Search a grid where the walk has stalled.
    pub me_wide: bool,
    /// Take any large distortion for a stall, not only one on a flat block.
    pub me_fast: bool,
    /// The variance below which a block is flat.
    pub me_wide_var: u64,
    /// The distortion per sample above which the walk has stalled.
    pub me_rescue: i64,
    /// The half-width of the grid, in samples.
    pub me_range: i32,
    /// How many stalls are watched before the grid may be given up, and the share of them,
    /// in percent, that it must have helped.
    pub me_learn: u32,
    pub me_payoff_pct: u32,
    /// Refine below whole samples even in a fast frame.
    pub subpel_force: bool,
    /// Leave that refinement to a later call.
    pub sp_defer: bool,
    /// Repeat the ring until it brings nothing.
    pub me_subpel_iter: bool,
    /// The pattern of the refinement, if one is forced: bit 0 takes four neighbours, bit 1
    /// a single pass.
    pub pattern: Option<u32>,
    /// The pattern for blocks with a side of 4.
    pub sub_pattern: u32,
    /// A single pass, where no pattern is forced.
    pub sp_single_pass: bool,
    /// How many refinements are watched, and the share, in percent, that the first ring must
    /// have brought for the rest of the frame to take a single pass.
    pub sp_learn: u32,
    pub sp_t: i64,
    /// How often a ring is repeated at most; 0 for any number.
    pub sp_maxit: u32,
    /// Judge the eight neighbours together where the planes serve them.
    pub sp_fc: bool,
}

/// What a frame has learned of its own searches.
pub struct MeState {
    pub sp_learn_n: u32,
    pub sp_ring1: i128,
    pub sp_total: i128,
    pub sp_1pass: bool,
    pub resc_n: u32,
    pub resc_big: u32,
    pub resc_off: bool,
}

impl MeState {
    pub open spec fn wf(self) -> bool {
        &&& 0 <= self.sp_ring1 <= self.sp_total <= COST_MAX * self.sp_learn_n
        &&& self.resc_big <= self.resc_n
    }

    /// A frame that has seen nothing.
    pub fn new() -> (r: Self)
        ensures
            r.wf(),
            r == (MeState {
                sp_learn_n: 0,
                sp_ring1: 0,
                sp_total: 0,
                sp_1pass: false,
                resc_n: 0,
                resc_big: 0,
                resc_off: false,
            }),
    {
        MeState {
            sp_learn_n: 0,
            sp_ring1: 0,
            sp_total: 0,
            sp_1pass: false,
            resc_n: 0,
            resc_big: 0,
            resc_off: false,
        }
    }

    /// After a grid search that took the cost from `pre` to `post`: while stalls are being
    /// watched, count it, and count it as help if it took off a sixteenth or more; when the
    /// last one is in, give the grid up unless enough of them were helped.
    pub open spec fn rescued(self, o: MeOptions, pre: int, post: int) -> MeState {
        if self.resc_n >= o.me_learn {
            self
        } else {
            let big = self.resc_big + if post * 16 <= pre * 15 {
                1int
            } else {
                0
            };
            let full = self.resc_n + 1 == o.me_learn;
            MeState {
                resc_n: (self.resc_n + 1) as u32,
                resc_big: big as u32,
                resc_off: self.resc_off || (full && big * 100 < o.me_learn * o.me_payoff_pct),
                ..self
            }
        }
    }

    /// After a refinement from `pre` by the first ring to `ring1` and in the end to `post`:
    /// add up what the ring and what the whole refinement brought; when the last one is in,
    /// decide whether the ring alone is enough.
    pub open spec fn refined(self, o: MeOptions, pre: int, ring1: int, post: int) -> MeState {
        if self.sp_learn_n >= o.sp_learn {
            self
        } else {
            let r1 = self.sp_ring1 + arith::max(pre - ring1, 0);
            let tot = self.sp_total + arith::max(pre - post, 0);
            MeState {
                sp_learn_n: (self.sp_learn_n + 1) as u32,
                sp_ring1: r1 as i128,
                sp_total: tot as i128,
                sp_1pass: if self.sp_learn_n + 1 == o.sp_learn {
                    tot > 0 && r1 * 100 >= tot * o.sp_t
                } else {
                    self.sp_1pass
                },
                ..self
            }
        }
    }

    fn note_rescue(&mut self, o: &MeOptions, pre: i64, post: i64)
        requires
            old(self).wf(),
            0 <= post <= pre <= COST_MAX,
        ensures
            *final(self) == old(self).rescued(*o, pre as int, post as int),
            final(self).wf(),
    {
        if self.resc_n < o.me_learn {
            self.resc_n = self.resc_n + 1;
            if post * 16 <= pre * 15 {
                self.resc_big = self.resc_big + 1;
            }
            proof {
                assert(0 <= o.me_learn * o.me_payoff_pct <= 0xffff_ffff * 0xffff_ffff)
                    by (nonlinear_arith)
                    requires
                        0 <= o.me_learn <= 0xffff_ffff,
                        0 <= o.me_payoff_pct <= 0xffff_ffff,
                ;
            }
            if self.resc_n == o.me_learn && self.resc_big as u64 * 100 < o.me_learn as u64
                * o.me_payoff_pct as u64 {
                self.resc_off = true;
            }
        }
    }

    fn note_refine(&mut self, o: &MeOptions, pre: i64, ring1: i64, post: i64)
        requires
            old(self).wf(),
            0 <= post <= ring1 <= pre <= COST_MAX,
        ensures
            *final(self) == old(self).refined(*o, pre as int, ring1 as int, post as int),
            final(self).wf(),
    {
        if self.sp_learn_n < o.sp_learn {
            self.sp_learn_n = self.sp_learn_n + 1;
            self.sp_ring1 = self.sp_ring1 + (pre - ring1) as i128;
            self.sp_total = self.sp_total + (pre - post) as i128;
            if self.sp_learn_n == o.sp_learn {
                let t: i128 = if o.sp_t < -1 {
                    -1
                } else if o.sp_t > 101 {
                    101
                } else {
                    o.sp_t as i128
                };
                proof {
                    lemma_share(
                        self.sp_ring1 as int,
                        self.sp_total as int,
                        o.sp_t as int,
                        t as int,
                    );
                }
                self.sp_1pass = self.sp_total > 0 && self.sp_ring1 * 100 >= self.sp_total * t;
            }
        }
    }
}

/// A share of a whole is compared alike with any two numbers of percent below 0, and with any two
/// above 100.
proof fn lemma_share(part: int, whole: int, p: int, t: int)
    requires
        0 <= part <= whole <= 0x200_0000_0000 * 0xffff_ffff,
        t == arith::clamp(p, -1, 101),
    ensures
        whole > 0 ==> (part * 100 >= whole * p <==> part * 100 >= whole * t),
        -0x200_0000_0000 * 0xffff_ffff <= whole * t <= 0x200_0000_0000 * 0xffff_ffff * 101,
{
    if p < -1 {
        assert(whole * p <= 0) by (nonlinear_arith)
            requires
                whole >= 0,
                p <= 0,
        ;
    } else if p > 101 {
        assert(whole * p >= whole * 101) by (nonlinear_arith)
            requires
                whole >= 0,
                p >= 101,
        ;
    }
    assert(-whole <= whole * t <= whole * 101) by (nonlinear_arith)
        requires
            whole >= 0,
            -1 <= t <= 101,
    ;
}

/// All that the cost of a vector depends on: the block, its reference, the kernels, and the
/// vector that a difference is coded against.
pub struct Pricer<'a, K: Kernels> {
    pub fe: &'a FrameEncoder,
    pub k: &'a K,
    pub rate: &'a MvRate,
    pub reference: &'a RefFrame,
    pub sy: &'a [u8],
    pub list: u8,
    pub refi: i32,
    pub lx: usize,
    pub ly: usize,
    pub rw: usize,
    pub rh: usize,
    pub center: (i32, i32),
    /// The whole-sample walk goes by plain differences.
    pub sadfp: bool,
}

impl<'a, K: Kernels> Pricer<'a, K> {
    /// The block lies in the picture, the kernels are functions, and prices are bounded.
    pub open spec fn wf(&self) -> bool {
        &&& self.fe.wf()
        &&& self.fe.cw <= 0x3fff_ffff
        &&& 16 * self.fe.mb_h <= 0x3fff_ffff
        &&& kernels::steady(*self.k)
        &&& kernels::fair(*self.k)
        &&& self.rate.wf()
        &&& distortion::region_ok(self.sy@, self.fe.cw, self.lx, self.ly, self.rw, self.rh)
        &&& self.lx + self.rw <= self.fe.cw
        &&& self.ly + self.rh <= 16 * self.fe.mb_h
        &&& self.reference.y@.len() == self.fe.cw * (16 * self.fe.mb_h)
    }

    /// The rate of the vector `(x, y)`.
    pub open spec fn rate_at(&self, x: int, y: int) -> int {
        self.rate.bits(arith::wrap(x - self.center.0)) + self.rate.bits(
            arith::wrap(y - self.center.1),
        )
    }

    /// The cost of the vector `(x, y)`: its distortion and the price of its rate. With `coarse`, in
    /// the measure of the whole-sample walk.
    pub open spec fn cost_at(&self, coarse: bool, x: int, y: int) -> int {
        let plain = coarse && self.sadfp;
        distortion::mv_dist(
            plain || self.fe.by_sad(),
            *self.k,
            self.reference.y@,
            self.sy@,
            self.fe.cw,
            (16 * self.fe.mb_h) as usize,
            self.lx,
            self.ly,
            self.rw,
            self.rh,
            distortion::luma_job(
                self.list,
                self.refi,
                self.lx,
                self.ly,
                self.rw,
                self.rh,
                (x as i32, y as i32),
            ),
        ) + kernels::price_of(
            *self.k,
            Price {
                phase: if plain {
                    Phase::Coarse
                } else {
                    Phase::Fine
                },
                bits: self.rate_at(x, y) as u32,
                loud: self.fe.mb_loud,
            },
        )
    }

    /// The cost as a function of the vector.
    pub open spec fn f(&self, coarse: bool) -> spec_fn(int, int) -> int {
        |x: int, y: int| self.cost_at(coarse, x, y)
    }

    /// The rate of a vector.
    fn bits_of(&self, mv: (i32, i32)) -> (r: u32)
        requires
            self.wf(),
        ensures
            r == self.rate_at(mv.0 as int, mv.1 as int),
            r <= 131070,
    {
        let (dx, dy): (i32, i32) = (
            arith::wrapped(mv.0 as i64 - self.center.0 as i64),
            arith::wrapped(mv.1 as i64 - self.center.1 as i64),
        );
        self.rate.charge(dx) + self.rate.charge(dy)
    }

    /// The cost of a vector.
    pub fn cost(&self, coarse: bool, mv: (i32, i32)) -> (r: i64)
        requires
            self.wf(),
        ensures
            r == self.cost_at(coarse, mv.0 as int, mv.1 as int),
            0 <= r <= COST_MAX,
    {
        let plain: bool = coarse && self.sadfp;
        let bits: u32 = self.bits_of(mv);
        let job: McJob = McJob {
            list: self.list,
            refi: self.refi,
            plane: 0,
            x: self.lx,
            y: self.ly,
            w: self.rw,
            h: self.rh,
            mv,
        };
        let by_sad: bool = plain || (self.fe.fast && !self.fe.mb_use_satd);
        let d: i64 = self.fe.mc_dist(
            by_sad,
            self.k,
            self.reference,
            self.sy,
            self.lx,
            self.ly,
            self.rw,
            self.rh,
            job,
        );
        let phase: Phase = if plain {
            Phase::Coarse
        } else {
            Phase::Fine
        };
        let w: i64 = price(self.k, Price { phase, bits, loud: self.fe.mb_loud });
        d + w
    }

    /// The better one of `s` and the vector `(x, y)`, wrapped around.
    fn better(&self, coarse: bool, x: i64, y: i64, s: Found) -> (r: Found)
        requires
            self.wf(),
            0 <= s.cost <= COST_MAX,
            -0x1000_0000_0000_0000 <= x <= 0x1000_0000_0000_0000,
            -0x1000_0000_0000_0000 <= y <= 0x1000_0000_0000_0000,
        ensures
            r.spot() == better(self.f(coarse), x as int, y as int, s.spot()),
            r.cost >= s.cost ==> r == s,
            0 <= r.cost <= s.cost,
    {
        let mv: (i32, i32) = (arith::wrapped(x), arith::wrapped(y));
        let c: i64 = self.cost(coarse, mv);
        if c < s.cost {
            Found { mv, cost: c }
        } else {
            s
        }
    }

    /// One pass over a ring, around a moving centre.
    fn cascade(&self, coarse: bool, ring: &[(i32, i32)], s: Found) -> (r: Found)
        requires
            self.wf(),
            0 <= s.cost <= COST_MAX,
            forall|i: int|
                0 <= i < ring@.len() ==> -64 <= (#[trigger] ring@[i]).0 <= 64 && -64 <= ring@[i].1
                    <= 64,
        ensures
            r.spot() == cascade(self.f(coarse), ints(ring@), 0, s.spot()),
            0 <= r.cost <= s.cost,
    {
        let mut t: Found = s;
        let mut i: usize = 0;
        while i < ring.len()
            invariant
                self.wf(),
                i <= ring@.len(),
                0 <= t.cost <= COST_MAX,
                t.cost <= s.cost,
                forall|i: int|
                    0 <= i < ring@.len() ==> -64 <= (#[trigger] ring@[i]).0 <= 64 && -64
                        <= ring@[i].1 <= 64,
                cascade(self.f(coarse), ints(ring@), i as int, t.spot()) == cascade(
                    self.f(coarse),
                    ints(ring@),
                    0,
                    s.spot(),
                ),
            decreases ring.len() - i,
        {
            let (dx, dy): (i32, i32) = ring[i];
            assert(ints(ring@)[i as int] == (dx as int, dy as int));
            t = self.better(coarse, t.mv.0 as i64 + dx as i64, t.mv.1 as i64 + dy as i64, t);
            i = i + 1;
        }
        t
    }

    /// The best of a ring around a fixed centre.
    fn scan_around(&self, coarse: bool, ring: &[(i32, i32)], s: Found) -> (r:
        Found)
        requires
            self.wf(),
            0 <= s.cost <= COST_MAX,
            forall|i: int|
                0 <= i < ring@.len() ==> -64 <= (#[trigger] ring@[i]).0 <= 64 && -64 <= ring@[i].1
                    <= 64,
        ensures
            r.spot() == scan(self.f(coarse), around(ints(ring@), s.spot()), 0, s.spot()),
            0 <= r.cost <= s.cost,
    {
        let mut t: Found = s;
        let mut i: usize = 0;
        let ghost cands = around(ints(ring@), s.spot());
        while i < ring.len()
            invariant
                self.wf(),
                i <= ring@.len(),
                0 <= s.cost <= COST_MAX,
                0 <= t.cost <= COST_MAX,
                t == s || t.cost < s.cost,
                cands == around(ints(ring@), s.spot()),
                forall|i: int|
                    0 <= i < ring@.len() ==> -64 <= (#[trigger] ring@[i]).0 <= 64 && -64
                        <= ring@[i].1 <= 64,
                scan(self.f(coarse), cands, i as int, t.spot()) == scan(
                    self.f(coarse),
                    cands,
                    0,
                    s.spot(),
                ),
            decreases ring.len() - i,
        {
            let (dx, dy): (i32, i32) = ring[i];
            assert(ints(ring@)[i as int] == (dx as int, dy as int));
            assert(cands[i as int] == (s.mv.0 + dx, s.mv.1 + dy));
            t = self.better(coarse, s.mv.0 as i64 + dx as i64, s.mv.1 as i64 + dy as i64, t);
            i = i + 1;
        }
        t
    }

    /// The walk has its four neighbours at distance `step` in the picture, at whole samples.
    pub open spec fn batched(&self, step: int, s: Spot) -> bool {
        let d = step / 4;
        let (bx, by) = (self.lx + s.x / 4, self.ly + s.y / 4);
        &&& s.x % 4 == 0
        &&& s.y % 4 == 0
        &&& bx - d >= 0
        &&& by - d >= 0
        &&& bx + d + self.rw <= self.fe.cw
        &&& by + d + self.rh <= 16 * self.fe.mb_h
    }

    /// One pass of the whole-sample walk.
    pub open spec fn dia_pass(&self, fc: bool, step: int, s: Spot) -> Spot {
        if fc && self.batched(step, s) {
            scan(self.f(true), around(ring4(step), s), 0, s)
        } else {
            cascade(self.f(true), ring4(step), 0, s)
        }
    }

    /// The walk at one distance: pass after pass until one brings nothing.
    pub open spec fn dia_walk(&self, fc: bool, step: int, s: Spot) -> Spot
        decreases s.c,
    {
        let t = self.dia_pass(fc, step, s);
        if 0 <= t.c < s.c {
            self.dia_walk(fc, step, t)
        } else {
            t
        }
    }

    /// The walk over the distances from number `i` on.
    pub open spec fn ladder(&self, fc: bool, steps: Seq<int>, i: int, s: Spot) -> Spot
        decreases steps.len() - i,
    {
        if i >= steps.len() {
            s
        } else {
            self.ladder(fc, steps, i + 1, self.dia_walk(fc, steps[i], s))
        }
    }

    fn is_batched(&self, step: i32, s: Found) -> (r: bool)
        requires
            self.wf(),
            4 <= step <= 64,
        ensures
            r == self.batched(step as int, s.spot()),
    {
        let d: i64 = (step / 4) as i64;
        let (x, y): (i64, i64) = (s.mv.0 as i64 + 0x8000_0000, s.mv.1 as i64 + 0x8000_0000);
        let bx: i64 = self.lx as i64 + (x / 4 - 0x2000_0000);
        let by: i64 = self.ly as i64 + (y / 4 - 0x2000_0000);
        x % 4 == 0 && y % 4 == 0 && bx - d >= 0 && by - d >= 0 && bx + d + self.rw as i64
            <= self.fe.cw as i64 && by + d + self.rh as i64 <= (16 * self.fe.mb_h) as i64
    }

    fn dia_walk_from(&self, fc: bool, step: i32, s: Found) -> (r: Found)
        requires
            self.wf(),
            4 <= step <= 64,
            0 <= s.cost <= COST_MAX,
        ensures
            r.spot() == self.dia_walk(fc, step as int, s.spot()),
            0 <= r.cost <= s.cost,
    {
        let ring: [(i32, i32); 4] = [(step, 0), (-step, 0), (0, step), (0, -step)];
        assert(ints(ring@) =~= ring4(step as int));
        let mut t: Found = s;
        let mut go: bool = true;
        while go
            invariant
                self.wf(),
                4 <= step <= 64,
                0 <= t.cost <= COST_MAX,
                t.cost <= s.cost,
                ring@ == seq![(step, 0i32), ((-step) as i32, 0i32), (0i32, step), (0i32, (-step) as i32)],
                ints(ring@) == ring4(step as int),
                go ==> self.dia_walk(fc, step as int, t.spot()) == self.dia_walk(
                    fc,
                    step as int,
                    s.spot(),
                ),
                !go ==> t.spot() == self.dia_walk(fc, step as int, s.spot()),
            decreases (if go {
                1int
            } else {
                0
            }), t.cost,
        {
            let u: Found = if fc && self.is_batched(step, t) {
                self.scan_around(true, &ring, t)
            } else {
                self.cascade(true, &ring, t)
            };
            assert(u.spot() == self.dia_pass(fc, step as int, t.spot()));
            go = u.cost < t.cost;
            t = u;
        }
        t
    }

    fn ladder_from(&self, fc: bool, steps: &Vec<i32>, s: Found) -> (r: Found)
        requires
            self.wf(),
            0 <= s.cost <= COST_MAX,
            forall|i: int| 0 <= i < steps@.len() ==> 4 <= #[trigger] steps@[i] <= 64,
        ensures
            r.spot() == self.ladder(fc, steps@.map_values(|v: i32| v as int), 0, s.spot()),
            0 <= r.cost <= s.cost,
    {
        let mut t: Found = s;
        let mut i: usize = 0;
        let ghost ds = steps@.map_values(|v: i32| v as int);
        while i < steps.len()
            invariant
                self.wf(),
                i <= steps@.len(),
                0 <= t.cost <= COST_MAX,
                t.cost <= s.cost,
                ds == steps@.map_values(|v: i32| v as int),
                forall|i: int| 0 <= i < steps@.len() ==> 4 <= #[trigger] steps@[i] <= 64,
                self.ladder(fc, ds, i as int, t.spot()) == self.ladder(fc, ds, 0, s.spot()),
            decreases steps.len() - i,
        {
            t = self.dia_walk_from(fc, steps[i], t);
            i = i + 1;
        }
        t
    }
}

/// Vectors as mathematical integers.
pub open spec fn ints(s: Seq<(i32, i32)>) -> Seq<(int, int)> {
    Seq::new(s.len(), |i: int| (s[i].0 as int, s[i].1 as int))
}

/// The distances that a mask chooses.
pub fn rungs_of(mask: u32) -> (r: Vec<i32>)
    ensures
        r@.map_values(|v: i32| v as int) == chosen_rungs(mask as int, 0),
        forall|i: int| 0 <= i < r@.len() ==> 4 <= #[trigger] r@[i] <= 64,
{
    let mut r: Vec<i32> = Vec::new();
    let mut m: u32 = mask;
    let mut i: usize = 0;
    assert(r@.map_values(|v: i32| v as int) =~= Seq::<int>::empty());
    assert(Seq::<int>::empty() + chosen_rungs(mask as int, 0) =~= chosen_rungs(mask as int, 0));
    while i < 5
        invariant
            i <= 5,
            r@.map_values(|v: i32| v as int) + chosen_rungs(m as int, i as int) == chosen_rungs(
                mask as int,
                0,
            ),
            forall|i: int| 0 <= i < r@.len() ==> 4 <= #[trigger] r@[i] <= 64,
        decreases 5 - i,
    {
        let ghost before = r@;
        if m % 2 == 1 {
            r.push(DIA_RUNGS[i]);
            proof {
                let a = before.map_values(|v: i32| v as int);
                let b = seq![DIA_RUNGS@[i as int] as int];
                let c = chosen_rungs(m as int / 2, i + 1);
                assert(r@.map_values(|v: i32| v as int) =~= a + b);
                assert(a + (b + c) =~= (a + b) + c);
            }
        }
        m = m / 2;
        i = i + 1;
    }
    assert(r@.map_values(|v: i32| v as int) + Seq::<int>::empty() =~= r@.map_values(
        |v: i32| v as int,
    ));
    r
}

impl<'a, K: Kernels> Pricer<'a, K> {
    /// The best of `s` and the points of the grid.
    #[verifier::rlimit(50)]
    fn grid_scan(&self, cx: i32, cy: i32, r: i32, s: Found) -> (t: Found)
        requires
            self.wf(),
            0 <= s.cost <= COST_MAX,
        ensures
            t.spot() == scan(self.f(false), grid(cx as int, cy as int, r as int), 0, s.spot()),
            0 <= t.cost <= s.cost,
    {
        let mut t: Found = s;
        let ghost g = grid(cx as int, cy as int, r as int);
        let ghost n: int = arith::max(r + 1, 0);
        if r < 0 {
            assert(g.len() == 0);
            return s;
        }
        let mut dy: i64 = -(r as i64);
        let ghost mut row: int = 0;
        assert(0 * n == 0);
        while dy <= r as i64
            invariant
                self.wf(),
                0 <= r,
                n == r + 1,
                0 <= row <= n,
                dy == 2 * row - r,
                g == grid(cx as int, cy as int, r as int),
                0 <= t.cost <= s.cost,
                0 <= s.cost <= COST_MAX,
                scan(self.f(false), g, row * n, t.spot()) == scan(self.f(false), g, 0, s.spot()),
            decreases n - row,
        {
            let mut dx: i64 = -(r as i64);
            let ghost mut col: int = 0;
            while dx <= r as i64
                invariant
                    self.wf(),
                    0 <= r,
                    n == r + 1,
                    0 <= row < n,
                    dy == 2 * row - r,
                    0 <= col <= n,
                    dx == 2 * col - r,
                    g == grid(cx as int, cy as int, r as int),
                    0 <= t.cost <= s.cost,
                    0 <= s.cost <= COST_MAX,
                    scan(self.f(false), g, row * n + col, t.spot()) == scan(
                        self.f(false),
                        g,
                        0,
                        s.spot(),
                    ),
                decreases n - col,
            {
                proof {
                    lemma_fundamental_div_mod_converse(row * n + col, n, row, col);
                    assert(0 <= row * n && row * n + col < n * n) by (nonlinear_arith)
                        requires
                            0 <= row < n,
                            0 <= col < n,
                    ;
                    assert(g[row * n + col] == (cx + 4 * dx, cy + 4 * dy));
                }
                t = self.better(false, cx as i64 + dx * 4, cy as i64 + dy * 4, t);
                dx = dx + 2;
                proof {
                    col = col + 1;
                }
            }
            dy = dy + 2;
            proof {
                row = row + 1;
                assert((row - 1) * n + n == row * n) by (nonlinear_arith);
            }
        }
        assert(g.len() == n * n);
        t
    }

    /// The block has little variance.
    pub open spec fn flat(&self, o: MeOptions) -> bool {
        pixels::variance(
            self.sy@,
            pixels::placed(self.fe.cw, self.lx, self.ly),
            self.rw as int,
            self.rh as int,
        ) < o.me_wide_var
    }

    /// The distortion of `s` per sample, with the plain price of its rate taken off its cost.
    pub open spec fn per_sample(&self, s: Spot) -> int {
        pixels::quot(
            s.c - kernels::price_of(
                *self.k,
                Price { phase: Phase::Plain, bits: self.rate_at(s.x, s.y) as u32, loud: self.fe.mb_loud },
            ),
            self.rw * self.rh,
        )
    }

    /// The walk has stalled at `s`, and the grid is to be searched.
    pub open spec fn stalled(&self, o: MeOptions, st: MeState, refine: bool, s: Spot) -> bool {
        &&& o.me_wide
        &&& !self.fe.fast
        &&& o.me_fast || (!refine && self.flat(o))
        &&& !st.resc_off
        &&& self.per_sample(s) > o.me_rescue
    }

    /// The best of `s`, the grid around it, and the neighbours of the best point.
    pub open spec fn rescue(&self, o: MeOptions, s: Spot) -> Spot {
        let g = scan(self.f(false), grid(snapped(s.x), snapped(s.y), o.me_range as int), 0, s);
        cascade(self.f(false), ring9(4), 0, g)
    }

    fn is_flat(&self, o: &MeOptions) -> (r: bool)
        requires
            self.wf(),
        ensures
            r == self.flat(*o),
    {
        proof {
            pixels::lemma_spot(
                self.fe.cw,
                self.lx,
                self.ly,
                self.rw as int,
                self.rh as int,
                self.sy@.len() as int,
            );
        }
        assert(self.sy.len() == self.sy@.len());
        block_variance(self.sy, at_spot(self.fe.cw, self.lx, self.ly), self.rw, self.rh)
            < o.me_wide_var
    }

    fn is_stalled(&self, o: &MeOptions, st: &MeState, refine: bool, s: Found) -> (r: bool)
        requires
            self.wf(),
            0 <= s.cost <= COST_MAX,
        ensures
            r == self.stalled(*o, *st, refine, s.spot()),
    {
        if !(o.me_wide && !self.fe.fast && (o.me_fast || (!refine && self.is_flat(o)))
            && !st.resc_off) {
            return false;
        }
        let bits: u32 = self.bits_of(s.mv);
        let w: i64 = price(self.k, Price { phase: Phase::Plain, bits, loud: self.fe.mb_loud });
        let d: i64 = s.cost - w;
        assert(16 <= self.rw * self.rh <= 256) by (nonlinear_arith)
            requires
                4 <= self.rw <= 16,
                4 <= self.rh <= 16,
        ;
        let n: i64 = (self.rw * self.rh) as i64;
        let q: i64 = if d < 0 {
            -((-d) / n)
        } else {
            d / n
        };
        q > o.me_rescue
    }

    fn rescue_from(&self, o: &MeOptions, s: Found) -> (r: Found)
        requires
            self.wf(),
            0 <= s.cost <= COST_MAX,
        ensures
            r.spot() == self.rescue(*o, s.spot()),
            0 <= r.cost <= s.cost,
    {
        let cx: i32 = snap(s.mv.0);
        let cy: i32 = snap(s.mv.1);
        let g: Found = self.grid_scan(cx, cy, o.me_range, s);
        let ring: [(i32, i32); 9] = [
            (-4, -4),
            (0, -4),
            (4, -4),
            (-4, 0),
            (0, 0),
            (4, 0),
            (-4, 4),
            (0, 4),
            (4, 4),
        ];
        assert(ints(ring@) =~= ring9(4));
        self.cascade(false, &ring, g)
    }
}

fn snap(v: i32) -> (r: i32)
    ensures
        r == snapped(v as int),
{
    let q: i64 = (v as i64 + 0x8000_0002) / 4 - 0x2000_0000;
    arith::wrapped(q * 4)
}

/// Costs that have been found before, one for each residue of the vector; a slot that is
/// not in use holds the most negative vector, whose own cost is never remembered.
pub struct Memo {
    pub mv: [(i32, i32); 64],
    pub cost: [i64; 64],
}

impl Memo {
    fn new() -> (r: Self)
        ensures
            forall|i: int| 0 <= i < 64 ==> #[trigger] r.mv@[i] == (i32::MIN, i32::MIN),
    {
        Memo { mv: [(i32::MIN, i32::MIN); 64], cost: [0; 64] }
    }
}

fn slot(mv: (i32, i32)) -> (r: usize)
    ensures
        r == (mv.0 & 7) + 8 * (mv.1 & 7),
        r < 64,
{
    let (x, y): (i32, i32) = mv;
    assert(0 <= (x & 7) <= 7) by (bit_vector);
    assert(0 <= (y & 7) <= 7) by (bit_vector);
    (x & 7) as usize + 8 * ((y & 7) as usize)
}

impl<'a, K: Kernels> Pricer<'a, K> {
    /// What the memo holds is true.
    pub open spec fn remembers(&self, memo: Memo) -> bool {
        forall|i: int|
            0 <= i < 64 ==> #[trigger] memo.mv@[i] == (i32::MIN, i32::MIN) || {
                let (x, y) = (memo.mv@[i].0 as int, memo.mv@[i].1 as int);
                &&& memo.cost@[i] == self.cost_at(false, x, y)
                &&& 0 <= memo.cost@[i] <= COST_MAX
            }
    }

    /// The cost of a vector, from the memo if it is there.
    fn recall(&self, memo: &mut Memo, mv: (i32, i32)) -> (r: i64)
        requires
            self.wf(),
            self.remembers(*old(memo)),
        ensures
            r == self.cost_at(false, mv.0 as int, mv.1 as int),
            0 <= r <= COST_MAX,
            self.remembers(*final(memo)),
    {
        let i: usize = slot(mv);
        let (x, y): (i32, i32) = memo.mv[i];
        if x == mv.0 && y == mv.1 && !(x == i32::MIN && y == i32::MIN) {
            assert(memo.mv@[i as int] == mv);
            memo.cost[i]
        } else {
            let c: i64 = self.cost(false, mv);
            memo.mv[i] = mv;
            memo.cost[i] = c;
            c
        }
    }

    /// Every vector of the ring around `s` is served by the planes.
    pub open spec fn all_served(&self, ring: Seq<(int, int)>, s: Spot) -> bool {
        forall|i: int|
            0 <= i < ring.len() ==> #[trigger] kernels::served_of(
                *self.k,
                (arith::wrap(s.x + ring[i].0) as i32, arith::wrap(s.y + ring[i].1) as i32),
            )
    }

    /// No side of the block is 4.
    pub open spec fn large(&self) -> bool {
        self.rw >= 8 && self.rh >= 8
    }

    /// One pass of the refinement at distance `step`.
    pub open spec fn sp_pass(&self, o: MeOptions, pat: int, step: int, s: Spot) -> Spot {
        if pat % 2 == 1 {
            cascade(self.f(false), ring4(step), 0, s)
        } else if o.sp_fc && !self.fe.fast && self.large() && (step == 1 || (s.x % 4 == 0 && s.y % 4
            == 0)) && self.all_served(ring8(step), s) {
            scan(self.f(false), around(ring8(step), s), 0, s)
        } else {
            cascade(self.f(false), ring8(step), 0, s)
        }
    }

    /// The refinement at distance `step`, from pass number `iter` on.
    pub open spec fn sp_walk(&self, o: MeOptions, pat: int, step: int, iter: int, s: Spot) -> Spot
        decreases s.c,
    {
        let t = self.sp_pass(o, pat, step, s);
        if 0 <= t.c < s.c && o.me_subpel_iter && (pat / 2) % 2 == 0 && (o.sp_maxit == 0 || iter
            < o.sp_maxit) {
            self.sp_walk(o, pat, step, iter + 1, t)
        } else {
            t
        }
    }

    /// The refinement by half and by quarter samples.
    pub open spec fn refine(&self, o: MeOptions, pat: int, s: Spot) -> Spot {
        self.sp_walk(o, pat, 1, 1, self.sp_walk(o, pat, 2, 1, s))
    }

    fn served_around(&self, ring: &[(i32, i32)], s: Found) -> (r: bool)
        requires
            self.wf(),
            forall|i: int|
                0 <= i < ring@.len() ==> -64 <= (#[trigger] ring@[i]).0 <= 64 && -64 <= ring@[i].1
                    <= 64,
        ensures
            r == self.all_served(ints(ring@), s.spot()),
    {
        let mut i: usize = 0;
        while i < ring.len()
            invariant
                self.wf(),
                i <= ring@.len(),
                forall|i: int|
                    0 <= i < ring@.len() ==> -64 <= (#[trigger] ring@[i]).0 <= 64 && -64
                        <= ring@[i].1 <= 64,
                forall|j: int|
                    0 <= j < i ==> #[trigger] kernels::served_of(
                        *self.k,
                        (
                            arith::wrap(s.spot().x + ints(ring@)[j].0) as i32,
                            arith::wrap(s.spot().y + ints(ring@)[j].1) as i32,
                        ),
                    ),
            decreases ring.len() - i,
        {
            let (dx, dy): (i32, i32) = ring[i];
            assert(ints(ring@)[i as int] == (dx as int, dy as int));
            let mv: (i32, i32) = (
                arith::wrapped(s.mv.0 as i64 + dx as i64),
                arith::wrapped(s.mv.1 as i64 + dy as i64),
            );
            let ok: bool = served(self.k, mv);
            assert(ok == kernels::served_of(
                *self.k,
                (
                    arith::wrap(s.spot().x + ints(ring@)[i as int].0) as i32,
                    arith::wrap(s.spot().y + ints(ring@)[i as int].1) as i32,
                ),
            ));
            if !ok {
                return false;
            }
            i = i + 1;
        }
        true
    }

    /// A cascade that looks costs up in the memo.
    fn sp_cascade(
        &self,
        memo: &mut Memo,
        ring: &[(i32, i32)],
        s: Found,
    ) -> (r: Found)
        requires
            self.wf(),
            self.remembers(*old(memo)),
            0 <= s.cost <= COST_MAX,
            forall|i: int|
                0 <= i < ring@.len() ==> -64 <= (#[trigger] ring@[i]).0 <= 64 && -64 <= ring@[i].1
                    <= 64,
        ensures
            r.spot() == cascade(self.f(false), ints(ring@), 0, s.spot()),
            0 <= r.cost <= s.cost,
            self.remembers(*final(memo)),
    {
        let mut t: Found = s;
        let mut i: usize = 0;
        while i < ring.len()
            invariant
                self.wf(),
                self.remembers(*memo),
                i <= ring@.len(),
                0 <= t.cost <= COST_MAX,
                t.cost <= s.cost,
                forall|i: int|
                    0 <= i < ring@.len() ==> -64 <= (#[trigger] ring@[i]).0 <= 64 && -64
                        <= ring@[i].1 <= 64,
                cascade(self.f(false), ints(ring@), i as int, t.spot()) == cascade(
                    self.f(false),
                    ints(ring@),
                    0,
                    s.spot(),
                ),
            decreases ring.len() - i,
        {
            let (dx, dy): (i32, i32) = ring[i];
            assert(ints(ring@)[i as int] == (dx as int, dy as int));
            let mv: (i32, i32) = (
                arith::wrapped(t.mv.0 as i64 + dx as i64),
                arith::wrapped(t.mv.1 as i64 + dy as i64),
            );
            let c: i64 = self.recall(memo, mv);
            if c < t.cost {
                t = Found { mv, cost: c };
            }
            i = i + 1;
        }
        t
    }

    fn sp_pass_from(
        &self,
        o: &MeOptions,
        pat: u32,
        step: i32,
        memo: &mut Memo,
        s: Found,
    ) -> (r: Found)
        requires
            self.wf(),
            self.remembers(*old(memo)),
            1 <= step <= 2,
            0 <= s.cost <= COST_MAX,
        ensures
            r.spot() == self.sp_pass(*o, pat as int, step as int, s.spot()),
            0 <= r.cost <= s.cost,
            self.remembers(*final(memo)),
    {
        let four: [(i32, i32); 4] = [(step, 0), (-step, 0), (0, step), (0, -step)];
        let eight: [(i32, i32); 8] = [
            (step, 0),
            (-step, 0),
            (0, step),
            (0, -step),
            (step, step),
            (-step, -step),
            (step, -step),
            (-step, step),
        ];
        assert(ints(four@) =~= ring4(step as int));
        assert(ints(eight@) =~= ring8(step as int));
        if pat % 2 == 1 {
            self.sp_cascade(memo, &four, s)
        } else {
            let x: i64 = s.mv.0 as i64 + 0x8000_0000;
            let y: i64 = s.mv.1 as i64 + 0x8000_0000;
            if o.sp_fc && !self.fe.fast && self.rw >= 8 && self.rh >= 8 && (step == 1 || (x % 4 == 0
                && y % 4 == 0)) && self.served_around(&eight, s) {
                self.scan_around(false, &eight, s)
            } else {
                self.sp_cascade(memo, &eight, s)
            }
        }
    }

    /// The refinement at one distance, and the cost after its first pass.
    fn sp_walk_from(
        &self,
        o: &MeOptions,
        pat: u32,
        step: i32,
        memo: &mut Memo,
        s: Found,
    ) -> (r: (Found, i64))
        requires
            self.wf(),
            self.remembers(*old(memo)),
            1 <= step <= 2,
            0 <= s.cost <= COST_MAX,
        ensures
            r.0.spot() == self.sp_walk(*o, pat as int, step as int, 1, s.spot()),
            0 <= r.0.cost <= COST_MAX,
            r.1 == self.sp_pass(*o, pat as int, step as int, s.spot()).c,
            r.0.cost <= r.1 <= s.cost,
            self.remembers(*final(memo)),
    {
        let mut t: Found = self.sp_pass_from(o, pat, step, memo, s);
        let first: i64 = t.cost;
        let mut iter: u64 = 1;
        let once: bool = !o.me_subpel_iter || (pat / 2) % 2 == 1;
        let mut go: bool = t.cost < s.cost && !once && (o.sp_maxit == 0 || iter
            < o.sp_maxit as u64);
        while go
            invariant
                self.wf(),
                self.remembers(*memo),
                1 <= step <= 2,
                0 <= t.cost <= COST_MAX,
                t.cost <= first,
                once == (!o.me_subpel_iter || (pat as int / 2) % 2 == 1),
                go ==> !once,
                1 <= iter,
                go ==> iter + t.cost <= COST_MAX + 1,
                go ==> self.sp_walk(
                    *o,
                    pat as int,
                    step as int,
                    iter + 1,
                    t.spot(),
                ) == self.sp_walk(*o, pat as int, step as int, 1, s.spot()),
                !go ==> t.spot() == self.sp_walk(*o, pat as int, step as int, 1, s.spot()),
            decreases (if go {
                1int
            } else {
                0
            }), t.cost,
        {
            iter = iter + 1;
            let u: Found = self.sp_pass_from(o, pat, step, memo, t);
            go = u.cost < t.cost && (o.sp_maxit == 0 || iter < o.sp_maxit as u64);
            t = u;
        }
        (t, first)
    }

    /// The forced pattern, or the one for the block and the frame.
    pub open spec fn pattern(&self, o: MeOptions) -> int {
        match o.pattern {
            Some(p) => p as int,
            None => if !self.large() {
                o.sub_pattern as int
            } else if o.sp_single_pass {
                2
            } else {
                0
            },
        }
    }

    /// The pattern once the frame has learned that a single pass is enough.
    pub open spec fn learned_pattern(&self, o: MeOptions, st: MeState) -> int {
        let p = self.pattern(o);
        if o.sp_learn > 0 && p == 0 && st.sp_learn_n >= o.sp_learn && st.sp_1pass {
            2
        } else {
            p
        }
    }

    /// Where the search starts: the given vector, or the best of the zero vector and the
    /// predicted ones.
    pub open spec fn base(&self, preds: Seq<(i32, i32)>, start: Option<(i32, i32)>) -> Spot {
        match start {
            Some(mv) => Spot {
                x: mv.0 as int,
                y: mv.1 as int,
                c: self.cost_at(false, mv.0 as int, mv.1 as int),
            },
            None => scan(
                self.f(true),
                ints(preds),
                0,
                Spot { x: 0, y: 0, c: self.cost_at(true, 0, 0) },
            ),
        }
    }

    /// The start of the walk, moved to whole samples if that is wanted.
    pub open spec fn centred(&self, o: MeOptions, start: Option<(i32, i32)>, b: Spot) -> Spot {
        if start is None && o.me_snap && (b.x % 4 != 0 || b.y % 4 != 0) {
            Spot {
                x: snapped(b.x),
                y: snapped(b.y),
                c: self.cost_at(true, snapped(b.x), snapped(b.y)),
            }
        } else {
            b
        }
    }

    /// The distances of the walk.
    pub open spec fn steps(&self, o: MeOptions) -> Seq<int> {
        if self.fe.fast {
            seq![16int, 4int]
        } else if self.large() {
            chosen_rungs(o.dia_mask as int, 0)
        } else {
            chosen_rungs(o.dia_sub_mask as int, 0)
        }
    }

    /// Where the walk ends; a given vector is not walked from.
    pub open spec fn walked(&self, o: MeOptions, start: Option<(i32, i32)>, s: Spot) -> Spot {
        if start is Some {
            s
        } else {
            self.ladder(o.fc && !self.fe.fast && self.large(), self.steps(o), 0, s)
        }
    }

    /// The same vector with its cost in the final measure.
    pub open spec fn repriced(&self, s: Spot) -> Spot {
        if self.sadfp {
            Spot { x: s.x, y: s.y, c: self.cost_at(false, s.x, s.y) }
        } else {
            s
        }
    }

    /// Refinement below whole samples takes place.
    pub open spec fn refines(&self, o: MeOptions, start: Option<(i32, i32)>) -> bool {
        !(self.fe.fast && !o.subpel_force) && !(o.sp_defer && start is None)
    }

    /// The whole-sample result and what the frame has learned from it.
    pub open spec fn full_pel(
        &self,
        o: MeOptions,
        st: MeState,
        preds: Seq<(i32, i32)>,
        start: Option<(i32, i32)>,
    ) -> (Spot, MeState) {
        let w = self.repriced(self.walked(o, start, self.centred(o, start, self.base(preds, start))));
        if self.stalled(o, st, start is Some, w) {
            let r = self.rescue(o, w);
            (r, st.rescued(o, w.c, r.c))
        } else {
            (w, st)
        }
    }

    /// The result of the search, and what the frame has learned.
    pub open spec fn searched(
        &self,
        o: MeOptions,
        st: MeState,
        preds: Seq<(i32, i32)>,
        start: Option<(i32, i32)>,
    ) -> (Spot, MeState) {
        let (r, st1) = self.full_pel(o, st, preds, start);
        let seed = self.repriced(self.base(preds, start));
        let pat = self.learned_pattern(o, st1);
        let (p, st2) = if self.refines(o, start) {
            let q = self.refine(o, pat, r);
            let ring1 = self.sp_pass(o, pat, 2, r).c;
            (
                q,
                if o.sp_learn > 0 && self.pattern(o) == 0 {
                    st1.refined(o, r.c, ring1, q.c)
                } else {
                    st1
                },
            )
        } else {
            (r, st1)
        };
        (
            if o.me_snap && seed.c < p.c {
                seed
            } else {
                p
            },
            st2,
        )
    }

    /// Where the search starts.
    fn base_of(&self, predictors: &[(i32, i32)], start: Option<(i32, i32)>) -> (r: Found)
        requires
            self.wf(),
            start is Some ==> !self.sadfp,
        ensures
            r.spot() == self.base(predictors@, start),
            0 <= r.cost <= COST_MAX,
            r.cost == self.cost_at(true, r.mv.0 as int, r.mv.1 as int),
    {
        match start {
            Some(mv) => Found { mv, cost: self.cost(false, mv) },
            None => {
                let zero: Found = Found { mv: (0, 0), cost: self.cost(true, (0, 0)) };
                let mut t: Found = zero;
                let mut i: usize = 0;
                let ghost cands = ints(predictors@);
                while i < predictors.len()
                    invariant
                        self.wf(),
                        i <= predictors@.len(),
                        0 <= t.cost <= COST_MAX,
                        t.cost == self.cost_at(true, t.mv.0 as int, t.mv.1 as int),
                        cands == ints(predictors@),
                        scan(self.f(true), cands, i as int, t.spot()) == scan(
                            self.f(true),
                            cands,
                            0,
                            zero.spot(),
                        ),
                    decreases predictors.len() - i,
                {
                    assert(cands[i as int] == (
                        predictors@[i as int].0 as int,
                        predictors@[i as int].1 as int,
                    ));
                    let p: (i32, i32) = predictors[i];
                    t = self.better(true, p.0 as i64, p.1 as i64, t);
                    i = i + 1;
                }
                t
            },
        }
    }

    /// Where the walk ends, in its own measure.
    #[verifier::spinoff_prover]
    #[verifier::rlimit(60)]
    fn walk_from(&self, o: &MeOptions, b: Found) -> (r: Found)
        requires
            self.wf(),
            0 <= b.cost <= COST_MAX,
        ensures
            r.spot() == self.walked(*o, None, self.centred(*o, None, b.spot())),
            0 <= r.cost <= COST_MAX,
    {
        let (x, y): (i64, i64) = (b.mv.0 as i64 + 0x8000_0000, b.mv.1 as i64 + 0x8000_0000);
        let c: Found = if o.me_snap && (x % 4 != 0 || y % 4 != 0) {
            let mv: (i32, i32) = (snap(b.mv.0), snap(b.mv.1));
            Found { mv, cost: self.cost(true, mv) }
        } else {
            b
        };
        let big: bool = self.rw >= 8 && self.rh >= 8;
        let steps: Vec<i32> = if self.fe.fast {
            let mut v: Vec<i32> = Vec::new();
            v.push(16);
            v.push(4);
            v
        } else if big {
            rungs_of(o.dia_mask)
        } else {
            rungs_of(o.dia_sub_mask)
        };
        assert(steps@.map_values(|v: i32| v as int) =~= self.steps(*o));
        self.ladder_from(o.fc && !self.fe.fast && big, &steps, c)
    }

    /// The result of the whole-sample search.
    fn full_pel_from(
        &self,
        o: &MeOptions,
        st: &mut MeState,
        start: Option<(i32, i32)>,
        b: Found,
        Ghost(preds): Ghost<Seq<(i32, i32)>>,
    ) -> (r: Found)
        requires
            self.wf(),
            old(st).wf(),
            start is Some ==> !self.sadfp,
            b.spot() == self.base(preds, start),
            b.cost == self.cost_at(true, b.mv.0 as int, b.mv.1 as int),
            0 <= b.cost <= COST_MAX,
        ensures
            (r.spot(), *final(st)) == self.full_pel(*o, *old(st), preds, start),
            final(st).wf(),
            0 <= r.cost <= COST_MAX,
            r.cost == self.cost_at(false, r.mv.0 as int, r.mv.1 as int),
    {
        let refine: bool = start.is_some();
        let mut w: Found = if refine {
            b
        } else {
            self.walk_from(o, b)
        };
        proof {
            self.lemma_walk_true(*o, start, b.spot());
        }
        if self.sadfp {
            w = Found { mv: w.mv, cost: self.cost(false, w.mv) };
        }
        if self.is_stalled(o, st, refine, w) {
            let r: Found = self.rescue_from(o, w);
            proof {
                self.lemma_rescue_true(*o, w.spot());
            }
            st.note_rescue(o, w.cost, r.cost);
            r
        } else {
            w
        }
    }

    /// The cost that the walk hands on is the cost of its vector.
    proof fn lemma_walk_true(&self, o: MeOptions, start: Option<(i32, i32)>, b: Spot)
        requires
            b.c == self.cost_at(true, b.x, b.y),
        ensures
            ({
                let w = self.walked(o, start, self.centred(o, start, b));
                w.c == self.cost_at(true, w.x, w.y)
            }),
            !self.sadfp ==> ({
                let w = self.walked(o, start, self.centred(o, start, b));
                self.cost_at(true, w.x, w.y) == self.cost_at(false, w.x, w.y)
            }),
    {
        self.lemma_ladder_true(
            o.fc && !self.fe.fast && self.large(),
            self.steps(o),
            0,
            self.centred(o, start, b),
        );
    }

    proof fn lemma_ladder_true(&self, fc: bool, steps: Seq<int>, i: int, s: Spot)
        requires
            s.c == self.cost_at(true, s.x, s.y),
        ensures
            ({
                let w = self.ladder(fc, steps, i, s);
                w.c == self.cost_at(true, w.x, w.y)
            }),
        decreases steps.len() - i,
    {
        if i < steps.len() {
            self.lemma_dia_true(fc, steps[i], s);
            self.lemma_ladder_true(fc, steps, i + 1, self.dia_walk(fc, steps[i], s));
        }
    }

    proof fn lemma_dia_true(&self, fc: bool, step: int, s: Spot)
        requires
            s.c == self.cost_at(true, s.x, s.y),
        ensures
            ({
                let w = self.dia_walk(fc, step, s);
                w.c == self.cost_at(true, w.x, w.y)
            }),
        decreases s.c,
    {
        lemma_scan_falls(self.f(true), around(ring4(step), s), 0, s);
        lemma_cascade_falls(self.f(true), ring4(step), 0, s);
        let t = self.dia_pass(fc, step, s);
        if 0 <= t.c < s.c {
            self.lemma_dia_true(fc, step, t);
        }
    }

    proof fn lemma_rescue_true(&self, o: MeOptions, s: Spot)
        requires
            s.c == self.cost_at(false, s.x, s.y),
        ensures
            ({
                let w = self.rescue(o, s);
                w.c == self.cost_at(false, w.x, w.y)
            }),
    {
        let cands = grid(snapped(s.x), snapped(s.y), o.me_range as int);
        lemma_scan_falls(self.f(false), cands, 0, s);
        lemma_cascade_falls(self.f(false), ring9(4), 0, scan(self.f(false), cands, 0, s));
    }

    proof fn lemma_sp_true(&self, o: MeOptions, pat: int, step: int, iter: int, s: Spot)
        requires
            s.c == self.cost_at(false, s.x, s.y),
        ensures
            ({
                let w = self.sp_walk(o, pat, step, iter, s);
                w.c == self.cost_at(false, w.x, w.y)
            }),
        decreases s.c,
    {
        lemma_scan_falls(self.f(false), around(ring8(step), s), 0, s);
        lemma_cascade_falls(self.f(false), ring8(step), 0, s);
        lemma_cascade_falls(self.f(false), ring4(step), 0, s);
        let t = self.sp_pass(o, pat, step, s);
        if 0 <= t.c < s.c {
            self.lemma_sp_true(o, pat, step, iter + 1, t);
        }
    }

    proof fn lemma_dia_falls(&self, fc: bool, step: int, s: Spot)
        ensures
            self.dia_walk(fc, step, s).c <= s.c,
        decreases s.c,
    {
        lemma_scan_falls(self.f(true), around(ring4(step), s), 0, s);
        lemma_cascade_falls(self.f(true), ring4(step), 0, s);
        let t = self.dia_pass(fc, step, s);
        if 0 <= t.c < s.c {
            self.lemma_dia_falls(fc, step, t);
        }
    }

    proof fn lemma_ladder_falls(&self, fc: bool, steps: Seq<int>, i: int, s: Spot)
        ensures
            self.ladder(fc, steps, i, s).c <= s.c,
        decreases steps.len() - i,
    {
        if i < steps.len() {
            self.lemma_dia_falls(fc, steps[i], s);
            self.lemma_ladder_falls(fc, steps, i + 1, self.dia_walk(fc, steps[i], s));
        }
    }

    proof fn lemma_sp_falls(&self, o: MeOptions, pat: int, step: int, iter: int, s: Spot)
        ensures
            self.sp_walk(o, pat, step, iter, s).c <= s.c,
        decreases s.c,
    {
        lemma_scan_falls(self.f(false), around(ring8(step), s), 0, s);
        lemma_cascade_falls(self.f(false), ring8(step), 0, s);
        lemma_cascade_falls(self.f(false), ring4(step), 0, s);
        let t = self.sp_pass(o, pat, step, s);
        if 0 <= t.c < s.c {
            self.lemma_sp_falls(o, pat, step, iter + 1, t);
        }
    }

    proof fn lemma_searched_falls(
        &self,
        o: MeOptions,
        st: MeState,
        preds: Seq<(i32, i32)>,
        start: Option<(i32, i32)>,
    )
        requires
            !self.sadfp,
        ensures
            self.searched(o, st, preds, start).0.c <= self.base(preds, start).c,
    {
        let b = self.base(preds, start);
        let c = self.centred(o, start, b);
        self.lemma_ladder_falls(
            o.fc && !self.fe.fast && self.large(),
            self.steps(o),
            0,
            c,
        );
        let w = self.walked(o, start, c);
        let cands = grid(snapped(w.x), snapped(w.y), o.me_range as int);
        lemma_scan_falls(self.f(false), cands, 0, w);
        lemma_cascade_falls(self.f(false), ring9(4), 0, scan(self.f(false), cands, 0, w));
        let (r, st1) = self.full_pel(o, st, preds, start);
        let pat = self.learned_pattern(o, st1);
        self.lemma_sp_falls(o, pat, 2, 1, r);
        self.lemma_sp_falls(o, pat, 1, 1, self.sp_walk(o, pat, 2, 1, r));
    }

    /// Where all of it is measured alike, a search ends at no higher cost than any predicted
    /// vector or the zero vector has.
    pub proof fn law_search_is_no_worse_than_its_seeds(
        &self,
        o: MeOptions,
        st: MeState,
        preds: Seq<(i32, i32)>,
        j: int,
    )
        requires
            !self.sadfp,
            0 <= j < preds.len(),
        ensures
            ({
                let c = self.searched(o, st, preds, None).0.c;
                &&& c <= self.cost_at(false, preds[j].0 as int, preds[j].1 as int)
                &&& c <= self.cost_at(false, 0, 0)
            }),
    {
        self.lemma_searched_falls(o, st, preds, None);
        lemma_scan_falls(
            self.f(true),
            ints(preds),
            0,
            Spot { x: 0, y: 0, c: self.cost_at(true, 0, 0) },
        );
        assert(ints(preds)[j] == (preds[j].0 as int, preds[j].1 as int));
        assert(self.f(true)(ints(preds)[j].0, ints(preds)[j].1) == self.cost_at(
            true,
            preds[j].0 as int,
            preds[j].1 as int,
        ));
    }

    /// A refinement ends at no higher cost than the vector it was given.
    pub proof fn law_refinement_is_no_worse(
        &self,
        o: MeOptions,
        st: MeState,
        preds: Seq<(i32, i32)>,
        mv: (i32, i32),
    )
        requires
            !self.sadfp,
        ensures
            self.searched(o, st, preds, Some(mv)).0.c <= self.cost_at(
                false,
                mv.0 as int,
                mv.1 as int,
            ),
    {
        self.lemma_searched_falls(o, st, preds, Some(mv));
    }

    /// Search a motion vector: start from the best of the predicted vectors (or refine the
    /// given one), walk whole samples, search a grid where the walk has stalled, and refine
    /// by half and quarter samples. The cost that comes back is the cost of the vector. With the
    /// snap to whole samples it is no higher than that of the best start.
    pub fn motion_search(
        &self,
        o: &MeOptions,
        st: &mut MeState,
        predictors: &[(i32, i32)],
        start: Option<(i32, i32)>,
    ) -> (r: Found)
        requires
            self.wf(),
            old(st).wf(),
            predictors@.len() >= 1,
            self.center == predictors@[0],
            self.sadfp == (!self.fe.fast && start is None && o.sadfp),
        ensures
            (r.spot(), *final(st)) == self.searched(*o, *old(st), predictors@, start),
            final(st).wf(),
            r.cost == self.cost_at(false, r.mv.0 as int, r.mv.1 as int),
            o.me_snap ==> r.cost <= self.repriced(self.base(predictors@, start)).c,
            0 <= r.cost <= COST_MAX,
    {
        let b: Found = self.base_of(predictors, start);
        let seed: Found = if self.sadfp {
            Found { mv: b.mv, cost: self.cost(false, b.mv) }
        } else {
            b
        };
        assert(seed.spot() == self.repriced(self.base(predictors@, start)));
        assert(seed.cost == self.cost_at(false, seed.mv.0 as int, seed.mv.1 as int));
        let r: Found = self.full_pel_from(o, st, start, b, Ghost(predictors@));
        let mut best: Found = r;
        if !((self.fe.fast && !o.subpel_force) || (o.sp_defer && start.is_none())) {
            let p0: u32 = match o.pattern {
                Some(p) => p,
                None => if self.rw < 8 || self.rh < 8 {
                    o.sub_pattern
                } else if o.sp_single_pass {
                    2
                } else {
                    0
                },
            };
            let learns: bool = o.sp_learn > 0 && p0 == 0;
            let pat: u32 = if learns && st.sp_learn_n >= o.sp_learn && st.sp_1pass {
                2
            } else {
                p0
            };
            let mut memo: Memo = Memo::new();
            let i: usize = slot(r.mv);
            memo.mv[i] = r.mv;
            memo.cost[i] = r.cost;
            let (half, ring1): (Found, i64) = self.sp_walk_from(
                o,
                pat,
                2,
                &mut memo,
                r,
            );
            let (quarter, _): (Found, i64) = self.sp_walk_from(
                o,
                pat,
                1,
                &mut memo,
                half,
            );
            proof {
                self.lemma_sp_true(*o, pat as int, 2, 1, r.spot());
                self.lemma_sp_true(*o, pat as int, 1, 1, half.spot());
            }
            best = quarter;
            if learns {
                st.note_refine(o, r.cost, ring1, best.cost);
            }
        }
        if o.me_snap && seed.cost < best.cost {
            best = seed;
        }
        best
    }
}

} // verus!
