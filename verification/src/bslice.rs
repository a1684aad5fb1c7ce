//! The macroblocks of B slices.
use vstd::prelude::*;
use crate::arith;
use crate::bits;
use crate::bits::mvd_bits;
use crate::cavlc::{ElemView, Syntax};
use crate::distortion;
use crate::frame::FrameEncoder;
use crate::grid;
use crate::interplan;
use crate::kernels;
use crate::kernels::{Kernels, Phase, Price};
use crate::mbcavlc;
use crate::mbinter;
use crate::mbinter::{b_part_layout, Part};
use crate::mbstate;
use crate::mbstate::RefFrame;
use crate::motion;
use crate::motion::{predict_partition_mv, MvNeighbor};
use crate::partition;
use crate::partition::BInter;
use crate::parts;
use crate::parts::Searcher;
use crate::plan::InterPlan;
use crate::pslice;
use crate::search::{Found, MeOptions, MeState, MvRate, COST_MAX};
use crate::setup;
use crate::setup::{chroma_qp, mb_variance};
use crate::skip;
use crate::trial;

verus! {

/// How the macroblocks of a B slice are decided.
#[derive(Clone, Copy)]
pub struct BOptions {
    /// The variance from which a macroblock is measured by SATD.
    pub satd_var: Option<i64>,
    /// The distortion up to which direct prediction is left without residual, in a frame where
    /// less than a share of the skips are free and direct prediction wins in a share of the
    /// others.
    pub skip_dist: Option<i64>,
    pub busy_pct: u32,
    pub dirwin_pct: u32,
    /// Search rows and columns.
    pub split: bool,
    /// Divide every macroblock that is not direct into halves with its own motion: 1 into rows,
    /// 2 into columns, 0 not.
    pub force: u8,
}

/// How many macroblocks were looked at, how many were free to skip, how many were not, and of
/// these how many direct prediction won.
#[derive(Clone, Copy)]
pub struct BCounts {
    pub seen: u64,
    pub free: u64,
    pub coded: u64,
    pub dirwin: u64,
}

impl BCounts {
    /// Nothing was looked at.
    pub fn new() -> (r: Self)
        ensures
            r == (BCounts { seen: 0, free: 0, coded: 0, dirwin: 0 }),
    {
        BCounts { seen: 0, free: 0, coded: 0, dirwin: 0 }
    }

    /// Enough was looked at; few skips are free, and direct prediction wins often enough.
    pub open spec fn busy(self, o: BOptions) -> bool {
        &&& self.seen >= 32
        &&& self.free * 100 < self.seen * o.busy_pct
        &&& self.coded >= 32
        &&& self.dirwin * 100 >= self.coded * o.dirwin_pct
    }

    /// Whether enough was looked at, few skips are free, and direct prediction wins often enough.
    pub fn is_busy(&self, o: &BOptions) -> (r: bool)
        ensures
            r == self.busy(*o),
    {
        let (s, c): (u128, u128) = (self.seen as u128, self.coded as u128);
        let (b, d): (u128, u128) = (o.busy_pct as u128, o.dirwin_pct as u128);
        assert(s * b <= 0xffff_ffff_ffff_ffff * 0xffff_ffff && c * d <= 0xffff_ffff_ffff_ffff
            * 0xffff_ffff) by (nonlinear_arith)
            requires
                0 <= s <= 0xffff_ffff_ffff_ffff,
                0 <= c <= 0xffff_ffff_ffff_ffff,
                0 <= b <= 0xffff_ffff,
                0 <= d <= 0xffff_ffff,
        ;
        self.seen >= 32 && (self.free as u128) * 100 < s * b && self.coded >= 32 && (
        self.dirwin as u128) * 100 >= c * d
    }
}

/// What the macroblocks of a B slice are decided and coded with.
pub struct BEnv<'a, K: Kernels> {
    pub k: &'a K,
    pub rate: &'a MvRate,
    /// The reference before the frame, alone in its list.
    pub past: &'a [RefFrame],
    /// The reference behind the frame, alone in its list.
    pub future: &'a [RefFrame],
    pub sy: &'a [u8],
    pub su: &'a [u8],
    pub sv: &'a [u8],
    pub o: &'a MeOptions,
    pub b: &'a BOptions,
    /// The QP of each macroblock.
    pub qps: &'a [u8],
}

/// A partition searched in both lists: the vectors, their costs, and the cost of both together.
#[derive(Clone, Copy)]
pub struct Both {
    pub m0: (i32, i32),
    pub c0: i64,
    pub m1: (i32, i32),
    pub c1: i64,
    pub bi: i64,
}

impl Both {
    /// The cheapest of list 0, list 1 and both.
    pub open spec fn cheapest(self) -> (u8, i64) {
        let (p, c) = if self.c1 < self.c0 {
            (2u8, self.c1)
        } else {
            (1u8, self.c0)
        };
        if self.bi < c {
            (3, self.bi)
        } else {
            (p, c)
        }
    }

    /// The cheapest of direct prediction with this distortion and the others.
    pub open spec fn against(self, direct: i64) -> (u8, i64) {
        let (p, c) = self.cheapest();
        if c < direct {
            (p, c)
        } else {
            (0, direct)
        }
    }
}

impl<'a, K: Kernels> BEnv<'a, K> {
    pub open spec fn wf(&self, fe: FrameEncoder) -> bool {
        &&& kernels::steady(*self.k)
        &&& kernels::modest(*self.k)
        &&& self.rate.wf()
        &&& interplan::source_ok(fe, self.sy@, self.su@, self.sv@)
        &&& self.past@.len() == 1
        &&& self.future@.len() == 1
        &&& self.past@[0].y@.len() == fe.rec_y@.len()
        &&& self.future@[0].y@.len() == fe.rec_y@.len()
        &&& self.future@[0].mv@.len() == self.future@[0].ref_idx@.len()
        &&& self.future@[0].w4 == 0 || self.future@[0].w4 == 4 * fe.mb_w
        &&& self.qps@.len() == fe.mb_w * fe.mb_h
        &&& forall|i: int| 0 <= i < self.qps@.len() ==> #[trigger] self.qps@[i] <= 51
    }

    /// The frame when macroblock `(mb_x, mb_y)` is begun.
    pub open spec fn at_mb(&self, fe: FrameEncoder, mb_x: int, mb_y: int) -> FrameEncoder {
        FrameEncoder {
            mb_use_satd: self.b.satd_var matches Some(v) && setup::mb_spread(
                self.sy@,
                fe.cw,
                mb_x,
                mb_y,
            ) >= v,
            ..pslice::begun(fe, self.qps@[grid::cell(fe.mb_w as int, mb_x, mb_y)])
        }
    }

    /// Set the QPs and the measure of a macroblock.
    pub fn begin(&self, fe: &mut FrameEncoder, mb_x: usize, mb_y: usize)
        requires
            pslice::frame_ok(*old(fe)),
            self.wf(*old(fe)),
            old(fe).has_mb(mb_x as int, mb_y as int),
        ensures
            *final(fe) == self.at_mb(*old(fe), mb_x as int, mb_y as int),
            pslice::frame_ok(*final(fe)),
            self.wf(*final(fe)),
    {
        let w: usize = fe.mb_w;
        proof {
            grid::lemma_cell(fe.mb_w as int, fe.mb_h as int, mb_x as int, mb_y as int);
        }
        let q: u8 = self.qps[grid::cell_at(w, mb_x, mb_y, self.qps.len())];
        fe.qp = q;
        fe.qpc = chroma_qp(q);
        proof {
            interplan::lemma_source(*fe, self.sy@, 16, mb_x, mb_y);
        }
        let v: bool = match self.b.satd_var {
            Some(t) => mb_variance(fe, self.sy, mb_x, mb_y) >= t,
            None => false,
        };
        fe.mb_use_satd = v;
    }

    /// The searches in one of the lists.
    pub open spec fn searcher(&self, fe: &'a FrameEncoder, second: bool) -> Searcher<'a, K> {
        Searcher {
            fe,
            k: self.k,
            rate: self.rate,
            refs: if second {
                self.future
            } else {
                self.past
            },
            sy: self.sy,
            o: self.o,
            list: if second {
                1
            } else {
                0
            },
        }
    }

    /// The predicted vector of a whole macroblock in one of the lists.
    pub open spec fn center(&self, fe: FrameEncoder, mb_x: int, mb_y: int, second: bool) -> (i32, i32) {
        let n = motion::part_neighbours(fe.motion(), second, 4 * mb_x, 4 * mb_y, 4);
        motion::part_predicted(0, 0, n.0, n.1, n.2, 0)
    }

    /// How long two vectors are beside their predicted ones.
    pub open spec fn pair_bits(
        m0: (i32, i32),
        p0: (i32, i32),
        m1: (i32, i32),
        p1: (i32, i32),
    ) -> int {
        bits::mvd_rate(arith::wrap(m0.0 - p0.0)) + bits::mvd_rate(arith::wrap(m0.1 - p0.1))
            + bits::mvd_rate(arith::wrap(m1.0 - p1.0)) + bits::mvd_rate(arith::wrap(m1.1 - p1.1))
    }

    /// A partition searched in both lists.
    #[verifier::opaque]
    pub open spec fn both_of(
        &self,
        fe: &'a FrameEncoder,
        st: MeState,
        x: int,
        y: int,
        w: int,
        h: int,
        p0: (i32, i32),
        p1: (i32, i32),
    ) -> (Both, MeState) {
        let (s0, st0) = self.searcher(fe, false).found(st, 0, x, y, w, h, one(p0), None);
        let (s1, st1) = self.searcher(fe, true).found(st0, 0, x, y, w, h, one(p1), None);
        let m0 = (s0.x as i32, s0.y as i32);
        let m1 = (s1.x as i32, s1.y as i32);
        let (lx, ly, rw, rh) = (x as usize, y as usize, w as usize, h as usize);
        let d = distortion::region_dist(
            fe.by_sad(),
            self.sy@,
            fe.cw,
            lx,
            ly,
            rw,
            rh,
            distortion::blended(
                kernels::mc_of(*self.k, distortion::luma_job(0, 0, lx, ly, rw, rh, m0)),
                kernels::mc_of(*self.k, distortion::luma_job(1, 0, lx, ly, rw, rh, m1)),
                fe.bi_w,
            ),
        );
        let rate = kernels::price_of(
            *self.k,
            Price {
                phase: Phase::Plain,
                bits: Self::pair_bits(m0, p0, m1, p1) as u32,
                loud: fe.mb_loud,
            },
        );
        (Both { m0, c0: s0.c as i64, m1, c1: s1.c as i64, bi: (d + rate) as i64 }, st1)
    }

    /// Search a partition in both lists.
    fn search_both(
        &self,
        fe: &FrameEncoder,
        st: &mut MeState,
        x: usize,
        y: usize,
        w: usize,
        h: usize,
        p0: (i32, i32),
        p1: (i32, i32),
    ) -> (r: Both)
        requires
            pslice::frame_ok(*fe),
            self.wf(*fe),
            old(st).wf(),
            w == 8 || w == 16,
            h == 8 || h == 16,
            x + w <= fe.cw,
            y + h <= 16 * fe.mb_h,
        ensures
            (r, *final(st)) == self.both_of(
                fe,
                *old(st),
                x as int,
                y as int,
                w as int,
                h as int,
                p0,
                p1,
            ),
            final(st).wf(),
            0 <= r.c0 <= COST_MAX,
            0 <= r.c1 <= COST_MAX,
            0 <= r.bi <= COST_MAX,
    {
        reveal(BEnv::both_of);
        let s0: Searcher<'_, K> = Searcher {
            fe,
            k: self.k,
            rate: self.rate,
            refs: self.past,
            sy: self.sy,
            o: self.o,
            list: 0,
        };
        let s1: Searcher<'_, K> = Searcher {
            fe,
            k: self.k,
            rate: self.rate,
            refs: self.future,
            sy: self.sy,
            o: self.o,
            list: 1,
        };
        let (q0, q1): ([(i32, i32); 1], [(i32, i32); 1]) = ([p0], [p1]);
        assert(q0@ =~= one(p0) && q1@ =~= one(p1));
        let f0: Found = s0.motion(st, 0, x, y, w, h, &q0, None);
        let f1: Found = s1.motion(st, 0, x, y, w, h, &q1, None);
        assert(crate::pixels::block_fits(
            fe.cw as int,
            x as int,
            y as int,
            w as int,
            h as int,
            self.sy@.len() as int,
        )) by {
            assert(y * fe.cw + x + (h - 1) * fe.cw + w <= fe.cw * (16 * fe.mb_h))
                by (nonlinear_arith)
                requires
                    x + w <= fe.cw,
                    y + h <= 16 * fe.mb_h,
                    0 <= x,
                    0 <= y,
                    w >= 1,
                    h >= 1,
                    0 <= fe.cw,
            ;
        }
        let d: i64 = fe.bi_dist_rect(self.k, self.sy, x, y, w, h, f0.mv, f1.mv);
        let n: u32 = vector_bits(f0.mv, p0) + vector_bits(f1.mv, p1);
        let wt: i64 = kernels::price(
            self.k,
            Price { phase: Phase::Plain, bits: n, loud: fe.mb_loud },
        );
        Both { m0: f0.mv, c0: f0.cost, m1: f1.mv, c1: f1.cost, bi: d + wt }
    }
}

/// How long a vector is beside its predicted one.
fn vector_bits(m: (i32, i32), p: (i32, i32)) -> (r: u32)
    ensures
        r == bits::mvd_rate(arith::wrap(m.0 - p.0)) + bits::mvd_rate(arith::wrap(m.1 - p.1)),
        r <= 126,
{
    let (dx, dy): (i32, i32) = (
        arith::wrapped(m.0 as i64 - p.0 as i64),
        arith::wrapped(m.1 as i64 - p.1 as i64),
    );
    mvd_bits(dx) + mvd_bits(dy)
}

/// One vector.
pub open spec fn one(p: (i32, i32)) -> Seq<(i32, i32)> {
    seq![p]
}

/// The cheapest of list 0, list 1 and both.
fn pick_list(v: &Both) -> (r: (u8, i64))
    ensures
        r == v.cheapest(),
{
    let (p, c): (u8, i64) = if v.c1 < v.c0 {
        (2, v.c1)
    } else {
        (1, v.c0)
    };
    if v.bi < c {
        (3, v.bi)
    } else {
        (p, c)
    }
}

/// What is decided of a macroblock that is coded: the lists of the whole (0 for direct), the
/// vectors of the whole, and halves if it is divided.
#[derive(Clone, Copy)]
pub struct BChoice {
    pub dir: u8,
    pub mv0: (i32, i32),
    pub mv1: (i32, i32),
    pub split: Option<(u8, [(u8, (i32, i32), (i32, i32)); 2])>,
}

/// A half of a macroblock: its lists and vectors.
pub open spec fn half(v: Both) -> (u8, (i32, i32), (i32, i32)) {
    (v.cheapest().0, v.m0, v.m1)
}

/// The halves of a division as a sequence.
pub open spec fn split_view(s: Option<(u8, [(u8, (i32, i32), (i32, i32)); 2])>) -> Option<
    (u8, Seq<(u8, (i32, i32), (i32, i32))>),
> {
    match s {
        None => None,
        Some((m, h)) => Some((m, h@)),
    }
}

impl BChoice {
    pub open spec fn wf(self) -> bool {
        self.dir <= 3
    }

    /// The description that the macroblock is planned by.
    pub open spec fn describes(self, b: BInter) -> bool {
        &&& b.dir == self.dir
        &&& b.mv0 == self.mv0
        &&& b.mv1 == self.mv1
        &&& match self.split {
            Some((m, h)) => b.mvmode == m && b.parts2 == h,
            None => b.mvmode == 0 && b.parts2@ == seq![
                (0u8, (0i32, 0i32), (0i32, 0i32)),
                (0u8, (0i32, 0i32), (0i32, 0i32)),
            ],
        }
    }

    pub fn describe(&self) -> (b: BInter)
        ensures
            self.describes(b),
    {
        let (mvmode, parts2): (u8, [(u8, (i32, i32), (i32, i32)); 2]) = match self.split {
            Some((m, h)) => (m, h),
            None => (0, [(0, (0, 0), (0, 0)); 2]),
        };
        assert(self.split is None ==> parts2@ =~= seq![
            (0u8, (0i32, 0i32), (0i32, 0i32)),
            (0u8, (0i32, 0i32), (0i32, 0i32)),
        ]);
        BInter { dir: self.dir, mv0: self.mv0, mv1: self.mv1, mvmode, parts2 }
    }
}

/// What becomes of a macroblock: it is skipped or coded.
pub enum BAct {
    Skip,
    Code(BChoice),
}

impl<'a, K: Kernels> BEnv<'a, K> {
    /// The motion that direct prediction gives the blocks of a macroblock.
    pub open spec fn direct_motion(&self, fe: FrameEncoder, mb_x: int, mb_y: int) -> Seq<
        (i32, (i32, i32), i32, (i32, i32)),
    > {
        interplan::direct_blocks(fe.motion(), self.future@[0], mb_x, mb_y)
    }

    /// Plane `plane` of the direct prediction.
    pub open spec fn direct_plane(&self, fe: FrameEncoder, mb_x: int, mb_y: int, plane: u8) -> Seq<u8> {
        partition::predicted_plane(
            *self.k,
            fe.bi_w,
            plane,
            mb_x,
            mb_y,
            partition::direct_parts(self.direct_motion(fe, mb_x, mb_y)),
        )
    }

    /// Direct prediction without residual loses nothing.
    pub open spec fn direct_free(&self, fe: FrameEncoder, mb_x: int, mb_y: int) -> bool {
        let k = *self.k;
        let (cx, cy) = ((8 * mb_x) as usize, (8 * mb_y) as usize);
        &&& skip::luma_free(
            k,
            fe.qp,
            self.sy@,
            fe.cw,
            (16 * mb_x) as usize,
            (16 * mb_y) as usize,
            self.direct_plane(fe, mb_x, mb_y, 0),
        )
        &&& skip::chroma_free(
            k,
            fe.qpc,
            self.su@,
            fe.ccw,
            cx,
            cy,
            self.direct_plane(fe, mb_x, mb_y, 1),
        )
        &&& skip::chroma_free(
            k,
            fe.qpc,
            self.sv@,
            fe.ccw,
            cx,
            cy,
            self.direct_plane(fe, mb_x, mb_y, 2),
        )
    }

    /// The distortion of direct prediction.
    pub open spec fn direct_dist(&self, fe: FrameEncoder, mb_x: int, mb_y: int) -> int {
        distortion::region_dist(
            fe.by_sad(),
            self.sy@,
            fe.cw,
            (16 * mb_x) as usize,
            (16 * mb_y) as usize,
            16,
            16,
            self.direct_plane(fe, mb_x, mb_y, 0),
        )
    }

    /// The whole macroblock searched in both lists.
    pub open spec fn whole_of(&self, fe: &'a FrameEncoder, st: MeState, mb_x: int, mb_y: int) -> (
        Both,
        MeState,
    ) {
        self.both_of(
            fe,
            st,
            16 * mb_x,
            16 * mb_y,
            16,
            16,
            self.center(*fe, mb_x, mb_y, false),
            self.center(*fe, mb_x, mb_y, true),
        )
    }

    /// The halves of a division, and what they cost: their own costs, and a charge of four bits.
    pub open spec fn halves_of(
        &self,
        fe: &'a FrameEncoder,
        st: MeState,
        mb_x: int,
        mb_y: int,
        mvmode: int,
    ) -> (Seq<(u8, (i32, i32), (i32, i32))>, int, MeState) {
        let rs = mbinter::b_rects(mvmode);
        let p0 = self.center(*fe, mb_x, mb_y, false);
        let p1 = self.center(*fe, mb_x, mb_y, true);
        let (x, y) = (16 * mb_x, 16 * mb_y);
        let (a, st0) = self.both_of(
            fe,
            st,
            x + rs[0].0,
            y + rs[0].1,
            rs[0].2 as int,
            rs[0].3 as int,
            p0,
            p1,
        );
        let (b, st1) = self.both_of(
            fe,
            st0,
            x + rs[1].0,
            y + rs[1].1,
            rs[1].2 as int,
            rs[1].3 as int,
            p0,
            p1,
        );
        (
            seq![half(a), half(b)],
            a.cheapest().1 as int + b.cheapest().1 as int + kernels::price_of(
                    *self.k,
                    Price { phase: Phase::Plain, bits: 4, loud: fe.mb_loud },
                ) as int,
            st1,
        )
    }

    /// The division that costs less than `best`, if there is one: rows, or columns if they cost
    /// less still.
    pub open spec fn splits_of(
        &self,
        fe: &'a FrameEncoder,
        st: MeState,
        mb_x: int,
        mb_y: int,
        best: int,
    ) -> (Option<(u8, Seq<(u8, (i32, i32), (i32, i32))>)>, MeState) {
        let (h1, c1, st1) = self.halves_of(fe, st, mb_x, mb_y, 1);
        let (h2, c2, st2) = self.halves_of(fe, st1, mb_x, mb_y, 2);
        let left = if c1 < best {
            c1
        } else {
            best
        };
        (
            if c2 < left {
                Some((2u8, h2))
            } else if c1 < best {
                Some((1u8, h1))
            } else {
                None
            },
            st2,
        )
    }

    /// The choice for a macroblock whose whole was searched as `v`.
    pub open spec fn chosen(
        &self,
        fe: &'a FrameEncoder,
        v: Both,
        st: MeState,
        mb_x: int,
        mb_y: int,
        c: BChoice,
        st1: MeState,
    ) -> bool {
        let (dir, best) = v.against(self.direct_dist(*fe, mb_x, mb_y) as i64);
        &&& c.dir == dir
        &&& c.mv0 == v.m0
        &&& c.mv1 == v.m1
        &&& if self.b.force > 0 && dir != 0 {
            &&& split_view(c.split) == Some(
                (self.b.force, seq![(dir, v.m0, v.m1), (dir, v.m0, v.m1)]),
            )
            &&& st1 == st
        } else if self.b.split {
            (split_view(c.split), st1) == self.splits_of(fe, st, mb_x, mb_y, best as int)
        } else {
            c.split is None && st1 == st
        }
    }

    /// What becomes of a macroblock, and the counts and what the frame has learned then.
    pub open spec fn decided(
        &self,
        fe: &'a FrameEncoder,
        n: BCounts,
        st: MeState,
        mb_x: int,
        mb_y: int,
        act: BAct,
        n1: BCounts,
        st1: MeState,
    ) -> bool {
        let seen = (n.seen + 1) as u64;
        if self.direct_free(*fe, mb_x, mb_y) {
            &&& act is Skip
            &&& n1 == (BCounts { seen, free: (n.free + 1) as u64, ..n })
            &&& st1 == st
        } else {
            let (v, me) = self.whole_of(fe, st, mb_x, mb_y);
            let d = self.direct_dist(*fe, mb_x, mb_y);
            let dir = v.against(d as i64).0;
            &&& n1 == (BCounts {
                seen,
                coded: (n.coded + 1) as u64,
                dirwin: (n.dirwin + if dir == 0 {
                    1int
                } else {
                    0
                }) as u64,
                ..n
            })
            &&& if dir == 0 && n1.busy(*self.b) && (self.b.skip_dist matches Some(t) && d <= t) {
                act is Skip && st1 == me
            } else {
                match act {
                    BAct::Skip => false,
                    BAct::Code(c) => self.chosen(fe, v, me, mb_x, mb_y, c, st1),
                }
            }
        }
    }

    fn center_of(&self, fe: &FrameEncoder, mb_x: usize, mb_y: usize, second: bool) -> (r: (i32, i32))
        requires
            pslice::frame_ok(*fe),
            fe.has_mb(mb_x as int, mb_y as int),
        ensures
            r == self.center(*fe, mb_x as int, mb_y as int, second),
    {
        let n: [MvNeighbor; 3] = fe.mv_neighbors_block_list(
            4 * mb_x,
            4 * mb_y,
            4,
            if second {
                1
            } else {
                0
            },
        );
        predict_partition_mv(0, 0, n[0], n[1], n[2], 0)
    }

    /// Search the halves of a division.
    fn search_halves(
        &self,
        fe: &FrameEncoder,
        st: &mut MeState,
        mb_x: usize,
        mb_y: usize,
        mvmode: u8,
    ) -> (r: ([(u8, (i32, i32), (i32, i32)); 2], i64))
        requires
            pslice::frame_ok(*fe),
            self.wf(*fe),
            old(st).wf(),
            fe.has_mb(mb_x as int, mb_y as int),
            mvmode == 1 || mvmode == 2,
        ensures
            (r.0@, r.1 as int, *final(st)) == self.halves_of(
                fe,
                *old(st),
                mb_x as int,
                mb_y as int,
                mvmode as int,
            ),
            final(st).wf(),
            0 <= r.1 <= parts::SHAPE_MAX,
    {
        let p0: (i32, i32) = self.center_of(fe, mb_x, mb_y, false);
        let p1: (i32, i32) = self.center_of(fe, mb_x, mb_y, true);
        let (rs, _): ([(usize, usize, usize, usize); 2], Vec<Part>) = b_part_layout(mvmode);
        let (x, y): (usize, usize) = (16 * mb_x, 16 * mb_y);
        assert(rs@ == mbinter::b_rects(mvmode as int));
        let a: Both = self.search_both(
            fe,
            st,
            x + rs[0].0,
            y + rs[0].1,
            rs[0].2,
            rs[0].3,
            p0,
            p1,
        );
        let b: Both = self.search_both(
            fe,
            st,
            x + rs[1].0,
            y + rs[1].1,
            rs[1].2,
            rs[1].3,
            p0,
            p1,
        );
        let (pa, ca): (u8, i64) = pick_list(&a);
        let (pb, cb): (u8, i64) = pick_list(&b);
        let w: i64 = kernels::price(
            self.k,
            Price { phase: Phase::Plain, bits: 4, loud: fe.mb_loud },
        );
        let h: [(u8, (i32, i32), (i32, i32)); 2] = [(pa, a.m0, a.m1), (pb, b.m0, b.m1)];
        assert(h@ =~= seq![half(a), half(b)]);
        (h, ca + cb + w)
    }

    /// Find a division that costs less than `best`.
    fn search_splits(
        &self,
        fe: &FrameEncoder,
        st: &mut MeState,
        mb_x: usize,
        mb_y: usize,
        best: i64,
    ) -> (r: Option<(u8, [(u8, (i32, i32), (i32, i32)); 2])>)
        requires
            pslice::frame_ok(*fe),
            self.wf(*fe),
            old(st).wf(),
            fe.has_mb(mb_x as int, mb_y as int),
        ensures
            (split_view(r), *final(st)) == self.splits_of(
                fe,
                *old(st),
                mb_x as int,
                mb_y as int,
                best as int,
            ),
            final(st).wf(),
    {
        let (h1, c1): ([(u8, (i32, i32), (i32, i32)); 2], i64) = self.search_halves(
            fe,
            st,
            mb_x,
            mb_y,
            1,
        );
        let (h2, c2): ([(u8, (i32, i32), (i32, i32)); 2], i64) = self.search_halves(
            fe,
            st,
            mb_x,
            mb_y,
            2,
        );
        let left: i64 = if c1 < best {
            c1
        } else {
            best
        };
        if c2 < left {
            Some((2, h2))
        } else if c1 < best {
            Some((1, h1))
        } else {
            None
        }
    }

    /// Choose for a macroblock whose whole was searched.
    fn choose_for(
        &self,
        fe: &FrameEncoder,
        v: &Both,
        d: i64,
        st: &mut MeState,
        mb_x: usize,
        mb_y: usize,
    ) -> (c: BChoice)
        requires
            pslice::frame_ok(*fe),
            self.wf(*fe),
            old(st).wf(),
            fe.has_mb(mb_x as int, mb_y as int),
            d == self.direct_dist(*fe, mb_x as int, mb_y as int),
        ensures
            self.chosen(fe, *v, *old(st), mb_x as int, mb_y as int, c, *final(st)),
            final(st).wf(),
            c.wf(),
    {
        let (p, c): (u8, i64) = pick_list(v);
        let (dir, best): (u8, i64) = if c < d {
            (p, c)
        } else {
            (0, d)
        };
        let split: Option<(u8, [(u8, (i32, i32), (i32, i32)); 2])> = if self.b.force > 0 && dir != 0 {
            let h: [(u8, (i32, i32), (i32, i32)); 2] = [(dir, v.m0, v.m1), (dir, v.m0, v.m1)];
            assert(h@ =~= seq![(dir, v.m0, v.m1), (dir, v.m0, v.m1)]);
            Some((self.b.force, h))
        } else if self.b.split {
            self.search_splits(fe, st, mb_x, mb_y, best)
        } else {
            None
        };
        BChoice { dir, mv0: v.m0, mv1: v.m1, split }
    }

    /// Decide what becomes of a macroblock.
    #[verifier::rlimit(50)]
    pub fn decide(
        &self,
        fe: &FrameEncoder,
        n: &mut BCounts,
        st: &mut MeState,
        mb_x: usize,
        mb_y: usize,
    ) -> (r: (BAct, [(i32, (i32, i32), i32, (i32, i32)); 16]))
        requires
            pslice::frame_ok(*fe),
            self.wf(*fe),
            old(st).wf(),
            fe.has_mb(mb_x as int, mb_y as int),
            old(n).free <= old(n).seen,
            old(n).dirwin <= old(n).coded <= old(n).seen,
            old(n).seen < 0xffff_ffff,
        ensures
            self.decided(
                fe,
                *old(n),
                *old(st),
                mb_x as int,
                mb_y as int,
                r.0,
                *final(n),
                *final(st),
            ),
            r.1@ == self.direct_motion(*fe, mb_x as int, mb_y as int),
            final(st).wf(),
            final(n).seen == old(n).seen + 1,
            final(n).free <= final(n).seen,
            final(n).dirwin <= final(n).coded <= final(n).seen,
            r.0 matches BAct::Code(c) ==> c.wf(),
    {
        let ghost (gx, gy) = (mb_x as int, mb_y as int);
        let (dp, dc, motion): (
            [u8; 256],
            [[u8; 64]; 2],
            [(i32, (i32, i32), i32, (i32, i32)); 16],
        ) = fe.b_direct(self.k, &self.future[0], mb_x, mb_y);
        let free: bool = fe.skip_luma_is_free(self.k, self.sy, mb_x, mb_y, &dp)
            && fe.skip_chroma_is_free(self.k, self.su, self.sv, mb_x, mb_y, &dc);
        assert(free == self.direct_free(*fe, gx, gy));
        if free {
            *n = BCounts { seen: n.seen + 1, free: n.free + 1, coded: n.coded, dirwin: n.dirwin };
            return (BAct::Skip, motion);
        }
        proof {
            interplan::lemma_source(*fe, self.sy@, 16, mb_x, mb_y);
        }
        let d: i64 = fe.pred_dist(self.sy, 16 * mb_x, 16 * mb_y, &dp);
        let p0: (i32, i32) = self.center_of(fe, mb_x, mb_y, false);
        let p1: (i32, i32) = self.center_of(fe, mb_x, mb_y, true);
        let v: Both = self.search_both(fe, st, 16 * mb_x, 16 * mb_y, 16, 16, p0, p1);
        let (_, c): (u8, i64) = pick_list(&v);
        let direct: bool = c >= d;
        *n = BCounts {
            seen: n.seen + 1,
            free: n.free,
            coded: n.coded + 1,
            dirwin: if direct {
                n.dirwin + 1
            } else {
                n.dirwin
            },
        };
        let little: bool = match self.b.skip_dist {
            Some(t) => d <= t,
            None => false,
        };
        assert(direct == (v.against(d).0 == 0));
        if direct && n.is_busy(self.b) && little {
            return (BAct::Skip, motion);
        }
        let ghost me = *st;
        let choice: BChoice = self.choose_for(fe, &v, d, st, mb_x, mb_y);
        assert((v, me) == self.whole_of(fe, *old(st), gx, gy));
        assert(d == self.direct_dist(*fe, gx, gy));
        assert(!(direct && n.busy(*self.b) && little));
        assert(little == (self.b.skip_dist matches Some(t) && d <= t));
        assert(self.chosen(fe, v, me, gx, gy, choice, *st));
        let act: BAct = BAct::Code(choice);
        proof {
            let n0 = *old(n);
            assert(self.decided(fe, n0, *old(st), gx, gy, act, *n, *st));
        }
        (act, motion)
    }
}

/// A skipped macroblock leaves a frame that can be gone on with.
pub proof fn lemma_skipped_ok(a: FrameEncoder, b: FrameEncoder, l1: RefFrame, mb_x: int, mb_y: int)
    requires
        pslice::frame_ok(a),
        b.wf(),
        mbstate::direct_committed(
            a,
            b,
            mb_x,
            mb_y,
            interplan::direct_blocks(a.motion(), l1, mb_x, mb_y),
        ),
    ensures
        pslice::frame_ok(b),
{
}

/// A planned macroblock leaves a frame that can be gone on with.
pub proof fn lemma_b_planned_ok<K: Kernels>(
    k: K,
    a: FrameEncoder,
    b: FrameEncoder,
    l1: RefFrame,
    sy: Seq<u8>,
    su: Seq<u8>,
    sv: Seq<u8>,
    mb_x: int,
    mb_y: int,
    choice: BChoice,
    bi: BInter,
    p: InterPlan,
)
    requires
        pslice::frame_ok(a),
        b.wf(),
        choice.describes(bi),
        interplan::inter_planned(
            k,
            a,
            b,
            l1,
            sy,
            su,
            sv,
            mb_x,
            mb_y,
            0,
            Seq::empty(),
            Some(bi),
            trial::whole_quarters(),
            p,
        ),
    ensures
        pslice::frame_ok(b),
        b.mb_w == a.mb_w && b.mb_h == a.mb_h,
{
    let m = a.motion();
    let (e, q) = (Seq::<(i32, (i32, i32))>::empty(), trial::whole_quarters());
    let used = interplan::used_parts(m, l1, mb_x, mb_y, 0, e, Some(bi), q);
    let py = partition::predicted_plane(k, a.bi_w, 0, mb_x, mb_y, used);
    let pu = partition::predicted_plane(k, a.bi_w, 1, mb_x, mb_y, used);
    let pv = partition::predicted_plane(k, a.bi_w, 2, mb_x, mb_y, used);
    let c = choose|c: FrameEncoder|
        {
            &&& #[trigger] c.motion() == interplan::motion_after(
                m,
                l1,
                mb_x,
                mb_y,
                0,
                e,
                Some(bi),
                q,
            )
            &&& interplan::only_motion(a, c)
            &&& interplan::residual_of(p).leaves(k, c, b, mb_x, mb_y, py, pu, pv)
        };
}

/// The coding of a B slice so far, with the macroblocks as syntax elements.
pub struct BState {
    pub fe: FrameEncoder,
    pub me: MeState,
    pub counts: BCounts,
    /// The macroblocks skipped since one was coded.
    pub run: u32,
    pub out: Syntax,
}

impl BCounts {
    pub open spec fn wf(self) -> bool {
        &&& self.free <= self.seen
        &&& self.dirwin <= self.coded <= self.seen
    }
}

impl BState {
    /// The state after `n` macroblocks.
    pub open spec fn wf(self, n: int) -> bool {
        &&& pslice::frame_ok(self.fe)
        &&& self.me.wf()
        &&& self.counts.wf()
        &&& self.counts.seen == n
        &&& self.run <= n
    }
}

impl<'a, K: Kernels> BEnv<'a, K> {
    /// A macroblock is coded as `w` with a choice.
    pub open spec fn codes(
        &self,
        a: FrameEncoder,
        b: FrameEncoder,
        mb_x: int,
        mb_y: int,
        c: BChoice,
        w: Seq<ElemView>,
    ) -> bool {
        exists|bi: BInter|
            #[trigger] c.describes(bi) && trial::inter_encoded(
                *self.k,
                a,
                b,
                self.future@[0],
                1,
                self.sy@,
                self.su@,
                self.sv@,
                mb_x,
                mb_y,
                0,
                Seq::empty(),
                Some(bi),
                Seq::empty(),
                w,
            )
    }

    /// A macroblock is coded, behind the number of those skipped before it, or skipped.
    pub open spec fn acted(
        &self,
        a: FrameEncoder,
        s: BState,
        t: BState,
        mb_x: int,
        mb_y: int,
        act: BAct,
    ) -> bool {
        match act {
            BAct::Skip => {
                &&& mbstate::direct_committed(
                    a,
                    t.fe,
                    mb_x,
                    mb_y,
                    self.direct_motion(a, mb_x, mb_y),
                )
                &&& t.run == s.run + 1
                &&& t.out@ == s.out@
            },
            BAct::Code(c) => exists|w: Seq<ElemView>|
                {
                    &&& #[trigger] self.codes(a, t.fe, mb_x, mb_y, c, w)
                    &&& t.run == 0
                    &&& t.out@ == s.out@ + seq![ElemView::Ue(s.run)] + w
                },
        }
    }

    /// Macroblock `(mb_x, mb_y)` is decided, and coded or skipped.
    pub open spec fn step(&self, s: BState, t: BState, mb_x: int, mb_y: int) -> bool {
        let a = self.at_mb(s.fe, mb_x, mb_y);
        exists|act: BAct|
            {
                &&& #[trigger] self.decided(
                    &a,
                    s.counts,
                    s.me,
                    mb_x,
                    mb_y,
                    act,
                    t.counts,
                    t.me,
                )
                &&& self.acted(a, s, t, mb_x, mb_y, act)
            }
    }

    pub proof fn lemma_same_size(&self, a: FrameEncoder, b: FrameEncoder)
        requires
            self.wf(a),
            a.wf(),
            b.wf(),
            b.mb_w == a.mb_w,
            b.mb_h == a.mb_h,
        ensures
            self.wf(b),
    {
    }

    /// Code a choice.
    #[verifier::rlimit(50)]
    fn encode_choice(
        &self,
        fe: &mut FrameEncoder,
        mb_x: usize,
        mb_y: usize,
        c: &BChoice,
    ) -> (w: Syntax)
        requires
            pslice::frame_ok(*old(fe)),
            self.wf(*old(fe)),
            old(fe).has_mb(mb_x as int, mb_y as int),
        ensures
            self.codes(*old(fe), *final(fe), mb_x as int, mb_y as int, *c, w@),
            pslice::frame_ok(*final(fe)),
            final(fe).mb_w == old(fe).mb_w && final(fe).mb_h == old(fe).mb_h,
    {
        let ghost a = *fe;
        let ghost (gx, gy) = (mb_x as int, mb_y as int);
        let bi: BInter = c.describe();
        let parts: Vec<(i32, (i32, i32))> = Vec::new();
        assert(parts@ =~= Seq::empty());
        let mut w: Syntax = Syntax::new();
        fe.encode_inter_mb_v1_b(
            self.k,
            &mut w,
            &self.future[0],
            1,
            self.sy,
            self.su,
            self.sv,
            mb_x,
            mb_y,
            0,
            &parts,
            Some(bi),
        );
        let ghost b = *fe;
        proof {
            let (m, p) = choose|m: FrameEncoder, p: InterPlan|
                {
                    &&& #[trigger] interplan::inter_planned(
                        *self.k,
                        a,
                        m,
                        self.future@[0],
                        self.sy@,
                        self.su@,
                        self.sv@,
                        gx,
                        gy,
                        0,
                        Seq::empty(),
                        Some(bi),
                        trial::whole_quarters(),
                        p,
                    )
                    &&& mbcavlc::coding(b, w@) == mbcavlc::inter_coded(
                        m,
                        1,
                        gx,
                        gy,
                        0,
                        Seq::empty(),
                        Some(bi),
                        p,
                        Seq::empty(),
                    )
                    &&& b.cur_qp == if p.cbp != 0 {
                        m.qp
                    } else {
                        m.cur_qp
                    }
                    &&& mbcavlc::only_counts(m, b)
                };
            assert(m.wf()) by {
                reveal(FrameEncoder::wf);
            }
            lemma_b_planned_ok(
                *self.k,
                a,
                m,
                self.future@[0],
                self.sy@,
                self.su@,
                self.sv@,
                gx,
                gy,
                *c,
                bi,
                p,
            );
            assert(c.describes(bi));
        }
        w
    }

    /// Code or skip a macroblock.
    fn one_mb(&self, s: &mut BState, mb_x: usize, mb_y: usize, Ghost(n): Ghost<int>)
        requires
            old(s).wf(n),
            self.wf(old(s).fe),
            old(s).fe.has_mb(mb_x as int, mb_y as int),
            n < 0xffff_ffff,
        ensures
            self.step(*old(s), *final(s), mb_x as int, mb_y as int),
            final(s).wf(n + 1),
            self.wf(final(s).fe),
            final(s).fe.mb_w == old(s).fe.mb_w && final(s).fe.mb_h == old(s).fe.mb_h,
    {
        let ghost s0 = *s;
        let ghost (gx, gy) = (mb_x as int, mb_y as int);
        self.begin(&mut s.fe, mb_x, mb_y);
        let ghost a = s.fe;
        let (act, motion): (BAct, [(i32, (i32, i32), i32, (i32, i32)); 16]) = self.decide(
            &s.fe,
            &mut s.counts,
            &mut s.me,
            mb_x,
            mb_y,
        );
        assert(self.decided(&a, s0.counts, s0.me, gx, gy, act, s.counts, s.me));
        match act {
            BAct::Skip => {
                s.fe.commit_direct_motion(mb_x, mb_y, &motion);
                proof {
                    lemma_skipped_ok(a, s.fe, self.future@[0], gx, gy);
                    self.lemma_same_size(a, s.fe);
                }
                s.run = s.run + 1;
                assert(self.acted(a, s0, *s, gx, gy, act));
            },
            BAct::Code(c) => {
                let w: Syntax = self.encode_choice(&mut s.fe, mb_x, mb_y, &c);
                let ghost v = w@;
                let r: u32 = s.run;
                s.out.ue(r);
                s.run = 0;
                s.out.append(w);
                proof {
                    self.lemma_same_size(a, s.fe);
                    assert(self.codes(a, s.fe, gx, gy, c, v));
                    assert(s.out@ =~= s0.out@ + seq![ElemView::Ue(s0.run)] + v);
                    assert(self.acted(a, s0, *s, gx, gy, act));
                }
            },
        }
        assert(self.decided(&a, s0.counts, s0.me, gx, gy, act, s.counts, s.me));
    }
}

/// The macroblocks of a B slice one after the other, each from the state before it.
pub open spec fn b_slice_traced<'a, K: Kernels>(
    env: BEnv<'a, K>,
    trace: Seq<BState>,
    n: int,
) -> bool {
    &&& trace.len() == n + 1
    &&& forall|i: int| 0 <= i < n ==> #[trigger] b_traced_at(env, trace, i)
}

/// Macroblock `i` goes from one state of the trace to the next.
pub open spec fn b_traced_at<'a, K: Kernels>(env: BEnv<'a, K>, trace: Seq<BState>, i: int) -> bool {
    let w = trace[i].fe.mb_w as int;
    env.step(trace[i], trace[i + 1], i % w, i / w)
}

/// The end of a slice: the number of macroblocks skipped last, if there are any.
pub open spec fn b_ended(s: BState, t: BState) -> bool {
    &&& t.out@ == s.out@ + if s.run > 0 {
        seq![ElemView::Ue(s.run)]
    } else {
        Seq::empty()
    }
    &&& t == (BState { out: t.out, ..s })
}

/// Code all macroblocks of a B slice in raster order, as syntax elements.
#[verifier::rlimit(50)]
pub fn encode_slice_data_b<'a, K: Kernels>(env: &BEnv<'a, K>, s: &mut BState)
    requires
        old(s).wf(0),
        env.wf(old(s).fe),
    ensures
        exists|trace: Seq<BState>|
            {
                &&& #[trigger] b_slice_traced(*env, trace, old(s).fe.mb_w * old(s).fe.mb_h)
                &&& trace[0] == *old(s)
                &&& b_ended(trace.last(), *final(s))
            },
        pslice::frame_ok(final(s).fe),
{
    let ghost s0 = *s;
    let (w, h): (usize, usize) = (s.fe.mb_w, s.fe.mb_h);
    let ghost mut trace: Seq<BState> = seq![*s];
    let n: usize = env.qps.len();
    let mut i: usize = 0;
    let (mut x, mut y): (usize, usize) = (0, 0);
    while i < n
        invariant
            s0 == *old(s),
            w == s.fe.mb_w && h == s.fe.mb_h,
            w == s0.fe.mb_w && h == s0.fe.mb_h,
            w >= 1 && h >= 1,
            n == w * h,
            n <= 0xffff_ffff,
            i <= n,
            x < w,
            y <= h,
            i == grid::cell(w as int, x as int, y as int),
            i < n ==> y < h,
            s.wf(i as int),
            env.wf(s.fe),
            b_slice_traced(*env, trace, i as int),
            trace[0] == s0,
            trace.last() == *s,
        decreases n - i,
    {
        proof {
            grid::lemma_cell(w as int, h as int, x as int, y as int);
        }
        let ghost before = *s;
        env.one_mb(s, x, y, Ghost(i as int));
        proof {
            let old_trace = trace;
            trace = trace.push(*s);
            assert forall|j: int| 0 <= j < i + 1 implies #[trigger] b_traced_at(
                *env,
                trace,
                j,
            ) by {
                if j < i {
                    assert(b_traced_at(*env, old_trace, j));
                    assert(trace[j] == old_trace[j] && trace[j + 1] == old_trace[j + 1]);
                } else {
                    assert(trace[j] == before && trace[j + 1] == *s);
                }
            }
        }
        i = i + 1;
        if x + 1 < w {
            x = x + 1;
        } else {
            x = 0;
            y = y + 1;
            assert(y * w == (y - 1) * w + w) by (nonlinear_arith);
        }
        proof {
            grid::lemma_rows_left(w as int, h as int, y as int, i as int);
        }
    }
    let ghost last = *s;
    if s.run > 0 {
        let r: u32 = s.run;
        s.out.ue(r);
        assert(s.out@ =~= last.out@ + seq![ElemView::Ue(last.run)]);
    } else {
        assert(s.out@ =~= last.out@ + Seq::empty());
    }
    assert(b_ended(last, *s));
}

} // verus!
