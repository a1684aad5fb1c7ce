//! The QP offsets of a group of frames, from what the later ones take of the earlier.
use vstd::prelude::*;
use crate::arith;
use crate::config::EncoderConfig;
use crate::kernels;
use crate::kernels::Kernels;
use crate::lookcost;
use crate::lookcost::{coded_luma, downsample2x, LookaheadMode, MbCost};
use crate::mbtree::FramePair;
use crate::pixels;
use crate::setup;
use crate::setup::YuvFrame;

verus! {

/// The most that a macroblock's QP is moved by.
pub const MBTREE_DQP_MAX: i32 = 6;

/// The weighing of what rests on macroblocks. It comes from outside; all that is asked of it is
/// that it is a function. The costs are those of all frames, one frame after the other.
pub trait Weigher {
    /// Whether a frame differs from the one before as grain does.
    fn grain(&self, cur: &Vec<u8>, prev: &Vec<u8>) -> bool;

    /// Whether prediction leaves so little of the frames that nothing is to be gained.
    fn backs_off(&self, costs: &Vec<MbCost>) -> bool;

    /// Whether what rests on the macroblocks differs too little between them.
    fn level(&self, costs: &Vec<MbCost>) -> bool;

    /// The QP offset that is due to what rests on a macroblock, rounded.
    fn offset(&self, costs: &Vec<MbCost>, i: usize) -> i32;
}

/// `o` may come back from `grain`.
pub open spec fn grain_may<W: Weigher>(w: W, cur: Seq<u8>, prev: Seq<u8>, o: bool) -> bool {
    exists|cur_: Vec<u8>, prev_: Vec<u8>|
        cur_@ == cur && prev_@ == prev && #[trigger] call_ensures(W::grain, (&w, &cur_, &prev_), o)
}

/// Whether a frame differs from the one before as grain does.
pub open spec fn grain_of<W: Weigher>(w: W, cur: Seq<u8>, prev: Seq<u8>) -> bool {
    choose|o: bool| grain_may(w, cur, prev, o)
}

/// `grain` is a function.
pub open spec fn grain_steady<W: Weigher>(w: W) -> bool {
    forall|cur: Seq<u8>, prev: Seq<u8>, o: bool, u: bool|
        #[trigger] grain_may(w, cur, prev, o) && #[trigger] grain_may(w, cur, prev, u) ==> o == u
}

/// `o` may come back from `backs_off`.
pub open spec fn backs_off_may<W: Weigher>(w: W, costs: Seq<MbCost>, o: bool) -> bool {
    exists|costs_: Vec<MbCost>|
        costs_@ == costs && #[trigger] call_ensures(W::backs_off, (&w, &costs_), o)
}

/// Whether prediction leaves so little of the frames that nothing is to be gained.
pub open spec fn backs_off_of<W: Weigher>(w: W, costs: Seq<MbCost>) -> bool {
    choose|o: bool| backs_off_may(w, costs, o)
}

/// `backs_off` is a function.
pub open spec fn backs_off_steady<W: Weigher>(w: W) -> bool {
    forall|costs: Seq<MbCost>, o: bool, u: bool|
        #[trigger] backs_off_may(w, costs, o) && #[trigger] backs_off_may(w, costs, u) ==> o == u
}

/// `o` may come back from `level`.
pub open spec fn level_may<W: Weigher>(w: W, costs: Seq<MbCost>, o: bool) -> bool {
    exists|costs_: Vec<MbCost>|
        costs_@ == costs && #[trigger] call_ensures(W::level, (&w, &costs_), o)
}

/// Whether what rests on the macroblocks differs too little between them.
pub open spec fn level_of<W: Weigher>(w: W, costs: Seq<MbCost>) -> bool {
    choose|o: bool| level_may(w, costs, o)
}

/// `level` is a function.
pub open spec fn level_steady<W: Weigher>(w: W) -> bool {
    forall|costs: Seq<MbCost>, o: bool, u: bool|
        #[trigger] level_may(w, costs, o) && #[trigger] level_may(w, costs, u) ==> o == u
}

/// `o` may come back from `offset`.
pub open spec fn offset_may<W: Weigher>(w: W, costs: Seq<MbCost>, i: usize, o: i32) -> bool {
    exists|costs_: Vec<MbCost>|
        costs_@ == costs && #[trigger] call_ensures(W::offset, (&w, &costs_, i), o)
}

/// The QP offset that is due to what rests on a macroblock, rounded.
pub open spec fn offset_of<W: Weigher>(w: W, costs: Seq<MbCost>, i: usize) -> i32 {
    choose|o: i32| offset_may(w, costs, i, o)
}

/// `offset` is a function.
pub open spec fn offset_steady<W: Weigher>(w: W) -> bool {
    forall|costs: Seq<MbCost>, i: usize, o: i32, u: i32|
        #[trigger] offset_may(w, costs, i, o) && #[trigger] offset_may(w, costs, i, u) ==> o == u
}

/// All of a weigher are functions: equal arguments give equal results.
pub open spec fn steady<W: Weigher>(w: W) -> bool {
    &&& grain_steady(w)
    &&& backs_off_steady(w)
    &&& level_steady(w)
    &&& offset_steady(w)
}

fn ask_grain<W: Weigher>(w: &W, cur: &Vec<u8>, prev: &Vec<u8>) -> (r: bool)
    requires
        steady(*w),
    ensures
        r == grain_of(*w, cur@, prev@),
{
    let r: bool = w.grain(cur, prev);
    assert(grain_may(*w, cur@, prev@, r));
    assert(grain_may(*w, cur@, prev@, grain_of(*w, cur@, prev@)));
    r
}

fn ask_backs_off<W: Weigher>(w: &W, costs: &Vec<MbCost>) -> (r: bool)
    requires
        steady(*w),
    ensures
        r == backs_off_of(*w, costs@),
{
    let r: bool = w.backs_off(costs);
    assert(backs_off_may(*w, costs@, r));
    assert(backs_off_may(*w, costs@, backs_off_of(*w, costs@)));
    r
}

fn ask_level<W: Weigher>(w: &W, costs: &Vec<MbCost>) -> (r: bool)
    requires
        steady(*w),
    ensures
        r == level_of(*w, costs@),
{
    let r: bool = w.level(costs);
    assert(level_may(*w, costs@, r));
    assert(level_may(*w, costs@, level_of(*w, costs@)));
    r
}

fn ask_offset<W: Weigher>(w: &W, costs: &Vec<MbCost>, i: usize) -> (r: i32)
    requires
        steady(*w),
    ensures
        r == offset_of(*w, costs@, i),
{
    let r: i32 = w.offset(costs, i);
    assert(offset_may(*w, costs@, i, r));
    assert(offset_may(*w, costs@, i, offset_of(*w, costs@, i)));
    r
}

/// A group of frames in display order, the first coded without prediction.
pub struct Gop<'a, K: Kernels, W: Weigher> {
    pub cfg: &'a EncoderConfig,
    pub frames: &'a [&'a YuvFrame],
    pub mode: LookaheadMode,
    /// Motion compensation for each frame from the one before, in full and in half resolution.
    pub kf: &'a [K],
    pub kh: &'a [K],
    pub w: &'a W,
    /// Offsets are asked for.
    pub active: bool,
    /// A group that shows grain gets no offsets.
    pub grain_veto: bool,
}

impl<'a, K: Kernels, W: Weigher> Gop<'a, K, W> {
    /// The size of the frames is in range, and the kernels are functions.
    pub open spec fn sized(&self) -> bool {
        &&& setup::coded_size_ok(*self.cfg)
        &&& self.cfg.mbs_across() <= 0x3ff_ffff
        &&& self.cfg.mbs_down() <= 0x3ff_ffff
        &&& forall|f: int| 0 <= f < self.kf@.len() ==> kernels::steady(#[trigger] self.kf@[f])
        &&& forall|f: int| 0 <= f < self.kh@.len() ==> kernels::steady(#[trigger] self.kh@[f])
        &&& steady(*self.w)
    }

    pub open spec fn wf(&self) -> bool {
        &&& self.sized()
        &&& self.frames@.len() * self.mbs() <= usize::MAX
        &&& forall|f: int| 0 <= f < self.frames@.len() ==> (#[trigger] self.frames@[f]).wf()
        &&& self.kf@.len() == self.frames@.len()
        &&& self.kh@.len() == self.frames@.len()
    }

    /// The number of macroblocks of a frame.
    pub open spec fn mbs(&self) -> int {
        self.cfg.mbs_across() * self.cfg.mbs_down()
    }

    /// The luma of a frame in the coded size.
    pub open spec fn full(&self, f: int) -> Seq<u8> {
        pixels::extended(
            self.frames@[f].y@,
            self.frames@[f].width as int,
            self.frames@[f].height as int,
            16 * self.cfg.mbs_across(),
            16 * self.cfg.mbs_down(),
        )
    }

    /// The same in half resolution.
    pub open spec fn half(&self, f: int) -> Seq<u8> {
        lookcost::halved(
            self.full(f),
            16 * self.cfg.mbs_across(),
            16 * self.cfg.mbs_down(),
        )
    }

    /// `p` is frame `f` beside the one before it.
    pub open spec fn shows(&self, p: FramePair<'a, K>, f: int) -> bool {
        let halves = self.mode != LookaheadMode::FullRes;
        &&& *p.kf == self.kf@[f]
        &&& *p.kh == self.kh@[f]
        &&& p.mb_w == self.cfg.mbs_across()
        &&& p.mb_h == self.cfg.mbs_down()
        &&& p.mode == self.mode
        &&& p.full@ == self.full(f)
        &&& halves ==> p.half@ == self.half(f)
        &&& p.ref_full is Some <==> f > 0
        &&& p.ref_full matches Some(r) ==> r@ == self.full(f - 1)
        &&& p.ref_half is Some <==> f > 0 && halves
        &&& p.ref_half matches Some(r) ==> r@ == self.half(f - 1)
    }

    /// The costs of one of the frames.
    pub open spec fn of_frame(&self, costs: Seq<MbCost>, f: int) -> Seq<MbCost> {
        costs.subrange(f * self.mbs(), (f + 1) * self.mbs())
    }

    /// `costs` are those of a frame.
    pub open spec fn frame_costed(&self, costs: Seq<MbCost>, f: int) -> bool {
        exists|p: FramePair<'a, K>| #[trigger] self.shows(p, f) && p.costed(costs)
    }

    /// `costs` are those of the first `n` frames.
    pub open spec fn costed(&self, costs: Seq<MbCost>, n: int) -> bool {
        &&& costs.len() == n * self.mbs()
        &&& forall|f: int|
            0 <= f < n ==> #[trigger] self.frame_costed(self.of_frame(costs, f), f)
    }

    /// The group gets no offsets, whatever its macroblocks cost.
    pub open spec fn idle(&self) -> bool {
        ||| !self.active
        ||| self.frames@.len() == 0
        ||| self.grain_veto && self.frames@.len() >= 2 && grain_of(
            *self.w,
            self.full(1),
            self.full(0),
        )
    }

    /// The offset of macroblock `i` of the group with these costs.
    pub open spec fn offset(&self, costs: Seq<MbCost>, i: int) -> int {
        if backs_off_of(*self.w, costs) || level_of(*self.w, costs) {
            0
        } else {
            arith::clamp(
                offset_of(*self.w, costs, i as usize) as int,
                -MBTREE_DQP_MAX as int,
                MBTREE_DQP_MAX as int,
            )
        }
    }

    /// `v` holds an offset for each macroblock of each frame, given by its number in the group.
    pub open spec fn lists(&self, v: Seq<Vec<i32>>, n: int, o: spec_fn(int) -> int) -> bool {
        &&& v.len() == n
        &&& forall|f: int, m: int|
            0 <= f < n && 0 <= m < self.mbs() ==> #[trigger] v[f]@[m] == o(f * self.mbs() + m)
        &&& forall|f: int| 0 <= f < n ==> (#[trigger] v[f])@.len() == self.mbs()
    }

    proof fn lemma_sizes(&self)
        requires
            self.wf(),
        ensures
            1 <= self.mbs() <= (16 * self.cfg.mbs_across()) * (16 * self.cfg.mbs_down()),
            self.mbs() <= usize::MAX,
    {
        let (w, h) = (self.cfg.mbs_across(), self.cfg.mbs_down());
        assert(1 <= w * h <= (16 * w) * (16 * h)) by (nonlinear_arith)
            requires
                w >= 1,
                h >= 1,
        ;
    }

    /// No offset for any macroblock.
    fn no_offsets(&self) -> (v: Vec<Vec<i32>>)
        requires
            self.wf(),
        ensures
            self.lists(v@, self.frames@.len() as int, |i: int| 0),
    {
        proof {
            self.lemma_sizes();
        }
        let mbs: usize = self.cfg.mb_width() * self.cfg.mb_height();
        let mut v: Vec<Vec<i32>> = Vec::new();
        let mut f: usize = 0;
        while f < self.frames.len()
            invariant
                self.wf(),
                f <= self.frames@.len(),
                mbs == self.mbs(),
                self.lists(v@, f as int, |i: int| 0),
            decreases self.frames@.len() - f,
        {
            let row: Vec<i32> = zeros(mbs);
            let ghost before = v@;
            v.push(row);
            assert forall|g: int, m: int| 0 <= g < f + 1 && 0 <= m < self.mbs() implies #[trigger] v@[
                g]@[m] == 0 by {
                if g < f {
                    assert(before[g]@[m] == 0);
                }
            }
            assert forall|g: int| 0 <= g < f + 1 implies (#[trigger] v@[g])@.len()
                == self.mbs() by {
                if g < f {
                    assert(before[g]@.len() == self.mbs());
                }
            }
            f = f + 1;
        }
        v
    }

    /// The luma of all frames in the coded size.
    fn planes(&self) -> (v: Vec<Vec<u8>>)
        requires
            self.wf(),
        ensures
            v@.len() == self.frames@.len(),
            forall|f: int| 0 <= f < v@.len() ==> (#[trigger] v@[f])@ == self.full(f),
    {
        let mut v: Vec<Vec<u8>> = Vec::new();
        let mut f: usize = 0;
        while f < self.frames.len()
            invariant
                self.wf(),
                f <= self.frames@.len(),
                v@.len() == f,
                forall|g: int| 0 <= g < v@.len() ==> (#[trigger] v@[g])@ == self.full(g),
            decreases self.frames@.len() - f,
        {
            let frame: &YuvFrame = self.frames[f];
            let p: Vec<u8> = coded_luma(self.cfg, frame);
            v.push(p);
            f = f + 1;
        }
        v
    }

    /// The same in half resolution, where the lookahead needs it.
    fn half_planes(&self, full: &Vec<Vec<u8>>) -> (v: Vec<Vec<u8>>)
        requires
            self.wf(),
            full@.len() == self.frames@.len(),
            forall|f: int| 0 <= f < full@.len() ==> (#[trigger] full@[f])@ == self.full(f),
        ensures
            v@.len() == self.frames@.len(),
            self.mode != LookaheadMode::FullRes ==> forall|f: int|
                0 <= f < v@.len() ==> (#[trigger] v@[f])@ == self.half(f),
    {
        let (mw, mh): (usize, usize) = (self.cfg.mb_width(), self.cfg.mb_height());
        let mut v: Vec<Vec<u8>> = Vec::new();
        let mut f: usize = 0;
        while f < full.len()
            invariant
                self.wf(),
                f <= full@.len(),
                full@.len() == self.frames@.len(),
                mw == self.cfg.mbs_across() && mh == self.cfg.mbs_down(),
                forall|g: int| 0 <= g < full@.len() ==> (#[trigger] full@[g])@ == self.full(g),
                v@.len() == f,
                self.mode != LookaheadMode::FullRes ==> forall|g: int|
                    0 <= g < v@.len() ==> (#[trigger] v@[g])@ == self.half(g),
            decreases full@.len() - f,
        {
            if self.mode == LookaheadMode::FullRes {
                v.push(Vec::new());
            } else {
                assert(full@[f as int]@.len() == (16 * mw) * (16 * mh));
                let h: (Vec<u8>, usize, usize) = downsample2x(&full[f], 16 * mw, 16 * mh);
                v.push(h.0);
            }
            f = f + 1;
        }
        v
    }

    proof fn lemma_plane_sizes(&self, f: int)
        requires
            self.wf(),
        ensures
            self.full(f).len() == (16 * self.cfg.mbs_across()) * (16 * self.cfg.mbs_down()),
            self.half(f).len() == (8 * self.cfg.mbs_across()) * (8 * self.cfg.mbs_down()),
    {
        let (w, h) = (self.cfg.mbs_across(), self.cfg.mbs_down());
        assert((16 * w) * (16 * h) >= 0) by (nonlinear_arith)
            requires
                w >= 1,
                h >= 1,
        ;
        assert((8 * w) * (8 * h) >= 0) by (nonlinear_arith)
            requires
                w >= 1,
                h >= 1,
        ;
        assert((16 * w) / 2 == 8 * w && (16 * h) / 2 == 8 * h);
    }

    /// The costs of a frame.
    fn one_frame(&self, full: &'a Vec<Vec<u8>>, half: &'a Vec<Vec<u8>>, f: usize) -> (v: Vec<
        MbCost,
    >)
        requires
            self.wf(),
            f < self.frames@.len(),
            full@.len() == self.frames@.len(),
            half@.len() == self.frames@.len(),
            forall|g: int| 0 <= g < full@.len() ==> (#[trigger] full@[g])@ == self.full(g),
            self.mode != LookaheadMode::FullRes ==> forall|g: int|
                0 <= g < half@.len() ==> (#[trigger] half@[g])@ == self.half(g),
        ensures
            v@.len() == self.mbs(),
            self.frame_costed(v@, f as int),
    {
        let halves: bool = self.mode != LookaheadMode::FullRes;
        let ref_full: Option<&[u8]> = if f > 0 {
            Some(full[f - 1].as_slice())
        } else {
            None
        };
        let ref_half: Option<&[u8]> = if f > 0 && halves {
            Some(half[f - 1].as_slice())
        } else {
            None
        };
        let p: FramePair<'_, K> = FramePair {
            kf: &self.kf[f],
            kh: &self.kh[f],
            mb_w: self.cfg.mb_width(),
            mb_h: self.cfg.mb_height(),
            full: full[f].as_slice(),
            half: half[f].as_slice(),
            ref_full,
            ref_half,
            mode: self.mode,
        };
        proof {
            self.lemma_sizes();
            self.lemma_plane_sizes(f as int);
            self.lemma_plane_sizes(f - 1);
            assert(kernels::steady(self.kf@[f as int]) && kernels::steady(self.kh@[f as int]));
            assert(self.shows(p, f as int));
        }
        p.frame_costs()
    }
}

fn zeros(n: usize) -> (v: Vec<i32>)
    ensures
        v@.len() == n,
        forall|i: int| 0 <= i < n ==> #[trigger] v@[i] == 0,
{
    let mut v: Vec<i32> = Vec::new();
    let mut i: usize = 0;
    while i < n
        invariant
            i <= n,
            v@.len() == i,
            forall|j: int| 0 <= j < i ==> #[trigger] v@[j] == 0,
        decreases n - i,
    {
        v.push(0);
        i = i + 1;
    }
    v
}

impl<'a, K: Kernels, W: Weigher> Gop<'a, K, W> {
    proof fn lemma_costed_more(&self, a: Seq<MbCost>, b: Seq<MbCost>, n: int)
        requires
            self.wf(),
            0 <= n,
            self.costed(a, n),
            b.len() == self.mbs(),
            self.frame_costed(b, n),
        ensures
            self.costed(a + b, n + 1),
    {
        let m = self.mbs();
        self.lemma_sizes();
        assert((n + 1) * m == n * m + m) by (nonlinear_arith);
        let c = a + b;
        assert forall|f: int| 0 <= f < n + 1 implies #[trigger] self.frame_costed(
            self.of_frame(c, f),
            f,
        ) by {
            assert((f + 1) * m == f * m + m) by (nonlinear_arith);
            assert(0 <= f * m) by (nonlinear_arith)
                requires
                    0 <= f,
                    0 <= m,
            ;
            if f < n {
                assert((f + 1) * m <= n * m) by (nonlinear_arith)
                    requires
                        f + 1 <= n,
                        0 <= m,
                ;
                assert(self.of_frame(c, f) =~= self.of_frame(a, f));
                assert(self.frame_costed(self.of_frame(a, f), f));
            } else {
                assert(self.of_frame(c, f) =~= b);
            }
        }
    }

    /// The costs of all frames.
    fn gop_costs(&self, full: &'a Vec<Vec<u8>>, half: &'a Vec<Vec<u8>>) -> (v: Vec<MbCost>)
        requires
            self.wf(),
            full@.len() == self.frames@.len(),
            half@.len() == self.frames@.len(),
            forall|g: int| 0 <= g < full@.len() ==> (#[trigger] full@[g])@ == self.full(g),
            self.mode != LookaheadMode::FullRes ==> forall|g: int|
                0 <= g < half@.len() ==> (#[trigger] half@[g])@ == self.half(g),
        ensures
            self.costed(v@, self.frames@.len() as int),
    {
        let mut all: Vec<MbCost> = Vec::new();
        let mut f: usize = 0;
        assert(0 * self.mbs() == 0);
        while f < self.frames.len()
            invariant
                self.wf(),
                f <= self.frames@.len(),
                full@.len() == self.frames@.len(),
                half@.len() == self.frames@.len(),
                forall|g: int| 0 <= g < full@.len() ==> (#[trigger] full@[g])@ == self.full(g),
                self.mode != LookaheadMode::FullRes ==> forall|g: int|
                    0 <= g < half@.len() ==> (#[trigger] half@[g])@ == self.half(g),
                self.costed(all@, f as int),
            decreases self.frames@.len() - f,
        {
            let mut c: Vec<MbCost> = self.one_frame(full, half, f);
            proof {
                self.lemma_costed_more(all@, c@, f as int);
            }
            all.append(&mut c);
            f = f + 1;
        }
        all
    }

    /// The offsets that follow from the costs.
    #[verifier::rlimit(50)]
    fn weighed(&self, costs: &Vec<MbCost>) -> (v: Vec<Vec<i32>>)
        requires
            self.wf(),
            self.costed(costs@, self.frames@.len() as int),
            !backs_off_of(*self.w, costs@),
            !level_of(*self.w, costs@),
        ensures
            self.lists(v@, self.frames@.len() as int, |i: int| self.offset(costs@, i)),
    {
        proof {
            self.lemma_sizes();
        }
        let mbs: usize = self.cfg.mb_width() * self.cfg.mb_height();
        let ghost o = |i: int| self.offset(costs@, i);
        let mut v: Vec<Vec<i32>> = Vec::new();
        let mut f: usize = 0;
        while f < self.frames.len()
            invariant
                self.wf(),
                f <= self.frames@.len(),
                mbs == self.mbs(),
                self.frames@.len() * mbs <= usize::MAX,
                o == (|i: int| self.offset(costs@, i)),
                !backs_off_of(*self.w, costs@),
                !level_of(*self.w, costs@),
                self.lists(v@, f as int, o),
            decreases self.frames@.len() - f,
        {
            let mut row: Vec<i32> = Vec::new();
            let mut m: usize = 0;
            while m < mbs
                invariant
                    self.wf(),
                    m <= mbs,
                    f < self.frames@.len(),
                    mbs == self.mbs(),
                    self.frames@.len() * mbs <= usize::MAX,
                    o == (|i: int| self.offset(costs@, i)),
                    !backs_off_of(*self.w, costs@),
                    !level_of(*self.w, costs@),
                    row@.len() == m,
                    forall|j: int| 0 <= j < m ==> #[trigger] row@[j] == o(f * mbs + j),
                decreases mbs - m,
            {
                proof {
                    assert(0 <= f * mbs && f * mbs + mbs <= self.frames@.len() * mbs)
                        by (nonlinear_arith)
                        requires
                            f + 1 <= self.frames@.len(),
                            0 <= f,
                            0 <= mbs,
                    ;
                }
                let x: i32 = ask_offset(self.w, costs, f * mbs + m);
                let c: i32 = if x > MBTREE_DQP_MAX {
                    MBTREE_DQP_MAX
                } else if x < -MBTREE_DQP_MAX {
                    -MBTREE_DQP_MAX
                } else {
                    x
                };
                assert(c == o(f * mbs + m));
                row.push(c);
                m = m + 1;
            }
            let ghost before = v@;
            v.push(row);
            assert forall|g: int, m: int| 0 <= g < f + 1 && 0 <= m < self.mbs() implies #[trigger] v@[
                g]@[m] == o(g * self.mbs() + m) by {
                if g < f {
                    assert(before[g]@[m] == o(g * self.mbs() + m));
                } else {
                    assert(row@[m] == o(f * mbs + m));
                }
            }
            assert forall|g: int| 0 <= g < f + 1 implies (#[trigger] v@[g])@.len()
                == self.mbs() by {
                if g < f {
                    assert(before[g]@.len() == self.mbs());
                }
            }
            f = f + 1;
        }
        v
    }
}

/// The QP offsets of the macroblocks of a group of frames, frame by frame.
pub fn gop_qp_offsets_refs<'a, K: Kernels, W: Weigher>(g: &Gop<'a, K, W>) -> (v: Vec<Vec<i32>>)
    requires
        g.wf(),
    ensures
        settled(*g, v),
{
    if !g.active || g.frames.len() == 0 {
        return g.no_offsets();
    }
    let full: Vec<Vec<u8>> = g.planes();
    if g.grain_veto && g.frames.len() >= 2 {
        assert(full@[1]@ == g.full(1) && full@[0]@ == g.full(0));
        if ask_grain(g.w, &full[1], &full[0]) {
            return g.no_offsets();
        }
    }
    let half: Vec<Vec<u8>> = g.half_planes(&full);
    let costs: Vec<MbCost> = g.gop_costs(&full, &half);
    if ask_backs_off(g.w, &costs) || ask_level(g.w, &costs) {
        let v: Vec<Vec<i32>> = g.no_offsets();
        assert((|i: int| 0int) =~= (|i: int| g.offset(costs@, i)));
        v
    } else {
        g.weighed(&costs)
    }
}

/// No macroblock's QP is moved by more than the most.
pub proof fn law_offsets_are_bounded<'a, K: Kernels, W: Weigher>(
    g: Gop<'a, K, W>,
    costs: Seq<MbCost>,
    i: int,
)
    ensures
        -MBTREE_DQP_MAX <= g.offset(costs, i) <= MBTREE_DQP_MAX,
{
}

/// What is owed of the QP offsets of a group of frames.
pub open spec fn settled<'a, K: Kernels, W: Weigher>(g: Gop<'a, K, W>, v: Vec<Vec<i32>>) -> bool {
    &&& g.idle() ==> g.lists(v@, g.frames@.len() as int, |i: int| 0)
    &&& !g.idle() ==> exists|costs: Seq<MbCost>|
        #[trigger] g.costed(costs, g.frames@.len() as int) && g.lists(
            v@,
            g.frames@.len() as int,
            |i: int| g.offset(costs, i),
        )
}

/// The same for frames that stand one behind the other.
pub fn gop_qp_offsets<'a, K: Kernels, W: Weigher>(
    g: &Gop<'a, K, W>,
    frames: &'a [YuvFrame],
) -> (r: Vec<Vec<i32>>)
    requires
        g.frames@.len() == 0,
        forall|f: int| 0 <= f < frames@.len() ==> (#[trigger] frames@[f]).wf(),
        frames@.len() * g.mbs() <= usize::MAX,
        g.kf@.len() == frames@.len(),
        g.kh@.len() == frames@.len(),
        g.sized(),
    ensures
        exists|h: Gop<'a, K, W>|
            {
                &&& h.frames@ == frames@.map_values(|f: YuvFrame| &f)
                &&& h == (Gop { frames: h.frames, ..*g })
                &&& #[trigger] settled(h, r)
            },
{
    let mut v: Vec<&YuvFrame> = Vec::new();
    let mut f: usize = 0;
    while f < frames.len()
        invariant
            f <= frames@.len(),
            v@.len() == f,
            forall|i: int| 0 <= i < f ==> *(#[trigger] v@[i]) == frames@[i],
        decreases frames@.len() - f,
    {
        v.push(&frames[f]);
        f = f + 1;
    }
    let h: Gop<'_, K, W> = Gop {
        cfg: g.cfg,
        frames: v.as_slice(),
        mode: g.mode,
        kf: g.kf,
        kh: g.kh,
        w: g.w,
        active: g.active,
        grain_veto: g.grain_veto,
    };
    assert(h.frames@ =~= frames@.map_values(|f: YuvFrame| &f));
    let r: Vec<Vec<i32>> = gop_qp_offsets_refs(&h);
    assert(settled(h, r));
    r
}

/// A frame made ready for being compared with its neighbours.
pub struct PairPrep {
    pub full: Vec<u8>,
    pub half: Vec<u8>,
}

impl PairPrep {
    /// The planes have the size of coded frames.
    pub open spec fn wf(self, cfg: EncoderConfig) -> bool {
        let (w, h) = (cfg.mbs_across(), cfg.mbs_down());
        &&& self.full@.len() == (16 * w) * (16 * h)
        &&& self.half@.len() == (8 * w) * (8 * h)
    }
}

/// Make a frame ready: its luma in the coded size, and in half resolution.
pub fn pair_prep(cfg: &EncoderConfig, f: &YuvFrame) -> (r: PairPrep)
    requires
        f.wf(),
        setup::coded_size_ok(*cfg),
    ensures
        r.full@ == pixels::extended(
            f.y@,
            f.width as int,
            f.height as int,
            16 * cfg.mbs_across(),
            16 * cfg.mbs_down(),
        ),
        r.half@ == lookcost::halved(r.full@, 16 * cfg.mbs_across(), 16 * cfg.mbs_down()),
        r.wf(*cfg),
{
    let (mw, mh): (usize, usize) = (cfg.mb_width(), cfg.mb_height());
    let full: Vec<u8> = coded_luma(cfg, f);
    assert(16 * mw <= (16 * mw) * (16 * mh) && 16 * mh <= (16 * mw) * (16 * mh) && (8 * mw) * (8
        * mh) >= 0) by (nonlinear_arith)
        requires
            mw >= 1,
            mh >= 1,
    ;
    let h: (Vec<u8>, usize, usize) = downsample2x(&full, 16 * mw, 16 * mh);
    assert((16 * mw) as int / 2 == 8 * mw && (16 * mh) as int / 2 == 8 * mh);
    PairPrep { full, half: h.0 }
}

/// The costs with prediction added up over the first `k` macroblocks, and those without.
pub open spec fn cost_sums(costs: Seq<MbCost>, k: int) -> (int, int)
    decreases k,
{
    if k <= 0 {
        (0, 0)
    } else {
        let s = cost_sums(costs, k - 1);
        let c = costs[k - 1];
        (s.0 + arith::min(c.inter as int, c.intra as int), s.1 + c.intra)
    }
}

/// Of two frames, compared in half resolution, what the later costs with prediction from the
/// earlier, and what it costs without.
pub fn pair_sums<K: Kernels>(cfg: &EncoderConfig, cur: &PairPrep, prev: &PairPrep, k: &K) -> (t: (
    i64,
    i64,
))
    requires
        setup::coded_size_ok(*cfg),
        cfg.mbs_across() * cfg.mbs_down() <= 0xffff_ffff,
        cfg.mbs_across() <= 0x3ff_ffff,
        cfg.mbs_down() <= 0x3ff_ffff,
        cur.wf(*cfg),
        prev.wf(*cfg),
        kernels::steady(*k),
    ensures
        exists|p: FramePair<K>, costs: Seq<MbCost>|
            {
                &&& #[trigger] compares(p, *k, *cfg, *cur, *prev)
                &&& #[trigger] p.costed(costs)
                &&& costs.len() == cfg.mbs_across() * cfg.mbs_down()
                &&& (t.0 as int, t.1 as int) == cost_sums(costs, costs.len() as int)
            },
{
    let (mw, mh): (usize, usize) = (cfg.mb_width(), cfg.mb_height());
    let p: FramePair<'_, K> = FramePair {
        kf: k,
        kh: k,
        mb_w: mw,
        mb_h: mh,
        full: cur.full.as_slice(),
        half: cur.half.as_slice(),
        ref_full: Some(prev.full.as_slice()),
        ref_half: Some(prev.half.as_slice()),
        mode: LookaheadMode::HalfRes,
    };
    assert(compares(p, *k, *cfg, *cur, *prev));
    assert(mw * mh <= (16 * mw) * (16 * mh)) by (nonlinear_arith)
        requires
            mw >= 1,
            mh >= 1,
    ;
    let costs: Vec<MbCost> = p.frame_costs();
    let t: (i64, i64) = add_costs(&costs);
    assert(compares(p, *k, *cfg, *cur, *prev) && p.costed(costs@));
    t
}

fn add_costs(costs: &Vec<MbCost>) -> (t: (i64, i64))
    requires
        costs@.len() <= 0xffff_ffff,
    ensures
        (t.0 as int, t.1 as int) == cost_sums(costs@, costs@.len() as int),
{
    let (mut num, mut den): (i64, i64) = (0, 0);
    let mut i: usize = 0;
    while i < costs.len()
        invariant
            i <= costs@.len(),
            costs@.len() <= 0xffff_ffff,
            (num as int, den as int) == cost_sums(costs@, i as int),
            -0x8000_0000 * i <= num <= 0x7fff_ffff * i,
            -0x8000_0000 * i <= den <= 0x7fff_ffff * i,
        decreases costs@.len() - i,
    {
        let c: MbCost = costs[i];
        let m: i32 = if c.inter < c.intra {
            c.inter
        } else {
            c.intra
        };
        num = num + m as i64;
        den = den + c.intra as i64;
        i = i + 1;
    }
    (num, den)
}

/// `p` compares two frames in half resolution.
pub open spec fn compares<'a, K: Kernels>(
    p: FramePair<'a, K>,
    k: K,
    cfg: EncoderConfig,
    cur: PairPrep,
    prev: PairPrep,
) -> bool {
    &&& *p.kf == k
    &&& *p.kh == k
    &&& p.mb_w == cfg.mbs_across()
    &&& p.mb_h == cfg.mbs_down()
    &&& p.full@ == cur.full@
    &&& p.half@ == cur.half@
    &&& p.ref_full matches Some(r) && r@ == prev.full@
    &&& p.ref_half matches Some(r) && r@ == prev.half@
    &&& p.mode == LookaheadMode::HalfRes
}

} // verus!
