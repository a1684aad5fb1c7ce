//! Lookahead costs: how much a macroblock of a source frame costs without prediction, and how
//! much of that a search in the frame before saves.
use vstd::prelude::*;
use crate::arith;
use crate::config::EncoderConfig;
use crate::distortion;
use crate::kernels;
use crate::kernels::{Kernels, McJob};
use crate::pixels;
use crate::pixels::{at_spot, clamp_plane, moments, satd_px, At};
use crate::setup;
use crate::setup::YuvFrame;

verus! {

/// At which resolutions the lookahead searches and measures.
#[derive(Clone, Copy, PartialEq, Eq, Structural, Debug)]
pub enum LookaheadMode {
    /// Both in full resolution.
    FullRes,
    /// Both in half resolution.
    HalfRes,
    /// A search in half resolution, then a small one and the measure in full resolution.
    Hybrid,
}

/// The cost of a macroblock without prediction, that with prediction from the frame before,
/// which is not higher, and the vector of that prediction in quarters of a sample.
#[derive(Clone, Copy, PartialEq, Eq, Debug)]
pub struct MbCost {
    pub intra: i32,
    pub inter: i32,
    pub mv: (i32, i32),
}

/// The luma of a frame in the coded size, with its edges repeated.
pub fn coded_luma(cfg: &EncoderConfig, frame: &YuvFrame) -> (r: Vec<u8>)
    requires
        frame.wf(),
        setup::coded_size_ok(*cfg),
    ensures
        r@ == pixels::extended(
            frame.y@,
            frame.width as int,
            frame.height as int,
            16 * cfg.mbs_across(),
            16 * cfg.mbs_down(),
        ),
        r@.len() == (16 * cfg.mbs_across()) * (16 * cfg.mbs_down()),
{
    let (mw, mh): (usize, usize) = (cfg.mb_width(), cfg.mb_height());
    assert(16 * mw <= (16 * mw) * (16 * mh) && 16 * mh <= (16 * mw) * (16 * mh))
        by (nonlinear_arith)
        requires
            mw >= 1,
            mh >= 1,
    ;
    clamp_plane(&frame.y, frame.width, frame.height, 16 * mw, 16 * mh)
}

/// The rounded mean of a square of four samples.
pub open spec fn mean4(y: Seq<u8>, cw: int, i: int, j: int) -> u8 {
    ((y[2 * j * cw + 2 * i] + y[2 * j * cw + 2 * i + 1] + y[(2 * j + 1) * cw + 2 * i] + y[(2 * j
        + 1) * cw + 2 * i + 1] + 2) / 4) as u8
}

/// A plane in half its resolution.
pub open spec fn halved(y: Seq<u8>, cw: int, ch: int) -> Seq<u8> {
    let hw = cw / 2;
    Seq::new((hw * (ch / 2)) as nat, |k: int| mean4(y, cw, k % hw, k / hw))
}

/// Halve the resolution of a plane: the halved plane, its width and its height.
#[verifier::rlimit(50)]
pub fn downsample2x(y: &[u8], cw: usize, ch: usize) -> (r: (Vec<u8>, usize, usize))
    requires
        y@.len() == cw * ch,
        cw >= 2,
        cw % 2 == 0,
    ensures
        r.0@ == halved(y@, cw as int, ch as int),
        r.1 == cw / 2,
        r.2 == ch / 2,
{
    let (hw, hh): (usize, usize) = (cw / 2, ch / 2);
    let n: usize = y.len();
    let mut out: Vec<u8> = Vec::new();
    let mut j: usize = 0;
    assert(0 * hw == 0);
    while j < hh
        invariant
            y@.len() == cw * ch,
            n == y@.len(),
            cw >= 2,
            cw == 2 * hw,
            hh == ch / 2,
            j <= hh,
            out@.len() == j * hw,
            forall|k: int|
                0 <= k < out@.len() ==> #[trigger] out@[k] == mean4(
                    y@,
                    cw as int,
                    k % (hw as int),
                    k / (hw as int),
                ),
        decreases hh - j,
    {
        let mut i: usize = 0;
        proof {
            assert((2 * j + 1) * cw + cw <= cw * ch && 2 * j * cw >= 0 && 2 * j * cw + cw == (2 * j
                + 1) * cw) by (nonlinear_arith)
                requires
                    2 * j + 2 <= ch,
                    0 <= j,
                    0 <= cw,
            ;
        }
        let r0: usize = 2 * j * cw;
        let r1: usize = (2 * j + 1) * cw;
        while i < hw
            invariant
                y@.len() == cw * ch,
                cw == 2 * hw,
                i <= hw,
                j < hh,
                r0 == 2 * j * cw,
                r1 == (2 * j + 1) * cw,
                r0 + cw == r1,
                r1 + cw <= y@.len(),
                out@.len() == j * hw + i,
                forall|k: int|
                    0 <= k < out@.len() ==> #[trigger] out@[k] == mean4(
                        y@,
                        cw as int,
                        k % (hw as int),
                        k / (hw as int),
                    ),
            decreases hw - i,
        {
            let s: u32 = y[r0 + 2 * i] as u32 + y[r0 + 2 * i + 1] as u32 + y[r1 + 2 * i] as u32
                + y[r1 + 2 * i + 1] as u32;
            proof {
                vstd::arithmetic::div_mod::lemma_fundamental_div_mod_converse(
                    j * hw + i,
                    hw as int,
                    j as int,
                    i as int,
                );
            }
            out.push(((s + 2) / 4) as u8);
            i = i + 1;
        }
        j = j + 1;
        proof {
            assert((j - 1) * hw + hw == j * hw) by (nonlinear_arith);
        }
    }
    assert(out@ =~= halved(y@, cw as int, ch as int)) by {
        assert(hw * hh == hh * hw) by (nonlinear_arith);
    }
    (out, hw, hh)
}

/// The samples of a block by column and row.
pub open spec fn samples(a: Seq<u8>, at: At) -> spec_fn(int, int) -> int {
    |x: int, y: int| a[at.index(x, y)] as int
}

/// The sum of the absolute Hadamard coefficients of a 4x4 block, without that of its mean.
pub open spec fn ac(a: Seq<u8>, at: At) -> int {
    pixels::had_sum(samples(a, at)) - pixels::had_coef(samples(a, at), 0, 0)
}

/// The sum over the first `k` 4x4 blocks, `nb` in a row, of the square at `(x, y)`.
pub open spec fn texture(a: Seq<u8>, cw: usize, x: int, y: int, nb: int, k: int) -> int
    decreases k,
{
    if k <= 0 {
        0
    } else {
        texture(a, cw, x, y, nb, k - 1) + ac(
            a,
            pixels::placed(
                cw,
                (x + 4 * ((k - 1) % nb)) as usize,
                (y + 4 * ((k - 1) / nb)) as usize,
            ),
        )
    }
}

/// What a square of `bs` by `bs` samples costs without prediction: its texture, at least 1.
pub open spec fn intra_of(a: Seq<u8>, cw: usize, x: int, y: int, bs: int) -> int {
    arith::max(1, texture(a, cw, x, y, bs / 4, (bs / 4) * (bs / 4)))
}

proof fn lemma_had_local(d: spec_fn(int, int) -> int, e: spec_fn(int, int) -> int)
    requires
        forall|x: int, y: int| 0 <= x < 4 && 0 <= y < 4 ==> #[trigger] d(x, y) == e(x, y),
    ensures
        pixels::had_sum(d) == pixels::had_sum(e),
{
    reveal(pixels::had_column);
    assert(forall|v: int, y: int|
        0 <= y < 4 ==> #[trigger] pixels::had_row(d, v, y) == pixels::had_row(e, v, y));
    assert(forall|v: int, u: int|
        #[trigger] pixels::had_coef(d, v, u) == pixels::had_coef(e, v, u));
}

/// The first coefficient of a 4x4 block is the sum of its samples.
proof fn lemma_mean_coef(a: Seq<u8>, at: At)
    ensures
        pixels::had_coef(samples(a, at), 0, 0) == pixels::sum_of(a, at, 4, 16),
{
    reveal_with_fuel(pixels::sum_of, 17);
    let d = samples(a, at);
    assert(pixels::had_row(d, 0, 0) == d(0, 0) + d(1, 0) + d(2, 0) + d(3, 0));
    assert(pixels::had_row(d, 0, 1) == d(0, 1) + d(1, 1) + d(2, 1) + d(3, 1));
    assert(pixels::had_row(d, 0, 2) == d(0, 2) + d(1, 2) + d(2, 2) + d(3, 2));
    assert(pixels::had_row(d, 0, 3) == d(0, 3) + d(1, 3) + d(2, 3) + d(3, 3));
}

/// The measure of a difference to nothing is that of the samples.
proof fn lemma_against_nothing(a: Seq<u8>, at: At, flat: Seq<u8>, fa: At)
    requires
        fa.base == 0,
        fa.stride == 4,
        flat.len() == 16,
        forall|i: int| 0 <= i < 16 ==> #[trigger] flat[i] == 0,
    ensures
        pixels::satd(a, at, flat, fa, 1, 1) == pixels::had_sum(samples(a, at)),
{
    let d = pixels::diff4(a, at, flat, fa, 0, 0);
    let e = samples(a, at);
    assert forall|x: int, y: int| 0 <= x < 4 && 0 <= y < 4 implies #[trigger] d(x, y) == e(
        x,
        y,
    ) by {
        assert(flat[fa.index(x, y)] == 0);
    }
    lemma_had_local(d, e);
    reveal_with_fuel(pixels::satd, 2);
}

proof fn lemma_ac_positive(d: spec_fn(int, int) -> int)
    ensures
        pixels::had_sum(d) >= pixels::had_coef(d, 0, 0),
{
    lemma_column(d, 0);
    lemma_column(d, 1);
    lemma_column(d, 2);
    lemma_column(d, 3);
}

proof fn lemma_column(d: spec_fn(int, int) -> int, v: int)
    ensures
        pixels::had_column(d, v) >= 0,
        pixels::had_column(d, v) >= pixels::had_coef(d, v, 0),
{
    reveal(pixels::had_column);
    lemma_abs_sum(
        pixels::had_coef(d, v, 0),
        pixels::had_coef(d, v, 1),
        pixels::had_coef(d, v, 2),
        pixels::had_coef(d, v, 3),
    );
}

proof fn lemma_abs_sum(a: int, b: int, c: int, d: int)
    ensures
        arith::abs(a) + arith::abs(b) + arith::abs(c) + arith::abs(d) >= a,
        arith::abs(a) + arith::abs(b) + arith::abs(c) + arith::abs(d) >= 0,
{
}

/// The cost of one 4x4 block.
fn block_texture(a: &[u8], at: At) -> (r: i64)
    requires
        at.holds(4, 4, a@.len() as int),
    ensures
        r == ac(a@, at),
        0 <= r <= 65280,
{
    let flat: [u8; 16] = [0; 16];
    let fa: At = At { base: 0, stride: 4 };
    let s: i64 = satd_px(a, at, &flat, fa, 4, 4);
    let m: (u64, u64) = moments(a, at, 4, 4);
    proof {
        lemma_against_nothing(a@, at, flat@, fa);
        lemma_mean_coef(a@, at);
        lemma_ac_positive(samples(a@, at));
        pixels::lemma_satd_bounds(a@, at, flat@, fa, 1, 1);
    }
    s - m.0 as i64
}

/// What a square of 8 or 16 by as many samples costs without prediction.
#[verifier::rlimit(50)]
pub fn intra_cost(sy: &[u8], cw: usize, bx0: usize, by0: usize, bs: usize) -> (r: i32)
    requires
        bs == 8 || bs == 16,
        bx0 + bs <= cw,
        by0 + bs <= usize::MAX,
        (by0 + bs) * cw <= sy@.len(),
    ensures
        r == intra_of(sy@, cw, bx0 as int, by0 as int, bs as int),
        1 <= r <= 65280 * 16,
{
    let nb: usize = bs / 4;
    let n: usize = sy.len();
    let mut s: i64 = 0;
    let mut by: usize = 0;
    while by < nb
        invariant
            bs == 8 || bs == 16,
            nb == bs / 4,
            by <= nb,
            bx0 + bs <= cw,
            by0 + bs <= usize::MAX,
            (by0 + bs) * cw <= n,
            n == sy@.len(),
            s == texture(sy@, cw, bx0 as int, by0 as int, nb as int, by * nb),
            0 <= s <= 65280 * (by * nb),
        decreases nb - by,
    {
        let mut bx: usize = 0;
        while bx < nb
            invariant
                bs == 8 || bs == 16,
                nb == bs / 4,
                by < nb,
                bx <= nb,
                bx0 + bs <= cw,
                by0 + bs <= usize::MAX,
                (by0 + bs) * cw <= n,
                n == sy@.len(),
                s == texture(sy@, cw, bx0 as int, by0 as int, nb as int, by * nb + bx),
                0 <= s <= 65280 * (by * nb + bx),
            decreases nb - bx,
        {
            let (x, y): (usize, usize) = (bx0 + 4 * bx, by0 + 4 * by);
            proof {
                assert(y * cw + x + 3 * cw + 4 <= (by0 + bs) * cw && y * cw + x >= 0)
                    by (nonlinear_arith)
                    requires
                        y + 4 <= by0 + bs,
                        x + 4 <= cw,
                        0 <= x,
                        0 <= y,
                ;
                assert((4 - 1) * cw == 3 * cw);
                vstd::arithmetic::div_mod::lemma_fundamental_div_mod_converse(
                    by * nb + bx,
                    nb as int,
                    by as int,
                    bx as int,
                );
                assert(by * nb <= 12) by (nonlinear_arith)
                    requires
                        by < nb,
                        nb <= 4,
                ;
            }
            let at: At = at_spot(cw, x, y);
            s = s + block_texture(sy, at);
            bx = bx + 1;
        }
        by = by + 1;
        proof {
            assert((by - 1) * nb + nb == by * nb) by (nonlinear_arith);
        }
    }
    assert(nb * nb <= 16) by (nonlinear_arith)
        requires
            nb <= 4,
    ;
    if s > 1 {
        s as i32
    } else {
        1
    }
}

/// A square of a frame that is looked for in another.
pub struct Look<'a, K: Kernels> {
    pub k: &'a K,
    pub sy: &'a [u8],
    pub cw: usize,
    pub ch: usize,
    pub ref_y: &'a [u8],
    pub bx0: usize,
    pub by0: usize,
    pub bs: usize,
}

/// A vector and what it costs.
#[derive(Clone, Copy)]
pub struct Spotted {
    pub c: int,
    pub x: int,
    pub y: int,
}

/// A vector and its cost.
pub open spec fn spotted(c: i64, mv: (i32, i32)) -> Spotted {
    Spotted { c: c as int, x: mv.0 as int, y: mv.1 as int }
}

impl<'a, K: Kernels> Look<'a, K> {
    pub open spec fn wf(&self) -> bool {
        &&& kernels::steady(*self.k)
        &&& self.bs == 8 || self.bs == 16
        &&& self.bx0 + self.bs <= self.cw <= 0x3fff_ffff
        &&& self.by0 + self.bs <= self.ch <= 0x3fff_ffff
        &&& self.sy@.len() == self.cw * self.ch
        &&& self.ref_y@.len() == self.cw * self.ch
    }

    /// The vector is one of whole samples, and the square that it points at lies in the frame.
    pub open spec fn inside(&self, x: int, y: int) -> bool {
        &&& x % 4 == 0
        &&& y % 4 == 0
        &&& 0 <= self.bx0 + x / 4
        &&& 0 <= self.by0 + y / 4
        &&& self.bx0 + x / 4 + self.bs <= self.cw
        &&& self.by0 + y / 4 + self.bs <= self.ch
    }

    /// What a vector costs: the SATD of the difference to the square that it points at, or to what
    /// motion compensation makes of it.
    pub open spec fn cost(&self, x: int, y: int) -> int {
        let n = self.bs as int / 4;
        let at = pixels::placed(self.cw, self.bx0, self.by0);
        if self.inside(x, y) {
            pixels::satd(
                self.sy@,
                at,
                self.ref_y@,
                pixels::placed(
                    self.cw,
                    (self.bx0 + x / 4) as usize,
                    (self.by0 + y / 4) as usize,
                ),
                n,
                n * n,
            )
        } else {
            pixels::satd(
                self.sy@,
                at,
                kernels::mc_of(
                    *self.k,
                    distortion::luma_job(
                        0,
                        0,
                        self.bx0,
                        self.by0,
                        self.bs,
                        self.bs,
                        (x as i32, y as i32),
                    ),
                ),
                pixels::dense(self.bs),
                n,
                n * n,
            )
        }
    }

    /// The better of a vector, which wraps around, and what was found before.
    pub open spec fn probed(&self, b: Spotted, x: int, y: int) -> Spotted {
        let (u, v) = (arith::wrap(x), arith::wrap(y));
        if self.cost(u, v) < b.c {
            Spotted { c: self.cost(u, v), x: u, y: v }
        } else {
            b
        }
    }

    /// The four neighbours at a distance, each of the best so far.
    pub open spec fn round(&self, b: Spotted, step: int) -> Spotted {
        let b1 = self.probed(b, b.x + 4 * step, b.y);
        let b2 = self.probed(b1, b1.x - 4 * step, b1.y);
        let b3 = self.probed(b2, b2.x, b2.y + 4 * step);
        self.probed(b3, b3.x, b3.y - 4 * step)
    }

    /// Rounds at one distance until none is better.
    pub open spec fn walk(&self, b: Spotted, step: int) -> Spotted
        decreases b.c,
    {
        let r = self.round(b, step);
        if 0 <= r.c < b.c {
            self.walk(r, step)
        } else {
            r
        }
    }

    /// Walks at ever half the distance.
    pub open spec fn walks(&self, b: Spotted, step: int) -> Spotted
        decreases step,
    {
        if step < 1 {
            b
        } else {
            self.walks(self.walk(b, step), step / 2)
        }
    }

    /// What a search from no motion and from a seed finds, from a distance on.
    pub open spec fn found(&self, seed: (i32, i32), step: int) -> Spotted {
        let b = Spotted { c: self.cost(0, 0), x: 0, y: 0 };
        if b.c == 0 {
            b
        } else {
            self.walks(
                if seed != (0i32, 0i32) {
                    self.probed(b, seed.0 as int, seed.1 as int)
                } else {
                    b
                },
                step,
            )
        }
    }

    proof fn lemma_cost(&self, x: int, y: int)
        requires
            self.wf(),
        ensures
            0 <= self.cost(x, y) <= 0x10_0000,
    {
        let n = self.bs as int / 4;
        let at = pixels::placed(self.cw, self.bx0, self.by0);
        assert(n * n == 4 || n * n == 16) by (nonlinear_arith)
            requires
                n == 2 || n == 4,
        ;
        pixels::lemma_satd_bounds(
            self.sy@,
            at,
            self.ref_y@,
            pixels::placed(self.cw, (self.bx0 + x / 4) as usize, (self.by0 + y / 4) as usize),
            n,
            n * n,
        );
        pixels::lemma_satd_bounds(
            self.sy@,
            at,
            kernels::mc_of(
                *self.k,
                distortion::luma_job(
                    0,
                    0,
                    self.bx0,
                    self.by0,
                    self.bs,
                    self.bs,
                    (x as i32, y as i32),
                ),
            ),
            pixels::dense(self.bs),
            n,
            n * n,
        );
    }

    proof fn lemma_fits(&self, x: int, y: int)
        requires
            self.wf(),
            0 <= x,
            0 <= y,
            x + self.bs <= self.cw,
            y + self.bs <= self.ch,
        ensures
            pixels::block_fits(
                self.cw as int,
                x,
                y,
                self.bs as int,
                self.bs as int,
                self.cw * self.ch,
            ),
            y * self.cw + x <= self.cw * self.ch,
    {
        let (cw, ch, bs) = (self.cw as int, self.ch as int, self.bs as int);
        assert(y * cw + x + (bs - 1) * cw + bs <= cw * ch && y * cw + x <= cw * ch)
            by (nonlinear_arith)
            requires
                x + bs <= cw,
                y + bs <= ch,
                0 <= x,
                0 <= y,
                bs >= 8,
        ;
    }

    /// What a vector costs.
    #[verifier::rlimit(50)]
    pub fn mc_satd(&self, mv: (i32, i32)) -> (r: i64)
        requires
            self.wf(),
        ensures
            r == self.cost(mv.0 as int, mv.1 as int),
            0 <= r <= 0x10_0000,
    {
        proof {
            self.lemma_cost(mv.0 as int, mv.1 as int);
            self.lemma_fits(self.bx0 as int, self.by0 as int);
            pixels::lemma_spot(
                self.cw,
                self.bx0,
                self.by0,
                self.bs as int,
                self.bs as int,
                self.sy@.len() as int,
            );
        }
        let n: usize = self.sy.len();
        let at: At = at_spot(self.cw, self.bx0, self.by0);
        let (ux, uy): (i64, i64) = (mv.0 as i64 + 0x8000_0000, mv.1 as i64 + 0x8000_0000);
        let ix: i64 = self.bx0 as i64 + ux / 4 - 0x2000_0000;
        let iy: i64 = self.by0 as i64 + uy / 4 - 0x2000_0000;
        assert(ix == self.bx0 + mv.0 as int / 4);
        assert(iy == self.by0 + mv.1 as int / 4);
        if ux % 4 == 0 && uy % 4 == 0 && ix >= 0 && iy >= 0 && ix + self.bs as i64 <= self.cw as i64
            && iy + self.bs as i64 <= self.ch as i64 {
            let (rx, ry): (usize, usize) = (ix as usize, iy as usize);
            proof {
                self.lemma_fits(rx as int, ry as int);
                pixels::lemma_spot(
                    self.cw,
                    rx,
                    ry,
                    self.bs as int,
                    self.bs as int,
                    self.ref_y@.len() as int,
                );
                assert(self.inside(mv.0 as int, mv.1 as int));
            }
            let rat: At = at_spot(self.cw, rx, ry);
            return satd_px(self.sy, at, self.ref_y, rat, self.bs, self.bs);
        }
        assert(!self.inside(mv.0 as int, mv.1 as int));
        let pred: [u8; 256] = kernels::mc(
            self.k,
            McJob {
                list: 0,
                refi: 0,
                plane: 0,
                x: self.bx0,
                y: self.by0,
                w: self.bs,
                h: self.bs,
                mv,
            },
        );
        let pat: At = At { base: 0, stride: self.bs };
        assert(pat == pixels::dense(self.bs));
        assert(pat.holds(self.bs as int, self.bs as int, 256)) by (nonlinear_arith)
            requires
                self.bs == 8 || self.bs == 16,
                pat.base == 0,
                pat.stride == self.bs,
        ;
        satd_px(self.sy, at, &pred, pat, self.bs, self.bs)
    }

    fn probe(&self, best: i64, mv: (i32, i32), dx: i64, dy: i64) -> (r: (i64, (i32, i32)))
        requires
            self.wf(),
            0 <= best <= 0x10_0000,
            -0x2_0000_0000 <= dx <= 0x2_0000_0000,
            -0x2_0000_0000 <= dy <= 0x2_0000_0000,
        ensures
            spotted(r.0, r.1) == self.probed(spotted(best, mv), mv.0 + dx, mv.1 + dy),
            0 <= r.0 <= best,
    {
        let m: (i32, i32) = (arith::wrapped(mv.0 as i64 + dx), arith::wrapped(mv.1 as i64 + dy));
        let s: i64 = self.mc_satd(m);
        if s < best {
            (s, m)
        } else {
            (best, mv)
        }
    }

    /// Walk at one distance until no neighbour is better.
    fn walk_at(&self, best: i64, mv: (i32, i32), step: i32) -> (r: (i64, (i32, i32)))
        requires
            self.wf(),
            0 <= best <= 0x10_0000,
            1 <= step,
        ensures
            spotted(r.0, r.1) == self.walk(spotted(best, mv), step as int),
            0 <= r.0 <= best,
    {
        let ghost goal = self.walk(spotted(best, mv), step as int);
        let (mut c, mut m): (i64, (i32, i32)) = (best, mv);
        let mut moved: bool = true;
        while moved
            invariant
                self.wf(),
                1 <= step,
                0 <= c <= best <= 0x10_0000,
                moved ==> goal == self.walk(spotted(c, m), step as int),
                !moved ==> goal == spotted(c, m),
            decreases (if moved {
                1int
            } else {
                0
            }), c,
        {
            let ghost b = spotted(c, m);
            let d: i64 = 4 * step as i64;
            let p1: (i64, (i32, i32)) = self.probe(c, m, d, 0);
            let p2: (i64, (i32, i32)) = self.probe(p1.0, p1.1, 0 - d, 0);
            let p3: (i64, (i32, i32)) = self.probe(p2.0, p2.1, 0, d);
            let p4: (i64, (i32, i32)) = self.probe(p3.0, p3.1, 0, 0 - d);
            assert(spotted(p4.0, p4.1) == self.round(b, step as int));
            moved = p4.0 < c;
            c = p4.0;
            m = p4.1;
        }
        (c, m)
    }

    /// Search from no motion and from a seed: the cost, and the vector. The first steps are
    /// `max_step` samples long.
    pub fn inter_cost(&self, seed: (i32, i32), max_step: i32) -> (r: (i32, (i32, i32)))
        requires
            self.wf(),
        ensures
            spotted(r.0 as i64, r.1) == self.found(seed, max_step as int),
            0 <= r.0 <= 0x10_0000,
    {
        let first: i64 = self.mc_satd((0, 0));
        if first == 0 {
            return (0, (0, 0));
        }
        let (mut c, mut m): (i64, (i32, i32)) = (first, (0, 0));
        if seed.0 != 0 || seed.1 != 0 {
            let s: i64 = self.mc_satd(seed);
            if s < c {
                c = s;
                m = seed;
            }
        }
        let ghost goal = self.found(seed, max_step as int);
        let mut step: i32 = max_step;
        while step >= 1
            invariant
                self.wf(),
                0 <= c <= 0x10_0000,
                goal == self.walks(spotted(c, m), step as int),
            decreases step,
        {
            let p: (i64, (i32, i32)) = self.walk_at(c, m, step);
            c = p.0;
            m = p.1;
            step = step / 2;
        }
        (c as i32, m)
    }
}

impl<'a, K: Kernels> Look<'a, K> {
    proof fn lemma_walk_falls(&self, b: Spotted, step: int)
        requires
            b.c == self.cost(b.x, b.y),
        ensures
            self.walk(b, step).c <= b.c,
            self.walk(b, step).c == self.cost(self.walk(b, step).x, self.walk(b, step).y),
        decreases b.c,
    {
        let r = self.round(b, step);
        if 0 <= r.c < b.c {
            self.lemma_walk_falls(r, step);
        }
    }

    proof fn lemma_walks_fall(&self, b: Spotted, step: int)
        requires
            b.c == self.cost(b.x, b.y),
        ensures
            self.walks(b, step).c <= b.c,
            self.walks(b, step).c == self.cost(self.walks(b, step).x, self.walks(b, step).y),
        decreases step,
    {
        if step >= 1 {
            self.lemma_walk_falls(b, step);
            self.lemma_walks_fall(self.walk(b, step), step / 2);
        }
    }

    /// The cost of a search is that of its vector, and no higher than without motion or at the
    /// seed.
    pub proof fn law_search_never_loses(&self, seed: (i32, i32), step: int)
        requires
            self.wf(),
        ensures
            ({
                let f = self.found(seed, step);
                &&& f.c == self.cost(f.x, f.y)
                &&& f.c <= self.cost(0, 0)
                &&& f.c <= self.cost(seed.0 as int, seed.1 as int)
            }),
    {
        self.lemma_cost(seed.0 as int, seed.1 as int);
        let b = Spotted { c: self.cost(0, 0), x: 0, y: 0 };
        let s = if seed != (0i32, 0i32) {
            self.probed(b, seed.0 as int, seed.1 as int)
        } else {
            b
        };
        self.lemma_walks_fall(s, step);
    }

    /// Where a walk ends, another round brings nothing.
    proof fn lemma_walk_settles(&self, b: Spotted, step: int)
        requires
            self.wf(),
            b.c >= 0,
        ensures
            self.walk(b, step).c >= 0,
            self.round(self.walk(b, step), step) == self.walk(b, step),
        decreases b.c,
    {
        let r = self.round(b, step);
        self.lemma_round(b, step);
        if 0 <= r.c < b.c {
            self.lemma_walk_settles(r, step);
        }
    }

    /// No round comes upon a cost below zero.
    proof fn lemma_round(&self, b: Spotted, step: int)
        requires
            self.wf(),
            b.c >= 0,
        ensures
            self.round(b, step).c >= 0,
    {
        let b1 = self.probed(b, b.x + 4 * step, b.y);
        let b2 = self.probed(b1, b1.x - 4 * step, b1.y);
        let b3 = self.probed(b2, b2.x, b2.y + 4 * step);
        self.lemma_cost(arith::wrap(b.x + 4 * step), arith::wrap(b.y));
        self.lemma_cost(arith::wrap(b1.x - 4 * step), arith::wrap(b1.y));
        self.lemma_cost(arith::wrap(b2.x), arith::wrap(b2.y + 4 * step));
        self.lemma_cost(arith::wrap(b3.x), arith::wrap(b3.y - 4 * step));
    }

    proof fn lemma_walks_settle(&self, b: Spotted, step: int)
        requires
            self.wf(),
            step >= 1,
            b.c >= 0,
        ensures
            self.round(self.walks(b, step), 1) == self.walks(b, step),
        decreases step,
    {
        let w = self.walk(b, step);
        self.lemma_walk_settles(b, step);
        if step == 1 {
            assert(self.walks(w, 0) == w);
        } else {
            self.lemma_walks_settle(w, step / 2);
        }
    }

    /// No step of one sample is better than what a search finds.
    pub proof fn law_no_step_is_better(&self, seed: (i32, i32), step: int)
        requires
            self.wf(),
            step >= 1,
        ensures
            ({
                let f = self.found(seed, step);
                &&& f.c <= self.cost(arith::wrap(f.x + 4), f.y)
                &&& f.c <= self.cost(arith::wrap(f.x - 4), f.y)
                &&& f.c <= self.cost(f.x, arith::wrap(f.y + 4))
                &&& f.c <= self.cost(f.x, arith::wrap(f.y - 4))
            }),
    {
        let b = Spotted { c: self.cost(0, 0), x: 0, y: 0 };
        self.lemma_cost(0, 0);
        if b.c == 0 {
            self.lemma_cost(4, 0);
            self.lemma_cost(-4, 0);
            self.lemma_cost(0, 4);
            self.lemma_cost(0, -4);
        } else {
            let s = if seed != (0i32, 0i32) {
                self.probed(b, seed.0 as int, seed.1 as int)
            } else {
                b
            };
            self.lemma_cost(seed.0 as int, seed.1 as int);
            self.lemma_walks_settle(s, step);
            self.lemma_walks_inside(s, step);
        }
    }

    proof fn lemma_walk_inside(&self, b: Spotted, step: int)
        requires
            arith::wrap(b.x) == b.x,
            arith::wrap(b.y) == b.y,
        ensures
            arith::wrap(self.walk(b, step).x) == self.walk(b, step).x,
            arith::wrap(self.walk(b, step).y) == self.walk(b, step).y,
        decreases b.c,
    {
        let r = self.round(b, step);
        if 0 <= r.c < b.c {
            self.lemma_walk_inside(r, step);
        }
    }

    proof fn lemma_walks_inside(&self, b: Spotted, step: int)
        requires
            arith::wrap(b.x) == b.x,
            arith::wrap(b.y) == b.y,
        ensures
            arith::wrap(self.walks(b, step).x) == self.walks(b, step).x,
            arith::wrap(self.walks(b, step).y) == self.walks(b, step).y,
        decreases step,
    {
        if step >= 1 {
            self.lemma_walk_inside(b, step);
            self.lemma_walks_inside(self.walk(b, step), step / 2);
        }
    }
}

} // verus!
