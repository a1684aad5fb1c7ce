//! What a frame shows: how busy its macroblocks are, how much a search would gain in it, how
//! much of it is drawn rather than filmed, and how much of it is grain.
use vstd::prelude::*;
use vstd::arithmetic::div_mod::*;
use crate::arith;
use crate::arith::abs_i32;
use crate::pixels;
use crate::pixels::{at_spot, moments, sad_strided, At};
use crate::rank;
use crate::rank::nth;
use crate::setup;

verus! {

/// A frame in the coded size, and the one that it is predicted from if there is one.
pub struct FrameSignals<'a> {
    pub sy: &'a [u8],
    pub cw: usize,
    pub mb_w: usize,
    pub mb_h: usize,
    pub ref_y: Option<&'a [u8]>,
}

/// What a search for a macroblock gains: the difference without motion, the difference of the
/// sums of the samples, and the least difference in reach.
#[derive(Clone, Copy)]
pub struct Gained {
    pub still: u32,
    pub shift: u32,
    pub best: u32,
}

/// The least differences near a macroblock, and far around it.
#[derive(Clone, Copy)]
pub struct Headroom {
    pub local: u32,
    pub wide: u32,
}

/// The variance of the samples of a macroblock in every other column and row.
pub open spec fn coarse_variance(sy: Seq<u8>, cw: usize, mb_x: int, mb_y: int) -> int {
    let s = sparse_sum(sy, cw as int, mb_x, mb_y, 64);
    (sparse_squares(sy, cw as int, mb_x, mb_y, 64) - (s * s) / 64) / 64
}

/// Sample `k` of the 64 in every other column and row of a macroblock.
pub open spec fn sparse(sy: Seq<u8>, cw: int, mb_x: int, mb_y: int, k: int) -> int {
    sy[(16 * mb_y + 2 * (k / 8)) * cw + 16 * mb_x + 2 * (k % 8)] as int
}

/// The sum of the first `k` of these samples.
pub open spec fn sparse_sum(sy: Seq<u8>, cw: int, mb_x: int, mb_y: int, k: int) -> int
    decreases k,
{
    if k <= 0 {
        0
    } else {
        sparse_sum(sy, cw, mb_x, mb_y, k - 1) + sparse(sy, cw, mb_x, mb_y, k - 1)
    }
}

/// The sum of the squares of the first `k` of these samples.
pub open spec fn sparse_squares(sy: Seq<u8>, cw: int, mb_x: int, mb_y: int, k: int) -> int
    decreases k,
{
    if k <= 0 {
        0
    } else {
        let v = sparse(sy, cw, mb_x, mb_y, k - 1);
        sparse_squares(sy, cw, mb_x, mb_y, k - 1) + v * v
    }
}

impl<'a> FrameSignals<'a> {
    pub open spec fn wf(&self) -> bool {
        &&& 1 <= self.mb_w <= 0x3ff_ffff
        &&& 1 <= self.mb_h <= 0x3ff_ffff
        &&& self.cw == 16 * self.mb_w
        &&& self.sy@.len() == self.cw * (16 * self.mb_h)
        &&& self.ref_y matches Some(r) ==> r@.len() == self.sy@.len()
    }

    /// The signals of a frame.
    pub fn new(
        sy: &'a [u8],
        cw: usize,
        mb_w: usize,
        mb_h: usize,
        ref_y: Option<&'a [u8]>,
    ) -> (r: Self)
        ensures
            r == (FrameSignals { sy, cw, mb_w, mb_h, ref_y }),
    {
        FrameSignals { sy, cw, mb_w, mb_h, ref_y }
    }

    /// Whether there is a frame to predict from.
    pub fn has_ref(&self) -> (r: bool)
        ensures
            r == self.ref_y is Some,
    {
        self.ref_y.is_some()
    }

    /// The number of macroblocks.
    pub fn n_mbs(&self) -> (r: usize)
        requires
            self.wf(),
        ensures
            r == self.mb_w * self.mb_h,
    {
        proof {
            self.lemma_count();
        }
        let n: usize = self.sy.len();
        self.mb_w * self.mb_h
    }

    proof fn lemma_count(&self)
        requires
            self.wf(),
        ensures
            1 <= self.mb_w * self.mb_h <= self.sy@.len(),
    {
        let (w, h) = (self.mb_w as int, self.mb_h as int);
        assert(1 <= w * h <= (16 * w) * (16 * h)) by (nonlinear_arith)
            requires
                w >= 1,
                h >= 1,
        ;
    }

    /// A square of 16 by 16 samples at `(x, y)` lies in the frame.
    proof fn lemma_square(&self, x: int, y: int)
        requires
            self.wf(),
            0 <= x,
            0 <= y,
            x + 16 <= self.cw,
            y + 16 <= 16 * self.mb_h,
        ensures
            0 <= y * self.cw + x,
            y * self.cw + x + 15 * self.cw + 16 <= self.sy@.len(),
    {
        let (w, h) = (self.cw as int, 16 * self.mb_h);
        assert(0 <= y * w + x && y * w + x + 15 * w + 16 <= w * h) by (nonlinear_arith)
            requires
                0 <= x,
                0 <= y,
                x + 16 <= w,
                y + 16 <= h,
        ;
    }

    /// Where a square of 16 by 16 samples starts.
    fn at(&self, x: usize, y: usize) -> (r: At)
        requires
            self.wf(),
            x + 16 <= self.cw,
            y + 16 <= 16 * self.mb_h,
        ensures
            r == pixels::placed(self.cw, x, y),
            r.holds(16, 16, self.sy@.len() as int),
    {
        proof {
            self.lemma_square(x as int, y as int);
        }
        let n: usize = self.sy.len();
        at_spot(self.cw, x, y)
    }

    /// The variances of all macroblocks in raster order, times 256.
    pub fn mb_vars(&self) -> (r: Vec<i64>)
        requires
            self.wf(),
        ensures
            r@.len() == self.mb_w * self.mb_h,
            forall|i: int|
                0 <= i < r@.len() ==> #[trigger] r@[i] == setup::mb_spread(
                    self.sy@,
                    self.cw,
                    i % (self.mb_w as int),
                    i / (self.mb_w as int),
                ),
            forall|i: int| 0 <= i < r@.len() ==> 0 <= #[trigger] r@[i] <= 65025 * 256,
    {
        let n: usize = self.n_mbs();
        let w: usize = self.mb_w;
        let mut v: Vec<i64> = Vec::new();
        let mut i: usize = 0;
        while i < n
            invariant
                self.wf(),
                n == self.mb_w * self.mb_h,
                w == self.mb_w,
                i <= n,
                v@.len() == i,
                forall|j: int|
                    0 <= j < v@.len() ==> #[trigger] v@[j] == setup::mb_spread(
                        self.sy@,
                        self.cw,
                        j % (w as int),
                        j / (w as int),
                    ),
                forall|j: int| 0 <= j < v@.len() ==> 0 <= #[trigger] v@[j] <= 65025 * 256,
            decreases n - i,
        {
            let (x, y): (usize, usize) = (i % w, i / w);
            proof {
                lemma_place(w as int, self.mb_h as int, i as int);
            }
            let at: At = self.at(16 * x, 16 * y);
            let m: (u64, u64) = moments(self.sy, at, 16, 16);
            proof {
                let (s, q) = (m.0 as int, m.1 as int);
                assert(0 <= s * s <= 65280 * 65280) by (nonlinear_arith)
                    requires
                        0 <= s <= 65280,
                ;
                assert(s * s <= 256 * q);
            }
            let s2: u64 = m.0 * m.0;
            v.push(m.1 as i64 - (s2 / 256) as i64);
            i = i + 1;
        }
        v
    }

    /// The variance, times 256, that `k` macroblocks lie below.
    pub fn var_rank(&self, k: usize) -> (r: i64)
        requires
            self.wf(),
            k < self.mb_w * self.mb_h,
        ensures
            exists|v: Seq<i64>|
                {
                    &&& v.len() == self.mb_w * self.mb_h
                    &&& forall|i: int|
                        0 <= i < v.len() ==> #[trigger] v[i] == setup::mb_spread(
                            self.sy@,
                            self.cw,
                            i % (self.mb_w as int),
                            i / (self.mb_w as int),
                        )
                    &&& #[trigger] rank::is_nth(v, k as int, r)
                },
    {
        let v: Vec<i64> = self.mb_vars();
        let r: i64 = nth(&v, k);
        assert(rank::is_nth(v@, k as int, r));
        r
    }

    /// The coarse variance of a macroblock.
    fn coarse(&self, mb_x: usize, mb_y: usize) -> (r: i64)
        requires
            self.wf(),
            mb_x < self.mb_w,
            mb_y < self.mb_h,
        ensures
            r == coarse_variance(self.sy@, self.cw, mb_x as int, mb_y as int),
            0 <= r <= 65025 * 256,
    {
        let ghost (gx, gy, cw) = (mb_x as int, mb_y as int, self.cw as int);
        let n: usize = self.sy.len();
        proof {
            self.lemma_square(16 * gx, 16 * gy);
        }
        let base: usize = 16 * mb_y * self.cw + 16 * mb_x;
        let (mut s, mut q): (u64, u64) = (0, 0);
        let mut k: usize = 0;
        while k < 64
            invariant
                self.wf(),
                k <= 64,
                n == self.sy@.len(),
                gx == mb_x && gy == mb_y && cw == self.cw,
                base == 16 * gy * cw + 16 * gx,
                base + 15 * cw + 16 <= n,
                s == sparse_sum(self.sy@, cw, gx, gy, k as int),
                q == sparse_squares(self.sy@, cw, gx, gy, k as int),
                s <= 255 * k,
                q <= 65025 * k,
                s * s <= k * q,
            decreases 64 - k,
        {
            let r: usize = 2 * (k / 8);
            let c: usize = 2 * (k % 8);
            proof {
                assert((16 * gy + r) * cw == 16 * gy * cw + r * cw) by (nonlinear_arith);
                assert(0 <= r * cw <= 14 * cw) by (nonlinear_arith)
                    requires
                        0 <= r <= 14,
                        0 <= cw,
                ;
            }
            let v: u64 = self.sy[base + r * self.cw + c] as u64;
            proof {
                assert(v == sparse(self.sy@, cw, gx, gy, k as int));
                assert(0 <= v * v <= 65025) by (nonlinear_arith)
                    requires
                        0 <= v <= 255,
                ;
                pixels::lemma_square_of_sum(k as int, s as int, q as int, v as int);
            }
            s = s + v;
            q = q + v * v;
            k = k + 1;
        }
        proof {
            assert(0 <= s * s <= 16320 * 16320) by (nonlinear_arith)
                requires
                    0 <= s <= 16320,
            ;
        }
        let s2: u64 = s * s;
        ((q - s2 / 64) / 64) as i64
    }

    /// The median of the coarse variances.
    pub fn median_var(&self) -> (r: i64)
        requires
            self.wf(),
        ensures
            exists|v: Seq<i64>|
                {
                    &&& v.len() == self.mb_w * self.mb_h
                    &&& forall|i: int|
                        0 <= i < v.len() ==> #[trigger] v[i] == coarse_variance(
                            self.sy@,
                            self.cw,
                            i % (self.mb_w as int),
                            i / (self.mb_w as int),
                        )
                    &&& #[trigger] rank::is_nth(v, (self.mb_w * self.mb_h) / 2, r)
                },
    {
        let n: usize = self.n_mbs();
        let w: usize = self.mb_w;
        let mut v: Vec<i64> = Vec::new();
        let mut i: usize = 0;
        proof {
            self.lemma_count();
        }
        while i < n
            invariant
                self.wf(),
                n == self.mb_w * self.mb_h,
                w == self.mb_w,
                i <= n,
                v@.len() == i,
                forall|j: int|
                    0 <= j < v@.len() ==> #[trigger] v@[j] == coarse_variance(
                        self.sy@,
                        self.cw,
                        j % (w as int),
                        j / (w as int),
                    ),
                forall|j: int| 0 <= j < v@.len() ==> 0 <= #[trigger] v@[j] <= 65025 * 256,
            decreases n - i,
        {
            proof {
                lemma_place(w as int, self.mb_h as int, i as int);
            }
            let c: i64 = self.coarse(i % w, i / w);
            v.push(c);
            i = i + 1;
        }
        let r: i64 = nth(&v, n / 2);
        assert(rank::is_nth(v@, (self.mb_w * self.mb_h) / 2, r));
        r
    }
}

/// A cell of a grid has its column and row in it.
proof fn lemma_place(w: int, h: int, i: int)
    requires
        w >= 1,
        0 <= i < w * h,
    ensures
        0 <= i % w < w,
        0 <= i / w < h,
{
    assert(0 <= i % w < w && 0 <= i / w < h) by (nonlinear_arith)
        requires
            w >= 1,
            0 <= i < w * h,
    ;
}

/// How far apart the macroblocks are that stand for a frame.
pub open spec fn stride_of(mb_w: int, mb_h: int, target: int) -> int {
    arith::max(1, ((mb_w - 4) * (mb_h - 4)) / target)
}

/// The macroblocks that stand for a frame: about `target` of those that are two or more away from
/// its edges, evenly spread. None of a frame that is less than six macroblocks wide or high.
pub open spec fn stands_for(v: Seq<(usize, usize)>, mb_w: int, mb_h: int, target: int) -> bool {
    if mb_w < 6 || mb_h < 6 {
        v.len() == 0
    } else {
        let (w, inner) = (mb_w - 4, (mb_w - 4) * (mb_h - 4));
        let d = stride_of(mb_w, mb_h, target);
        &&& (v.len() - 1) * d < inner <= v.len() * d
        &&& forall|j: int|
            0 <= j < v.len() ==> (#[trigger] v[j]).0 == 2 + (j * d) % w && v[j].1 == 2 + (j * d) / w
    }
}

/// List the macroblocks that stand for a frame.
#[verifier::rlimit(50)]
fn sampled(mb_w: usize, mb_h: usize, target: usize) -> (v: Vec<(usize, usize)>)
    requires
        mb_w * mb_h <= usize::MAX,
        1 <= target <= 64,
    ensures
        stands_for(v@, mb_w as int, mb_h as int, target as int),
        forall|j: int|
            0 <= j < v@.len() ==> 2 <= (#[trigger] v@[j]).0 < mb_w - 2 && 2 <= v@[j].1 < mb_h - 2,
{
    let mut v: Vec<(usize, usize)> = Vec::new();
    if mb_w < 6 || mb_h < 6 {
        return v;
    }
    let w: usize = mb_w - 4;
    proof {
        let (a, b) = (mb_w as int, mb_h as int);
        assert(0 <= (a - 4) * (b - 4) <= a * b) by (nonlinear_arith)
            requires
                a >= 6,
                b >= 6,
        ;
        assert((a - 4) * (b - 4) >= 1) by (nonlinear_arith)
            requires
                a >= 6,
                b >= 6,
        ;
    }
    let inner: usize = w * (mb_h - 4);
    let d: usize = if inner / target > 1 {
        inner / target
    } else {
        1
    };
    let mut i: usize = 0;
    assert(0 * d == 0);
    while i < inner
        invariant
            mb_w >= 6,
            mb_h >= 6,
            mb_w * mb_h <= usize::MAX,
            w == mb_w - 4,
            inner == (mb_w - 4) * (mb_h - 4),
            1 <= inner <= mb_w * mb_h,
            d == stride_of(mb_w as int, mb_h as int, target as int),
            1 <= d,
            i == v@.len() * d,
            v@.len() >= 1 ==> (v@.len() - 1) * d < inner,
            forall|j: int|
                0 <= j < v@.len() ==> (#[trigger] v@[j]).0 == 2 + (j * d) % (w as int) && v@[j].1
                    == 2 + (j * d) / (w as int),
            forall|j: int|
                0 <= j < v@.len() ==> 2 <= (#[trigger] v@[j]).0 < mb_w - 2 && 2 <= v@[j].1 < mb_h
                    - 2,
            v@.len() <= i,
        decreases inner - i,
    {
        proof {
            lemma_place(w as int, mb_h - 4, i as int);
        }
        v.push((2 + i % w, 2 + i / w));
        proof {
            assert(v@.len() * d == (v@.len() - 1) * d + d) by (nonlinear_arith);
        }
        if d > inner - i {
            assert((v@.len() - 1) * d == i);
            return v;
        }
        i = i + d;
    }
    v
}

/// Which step of a square walk from `-wide` to `wide` by `step` comes at `k`, row by row.
pub open spec fn offset_at(wide: int, step: int, k: int) -> (int, int) {
    let n = 2 * wide / step + 1;
    (step * (k % n) - wide, step * (k / n) - wide)
}

/// The difference of a macroblock at `(x, y)` to the square that lies `(dx, dy)` away.
pub open spec fn moved_sad(sy: Seq<u8>, r: Seq<u8>, cw: usize, x: int, y: int, dx: int, dy: int) -> int {
    pixels::sad(
        sy,
        pixels::placed(cw, x as usize, y as usize),
        r,
        pixels::placed(cw, (x + dx) as usize, (y + dy) as usize),
        16,
        256,
    )
}

/// The least of `init` and the differences at the first `k` steps of a square walk.
pub open spec fn least_sad(
    sy: Seq<u8>,
    r: Seq<u8>,
    cw: usize,
    x: int,
    y: int,
    wide: int,
    step: int,
    init: int,
    k: int,
) -> int
    decreases k,
{
    if k <= 0 {
        init
    } else {
        let o = offset_at(wide, step, k - 1);
        arith::min(
            least_sad(sy, r, cw, x, y, wide, step, init, k - 1),
            moved_sad(sy, r, cw, x, y, o.0, o.1),
        )
    }
}

/// `v` holds the differences without motion of the macroblocks in `at`.
pub open spec fn stills(
    sy: Seq<u8>,
    r: Seq<u8>,
    cw: usize,
    at: Seq<(usize, usize)>,
    v: Seq<i64>,
) -> bool {
    &&& v.len() == at.len()
    &&& forall|j: int|
        0 <= j < v.len() ==> #[trigger] v[j] == moved_sad(
            sy,
            r,
            cw,
            16 * at[j].0,
            16 * at[j].1,
            0,
            0,
        )
}

/// What a search within eight samples, four apart, gains for macroblock `(mb_x, mb_y)`.
pub open spec fn gained_of(sy: Seq<u8>, r: Seq<u8>, cw: usize, mb_x: int, mb_y: int) -> (int, int, int) {
    let (x, y) = (16 * mb_x, 16 * mb_y);
    let at = pixels::placed(cw, x as usize, y as usize);
    let still = moved_sad(sy, r, cw, x, y, 0, 0);
    (
        still,
        arith::abs(pixels::sum_of(sy, at, 16, 256) - pixels::sum_of(r, at, 16, 256)),
        least_sad(sy, r, cw, x, y, 8, 4, still, 25),
    )
}

/// The least differences within two samples of macroblock `(mb_x, mb_y)`, and within 24, four
/// apart.
pub open spec fn headroom_of(sy: Seq<u8>, r: Seq<u8>, cw: usize, mb_x: int, mb_y: int) -> (int, int) {
    let (x, y) = (16 * mb_x, 16 * mb_y);
    let local = least_sad(sy, r, cw, x, y, 2, 1, u32::MAX as int, 25);
    (local, least_sad(sy, r, cw, x, y, 24, 4, local, 169))
}

impl<'a> FrameSignals<'a> {
    /// The difference of a square to one in the frame before.
    fn sad16(&self, r: &[u8], x: usize, y: usize, rx: usize, ry: usize) -> (s: u32)
        requires
            self.wf(),
            r@.len() == self.sy@.len(),
            x + 16 <= self.cw,
            y + 16 <= 16 * self.mb_h,
            rx + 16 <= self.cw,
            ry + 16 <= 16 * self.mb_h,
        ensures
            s == moved_sad(self.sy@, r@, self.cw, x as int, y as int, rx - x, ry - y),
            s <= 65280,
    {
        let a: At = self.at(x, y);
        let b: At = self.at(rx, ry);
        sad_strided(self.sy, a, r, b, 16, 16) as u32
    }

    /// The least difference on a square walk.
    #[verifier::rlimit(50)]
    fn walk_least(
        &self,
        r: &[u8],
        x: usize,
        y: usize,
        wide: usize,
        step: usize,
        init: u32,
    ) -> (s: u32)
        requires
            self.wf(),
            r@.len() == self.sy@.len(),
            wide <= 24,
            1 <= step,
            (wide, step) == (8usize, 4usize) || (wide, step) == (2usize, 1usize) || (wide, step) == (
                24usize,
                4usize,
            ),
            32 <= x,
            x + 48 <= self.cw,
            32 <= y,
            y + 48 <= 16 * self.mb_h,
        ensures
            s == least_sad(
                self.sy@,
                r@,
                self.cw,
                x as int,
                y as int,
                wide as int,
                step as int,
                init as int,
                if wide == 24 {
                    169
                } else {
                    25
                },
            ),
            s <= init,
            s <= 65280,
    {
        let n: usize = if wide == 24 {
            13
        } else {
            5
        };
        assert(n == 2 * wide as int / step as int + 1) by (nonlinear_arith)
            requires
                wide == 8 && step == 4 && n == 5 || wide == 2 && step == 1 && n == 5 || wide == 24
                    && step == 4 && n == 13,
        ;
        let mut best: u32 = init;
        let mut k: usize = 0;
        let total: usize = if wide == 24 {
            169
        } else {
            25
        };
        assert(total == n * n) by (nonlinear_arith)
            requires
                total == 25 && n == 5 || total == 169 && n == 13,
        ;
        while k < total
            invariant
                self.wf(),
                r@.len() == self.sy@.len(),
                (wide, step) == (8usize, 4usize) || (wide, step) == (2usize, 1usize) || (wide, step)
                    == (24usize, 4usize),
                n == 2 * wide as int / step as int + 1,
                n == 5 || n == 13,
                total == n * n,
                total == 25 || total == 169,
                k <= total,
                32 <= x,
                x + 48 <= self.cw,
                32 <= y,
                y + 48 <= 16 * self.mb_h,
                best == least_sad(
                    self.sy@,
                    r@,
                    self.cw,
                    x as int,
                    y as int,
                    wide as int,
                    step as int,
                    init as int,
                    k as int,
                ),
                best <= init,
                k >= 1 ==> best <= 65280,
            decreases total - k,
        {
            let (i, j): (usize, usize) = (k % n, k / n);
            proof {
                lemma_place(n as int, n as int, k as int);
                assert(step * i <= step * (n - 1) && step * j <= step * (n - 1) && 0 <= step * i && 0
                    <= step * j) by (nonlinear_arith)
                    requires
                        0 <= i <= n - 1,
                        0 <= j <= n - 1,
                        0 <= step,
                ;
                assert(step * (n - 1) == 2 * wide) by {
                    assert(n == 5 && step == 4 || n == 5 && step == 1 || n == 13 && step == 4);
                }
            }
            let s: u32 = self.sad16(r, x, y, x + step * i - wide, y + step * j - wide);
            if s < best {
                best = s;
            }
            k = k + 1;
        }
        best
    }

    /// What a search gains for the macroblocks that stand for the frame.
    pub fn gains(&self) -> (v: Vec<Gained>)
        requires
            self.wf(),
        ensures
            self.ref_y is None ==> v@.len() == 0,
            self.ref_y matches Some(r) ==> exists|at: Seq<(usize, usize)>|
                {
                    &&& #[trigger] stands_for(at, self.mb_w as int, self.mb_h as int, 24)
                    &&& v@.len() == at.len()
                    &&& forall|j: int|
                        0 <= j < v@.len() ==> gained_of(
                            self.sy@,
                            r@,
                            self.cw,
                            at[j].0 as int,
                            at[j].1 as int,
                        ) == (
                            (#[trigger] v@[j]).still as int,
                            v@[j].shift as int,
                            v@[j].best as int,
                        )
                },
            forall|j: int| 0 <= j < v@.len() ==> (#[trigger] v@[j]).best <= v@[j].still,
    {
        let mut v: Vec<Gained> = Vec::new();
        let r: &[u8] = match self.ref_y {
            None => {
                return v;
            },
            Some(r) => r,
        };
        let n: usize = self.n_mbs();
        let at: Vec<(usize, usize)> = sampled(self.mb_w, self.mb_h, 24);
        let mut j: usize = 0;
        while j < at.len()
            invariant
                self.wf(),
                r@.len() == self.sy@.len(),
                j <= at@.len(),
                v@.len() == j,
                forall|i: int|
                    0 <= i < at@.len() ==> 2 <= (#[trigger] at@[i]).0 < self.mb_w - 2 && 2
                        <= at@[i].1 < self.mb_h - 2,
                forall|i: int|
                    0 <= i < v@.len() ==> gained_of(
                        self.sy@,
                        r@,
                        self.cw,
                        at@[i].0 as int,
                        at@[i].1 as int,
                    ) == ((#[trigger] v@[i]).still as int, v@[i].shift as int, v@[i].best as int),
                forall|i: int| 0 <= i < v@.len() ==> (#[trigger] v@[i]).best <= v@[i].still,
            decreases at@.len() - j,
        {
            let (mx, my): (usize, usize) = at[j];
            let (x, y): (usize, usize) = (16 * mx, 16 * my);
            let still: u32 = self.sad16(r, x, y, x, y);
            let sp: At = self.at(x, y);
            let a: (u64, u64) = moments(self.sy, sp, 16, 16);
            let b: (u64, u64) = moments(r, sp, 16, 16);
            let shift: u32 = abs_i32(a.0 as i32 - b.0 as i32);
            let best: u32 = self.walk_least(r, x, y, 8, 4, still);
            v.push(Gained { still, shift, best });
            j = j + 1;
        }
        assert(stands_for(at@, self.mb_w as int, self.mb_h as int, 24));
        v
    }

    /// The least differences near the macroblocks that stand for the frame, and far around them.
    pub fn headrooms(&self) -> (v: Vec<Headroom>)
        requires
            self.wf(),
        ensures
            self.ref_y is None ==> v@.len() == 0,
            self.ref_y matches Some(r) ==> exists|at: Seq<(usize, usize)>|
                {
                    &&& #[trigger] stands_for(at, self.mb_w as int, self.mb_h as int, 24)
                    &&& v@.len() == at.len()
                    &&& forall|j: int|
                        0 <= j < v@.len() ==> headroom_of(
                            self.sy@,
                            r@,
                            self.cw,
                            at[j].0 as int,
                            at[j].1 as int,
                        ) == ((#[trigger] v@[j]).local as int, v@[j].wide as int)
                },
            forall|j: int| 0 <= j < v@.len() ==> (#[trigger] v@[j]).wide <= v@[j].local,
    {
        let mut v: Vec<Headroom> = Vec::new();
        let r: &[u8] = match self.ref_y {
            None => {
                return v;
            },
            Some(r) => r,
        };
        let n: usize = self.n_mbs();
        let at: Vec<(usize, usize)> = sampled(self.mb_w, self.mb_h, 24);
        let mut j: usize = 0;
        while j < at.len()
            invariant
                self.wf(),
                r@.len() == self.sy@.len(),
                j <= at@.len(),
                v@.len() == j,
                forall|i: int|
                    0 <= i < at@.len() ==> 2 <= (#[trigger] at@[i]).0 < self.mb_w - 2 && 2
                        <= at@[i].1 < self.mb_h - 2,
                forall|i: int|
                    0 <= i < v@.len() ==> headroom_of(
                        self.sy@,
                        r@,
                        self.cw,
                        at@[i].0 as int,
                        at@[i].1 as int,
                    ) == ((#[trigger] v@[i]).local as int, v@[i].wide as int),
                forall|i: int| 0 <= i < v@.len() ==> (#[trigger] v@[i]).wide <= v@[i].local,
            decreases at@.len() - j,
        {
            let (mx, my): (usize, usize) = at[j];
            let (x, y): (usize, usize) = (16 * mx, 16 * my);
            let local: u32 = self.walk_least(r, x, y, 2, 1, u32::MAX);
            let wide: u32 = self.walk_least(r, x, y, 24, 4, local);
            v.push(Headroom { local, wide });
            j = j + 1;
        }
        assert(stands_for(at@, self.mb_w as int, self.mb_h as int, 24));
        v
    }

    /// The difference without motion that a quarter of the macroblocks that stand for the frame
    /// lie below. Nothing if none stand for it.
    pub fn grain_floor(&self) -> (f: Option<u32>)
        requires
            self.wf(),
        ensures
            f is None <==> self.ref_y is None || self.mb_w < 6 || self.mb_h < 6,
            f matches Some(s) ==> exists|at: Seq<(usize, usize)>, v: Seq<i64>|
                {
                    &&& stands_for(at, self.mb_w as int, self.mb_h as int, 48)
                    &&& #[trigger] stills(self.sy@, self.ref_y->0@, self.cw, at, v)
                    &&& rank::is_nth(v, v.len() as int / 4, s as i64)
                },
    {
        let r: &[u8] = match self.ref_y {
            None => {
                return None;
            },
            Some(r) => r,
        };
        let n: usize = self.n_mbs();
        let at: Vec<(usize, usize)> = sampled(self.mb_w, self.mb_h, 48);
        let mut v: Vec<i64> = Vec::new();
        let mut j: usize = 0;
        while j < at.len()
            invariant
                self.wf(),
                r@.len() == self.sy@.len(),
                j <= at@.len(),
                v@.len() == j,
                forall|i: int|
                    0 <= i < at@.len() ==> 2 <= (#[trigger] at@[i]).0 < self.mb_w - 2 && 2
                        <= at@[i].1 < self.mb_h - 2,
                forall|i: int|
                    0 <= i < v@.len() ==> #[trigger] v@[i] == moved_sad(
                        self.sy@,
                        r@,
                        self.cw,
                        16 * at@[i].0,
                        16 * at@[i].1,
                        0,
                        0,
                    ),
                forall|i: int| 0 <= i < v@.len() ==> 0 <= #[trigger] v@[i] <= 65280,
            decreases at@.len() - j,
        {
            let (mx, my): (usize, usize) = at[j];
            let (x, y): (usize, usize) = (16 * mx, 16 * my);
            let s: u32 = self.sad16(r, x, y, x, y);
            v.push(s as i64);
            j = j + 1;
        }
        assert(stands_for(at@, self.mb_w as int, self.mb_h as int, 48));
        if self.mb_w < 6 || self.mb_h < 6 {
            return None;
        }
        proof {
            lemma_some_stand(at@, self.mb_w as int, self.mb_h as int, 48);
        }
        let k: usize = v.len() / 4;
        let f: i64 = nth(&v, k);
        proof {
            rank::law_nth_is_an_entry(v@, k as int, f);
            let e = choose|i: int| 0 <= i < v@.len() && #[trigger] v@[i] == f;
            assert(0 <= v@[e] <= 65280);
            assert((f as u32) as i64 == f);
            assert(rank::is_nth(v@, v@.len() as int / 4, (f as u32) as i64));
            assert(stills(self.sy@, self.ref_y->0@, self.cw, at@, v@));
        }
        Some(f as u32)
    }
}

/// Some macroblocks stand for a frame that is not small.
proof fn lemma_some_stand(v: Seq<(usize, usize)>, mb_w: int, mb_h: int, target: int)
    requires
        mb_w >= 6,
        mb_h >= 6,
        stands_for(v, mb_w, mb_h, target),
    ensures
        v.len() >= 1,
{
    let d = stride_of(mb_w, mb_h, target);
    assert((mb_w - 4) * (mb_h - 4) >= 1) by (nonlinear_arith)
        requires
            mb_w >= 6,
            mb_h >= 6,
    ;
    if v.len() == 0 {
        assert(0 * d == 0);
    }
}

} // verus!
