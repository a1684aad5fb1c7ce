//! The macroblock tree: how much of what later frames cost rests on a macroblock, and the QP
//! offsets that follow.
use vstd::prelude::*;
use crate::arith;
use crate::grid;
use crate::kernels;
use crate::kernels::Kernels;
use crate::lookcost;
use crate::lookcost::{intra_cost, Look, LookaheadMode, MbCost};
use crate::pixels;

verus! {

/// A source frame, and the one before it if there is one, each in full and in half resolution.
pub struct FramePair<'a, K: Kernels> {
    /// Motion compensation from the frame before in full resolution.
    pub kf: &'a K,
    /// Motion compensation from the frame before in half resolution.
    pub kh: &'a K,
    pub mb_w: usize,
    pub mb_h: usize,
    pub full: &'a [u8],
    pub half: &'a [u8],
    pub ref_full: Option<&'a [u8]>,
    pub ref_half: Option<&'a [u8]>,
    pub mode: LookaheadMode,
}

/// Half of a vector, each component rounded towards zero.
pub open spec fn half_vector(mv: (i32, i32)) -> (i32, i32) {
    (pixels::quot(mv.0 as int, 2) as i32, pixels::quot(mv.1 as int, 2) as i32)
}

fn halve(a: i32) -> (r: i32)
    ensures
        r == pixels::quot(a as int, 2),
{
    if a < 0 {
        -((0 - a as i64) / 2) as i32
    } else {
        a / 2
    }
}

/// The vector in full resolution of one found in half resolution.
pub open spec fn twice(x: int, y: int) -> (i32, i32) {
    (arith::wrap(2 * x) as i32, arith::wrap(2 * y) as i32)
}

fn doubled(mv: (i32, i32)) -> (r: (i32, i32))
    ensures
        r == twice(mv.0 as int, mv.1 as int),
{
    (arith::wrapped(2 * mv.0 as i64), arith::wrapped(2 * mv.1 as i64))
}

impl<'a, K: Kernels> FramePair<'a, K> {
    pub open spec fn wf(&self) -> bool {
        let n = (16 * self.mb_w) * (16 * self.mb_h);
        let m = (8 * self.mb_w) * (8 * self.mb_h);
        &&& kernels::steady(*self.kf)
        &&& kernels::steady(*self.kh)
        &&& 1 <= self.mb_w <= 0x3ff_ffff
        &&& 1 <= self.mb_h <= 0x3ff_ffff
        &&& self.full@.len() == n
        &&& self.mode != LookaheadMode::FullRes ==> self.half@.len() == m
        &&& self.ref_full matches Some(r) ==> r@.len() == n
        &&& self.ref_half matches Some(r) ==> r@.len() == m
    }

    /// The vector that the search of macroblock `i` starts from: that of its left neighbour, or of
    /// the one above in the first column.
    pub open spec fn seed(&self, out: Seq<MbCost>, i: int) -> (i32, i32) {
        let w = self.mb_w as int;
        if i % w > 0 {
            out[i - 1].mv
        } else if i / w > 0 {
            out[i - w].mv
        } else {
            (0, 0)
        }
    }

    /// Macroblock `i` looked for in full resolution.
    pub open spec fn look_full(&self, r: &'a [u8], i: int) -> Look<'a, K> {
        let w = self.mb_w as int;
        Look {
            k: self.kf,
            sy: self.full,
            cw: (16 * w) as usize,
            ch: (16 * self.mb_h) as usize,
            ref_y: r,
            bx0: (16 * (i % w)) as usize,
            by0: (16 * (i / w)) as usize,
            bs: 16,
        }
    }

    /// Macroblock `i` looked for in half resolution.
    pub open spec fn look_half(&self, r: &'a [u8], i: int) -> Look<'a, K> {
        let w = self.mb_w as int;
        Look {
            k: self.kh,
            sy: self.half,
            cw: (8 * w) as usize,
            ch: (8 * self.mb_h) as usize,
            ref_y: r,
            bx0: (8 * (i % w)) as usize,
            by0: (8 * (i / w)) as usize,
            bs: 8,
        }
    }

    /// What macroblock `i` costs without prediction.
    pub open spec fn intra(&self, i: int) -> int {
        let w = self.mb_w as int;
        if self.mode == LookaheadMode::HalfRes {
            lookcost::intra_of(self.half@, (8 * w) as usize, 8 * (i % w), 8 * (i / w), 8)
        } else {
            lookcost::intra_of(self.full@, (16 * w) as usize, 16 * (i % w), 16 * (i / w), 16)
        }
    }

    /// The costs of macroblock `i` beside those of the macroblocks before it.
    pub open spec fn cost(&self, out: Seq<MbCost>, i: int) -> MbCost {
        let intra = self.intra(i);
        let seed = self.seed(out, i);
        let (inter, mv) = match (self.mode, self.ref_full, self.ref_half) {
            (LookaheadMode::FullRes, Some(rf), _) => {
                let f = self.look_full(rf, i).found(seed, 8);
                (arith::min(f.c, intra), (f.x as i32, f.y as i32))
            },
            (LookaheadMode::HalfRes, _, Some(rh)) => {
                let f = self.look_half(rh, i).found(half_vector(seed), 8);
                (arith::min(f.c, intra), twice(f.x, f.y))
            },
            (LookaheadMode::Hybrid, Some(rf), Some(rh)) => {
                let f = self.look_half(rh, i).found(half_vector(seed), 8);
                let g = self.look_full(rf, i).found(twice(f.x, f.y), 2);
                (arith::min(g.c, intra), (g.x as i32, g.y as i32))
            },
            _ => (intra, (0i32, 0i32)),
        };
        MbCost { intra: intra as i32, inter: inter as i32, mv }
    }

    /// The first macroblocks have the costs that they have beside each other.
    pub open spec fn costed(&self, out: Seq<MbCost>) -> bool {
        forall|i: int| 0 <= i < out.len() ==> #[trigger] out[i] == self.cost(out, i)
    }

    proof fn lemma_prefix(&self, a: Seq<MbCost>, b: Seq<MbCost>, i: int)
        requires
            self.mb_w >= 1,
            0 <= i <= a.len(),
            i <= b.len(),
            forall|j: int| 0 <= j < i ==> #[trigger] a[j] == b[j],
        ensures
            self.cost(a, i) == self.cost(b, i),
    {
        let w = self.mb_w as int;
        if i % w > 0 {
            assert(i - 1 >= 0) by {
                if i == 0 {
                    assert(0int % w == 0) by (nonlinear_arith)
                        requires
                            w >= 1,
                    ;
                }
            }
            assert(a[i - 1] == b[i - 1]);
        } else if i / w > 0 {
            assert(i >= w) by (nonlinear_arith)
                requires
                    i / w >= 1,
                    w >= 1,
                    i >= 0,
            ;
            assert(a[i - w] == b[i - w]);
        }
    }

    proof fn lemma_look(&self, r: &'a [u8], i: int, bs: int)
        requires
            self.wf(),
            0 <= i < self.mb_w * self.mb_h,
            bs == 8 || bs == 16,
            bs == 8 ==> r@.len() == (8 * self.mb_w) * (8 * self.mb_h) && self.half@.len() == r@.len(),
            bs == 16 ==> r@.len() == (16 * self.mb_w) * (16 * self.mb_h),
        ensures
            bs == 8 ==> self.look_half(r, i).wf(),
            bs == 16 ==> self.look_full(r, i).wf(),
    {
        grid_place(self.mb_w as int, self.mb_h as int, i);
    }
}

/// A cell of a grid has its column and row in it.
proof fn grid_place(w: int, h: int, i: int)
    requires
        w >= 1,
        0 <= i < w * h,
    ensures
        0 <= i % w < w,
        0 <= i / w < h,
        i == (i / w) * w + i % w,
{
    assert(0 <= i % w < w && i / w < h && 0 <= i / w && i == (i / w) * w + i % w)
        by (nonlinear_arith)
        requires
            w >= 1,
            0 <= i < w * h,
    ;
}

impl<'a, K: Kernels> FramePair<'a, K> {
    fn at_full(&self, r: &'a [u8], x: usize, y: usize) -> (l: Look<'a, K>)
        requires
            self.wf(),
            x < self.mb_w,
            y < self.mb_h,
            r@.len() == self.full@.len(),
        ensures
            l == self.look_full(r, grid::cell(self.mb_w as int, x as int, y as int)),
            l.wf(),
    {
        proof {
            grid::lemma_cell(self.mb_w as int, self.mb_h as int, x as int, y as int);
            self.lemma_look(r, grid::cell(self.mb_w as int, x as int, y as int), 16);
        }
        Look {
            k: self.kf,
            sy: self.full,
            cw: 16 * self.mb_w,
            ch: 16 * self.mb_h,
            ref_y: r,
            bx0: 16 * x,
            by0: 16 * y,
            bs: 16,
        }
    }

    fn at_half(&self, r: &'a [u8], x: usize, y: usize) -> (l: Look<'a, K>)
        requires
            self.wf(),
            self.mode != LookaheadMode::FullRes,
            x < self.mb_w,
            y < self.mb_h,
            r@.len() == self.half@.len(),
        ensures
            l == self.look_half(r, grid::cell(self.mb_w as int, x as int, y as int)),
            l.wf(),
    {
        proof {
            grid::lemma_cell(self.mb_w as int, self.mb_h as int, x as int, y as int);
            self.lemma_look(r, grid::cell(self.mb_w as int, x as int, y as int), 8);
        }
        Look {
            k: self.kh,
            sy: self.half,
            cw: 8 * self.mb_w,
            ch: 8 * self.mb_h,
            ref_y: r,
            bx0: 8 * x,
            by0: 8 * y,
            bs: 8,
        }
    }

    /// What a macroblock costs without prediction.
    fn intra_at(&self, x: usize, y: usize) -> (r: i32)
        requires
            self.wf(),
            x < self.mb_w,
            y < self.mb_h,
        ensures
            r == self.intra(grid::cell(self.mb_w as int, x as int, y as int)),
            1 <= r <= 0x10_0000,
    {
        proof {
            grid::lemma_cell(self.mb_w as int, self.mb_h as int, x as int, y as int);
        }
        let half: bool = self.mode == LookaheadMode::HalfRes;
        let bs: usize = if half {
            8
        } else {
            16
        };
        assert((bs * y + bs) * (bs * self.mb_w) <= (bs * self.mb_w) * (bs * self.mb_h))
            by (nonlinear_arith)
            requires
                y + 1 <= self.mb_h,
                0 <= y,
                bs == 8 || bs == 16,
                0 <= self.mb_w,
        ;
        if half {
            intra_cost(self.half, 8 * self.mb_w, 8 * x, 8 * y, 8)
        } else {
            intra_cost(self.full, 16 * self.mb_w, 16 * x, 16 * y, 16)
        }
    }

    /// The vector that the search of a macroblock starts from.
    fn seed_at(&self, out: &Vec<MbCost>, x: usize, y: usize) -> (r: (i32, i32))
        requires
            self.wf(),
            x < self.mb_w,
            y < self.mb_h,
            out@.len() == grid::cell(self.mb_w as int, x as int, y as int),
        ensures
            r == self.seed(out@, out@.len() as int),
    {
        let n: usize = out.len();
        proof {
            grid::lemma_cell(self.mb_w as int, self.mb_h as int, x as int, y as int);
        }
        if x > 0 {
            out[n - 1].mv
        } else if y > 0 {
            assert(n >= self.mb_w) by (nonlinear_arith)
                requires
                    n == y * self.mb_w + x,
                    y >= 1,
            ;
            let i: usize = n - self.mb_w;
            out[i].mv
        } else {
            (0, 0)
        }
    }

    /// The costs of a macroblock.
    #[verifier::rlimit(60)]
    #[verifier::spinoff_prover]
    fn mb_cost(&self, out: &Vec<MbCost>, x: usize, y: usize) -> (c: MbCost)
        requires
            self.wf(),
            x < self.mb_w,
            y < self.mb_h,
            out@.len() == grid::cell(self.mb_w as int, x as int, y as int),
        ensures
            c == self.cost(out@, out@.len() as int),
    {
        proof {
            grid::lemma_cell(self.mb_w as int, self.mb_h as int, x as int, y as int);
        }
        let ghost i = out@.len() as int;
        let seed: (i32, i32) = self.seed_at(out, x, y);
        let intra: i32 = self.intra_at(x, y);
        let down: (i32, i32) = (halve(seed.0), halve(seed.1));
        assert(down == half_vector(seed));
        let (inter, mv): (i32, (i32, i32)) = match (self.mode, self.ref_full, self.ref_half) {
            (LookaheadMode::FullRes, Some(rf), _) => {
                let l: Look<'_, K> = self.at_full(rf, x, y);
                l.inter_cost(seed, 8)
            },
            (LookaheadMode::HalfRes, _, Some(rh)) => {
                let l: Look<'_, K> = self.at_half(rh, x, y);
                let f: (i32, (i32, i32)) = l.inter_cost(down, 8);
                (f.0, doubled(f.1))
            },
            (LookaheadMode::Hybrid, Some(rf), Some(rh)) => {
                let l: Look<'_, K> = self.at_half(rh, x, y);
                let f: (i32, (i32, i32)) = l.inter_cost(down, 8);
                let g: Look<'_, K> = self.at_full(rf, x, y);
                g.inter_cost(doubled(f.1), 2)
            },
            _ => (intra, (0, 0)),
        };
        let c: MbCost = MbCost {
            intra,
            inter: if inter < intra {
                inter
            } else {
                intra
            },
            mv,
        };
        assert(c == self.cost(out@, i));
        c
    }

    /// The costs of all macroblocks in raster order.
    pub fn frame_costs(&self) -> (v: Vec<MbCost>)
        requires
            self.wf(),
            self.mb_w * self.mb_h <= usize::MAX,
        ensures
            v@.len() == self.mb_w * self.mb_h,
            self.costed(v@),
    {
        let (w, h): (usize, usize) = (self.mb_w, self.mb_h);
        let n: usize = w * h;
        let mut out: Vec<MbCost> = Vec::new();
        let mut i: usize = 0;
        let (mut x, mut y): (usize, usize) = (0, 0);
        while i < n
            invariant
                self.wf(),
                w == self.mb_w && h == self.mb_h,
                n == w * h,
                i <= n,
                x < w,
                y <= h,
                i == grid::cell(w as int, x as int, y as int),
                i < n ==> y < h,
                out@.len() == i,
                self.costed(out@),
            decreases n - i,
        {
            let ghost before = out@;
            let c: MbCost = self.mb_cost(&out, x, y);
            out.push(c);
            proof {
                assert forall|j: int| 0 <= j < out@.len() implies #[trigger] out@[j] == self.cost(
                    out@,
                    j,
                ) by {
                    self.lemma_prefix(before, out@, j);
                    if j < before.len() {
                        assert(before[j] == self.cost(before, j));
                    }
                }
            }
            i = i + 1;
            if x + 1 < w {
                x = x + 1;
            } else {
                x = 0;
                y = y + 1;
                assert(y * w == (y - 1) * w + w) by (nonlinear_arith);
            }
            proof {
                grid::lemma_rows_left(w as int, h as int, y as int, i as int);
            }
        }
        out
    }
}

/// A share of a macroblock: which one, and how many of its samples.
#[derive(Clone, Copy)]
pub struct Overlap {
    pub cell: usize,
    pub area: u32,
}

/// Where a square of 16 by 16 samples lies that a vector points at, in one direction: the vector
/// rounded down to whole samples, and the square kept inside of `n` macroblocks.
pub open spec fn landing(mb: int, v: int, n: int) -> int {
    arith::clamp(16 * mb + v / 4, 0, 16 * (n - 1))
}

/// The macroblocks, of `n`, that a square at `p` reaches into in one direction, with its lengths
/// in them.
pub open spec fn spans(p: int, n: int) -> Seq<(int, int)> {
    let (c, f) = (p / 16, p % 16);
    if f == 0 {
        seq![(c, 16)]
    } else {
        seq![(c, 16 - f), (arith::min(c + 1, n - 1), f)]
    }
}

/// The shares that a macroblock takes of the frame before: row by row, the macroblocks that the
/// square overlaps which its vector points at.
pub open spec fn overlaps_of(
    mb_w: int,
    mb_h: int,
    mb_x: int,
    mb_y: int,
    mv: (i32, i32),
) -> Seq<(int, int)> {
    let xs = spans(landing(mb_x, mv.0 as int, mb_w), mb_w);
    let ys = spans(landing(mb_y, mv.1 as int, mb_h), mb_h);
    Seq::new(
        xs.len() * ys.len(),
        |i: int|
            (
                ys[i / xs.len() as int].0 * mb_w + xs[i % xs.len() as int].0,
                ys[i / xs.len() as int].1 * xs[i % xs.len() as int].1,
            ),
    )
}

/// The areas of shares added up.
pub open spec fn areas(s: Seq<(int, int)>, k: int) -> int
    decreases k,
{
    if k <= 0 {
        0
    } else {
        areas(s, k - 1) + s[k - 1].1
    }
}

/// The shares that a macroblock takes make up the whole square, and each lies in a macroblock of
/// the frame.
#[verifier::rlimit(50)]
pub proof fn law_overlaps_make_up_the_square(
    mb_w: int,
    mb_h: int,
    mb_x: int,
    mb_y: int,
    mv: (i32, i32),
)
    requires
        0 <= mb_x < mb_w,
        0 <= mb_y < mb_h,
    ensures
        ({
            let s = overlaps_of(mb_w, mb_h, mb_x, mb_y, mv);
            &&& areas(s, s.len() as int) == 256
            &&& forall|i: int|
                0 <= i < s.len() ==> 0 <= (#[trigger] s[i]).0 < mb_w * mb_h && 0 < s[i].1 <= 256
        }),
{
    let xs = spans(landing(mb_x, mv.0 as int, mb_w), mb_w);
    let ys = spans(landing(mb_y, mv.1 as int, mb_h), mb_h);
    let s = overlaps_of(mb_w, mb_h, mb_x, mb_y, mv);
    let n = xs.len() as int;
    assert forall|i: int| 0 <= i < s.len() implies 0 <= (#[trigger] s[i]).0 < mb_w * mb_h && 0
        < s[i].1 <= 256 by {
        assert(0 <= i / n < ys.len() && 0 <= i % n < n) by (nonlinear_arith)
            requires
                0 <= i < n * ys.len(),
                n >= 1,
        ;
        let (a, b) = (ys[i / n], xs[i % n]);
        assert(0 <= a.0 < mb_h && 0 < a.1 <= 16);
        assert(0 <= b.0 < mb_w && 0 < b.1 <= 16);
        assert(0 <= a.0 * mb_w + b.0 < mb_w * mb_h && 0 < a.1 * b.1 <= 256) by (nonlinear_arith)
            requires
                0 <= a.0 < mb_h,
                0 <= b.0 < mb_w,
                0 < a.1 <= 16,
                0 < b.1 <= 16,
        ;
    }
    reveal_with_fuel(areas, 5);
    let (a0, b0) = (ys[0].1, xs[0].1);
    let m = ys.len() as int;
    assert(n == 1 || n == 2);
    assert(m == 1 || m == 2);
    assert(s.len() == n * m);
    assert(n * m == if n == 1 {
        m
    } else {
        m + m
    }) by (nonlinear_arith)
        requires
            n == 1 || n == 2,
    ;
    if n == 1 && m == 1 {
        assert(s[0].1 == a0 * b0) by {
            assert(0int / n == 0 && 0int % n == 0);
        }
        assert(s.len() == 1);
        assert(a0 * b0 == 256);
    } else if n == 1 {
        let a1 = ys[1].1;
        assert(s[0].1 == a0 * b0 && s[1].1 == a1 * b0) by {
            assert(0int / n == 0 && 0int % n == 0 && 1int / n == 1 && 1int % n == 0);
        }
        assert(s.len() == 2);
        assert(a0 * b0 + a1 * b0 == 256) by (nonlinear_arith)
            requires
                a0 + a1 == 16,
                b0 == 16,
        ;
    } else if m == 1 {
        let b1 = xs[1].1;
        assert(s[0].1 == a0 * b0 && s[1].1 == a0 * b1) by {
            assert(0int / n == 0 && 0int % n == 0 && 1int / n == 0 && 1int % n == 1);
        }
        assert(s.len() == 2);
        assert(a0 * b0 + a0 * b1 == 256) by (nonlinear_arith)
            requires
                a0 == 16,
                b0 + b1 == 16,
        ;
    } else {
        let (a1, b1) = (ys[1].1, xs[1].1);
        assert(s[0].1 == a0 * b0 && s[1].1 == a0 * b1 && s[2].1 == a1 * b0 && s[3].1 == a1 * b1)
            by {
            assert(0int / n == 0 && 0int % n == 0 && 1int / n == 0 && 1int % n == 1);
            assert(2int / n == 1 && 2int % n == 0 && 3int / n == 1 && 3int % n == 1);
        }
        assert(s.len() == 4);
        assert(a0 * b0 + a0 * b1 + a1 * b0 + a1 * b1 == 256) by (nonlinear_arith)
            requires
                a0 + a1 == 16,
                b0 + b1 == 16,
        ;
    }
}

fn land(mb: usize, v: i32, n: usize) -> (r: usize)
    requires
        mb < n <= 0x3ff_ffff,
    ensures
        r == landing(mb as int, v as int, n as int),
{
    let q: i64 = (v as i64 + 0x8000_0000) / 4 - 0x2000_0000;
    let p: i64 = 16 * mb as i64 + q;
    let top: i64 = 16 * (n as i64 - 1);
    if p < 0 {
        0
    } else if p > top {
        top as usize
    } else {
        p as usize
    }
}

fn list_spans(p: usize, n: usize) -> (r: Vec<(usize, u32)>)
    requires
        1 <= n <= 0x3ff_ffff,
        p <= 16 * (n - 1),
    ensures
        r@.len() == spans(p as int, n as int).len(),
        forall|i: int|
            0 <= i < r@.len() ==> (#[trigger] r@[i]).0 == spans(p as int, n as int)[i].0 && r@[i].1
                == spans(p as int, n as int)[i].1,
        forall|i: int| 0 <= i < r@.len() ==> (#[trigger] r@[i]).0 < n && r@[i].1 <= 16,
        1 <= r@.len() <= 2,
{
    let (c, f): (usize, usize) = (p / 16, p % 16);
    let mut v: Vec<(usize, u32)> = Vec::new();
    v.push((c, (16 - f) as u32));
    if f != 0 {
        let d: usize = if c + 1 < n - 1 {
            c + 1
        } else {
            n - 1
        };
        v.push((d, f as u32));
    }
    v
}

/// The macroblocks of the frame before that a macroblock rests on, with the samples of each.
#[verifier::rlimit(50)]
pub fn overlaps(mb_w: usize, mb_h: usize, mb_x: usize, mb_y: usize, mv: (i32, i32)) -> (r: Vec<
    Overlap,
>)
    requires
        mb_x < mb_w <= 0x3ff_ffff,
        mb_y < mb_h <= 0x3ff_ffff,
        mb_w * mb_h <= usize::MAX,
    ensures
        ({
            let s = overlaps_of(mb_w as int, mb_h as int, mb_x as int, mb_y as int, mv);
            &&& r@.len() == s.len()
            &&& forall|i: int|
                0 <= i < s.len() ==> (#[trigger] r@[i]).cell == s[i].0 && r@[i].area == s[i].1
        }),
{
    let xs: Vec<(usize, u32)> = list_spans(land(mb_x, mv.0, mb_w), mb_w);
    let ys: Vec<(usize, u32)> = list_spans(land(mb_y, mv.1, mb_h), mb_h);
    let ghost s = overlaps_of(mb_w as int, mb_h as int, mb_x as int, mb_y as int, mv);
    let ghost n = xs@.len() as int;
    let mut out: Vec<Overlap> = Vec::new();
    let mut j: usize = 0;
    assert(0 * n == 0);
    while j < ys.len()
        invariant
            j <= ys@.len(),
            n == xs@.len(),
            1 <= n <= 2,
            ys@.len() <= 2,
            mb_w * mb_h <= usize::MAX,
            s == overlaps_of(mb_w as int, mb_h as int, mb_x as int, mb_y as int, mv),
            spans(landing(mb_x as int, mv.0 as int, mb_w as int), mb_w as int).len() == n,
            spans(landing(mb_y as int, mv.1 as int, mb_h as int), mb_h as int).len() == ys@.len(),
            forall|i: int|
                0 <= i < n ==> (#[trigger] xs@[i]).0 == spans(
                    landing(mb_x as int, mv.0 as int, mb_w as int),
                    mb_w as int,
                )[i].0 && xs@[i].1 == spans(
                    landing(mb_x as int, mv.0 as int, mb_w as int),
                    mb_w as int,
                )[i].1,
            forall|i: int|
                0 <= i < ys@.len() ==> (#[trigger] ys@[i]).0 == spans(
                    landing(mb_y as int, mv.1 as int, mb_h as int),
                    mb_h as int,
                )[i].0 && ys@[i].1 == spans(
                    landing(mb_y as int, mv.1 as int, mb_h as int),
                    mb_h as int,
                )[i].1,
            forall|i: int| 0 <= i < n ==> (#[trigger] xs@[i]).0 < mb_w && xs@[i].1 <= 16,
            forall|i: int| 0 <= i < ys@.len() ==> (#[trigger] ys@[i]).0 < mb_h && ys@[i].1 <= 16,
            out@.len() == j * n,
            forall|i: int|
                0 <= i < out@.len() ==> (#[trigger] out@[i]).cell == s[i].0 && out@[i].area
                    == s[i].1,
        decreases ys@.len() - j,
    {
        let mut i: usize = 0;
        while i < xs.len()
            invariant
                i <= n,
                j < ys@.len(),
                n == xs@.len(),
                1 <= n <= 2,
                ys@.len() <= 2,
                mb_w * mb_h <= usize::MAX,
                s == overlaps_of(mb_w as int, mb_h as int, mb_x as int, mb_y as int, mv),
                spans(landing(mb_x as int, mv.0 as int, mb_w as int), mb_w as int).len() == n,
                spans(landing(mb_y as int, mv.1 as int, mb_h as int), mb_h as int).len()
                    == ys@.len(),
                forall|i: int|
                    0 <= i < n ==> (#[trigger] xs@[i]).0 == spans(
                        landing(mb_x as int, mv.0 as int, mb_w as int),
                        mb_w as int,
                    )[i].0 && xs@[i].1 == spans(
                        landing(mb_x as int, mv.0 as int, mb_w as int),
                        mb_w as int,
                    )[i].1,
                forall|i: int|
                    0 <= i < ys@.len() ==> (#[trigger] ys@[i]).0 == spans(
                        landing(mb_y as int, mv.1 as int, mb_h as int),
                        mb_h as int,
                    )[i].0 && ys@[i].1 == spans(
                        landing(mb_y as int, mv.1 as int, mb_h as int),
                        mb_h as int,
                    )[i].1,
                forall|i: int| 0 <= i < n ==> (#[trigger] xs@[i]).0 < mb_w && xs@[i].1 <= 16,
                forall|i: int|
                    0 <= i < ys@.len() ==> (#[trigger] ys@[i]).0 < mb_h && ys@[i].1 <= 16,
                out@.len() == j * n + i,
                forall|i: int|
                    0 <= i < out@.len() ==> (#[trigger] out@[i]).cell == s[i].0 && out@[i].area
                        == s[i].1,
            decreases n - i,
        {
            let (cy, wy): (usize, u32) = ys[j];
            let (cx, wx): (usize, u32) = xs[i];
            proof {
                assert(0 <= cy * mb_w + cx < mb_w * mb_h && 0 <= cy * mb_w && 0 <= wy * wx <= 256)
                    by (nonlinear_arith)
                    requires
                        cy < mb_h,
                        cx < mb_w,
                        wy <= 16,
                        wx <= 16,
                ;
                vstd::arithmetic::div_mod::lemma_fundamental_div_mod_converse(
                    j * n + i,
                    n,
                    j as int,
                    i as int,
                );
                assert(j * n + i < ys@.len() * n) by (nonlinear_arith)
                    requires
                        j + 1 <= ys@.len(),
                        i < n,
                ;
                assert(n * ys@.len() == ys@.len() * n) by (nonlinear_arith);
                assert(j * n + i < s.len());
                assert(s[j * n + i] == (cy * mb_w + cx, wy * wx));
            }
            out.push(Overlap { cell: cy * mb_w + cx, area: wy * wx });
            i = i + 1;
        }
        j = j + 1;
        proof {
            assert((j - 1) * n + n == j * n) by (nonlinear_arith);
        }
    }
    assert(n * ys@.len() == ys@.len() * n) by (nonlinear_arith);
    out
}

} // verus!
