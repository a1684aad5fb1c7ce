//! How well one vector predicts a whole frame.
use vstd::prelude::*;
use vstd::arithmetic::div_mod::*;
use crate::arith;
use crate::arith::abs_i32;
use crate::signals;
use crate::signals::FrameSignals;

verus! {

/// How many samples are taken along a side: every eighth of those that are 16 away from the edges.
pub open spec fn taken(side: int) -> int {
    (side - 32 + 7) / 8
}

/// How far sample `k` of those taken is from the sample that lies `(dx, dy)` away from it in the
/// frame before.
pub open spec fn apart(sy: Seq<u8>, r: Seq<u8>, cw: int, dx: int, dy: int, k: int) -> int {
    let (x, y) = (16 + 8 * (k % taken(cw)), 16 + 8 * (k / taken(cw)));
    arith::abs(sy[y * cw + x] - r[(y + dy) * cw + x + dx])
}

/// The differences of the first `k` samples taken, added up.
pub open spec fn global_sad(sy: Seq<u8>, r: Seq<u8>, cw: int, dx: int, dy: int, k: int) -> int
    decreases k,
{
    if k <= 0 {
        0
    } else {
        global_sad(sy, r, cw, dx, dy, k - 1) + apart(sy, r, cw, dx, dy, k - 1)
    }
}

/// A vector in whole samples, and what it leaves.
#[derive(Clone, Copy)]
pub struct Shift {
    pub dx: int,
    pub dy: int,
    pub c: int,
}

/// The first best of the first `k` vectors within twelve samples, four apart, row by row.
pub open spec fn coarse(sy: Seq<u8>, r: Seq<u8>, cw: int, n: int, k: int) -> Shift
    decreases k,
{
    if k <= 0 {
        Shift { dx: 0, dy: 0, c: u64::MAX as int }
    } else {
        let b = coarse(sy, r, cw, n, k - 1);
        let o = signals::offset_at(12, 4, k - 1);
        let c = global_sad(sy, r, cw, o.0, o.1, n);
        if c < b.c {
            Shift { dx: o.0, dy: o.1, c }
        } else {
            b
        }
    }
}

/// The least of what a vector leaves and what the first `k` of those within three samples of it
/// leave.
pub open spec fn refined(sy: Seq<u8>, r: Seq<u8>, cw: int, n: int, b: Shift, k: int) -> int
    decreases k,
{
    if k <= 0 {
        b.c
    } else {
        let o = signals::offset_at(3, 1, k - 1);
        arith::min(
            refined(sy, r, cw, n, b, k - 1),
            global_sad(sy, r, cw, b.dx + o.0, b.dy + o.1, n),
        )
    }
}

impl<'a> FrameSignals<'a> {
    /// What the best single vector leaves of the samples taken.
    pub open spec fn left_over(&self, r: Seq<u8>) -> int {
        let n = taken(self.cw as int) * taken(16 * self.mb_h);
        refined(self.sy@, r, self.cw as int, n, coarse(self.sy@, r, self.cw as int, n, 49), 49)
    }

    proof fn lemma_taken(&self, dx: int, dy: int, k: int)
        requires
            self.wf(),
            self.mb_w >= 3,
            self.mb_h >= 3,
            -15 <= dx <= 15,
            -15 <= dy <= 15,
            0 <= k < taken(self.cw as int) * taken(16 * self.mb_h),
        ensures
            ({
                let nx = taken(self.cw as int);
                let (x, y) = (16 + 8 * (k % nx), 16 + 8 * (k / nx));
                &&& 16 <= x < self.cw - 16
                &&& 16 <= y < 16 * self.mb_h - 16
                &&& 0 <= y * self.cw + x < self.sy@.len()
                &&& 0 <= (y + dy) * self.cw
                &&& 0 <= (y + dy) * self.cw + x + dx < self.sy@.len()
            }),
    {
        let (cw, ch) = (self.cw as int, 16 * self.mb_h);
        let (nx, ny) = (taken(cw), taken(ch));
        assert(0 <= k % nx < nx && 0 <= k / nx < ny) by (nonlinear_arith)
            requires
                nx >= 1,
                0 <= k < nx * ny,
        ;
        let (x, y) = (16 + 8 * (k % nx), 16 + 8 * (k / nx));
        assert(0 <= y * cw + x < cw * ch) by (nonlinear_arith)
            requires
                0 <= x < cw,
                0 <= y < ch,
        ;
        let (u, v) = (x + dx, y + dy);
        assert(0 <= v * cw && 0 <= v * cw + u < cw * ch) by (nonlinear_arith)
            requires
                0 <= u < cw,
                0 <= v < ch,
        ;
    }

    /// What a vector leaves of the samples taken. The vector is given 16 samples too high in both
    /// directions.
    fn sad_at(&self, r: &[u8], ux: usize, uy: usize, n: usize) -> (s: u64)
        requires
            self.wf(),
            self.mb_w >= 3,
            self.mb_h >= 3,
            r@.len() == self.sy@.len(),
            1 <= ux <= 31,
            1 <= uy <= 31,
            n == taken(self.cw as int) * taken(16 * self.mb_h),
        ensures
            s == global_sad(self.sy@, r@, self.cw as int, ux - 16, uy - 16, n as int),
            s <= 255 * n,
    {
        let nx: usize = (self.cw - 32 + 7) / 8;
        let len: usize = self.sy.len();
        let mut s: u64 = 0;
        let mut k: usize = 0;
        proof {
            self.lemma_few();
        }
        while k < n
            invariant
                self.wf(),
                self.mb_w >= 3,
                self.mb_h >= 3,
                r@.len() == self.sy@.len(),
                len == self.sy@.len(),
                1 <= ux <= 31,
                1 <= uy <= 31,
                nx == taken(self.cw as int),
                nx >= 1,
                n == taken(self.cw as int) * taken(16 * self.mb_h),
                n <= 0x7f_ffff_ffff_ffff,
                k <= n,
                s == global_sad(self.sy@, r@, self.cw as int, ux - 16, uy - 16, k as int),
                s <= 255 * k,
            decreases n - k,
        {
            proof {
                self.lemma_taken(ux - 16, uy - 16, k as int);
                self.lemma_taken(0, 0, k as int);
            }
            let (x, y): (usize, usize) = (16 + 8 * (k % nx), 16 + 8 * (k / nx));
            let a: i32 = self.sy[y * self.cw + x] as i32;
            let b: i32 = r[(y + uy - 16) * self.cw + (x + ux - 16)] as i32;
            s = s + abs_i32(a - b) as u64;
            k = k + 1;
        }
        s
    }

    proof fn lemma_few(&self)
        requires
            self.wf(),
            self.mb_w >= 3,
            self.mb_h >= 3,
        ensures
            1 <= taken(self.cw as int) * taken(16 * self.mb_h) <= 0x7f_ffff_ffff_ffff,
            taken(self.cw as int) * taken(16 * self.mb_h) <= self.sy@.len(),
            taken(self.cw as int) >= 1,
    {
        let (nx, ny) = (taken(self.cw as int), taken(16 * self.mb_h));
        let (cw, ch) = (self.cw as int, 16 * self.mb_h);
        assert(1 <= nx * ny <= 0x7f_ffff_ffff_ffff && nx * ny <= cw * ch) by (nonlinear_arith)
            requires
                1 <= nx <= 0x7ff_ffff,
                1 <= ny <= 0x7ff_ffff,
                nx <= cw,
                ny <= ch,
        ;
    }

    /// What the best single vector leaves of the samples taken, and how many these are. Nothing
    /// without a frame to predict from, or for a frame of less than 48 samples a side.
    #[verifier::rlimit(50)]
    pub fn global_mc_residual(&self) -> (f: Option<(u64, usize)>)
        requires
            self.wf(),
        ensures
            f is None <==> self.ref_y is None || self.cw < 48 || 16 * self.mb_h < 48,
            f matches Some((c, n)) ==> {
                &&& n == taken(self.cw as int) * taken(16 * self.mb_h)
                &&& c == self.left_over(self.ref_y->0@)
            },
    {
        let r: &[u8] = match self.ref_y {
            None => {
                return None;
            },
            Some(r) => r,
        };
        if self.cw < 48 || self.mb_h < 3 {
            return None;
        }
        proof {
            self.lemma_few();
        }
        let len: usize = self.sy.len();
        let n: usize = ((self.cw - 32 + 7) / 8) * ((16 * self.mb_h - 32 + 7) / 8);
        let (mut bx, mut by, mut c): (usize, usize, u64) = (16, 16, u64::MAX);
        let mut k: usize = 0;
        while k < 49
            invariant
                self.wf(),
                self.mb_w >= 3,
                self.mb_h >= 3,
                r@.len() == self.sy@.len(),
                n == taken(self.cw as int) * taken(16 * self.mb_h),
                k <= 49,
                4 <= bx <= 28,
                4 <= by <= 28,
                coarse(self.sy@, r@, self.cw as int, n as int, k as int) == (Shift {
                    dx: bx - 16,
                    dy: by - 16,
                    c: c as int,
                }),
            decreases 49 - k,
        {
            let (ux, uy): (usize, usize) = (4 + 4 * (k % 7), 4 + 4 * (k / 7));
            let s: u64 = self.sad_at(r, ux, uy, n);
            assert(signals::offset_at(12, 4, k as int) == (ux - 16, uy - 16));
            if s < c {
                bx = ux;
                by = uy;
                c = s;
            }
            k = k + 1;
        }
        let ghost b = coarse(self.sy@, r@, self.cw as int, n as int, 49);
        let mut j: usize = 0;
        while j < 49
            invariant
                self.wf(),
                self.mb_w >= 3,
                self.mb_h >= 3,
                r@.len() == self.sy@.len(),
                n == taken(self.cw as int) * taken(16 * self.mb_h),
                j <= 49,
                4 <= bx <= 28,
                4 <= by <= 28,
                b.dx == bx - 16,
                b.dy == by - 16,
                c == refined(self.sy@, r@, self.cw as int, n as int, b, j as int),
            decreases 49 - j,
        {
            let (ux, uy): (usize, usize) = (bx + j % 7 - 3, by + j / 7 - 3);
            let s: u64 = self.sad_at(r, ux, uy, n);
            assert(signals::offset_at(3, 1, j as int) == (j as int % 7 - 3, j as int / 7 - 3));
            assert(ux - 16 == b.dx + signals::offset_at(3, 1, j as int).0);
            assert(uy - 16 == b.dy + signals::offset_at(3, 1, j as int).1);
            if s < c {
                c = s;
            }
            j = j + 1;
        }
        Some((c, n))
    }
}

} // verus!
