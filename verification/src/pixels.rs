//! Sample blocks: differences, distortions, blends and edge extension.
use vstd::prelude::*;
use vstd::arithmetic::div_mod::*;
use crate::arith;
use crate::arith::abs_i32;
use crate::rect;
use crate::rect::put_rect;

verus! {

/// A view into a plane: where it starts and how far its rows lie apart.
#[derive(Clone, Copy)]
pub struct At {
    pub base: usize,
    pub stride: usize,
}

impl At {
    /// The plane's index of column `dx` and row `dy`.
    pub open spec fn index(self, dx: int, dy: int) -> int {
        self.base + dy * self.stride + dx
    }

    /// A block of `w` by `h` samples lies in a plane of `len`.
    pub open spec fn holds(self, w: int, h: int, len: int) -> bool {
        self.base + (h - 1) * self.stride + w <= len
    }
}

pub proof fn lemma_holds(at: At, w: int, h: int, len: int, dx: int, dy: int)
    requires
        at.holds(w, h, len),
        0 <= dx < w,
        0 <= dy < h,
    ensures
        0 <= dy * at.stride <= at.index(dx, dy) < len,
{
    assert(0 <= dy * at.stride <= (h - 1) * at.stride) by (nonlinear_arith)
        requires
            0 <= dy <= h - 1,
            at.stride >= 0,
    ;
}

/// The sample at column `dx` and row `dy`.
pub fn sample(p: &[u8], at: At, dx: usize, dy: usize) -> (r: u8)
    requires
        dy * at.stride <= at.index(dx as int, dy as int) < p@.len(),
        0 <= dy * at.stride,
    ensures
        r == p@[at.index(dx as int, dy as int)],
{
    assert(p.len() == p@.len());
    p[at.base + dy * at.stride + dx]
}

/// The difference of two blocks at column `dx` and row `dy`.
pub open spec fn diff(a: Seq<u8>, aa: At, b: Seq<u8>, ba: At, dx: int, dy: int) -> int {
    a[aa.index(dx, dy)] - b[ba.index(dx, dy)]
}

/// The sum of the absolute differences of the first `k` samples, in raster order, of two
/// blocks that are `w` wide.
pub open spec fn sad(a: Seq<u8>, aa: At, b: Seq<u8>, ba: At, w: int, k: int) -> int
    decreases k,
{
    if k <= 0 {
        0
    } else {
        sad(a, aa, b, ba, w, k - 1) + arith::abs(diff(a, aa, b, ba, (k - 1) % w, (k - 1) / w))
    }
}

/// The sum of absolute differences of two blocks of `w` by `h`.
pub fn sad_strided(a: &[u8], aa: At, b: &[u8], ba: At, w: usize, h: usize) -> (r: i64)
    requires
        1 <= w <= 16,
        1 <= h <= 16,
        aa.holds(w as int, h as int, a@.len() as int),
        ba.holds(w as int, h as int, b@.len() as int),
    ensures
        r == sad(a@, aa, b@, ba, w as int, w * h),
        0 <= r <= 255 * (w * h),
{
    let mut s: i64 = 0;
    let mut dy: usize = 0;
    assert(0 * w == 0);
    while dy < h
        invariant
            1 <= w <= 16,
            1 <= h <= 16,
            dy <= h,
            aa.holds(w as int, h as int, a@.len() as int),
            ba.holds(w as int, h as int, b@.len() as int),
            s == sad(a@, aa, b@, ba, w as int, dy * w),
            0 <= s <= 255 * (dy * w),
        decreases h - dy,
    {
        let mut dx: usize = 0;
        proof {
            assert(0 <= dy * w <= 256) by (nonlinear_arith)
                requires
                    0 <= dy <= 16,
                    0 <= w <= 16,
            ;
        }
        while dx < w
            invariant
                1 <= w <= 16,
                1 <= h <= 16,
                dy < h,
                dx <= w,
                0 <= dy * w <= 256,
                aa.holds(w as int, h as int, a@.len() as int),
                ba.holds(w as int, h as int, b@.len() as int),
                s == sad(a@, aa, b@, ba, w as int, dy * w + dx),
                0 <= s <= 255 * (dy * w + dx),
            decreases w - dx,
        {
            proof {
                lemma_holds(aa, w as int, h as int, a@.len() as int, dx as int, dy as int);
                lemma_holds(ba, w as int, h as int, b@.len() as int, dx as int, dy as int);
                lemma_fundamental_div_mod_converse(dy * w + dx, w as int, dy as int, dx as int);
            }
            let x: i32 = sample(a, aa, dx, dy) as i32;
            let y: i32 = sample(b, ba, dx, dy) as i32;
            s = s + abs_i32(x - y) as i64;
            dx = dx + 1;
        }
        dy = dy + 1;
        proof {
            assert((dy - 1) * w + w == dy * w) by (nonlinear_arith);
        }
    }
    assert(h * w == w * h) by (nonlinear_arith);
    s
}

/// The rounded mean of two samples.
pub open spec fn mean(p: int, q: int) -> int {
    (p + q + 1) / 2
}

/// The sum of the absolute differences of the first `k` samples of `s` and the rounded mean
/// of `a` and `b`.
pub open spec fn sad_mean(
    s: Seq<u8>,
    sa: At,
    a: Seq<u8>,
    aa: At,
    b: Seq<u8>,
    ba: At,
    w: int,
    k: int,
) -> int
    decreases k,
{
    if k <= 0 {
        0
    } else {
        let (dx, dy) = ((k - 1) % w, (k - 1) / w);
        sad_mean(s, sa, a, aa, b, ba, w, k - 1) + arith::abs(
            s[sa.index(dx, dy)] - mean(a[aa.index(dx, dy)] as int, b[ba.index(dx, dy)] as int),
        )
    }
}

/// The sum of absolute differences of a block and the rounded mean of two others.
pub fn sad_avg_strided(
    s: &[u8],
    sa: At,
    a: &[u8],
    aa: At,
    b: &[u8],
    ba: At,
    w: usize,
    h: usize,
) -> (r: i64)
    requires
        1 <= w <= 16,
        1 <= h <= 16,
        sa.holds(w as int, h as int, s@.len() as int),
        aa.holds(w as int, h as int, a@.len() as int),
        ba.holds(w as int, h as int, b@.len() as int),
    ensures
        r == sad_mean(s@, sa, a@, aa, b@, ba, w as int, w * h),
{
    let mut t: i64 = 0;
    let mut dy: usize = 0;
    assert(0 * w == 0);
    while dy < h
        invariant
            1 <= w <= 16,
            1 <= h <= 16,
            dy <= h,
            sa.holds(w as int, h as int, s@.len() as int),
            aa.holds(w as int, h as int, a@.len() as int),
            ba.holds(w as int, h as int, b@.len() as int),
            t == sad_mean(s@, sa, a@, aa, b@, ba, w as int, dy * w),
            0 <= t <= 255 * (dy * w),
        decreases h - dy,
    {
        let mut dx: usize = 0;
        proof {
            assert(0 <= dy * w <= 256) by (nonlinear_arith)
                requires
                    0 <= dy <= 16,
                    0 <= w <= 16,
            ;
        }
        while dx < w
            invariant
                1 <= w <= 16,
                1 <= h <= 16,
                dy < h,
                dx <= w,
                0 <= dy * w <= 256,
                sa.holds(w as int, h as int, s@.len() as int),
                aa.holds(w as int, h as int, a@.len() as int),
                ba.holds(w as int, h as int, b@.len() as int),
                t == sad_mean(s@, sa, a@, aa, b@, ba, w as int, dy * w + dx),
                0 <= t <= 255 * (dy * w + dx),
            decreases w - dx,
        {
            proof {
                lemma_holds(sa, w as int, h as int, s@.len() as int, dx as int, dy as int);
                lemma_holds(aa, w as int, h as int, a@.len() as int, dx as int, dy as int);
                lemma_holds(ba, w as int, h as int, b@.len() as int, dx as int, dy as int);
                lemma_fundamental_div_mod_converse(dy * w + dx, w as int, dy as int, dx as int);
            }
            let x: i32 = sample(s, sa, dx, dy) as i32;
            let p: i32 = sample(a, aa, dx, dy) as i32;
            let q: i32 = sample(b, ba, dx, dy) as i32;
            t = t + abs_i32(x - (p + q + 1) / 2) as i64;
            dx = dx + 1;
        }
        dy = dy + 1;
        proof {
            assert((dy - 1) * w + w == dy * w) by (nonlinear_arith);
        }
    }
    assert(h * w == w * h) by (nonlinear_arith);
    t
}

/// Output `u` of the Hadamard transform of four values.
pub open spec fn had(u: int, a: int, b: int, c: int, d: int) -> int {
    if u == 0 {
        a + b + c + d
    } else if u == 1 {
        a - b + c - d
    } else if u == 2 {
        a + b - c - d
    } else {
        a - b - c + d
    }
}

/// Output `v` of the Hadamard transform of row `y`.
pub open spec fn had_row(d: spec_fn(int, int) -> int, v: int, y: int) -> int {
    had(v, d(0, y), d(1, y), d(2, y), d(3, y))
}

/// Coefficient `(v, u)` of the Hadamard transform of a 4x4 block, given by column and row.
pub open spec fn had_coef(d: spec_fn(int, int) -> int, v: int, u: int) -> int {
    had(u, had_row(d, v, 0), had_row(d, v, 1), had_row(d, v, 2), had_row(d, v, 3))
}

/// The sum of the absolute coefficients in column `v` of the transform.
#[verifier::opaque]
pub open spec fn had_column(d: spec_fn(int, int) -> int, v: int) -> int {
    arith::abs(had_coef(d, v, 0)) + arith::abs(had_coef(d, v, 1)) + arith::abs(had_coef(d, v, 2))
        + arith::abs(had_coef(d, v, 3))
}

/// The sum of the absolute Hadamard coefficients of a 4x4 block.
pub open spec fn had_sum(d: spec_fn(int, int) -> int) -> int {
    had_column(d, 0) + had_column(d, 1) + had_column(d, 2) + had_column(d, 3)
}

/// The difference of two blocks in the 4x4 block at column `bx` and row `by`.
pub open spec fn diff4(a: Seq<u8>, aa: At, b: Seq<u8>, ba: At, bx: int, by: int) -> spec_fn(
    int,
    int,
) -> int {
    |x: int, y: int| diff(a, aa, b, ba, 4 * bx + x, 4 * by + y)
}

/// The sum over the first `k` of the 4x4 blocks, `nbx` in a row.
pub open spec fn satd(a: Seq<u8>, aa: At, b: Seq<u8>, ba: At, nbx: int, k: int) -> int
    decreases k,
{
    if k <= 0 {
        0
    } else {
        satd(a, aa, b, ba, nbx, k - 1) + had_sum(
            diff4(a, aa, b, ba, (k - 1) % nbx, (k - 1) / nbx),
        )
    }
}

/// The parity of a coefficient is the parity of the sum of the block.
proof fn lemma_coef_parity(d: spec_fn(int, int) -> int, v: int, u: int)
    requires
        0 <= v < 4,
        0 <= u < 4,
    ensures
        arith::abs(had_coef(d, v, u)) % 2 == had_coef(d, 0, 0) % 2,
{
    let (e0, e1, e2, e3) = (had_row(d, v, 0), had_row(d, v, 1), had_row(d, v, 2), had_row(d, v, 3));
    assert(e0 % 2 == had_row(d, 0, 0) % 2);
    assert(e1 % 2 == had_row(d, 0, 1) % 2);
    assert(e2 % 2 == had_row(d, 0, 2) % 2);
    assert(e3 % 2 == had_row(d, 0, 3) % 2);
    assert(had_coef(d, v, u) % 2 == had_coef(d, 0, 0) % 2);
}

proof fn lemma_column_even(d: spec_fn(int, int) -> int, v: int)
    requires
        0 <= v < 4,
    ensures
        had_column(d, v) % 2 == 0,
{
    reveal(had_column);
    lemma_coef_parity(d, v, 0);
    lemma_coef_parity(d, v, 1);
    lemma_coef_parity(d, v, 2);
    lemma_coef_parity(d, v, 3);
}

/// The sum of absolute transformed differences is even, so a kernel that hands out half of
/// it, rounded, loses nothing.
pub proof fn law_satd_is_even(a: Seq<u8>, aa: At, b: Seq<u8>, ba: At, nbx: int, k: int)
    ensures
        satd(a, aa, b, ba, nbx, k) % 2 == 0,
        2 * ((satd(a, aa, b, ba, nbx, k) + 1) / 2) == satd(a, aa, b, ba, nbx, k),
    decreases k,
{
    if k > 0 {
        law_satd_is_even(a, aa, b, ba, nbx, k - 1);
        let d = diff4(a, aa, b, ba, (k - 1) % nbx, (k - 1) / nbx);
        lemma_column_even(d, 0);
        lemma_column_even(d, 1);
        lemma_column_even(d, 2);
        lemma_column_even(d, 3);
    }
}

fn had4(a: i32, b: i32, c: i32, d: i32) -> (r: [i32; 4])
    requires
        -100000 <= a <= 100000,
        -100000 <= b <= 100000,
        -100000 <= c <= 100000,
        -100000 <= d <= 100000,
    ensures
        r@[0] == had(0, a as int, b as int, c as int, d as int),
        r@[1] == had(1, a as int, b as int, c as int, d as int),
        r@[2] == had(2, a as int, b as int, c as int, d as int),
        r@[3] == had(3, a as int, b as int, c as int, d as int),
{
    [a + b + c + d, a - b + c - d, a + b - c - d, a - b - c + d]
}

/// The absolute sum of one column of coefficients, from the transformed rows.
fn column_sum(rows: &[[i32; 4]; 4], v: usize, Ghost(d): Ghost<spec_fn(int, int) -> int>) -> (r: i64)
    requires
        v < 4,
        forall|j: int, v: int|
            0 <= j < 4 && 0 <= v < 4 ==> #[trigger] rows@[j]@[v] == had_row(d, v, j),
        forall|j: int, v: int|
            0 <= j < 4 && 0 <= v < 4 ==> -1020 <= #[trigger] rows@[j]@[v] <= 1020,
    ensures
        r == had_column(d, v as int),
        0 <= r <= 16320,
{
    reveal(had_column);
    let (a, b, c, e): (i32, i32, i32, i32) = (rows[0][v], rows[1][v], rows[2][v], rows[3][v]);
    assert(rows@[0]@[v as int] == a && rows@[1]@[v as int] == b && rows@[2]@[v as int] == c
        && rows@[3]@[v as int] == e);
    let t: [i32; 4] = had4(a, b, c, e);
    (abs_i32(t[0]) + abs_i32(t[1]) + abs_i32(t[2]) + abs_i32(t[3])) as i64
}

/// The Hadamard sum of one 4x4 block.
#[verifier::rlimit(50)]
fn satd_block(a: &[u8], aa: At, b: &[u8], ba: At, bx: usize, by: usize) -> (r: i64)
    requires
        bx < 4,
        by < 4,
        aa.holds(4 * bx + 4, 4 * by + 4, a@.len() as int),
        ba.holds(4 * bx + 4, 4 * by + 4, b@.len() as int),
    ensures
        r == had_sum(diff4(a@, aa, b@, ba, bx as int, by as int)),
        0 <= r <= 65280,
{
    let ghost d = diff4(a@, aa, b@, ba, bx as int, by as int);
    let mut rows: [[i32; 4]; 4] = [[0; 4]; 4];
    let mut y: usize = 0;
    while y < 4
        invariant
            y <= 4,
            bx < 4,
            by < 4,
            aa.holds(4 * bx + 4, 4 * by + 4, a@.len() as int),
            ba.holds(4 * bx + 4, 4 * by + 4, b@.len() as int),
            d == diff4(a@, aa, b@, ba, bx as int, by as int),
            forall|j: int, v: int|
                0 <= j < y && 0 <= v < 4 ==> #[trigger] rows@[j]@[v] == had_row(d, v, j),
            forall|j: int, v: int|
                0 <= j < y && 0 <= v < 4 ==> -1020 <= #[trigger] rows@[j]@[v] <= 1020,
        decreases 4 - y,
    {
        let mut t: [i32; 4] = [0; 4];
        let mut x: usize = 0;
        while x < 4
            invariant
                x <= 4,
                y < 4,
                bx < 4,
                by < 4,
                aa.holds(4 * bx + 4, 4 * by + 4, a@.len() as int),
                ba.holds(4 * bx + 4, 4 * by + 4, b@.len() as int),
                forall|i: int|
                    0 <= i < x ==> #[trigger] t@[i] == diff(
                        a@,
                        aa,
                        b@,
                        ba,
                        4 * bx + i,
                        4 * by + y,
                    ),
                forall|i: int| 0 <= i < x ==> -255 <= #[trigger] t@[i] <= 255,
            decreases 4 - x,
        {
            proof {
                lemma_holds(aa, 4 * bx + 4, 4 * by + 4, a@.len() as int, 4 * bx + x, 4 * by + y);
                lemma_holds(ba, 4 * bx + 4, 4 * by + 4, b@.len() as int, 4 * bx + x, 4 * by + y);
            }
            let p: i32 = sample(a, aa, 4 * bx + x, 4 * by + y) as i32;
            let q: i32 = sample(b, ba, 4 * bx + x, 4 * by + y) as i32;
            t[x] = p - q;
            x = x + 1;
        }
        assert(t@[0] == d(0, y as int) && t@[1] == d(1, y as int) && t@[2] == d(2, y as int) && t@[3]
            == d(3, y as int));
        rows[y] = had4(t[0], t[1], t[2], t[3]);
        y = y + 1;
    }
    let mut s: i64 = 0;
    let mut v: usize = 0;
    while v < 4
        invariant
            v <= 4,
            forall|j: int, v: int|
                0 <= j < 4 && 0 <= v < 4 ==> #[trigger] rows@[j]@[v] == had_row(d, v, j),
            forall|j: int, v: int|
                0 <= j < 4 && 0 <= v < 4 ==> -1020 <= #[trigger] rows@[j]@[v] <= 1020,
            v == 0 ==> s == 0,
            v == 1 ==> s == had_column(d, 0),
            v == 2 ==> s == had_column(d, 0) + had_column(d, 1),
            v == 3 ==> s == had_column(d, 0) + had_column(d, 1) + had_column(d, 2),
            v == 4 ==> s == had_sum(d),
            0 <= s <= 16320 * v,
        decreases 4 - v,
    {
        s = s + column_sum(&rows, v, Ghost(d));
        v = v + 1;
    }
    s
}

/// The sum of absolute transformed differences of two blocks of `w` by `h`: the absolute
/// Hadamard coefficients of their 4x4 blocks.
#[verifier::rlimit(50)]
pub fn satd_px(a: &[u8], aa: At, b: &[u8], ba: At, w: usize, h: usize) -> (r: i64)
    requires
        w == 4 || w == 8 || w == 16,
        h == 4 || h == 8 || h == 16,
        aa.holds(w as int, h as int, a@.len() as int),
        ba.holds(w as int, h as int, b@.len() as int),
    ensures
        r == satd(a@, aa, b@, ba, w as int / 4, (w / 4) * (h / 4)),
        0 <= r <= 65280 * 16,
{
    let nbx: usize = w / 4;
    let nby: usize = h / 4;
    let mut s: i64 = 0;
    let mut by: usize = 0;
    assert(0 * nbx == 0);
    while by < nby
        invariant
            w == 4 || w == 8 || w == 16,
            h == 4 || h == 8 || h == 16,
            nbx == w / 4,
            nby == h / 4,
            by <= nby,
            aa.holds(w as int, h as int, a@.len() as int),
            ba.holds(w as int, h as int, b@.len() as int),
            s == satd(a@, aa, b@, ba, nbx as int, by * nbx),
            0 <= s <= 65280 * (by * nbx),
        decreases nby - by,
    {
        let mut bx: usize = 0;
        proof {
            assert(0 <= by * nbx <= 12) by (nonlinear_arith)
                requires
                    0 <= by <= 3,
                    0 <= nbx <= 4,
            ;
        }
        while bx < nbx
            invariant
                w == 4 || w == 8 || w == 16,
                h == 4 || h == 8 || h == 16,
                nbx == w / 4,
                nby == h / 4,
                by < nby,
                bx <= nbx,
                0 <= by * nbx <= 12,
                aa.holds(w as int, h as int, a@.len() as int),
                ba.holds(w as int, h as int, b@.len() as int),
                s == satd(a@, aa, b@, ba, nbx as int, by * nbx + bx),
                0 <= s <= 65280 * (by * nbx + bx),
            decreases nbx - bx,
        {
            proof {
                lemma_holds(
                    aa,
                    w as int,
                    h as int,
                    a@.len() as int,
                    4 * bx + 3,
                    4 * by + 3,
                );
                lemma_holds(
                    ba,
                    w as int,
                    h as int,
                    b@.len() as int,
                    4 * bx + 3,
                    4 * by + 3,
                );
                lemma_fundamental_div_mod_converse(
                    by * nbx + bx,
                    nbx as int,
                    by as int,
                    bx as int,
                );
            }
            s = s + satd_block(a, aa, b, ba, bx, by);
            bx = bx + 1;
        }
        by = by + 1;
        proof {
            assert((by - 1) * nbx + nbx == by * nbx) by (nonlinear_arith);
        }
    }
    assert(nby * nbx == nbx * nby) by (nonlinear_arith);
    assert(0 <= nby * nbx <= 16) by (nonlinear_arith)
        requires
            0 <= nby <= 4,
            0 <= nbx <= 4,
    ;
    s
}

/// Where the block at `(x, y)` of a plane starts.
pub open spec fn spot(stride: int, x: int, y: int) -> int {
    y * stride + x
}

/// The view of the block at `(x, y)` of a plane.
pub fn at_spot(stride: usize, x: usize, y: usize) -> (r: At)
    requires
        y * stride + x <= usize::MAX,
    ensures
        r.base == spot(stride as int, x as int, y as int),
        r.stride == stride,
{
    assert(0 <= y * stride) by (nonlinear_arith)
        requires
            y >= 0,
            stride >= 0,
    ;
    At { base: y * stride + x, stride }
}

/// The view of a dense block that is `w` wide.
pub open spec fn dense(w: usize) -> At {
    At { base: 0, stride: w }
}

/// The view of the block at `(x, y)` of a plane.
pub open spec fn placed(stride: usize, x: usize, y: usize) -> At {
    At { base: spot(stride as int, x as int, y as int) as usize, stride }
}

/// A block of `w` by `h` samples at `(x, y)` lies in a plane of `len`.
pub open spec fn block_fits(stride: int, x: int, y: int, w: int, h: int, len: int) -> bool {
    spot(stride, x, y) + (h - 1) * stride + w <= len
}

/// The SATD of a 16x16 macroblock and its prediction.
pub fn satd_16x16(src: &[u8], stride: usize, lx: usize, ly: usize, pred: &[u8; 256]) -> (r: i64)
    requires
        block_fits(stride as int, lx as int, ly as int, 16, 16, src@.len() as int),
    ensures
        r == satd(src@, placed(stride, lx, ly), pred@, dense(16), 4, 16),
{
    proof {
        lemma_spot(stride, lx, ly, 16, 16, src@.len() as int);
    }
    assert(src.len() == src@.len());
    satd_px(src, at_spot(stride, lx, ly), pred, At { base: 0, stride: 16 }, 16, 16)
}

pub proof fn lemma_spot(stride: usize, x: usize, y: usize, w: int, h: int, len: int)
    requires
        block_fits(stride as int, x as int, y as int, w, h, len),
        w >= 1,
        h >= 1,
    ensures
        0 <= spot(stride as int, x as int, y as int) < len,
        len <= usize::MAX ==> placed(stride, x, y).holds(w, h, len),
{
    assert(0 <= y * stride) by (nonlinear_arith)
        requires
            y >= 0,
            stride >= 0,
    ;
    assert(0 <= (h - 1) * stride) by (nonlinear_arith)
        requires
            h - 1 >= 0,
            stride >= 0,
    ;
}

/// The SAD of a 16x16 macroblock and its prediction.
pub fn sad_16x16(src: &[u8], stride: usize, lx: usize, ly: usize, pred: &[u8; 256]) -> (r: i64)
    requires
        block_fits(stride as int, lx as int, ly as int, 16, 16, src@.len() as int),
    ensures
        r == sad(src@, placed(stride, lx, ly), pred@, dense(16), 16, 256),
{
    proof {
        lemma_spot(stride, lx, ly, 16, 16, src@.len() as int);
    }
    assert(src.len() == src@.len());
    sad_strided(src, at_spot(stride, lx, ly), pred, At { base: 0, stride: 16 }, 16, 16)
}

/// The SATD of an 8x8 chroma block and its prediction.
pub fn satd_8x8(src: &[u8], stride: usize, x0: usize, y0: usize, pred: &[u8; 64]) -> (r: i64)
    requires
        block_fits(stride as int, x0 as int, y0 as int, 8, 8, src@.len() as int),
    ensures
        r == satd(src@, placed(stride, x0, y0), pred@, dense(8), 2, 4),
{
    proof {
        lemma_spot(stride, x0, y0, 8, 8, src@.len() as int);
    }
    assert(src.len() == src@.len());
    satd_px(src, at_spot(stride, x0, y0), pred, At { base: 0, stride: 8 }, 8, 8)
}

/// The SATD of a 4x4 block and its prediction.
pub fn satd_4x4(src: &[u8], stride: usize, px: usize, py: usize, pred: &[u8; 16]) -> (r: i64)
    requires
        block_fits(stride as int, px as int, py as int, 4, 4, src@.len() as int),
    ensures
        r == satd(src@, placed(stride, px, py), pred@, dense(4), 1, 1),
{
    proof {
        lemma_spot(stride, px, py, 4, 4, src@.len() as int);
    }
    assert(src.len() == src@.len());
    satd_px(src, at_spot(stride, px, py), pred, At { base: 0, stride: 4 }, 4, 4)
}

/// A 4x4 block of the source less its prediction.
pub fn residual(src: &[u8], stride: usize, x0: usize, y0: usize, pred: &[i32; 16]) -> (r: [i32; 16])
    requires
        block_fits(stride as int, x0 as int, y0 as int, 4, 4, src@.len() as int),
        forall|k: int| 0 <= k < 16 ==> #[trigger] pred@[k] >= -0x7fff_ff00,
    ensures
        forall|k: int|
            0 <= k < 16 ==> #[trigger] r@[k] == src@[placed(stride, x0, y0).index(k % 4, k / 4)]
                - pred@[k],
{
    proof {
        lemma_spot(stride, x0, y0, 4, 4, src@.len() as int);
    }
    assert(src.len() == src@.len());
    let at: At = at_spot(stride, x0, y0);
    let mut r: [i32; 16] = [0; 16];
    let mut k: usize = 0;
    while k < 16
        invariant
            k <= 16,
            at == placed(stride, x0, y0),
            at.holds(4, 4, src@.len() as int),
            forall|k: int| 0 <= k < 16 ==> #[trigger] pred@[k] >= -0x7fff_ff00,
            forall|j: int|
                0 <= j < k ==> #[trigger] r@[j] == src@[at.index(j % 4, j / 4)] - pred@[j],
        decreases 16 - k,
    {
        proof {
            lemma_holds(at, 4, 4, src@.len() as int, k as int % 4, k as int / 4);
        }
        r[k] = sample(src, at, k % 4, k / 4) as i32 - pred[k];
        k = k + 1;
    }
    r
}

/// Write a 4x4 block of samples into a plane of `h` rows.
pub fn store(plane: &mut Vec<u8>, stride: usize, h: usize, x0: usize, y0: usize, s: &[u8; 16])
    requires
        rect::fits(stride as int, h as int, x0 as int, y0 as int, 4, 4),
        old(plane)@.len() == stride * h,
    ensures
        final(plane)@ == rect::put_block(
            old(plane)@,
            stride as int,
            x0 as int,
            y0 as int,
            4,
            4,
            s@,
        ),
{
    put_rect(plane, stride, h, x0, y0, 4, 4, s);
}

/// The 4x4 block in column `bx` and row `by` of a 16x16 prediction.
pub fn pred_block(pred: &[u8; 256], bx: usize, by: usize) -> (r: [i32; 16])
    requires
        bx < 4,
        by < 4,
    ensures
        forall|k: int|
            0 <= k < 16 ==> #[trigger] r@[k] == pred@[(4 * by + k / 4) * 16 + 4 * bx + k % 4],
{
    let mut r: [i32; 16] = [0; 16];
    let mut k: usize = 0;
    while k < 16
        invariant
            k <= 16,
            bx < 4,
            by < 4,
            forall|j: int|
                0 <= j < k ==> #[trigger] r@[j] == pred@[(4 * by + j / 4) * 16 + 4 * bx + j % 4],
        decreases 16 - k,
    {
        r[k] = pred[(4 * by + k / 4) * 16 + 4 * bx + k % 4] as i32;
        k = k + 1;
    }
    r
}

/// Whether an Intra_4x4 mode can be used with the neighbours that there are: those that read
/// the row above need it, those that read the left column need that, and DC needs none.
pub open spec fn i4_usable(mode: int, top: bool, left: bool) -> bool {
    let up = mode == 0 || mode == 3 || mode == 7;
    let side = mode == 1 || mode == 8;
    if mode == 2 {
        true
    } else {
        (side || top) && (up || left)
    }
}

/// Whether an Intra_4x4 mode can be used.
pub fn i4_mode_available(mode: u8, top: bool, left: bool) -> (r: bool)
    ensures
        r == i4_usable(mode as int, top, left),
{
    if mode == 0 || mode == 3 || mode == 7 {
        top
    } else if mode == 1 || mode == 8 {
        left
    } else if mode == 2 {
        true
    } else {
        top && left
    }
}

/// The weighted blend of two samples, rounded and clipped.
pub open spec fn blend(p: int, q: int, w0: int, w1: int) -> int {
    arith::clamp((p * w0 + q * w1 + 32) / 64, 0, 255)
}

/// The weighted blend of a list-0 sample and a list-1 sample.
pub fn bi_blend(p: u8, q: u8, w: (i32, i32)) -> (r: u8)
    requires
        -128 <= w.0 <= 128,
        -128 <= w.1 <= 128,
    ensures
        r == blend(p as int, q as int, w.0 as int, w.1 as int),
{
    let (pi, qi): (i32, i32) = (p as i32, q as i32);
    let (w0, w1): (i32, i32) = w;
    assert(-32640 <= pi * w0 <= 32640) by (nonlinear_arith)
        requires
            0 <= pi <= 255,
            -128 <= w0 <= 128,
    ;
    assert(-32640 <= qi * w1 <= 32640) by (nonlinear_arith)
        requires
            0 <= qi <= 255,
            -128 <= w1 <= 128,
    ;
    let s: i32 = pi * w0 + qi * w1 + 32;
    if s < 0 {
        0
    } else {
        let t: i32 = s / 64;
        if t > 255 {
            255
        } else {
            t as u8
        }
    }
}

/// Equal weights give the rounded mean.
pub proof fn law_even_blend_is_the_mean(p: u8, q: u8)
    ensures
        blend(p as int, q as int, 32, 32) == mean(p as int, q as int),
{
}

/// The quotient rounded towards zero.
pub open spec fn quot(a: int, b: int) -> int {
    if b == 0 {
        0
    } else if (a < 0) == (b < 0) {
        arith::abs(a) / arith::abs(b)
    } else {
        -(arith::abs(a) / arith::abs(b))
    }
}

/// The weight of list 1 before the check of its range, from the clipped distances.
pub open spec fn list1_weight(tb: int, td: int) -> int {
    let tx = quot(16384 + arith::abs(td) / 2, td);
    arith::clamp((tb * tx + 32) / 64, -1024, 1023) / 4
}

/// The weights of bi-prediction: by the distances in output order of the picture to its two
/// references, equal ones where those coincide or a weight would be out of range.
pub open spec fn bi_weights(cur: int, l0: int, l1: int) -> (int, int) {
    let td = arith::clamp(l1 - l0, -128, 127);
    let tb = arith::clamp(cur - l0, -128, 127);
    let w1 = list1_weight(tb, td);
    if td == 0 || !(-64 <= w1 <= 128) {
        (32, 32)
    } else {
        (64 - w1, w1)
    }
}

fn clip_distance(a: i32, b: i32) -> (r: i32)
    requires
        i32::MIN <= a - b <= i32::MAX,
    ensures
        r == arith::clamp(a - b, -128, 127),
{
    let d: i32 = a - b;
    if d < -128 {
        -128
    } else if d > 127 {
        127
    } else {
        d
    }
}

/// The implicit weights of bi-prediction.
pub fn implicit_bi_weights(cur_poc: i32, l0_poc: i32, l1_poc: i32) -> (r: (i32, i32))
    requires
        i32::MIN <= l1_poc - l0_poc <= i32::MAX,
        i32::MIN <= cur_poc - l0_poc <= i32::MAX,
    ensures
        (r.0 as int, r.1 as int) == bi_weights(cur_poc as int, l0_poc as int, l1_poc as int),
        -64 <= r.0 <= 128,
        -64 <= r.1 <= 128,
{
    let td: i32 = clip_distance(l1_poc, l0_poc);
    let tb: i32 = clip_distance(cur_poc, l0_poc);
    if td == 0 {
        return (32, 32);
    }
    let m: i32 = abs_i32(td) as i32;
    let n: i32 = (16384 + m / 2) / m;
    let tx: i32 = if td < 0 {
        -n
    } else {
        n
    };
    proof {
        let (ni, mi) = (n as int, m as int);
        assert(0 <= ni <= 16448) by (nonlinear_arith)
            requires
                ni == (16384 + mi / 2) / mi,
                1 <= mi <= 128,
        ;
        assert(tx == quot(16384 + arith::abs(td as int) / 2, td as int));
        assert(-2105344 <= tb * tx <= 2105344) by (nonlinear_arith)
            requires
                -128 <= tb <= 128,
                -16448 <= tx <= 16448,
        ;
    }
    let s: i32 = tb * tx + 32;
    let f: i32 = floor_div(s, 64);
    let d: i32 = if f < -1024 {
        -1024
    } else if f > 1023 {
        1023
    } else {
        f
    };
    let w1: i32 = floor_div(d, 4);
    assert(w1 == list1_weight(tb as int, td as int));
    if w1 < -64 || w1 > 128 {
        return (32, 32);
    }
    (64 - w1, w1)
}

/// The quotient rounded down.
fn floor_div(a: i32, b: i32) -> (r: i32)
    requires
        1 <= b <= 64,
        -0x1000_0000 <= a <= 0x1000_0000,
    ensures
        r == (a as int) / (b as int),
{
    if a >= 0 {
        a / b
    } else {
        let q: i32 = (b - 1 - a) / b;
        proof {
            let (x, y, n) = (a as int, b as int, (b - 1 - a) as int);
            lemma_fundamental_div_mod(n, y);
            assert(x == y * (-(n / y)) + (y - 1 - n % y)) by (nonlinear_arith)
                requires
                    n == y * (n / y) + n % y,
                    n == y - 1 - x,
            ;
            lemma_mod_bound(n, y);
            lemma_fundamental_div_mod_converse(x, y, -(n / y), y - 1 - n % y);
            assert(q == n / y);
            assert(0 <= q <= n) by (nonlinear_arith)
                requires
                    q == n / y,
                    y >= 1,
                    n >= 0,
            ;
        }
        -q
    }
}

/// The two weights add up to 64, whatever the distances are.
pub proof fn law_weights_add_up(cur: int, l0: int, l1: int)
    ensures
        bi_weights(cur, l0, l1).0 + bi_weights(cur, l0, l1).1 == 64,
{
}

/// The plane extended from `w` by `h` samples: beyond an edge it repeats the last column
/// and the last row.
pub open spec fn extended(p: Seq<u8>, w: int, h: int, ow: int, oh: int) -> Seq<u8> {
    Seq::new(
        (ow * oh) as nat,
        |i: int| p[arith::min(i / ow, h - 1) * w + arith::min(i % ow, w - 1)],
    )
}

/// Extend a plane to the coded size. What lies behind its last row is not read.
#[verifier::rlimit(50)]
pub fn clamp_plane(plane: &[u8], w: usize, h: usize, ow: usize, oh: usize) -> (r: Vec<u8>)
    requires
        1 <= w,
        1 <= h,
        plane@.len() >= w * h,
        ow * oh <= usize::MAX,
    ensures
        r@ == extended(plane@, w as int, h as int, ow as int, oh as int),
{
    let mut out: Vec<u8> = Vec::new();
    let mut y: usize = 0;
    assert(0 * ow == 0);
    assert(plane.len() == plane@.len());
    while y < oh
        invariant
            y <= oh,
            1 <= w,
            1 <= h,
            plane@.len() >= w * h,
            w * h <= usize::MAX,
            out@.len() == y * ow,
            forall|i: int|
                0 <= i < y * ow ==> #[trigger] out@[i] == plane@[arith::min(i / (ow as int), h - 1)
                    * w + arith::min(i % (ow as int), w - 1)],
        decreases oh - y,
    {
        let sy: usize = if y < h {
            y
        } else {
            h - 1
        };
        let mut x: usize = 0;
        while x < ow
            invariant
                y < oh,
                x <= ow,
                1 <= w,
                1 <= h,
                sy == arith::min(y as int, h - 1),
                plane@.len() >= w * h,
                w * h <= usize::MAX,
                out@.len() == y * ow + x,
                forall|i: int|
                    0 <= i < y * ow + x ==> #[trigger] out@[i] == plane@[arith::min(
                        i / (ow as int),
                        h - 1,
                    ) * w + arith::min(i % (ow as int), w - 1)],
            decreases ow - x,
        {
            let sx: usize = if x < w {
                x
            } else {
                w - 1
            };
            proof {
                assert(0 <= sy * w && sy * w + w <= w * h) by (nonlinear_arith)
                    requires
                        0 <= sy <= h - 1,
                        w >= 1,
                ;
                lemma_fundamental_div_mod_converse(y * ow + x, ow as int, y as int, x as int);
                assert((y * ow + x) / (ow as int) == y);
                assert((y * ow + x) % (ow as int) == x);
            }
            out.push(plane[sy * w + sx]);
            x = x + 1;
        }
        y = y + 1;
        proof {
            assert((y - 1) * ow + ow == y * ow) by (nonlinear_arith);
        }
    }
    proof {
        assert(oh * ow == ow * oh) by (nonlinear_arith);
    }
    out
}

/// A plane that already has the coded size stays as it is.
pub proof fn law_extension_keeps_a_full_plane(p: Seq<u8>, w: int, h: int)
    requires
        1 <= w,
        1 <= h,
        p.len() == w * h,
    ensures
        extended(p, w, h, w, h) == p,
{
    assert forall|i: int| 0 <= i < w * h implies #[trigger] extended(p, w, h, w, h)[i] == p[i] by {
        lemma_fundamental_div_mod(i, w);
        lemma_mod_bound(i, w);
        lemma_div_pos_is_pos(i, w);
        lemma_multiply_divide_lt(i, w, h);
        assert((i / w) * w == w * (i / w)) by (nonlinear_arith);
    }
    assert(extended(p, w, h, w, h) =~= p);
}

/// The sum of the first `k` samples, in raster order, of a block that is `w` wide.
pub open spec fn sum_of(a: Seq<u8>, at: At, w: int, k: int) -> int
    decreases k,
{
    if k <= 0 {
        0
    } else {
        sum_of(a, at, w, k - 1) + a[at.index((k - 1) % w, (k - 1) / w)]
    }
}

/// The sum of the squares of the first `k` samples.
pub open spec fn squares_of(a: Seq<u8>, at: At, w: int, k: int) -> int
    decreases k,
{
    if k <= 0 {
        0
    } else {
        let v = a[at.index((k - 1) % w, (k - 1) / w)];
        squares_of(a, at, w, k - 1) + v * v
    }
}

/// The variance of a block of `w` by `h` samples, rounded down in both of its quotients.
pub open spec fn variance(a: Seq<u8>, at: At, w: int, h: int) -> int {
    let n = w * h;
    let (s, q) = (sum_of(a, at, w, n), squares_of(a, at, w, n));
    (q - (s * s) / n) / n
}

/// The square of a sum of `n` terms is at most `n` times the sum of their squares; here is
/// the step to one term more.
pub proof fn lemma_square_of_sum(n: int, s: int, q: int, v: int)
    requires
        n >= 0,
        s * s <= n * q,
        n == 0 ==> s == 0 && q == 0,
    ensures
        (s + v) * (s + v) <= (n + 1) * (q + v * v),
{
    if n == 0 {
    } else {
        assert(n * (q + n * (v * v) - 2 * (s * v)) >= 0) by (nonlinear_arith)
            requires
                s * s <= n * q,
        ;
        assert(q + n * (v * v) - 2 * (s * v) >= 0) by (nonlinear_arith)
            requires
                n * (q + n * (v * v) - 2 * (s * v)) >= 0,
                n >= 1,
        ;
        assert((s + v) * (s + v) <= (n + 1) * (q + v * v)) by (nonlinear_arith)
            requires
                s * s <= n * q,
                q + n * (v * v) - 2 * (s * v) >= 0,
        ;
    }
}

/// The sum of a block and the sum of its squares.
#[verifier::rlimit(50)]
pub fn moments(a: &[u8], at: At, w: usize, h: usize) -> (r: (u64, u64))
    requires
        1 <= w <= 16,
        1 <= h <= 16,
        at.holds(w as int, h as int, a@.len() as int),
    ensures
        r.0 == sum_of(a@, at, w as int, w * h),
        r.1 == squares_of(a@, at, w as int, w * h),
        r.0 <= 255 * 256,
        r.1 <= 65025 * 256,
        r.0 * r.0 <= (w * h) * r.1,
{
    let mut s: u64 = 0;
    let mut q: u64 = 0;
    let mut dy: usize = 0;
    assert(0 * w == 0);
    while dy < h
        invariant
            1 <= w <= 16,
            1 <= h <= 16,
            dy <= h,
            at.holds(w as int, h as int, a@.len() as int),
            s == sum_of(a@, at, w as int, dy * w),
            q == squares_of(a@, at, w as int, dy * w),
            0 <= dy * w <= 256,
            s <= 255 * (dy * w),
            q <= 65025 * (dy * w),
            s * s <= (dy * w) * q,
        decreases h - dy,
    {
        let mut dx: usize = 0;
        proof {
            assert(0 <= dy * w && dy * w + w <= 256) by (nonlinear_arith)
                requires
                    0 <= dy < h,
                    h <= 16,
                    0 <= w <= 16,
            ;
        }
        while dx < w
            invariant
                1 <= w <= 16,
                1 <= h <= 16,
                dy < h,
                dx <= w,
                0 <= dy * w,
                dy * w + w <= 256,
                at.holds(w as int, h as int, a@.len() as int),
                s == sum_of(a@, at, w as int, dy * w + dx),
                q == squares_of(a@, at, w as int, dy * w + dx),
                s <= 255 * (dy * w + dx),
                q <= 65025 * (dy * w + dx),
                s * s <= (dy * w + dx) * q,
            decreases w - dx,
        {
            proof {
                lemma_holds(at, w as int, h as int, a@.len() as int, dx as int, dy as int);
                lemma_fundamental_div_mod_converse(dy * w + dx, w as int, dy as int, dx as int);
            }
            let v: u64 = sample(a, at, dx, dy) as u64;
            proof {
                lemma_square_of_sum(dy * w + dx, s as int, q as int, v as int);
                assert(0 <= v * v <= 65025) by (nonlinear_arith)
                    requires
                        0 <= v <= 255,
                ;
            }
            s = s + v;
            q = q + v * v;
            dx = dx + 1;
        }
        dy = dy + 1;
        proof {
            assert((dy - 1) * w + w == dy * w) by (nonlinear_arith);
        }
    }
    assert(h * w == w * h) by (nonlinear_arith);
    (s, q)
}

/// The variance of a block.
pub fn block_variance(a: &[u8], at: At, w: usize, h: usize) -> (r: u64)
    requires
        1 <= w <= 16,
        1 <= h <= 16,
        at.holds(w as int, h as int, a@.len() as int),
    ensures
        r == variance(a@, at, w as int, h as int),
{
    let (s, q): (u64, u64) = moments(a, at, w, h);
    assert(1 <= w * h <= 256) by (nonlinear_arith)
        requires
            1 <= w <= 16,
            1 <= h <= 16,
    ;
    assert(0 <= s * s <= 65280 * 65280) by (nonlinear_arith)
        requires
            0 <= s <= 65280,
    ;
    let n: u64 = (w * h) as u64;
    proof {
        let (si, qi, ni) = (s as int, q as int, n as int);
        assert((si * si) / ni <= qi) by (nonlinear_arith)
            requires
                si * si <= ni * qi,
                ni >= 1,
                qi >= 0,
        ;
    }
    (q - s * s / n) / n
}

/// A sum of absolute differences is at most 255 for each sample.
pub proof fn lemma_sad_bounds(a: Seq<u8>, aa: At, b: Seq<u8>, ba: At, w: int, k: int)
    requires
        0 <= k,
    ensures
        0 <= sad(a, aa, b, ba, w, k) <= 255 * k,
    decreases k,
{
    if k > 0 {
        lemma_sad_bounds(a, aa, b, ba, w, k - 1);
    }
}

/// A sum of absolute transformed differences is bounded for each block.
pub proof fn lemma_satd_bounds(a: Seq<u8>, aa: At, b: Seq<u8>, ba: At, nbx: int, k: int)
    requires
        0 <= k,
    ensures
        0 <= satd(a, aa, b, ba, nbx, k) <= 65280 * k,
    decreases k,
{
    if k > 0 {
        lemma_satd_bounds(a, aa, b, ba, nbx, k - 1);
        let d = diff4(a, aa, b, ba, (k - 1) % nbx, (k - 1) / nbx);
        lemma_column_bounds(d, 0);
        lemma_column_bounds(d, 1);
        lemma_column_bounds(d, 2);
        lemma_column_bounds(d, 3);
    }
}

proof fn lemma_column_bounds(d: spec_fn(int, int) -> int, v: int)
    requires
        forall|x: int, y: int| -255 <= #[trigger] d(x, y) <= 255,
    ensures
        0 <= had_column(d, v) <= 16320,
{
    reveal(had_column);
    assert(-1020 <= had_row(d, v, 0) <= 1020);
    assert(-1020 <= had_row(d, v, 1) <= 1020);
    assert(-1020 <= had_row(d, v, 2) <= 1020);
    assert(-1020 <= had_row(d, v, 3) <= 1020);
}

/// The sum of the squared differences of the first `k` samples of two blocks `w` wide.
pub open spec fn ssd(a: Seq<u8>, aa: At, b: Seq<u8>, ba: At, w: int, k: int) -> int
    decreases k,
{
    if k <= 0 {
        0
    } else {
        let d = diff(a, aa, b, ba, (k - 1) % w, (k - 1) / w);
        ssd(a, aa, b, ba, w, k - 1) + d * d
    }
}

/// The sum of squared differences of two blocks.
#[verifier::rlimit(50)]
pub fn ssd_px(a: &[u8], aa: At, b: &[u8], ba: At, w: usize, h: usize) -> (r: i64)
    requires
        1 <= w <= 16,
        1 <= h <= 16,
        aa.holds(w as int, h as int, a@.len() as int),
        ba.holds(w as int, h as int, b@.len() as int),
    ensures
        r == ssd(a@, aa, b@, ba, w as int, w * h),
        0 <= r <= 65025 * 256,
{
    let mut s: i64 = 0;
    let mut dy: usize = 0;
    assert(0 * w == 0);
    while dy < h
        invariant
            1 <= w <= 16,
            1 <= h <= 16,
            dy <= h,
            aa.holds(w as int, h as int, a@.len() as int),
            ba.holds(w as int, h as int, b@.len() as int),
            s == ssd(a@, aa, b@, ba, w as int, dy * w),
            0 <= s <= 65025 * (dy * w),
            0 <= dy * w <= 256,
        decreases h - dy,
    {
        let mut dx: usize = 0;
        proof {
            assert(0 <= dy * w && dy * w + w <= 256) by (nonlinear_arith)
                requires
                    0 <= dy < h,
                    h <= 16,
                    0 <= w <= 16,
            ;
        }
        while dx < w
            invariant
                1 <= w <= 16,
                1 <= h <= 16,
                dy < h,
                dx <= w,
                0 <= dy * w,
                dy * w + w <= 256,
                aa.holds(w as int, h as int, a@.len() as int),
                ba.holds(w as int, h as int, b@.len() as int),
                s == ssd(a@, aa, b@, ba, w as int, dy * w + dx),
                0 <= s <= 65025 * (dy * w + dx),
            decreases w - dx,
        {
            proof {
                lemma_holds(aa, w as int, h as int, a@.len() as int, dx as int, dy as int);
                lemma_holds(ba, w as int, h as int, b@.len() as int, dx as int, dy as int);
                lemma_fundamental_div_mod_converse(dy * w + dx, w as int, dy as int, dx as int);
            }
            let d: i64 = sample(a, aa, dx, dy) as i64 - sample(b, ba, dx, dy) as i64;
            proof {
                assert(0 <= d * d <= 65025) by (nonlinear_arith)
                    requires
                        -255 <= d <= 255,
                ;
            }
            s = s + d * d;
            dx = dx + 1;
        }
        dy = dy + 1;
        proof {
            assert((dy - 1) * w + w == dy * w) by (nonlinear_arith);
        }
    }
    assert(h * w == w * h) by (nonlinear_arith);
    s
}

} // verus!
