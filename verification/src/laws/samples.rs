//! What distortions, blends and extensions of samples are.
use vstd::prelude::*;
use crate::arith;
use crate::distortion;
use crate::kernels::{Kernels, McJob};
use crate::pixels;
use crate::pixels::At;

verus! {

/// Two blocks differ by `d` at each of the first `k` samples.
pub open spec fn apart_by(a: Seq<u8>, aa: At, b: Seq<u8>, ba: At, w: int, k: int, d: int) -> bool {
    forall|i: int|
        0 <= i < k ==> #[trigger] a[aa.base + (i / w) * aa.stride + i % w] - b[ba.base + (i / w)
            * ba.stride + i % w] == d
}

/// The sums of differences are never negative, do not ask which block comes first, and where the blocks
/// differ by the same everywhere they are that difference, or its square, times the number of samples.
pub proof fn law_sums_of_differences(
    a: Seq<u8>,
    aa: At,
    b: Seq<u8>,
    ba: At,
    w: int,
    k: nat,
    d: int,
)
    ensures
        pixels::sad(a, aa, b, ba, w, k as int) >= 0,
        pixels::ssd(a, aa, b, ba, w, k as int) >= 0,
        pixels::sad(a, aa, b, ba, w, k as int) == pixels::sad(b, ba, a, aa, w, k as int),
        pixels::ssd(a, aa, b, ba, w, k as int) == pixels::ssd(b, ba, a, aa, w, k as int),
        apart_by(a, aa, b, ba, w, k as int, d) ==> pixels::sad(a, aa, b, ba, w, k as int) == k
            * arith::abs(d),
        apart_by(a, aa, b, ba, w, k as int, d) ==> pixels::ssd(a, aa, b, ba, w, k as int) == k * (d
            * d),
    decreases k,
{
    if k > 0 {
        law_sums_of_differences(a, aa, b, ba, w, (k - 1) as nat, d);
        let i = k - 1;
        let e = pixels::diff(a, aa, b, ba, i % w, i / w);
        let f = pixels::diff(b, ba, a, aa, i % w, i / w);
        assert(e == -f);
        assert(e * e == f * f && e * e >= 0) by (nonlinear_arith)
            requires
                e == -f,
        ;
        if apart_by(a, aa, b, ba, w, k as int, d) {
            assert(a[aa.base + (i / w) * aa.stride + i % w] - b[ba.base + (i / w) * ba.stride + i
                % w] == d);
            assert(e == d);
            assert((k - 1) * arith::abs(d) + arith::abs(d) == k * arith::abs(d))
                by (nonlinear_arith);
            assert((k - 1) * (d * d) + d * d == k * (d * d)) by (nonlinear_arith);
        }
    } else {
        assert(0 * arith::abs(d) == 0 && 0 * (d * d) == 0) by (nonlinear_arith);
    }
}

/// The sums of differences are 0 only for blocks that are equal, and one more difference never makes
/// them smaller.
pub proof fn law_no_distortion_means_equal(
    a: Seq<u8>,
    aa: At,
    b: Seq<u8>,
    ba: At,
    w: int,
    k: nat,
    i: int,
)
    requires
        0 <= i < k,
    ensures
        ({
            let e = a[aa.base + (i / w) * aa.stride + i % w] - b[ba.base + (i / w) * ba.stride + i
                % w];
            &&& pixels::sad(a, aa, b, ba, w, k as int) >= arith::abs(e)
            &&& pixels::ssd(a, aa, b, ba, w, k as int) >= e * e
            &&& pixels::sad(a, aa, b, ba, w, k as int) == 0 ==> e == 0
            &&& pixels::ssd(a, aa, b, ba, w, k as int) == 0 ==> e == 0
        }),
    decreases k,
{
    let m = k - 1;
    let g = pixels::diff(a, aa, b, ba, m % w, m / w);
    assert(g * g >= 0) by (nonlinear_arith);
    law_sums_of_differences(a, aa, b, ba, w, m as nat, 0);
    let e = a[aa.base + (i / w) * aa.stride + i % w] - b[ba.base + (i / w) * ba.stride + i % w];
    assert(e * e >= 0 && (e * e == 0 ==> e == 0)) by (nonlinear_arith);
    if i < m {
        law_no_distortion_means_equal(a, aa, b, ba, w, m as nat, i);
    }
}

proof fn lemma_four_points(a: int, b: int, c: int, d: int)
    ensures
        forall|u: int| #[trigger] pixels::had(u, -a, -b, -c, -d) == -pixels::had(u, a, b, c, d),
        pixels::had(0, a, b, c, d) == 0 && pixels::had(1, a, b, c, d) == 0 && pixels::had(
            2,
            a,
            b,
            c,
            d,
        ) == 0 && pixels::had(3, a, b, c, d) == 0 ==> a == 0 && b == 0 && c == 0 && d == 0,
{
}

/// The columns of the transforms of opposite differences weigh the same, and where a column weighs
/// nothing, so do the rows that it is made of.
proof fn lemma_column(d: spec_fn(int, int) -> int, e: spec_fn(int, int) -> int, v: int)
    requires
        forall|x: int, y: int| 0 <= x < 4 && 0 <= y < 4 ==> #[trigger] e(x, y) == -d(x, y),
    ensures
        pixels::had_column(d, v) >= 0,
        pixels::had_column(e, v) == pixels::had_column(d, v),
        pixels::had_column(d, v) == 0 ==> pixels::had_row(d, v, 0) == 0 && pixels::had_row(d, v, 1)
            == 0 && pixels::had_row(d, v, 2) == 0 && pixels::had_row(d, v, 3) == 0,
{
    assert forall|y: int| 0 <= y < 4 implies #[trigger] pixels::had_row(e, v, y)
        == -pixels::had_row(d, v, y) by {
        assert(e(0, y) == -d(0, y) && e(1, y) == -d(1, y) && e(2, y) == -d(2, y) && e(3, y) == -d(
            3,
            y,
        ));
        lemma_four_points(d(0, y), d(1, y), d(2, y), d(3, y));
    }
    let (p, q) = (pixels::had_row(d, v, 0), pixels::had_row(d, v, 1));
    let (r, s) = (pixels::had_row(d, v, 2), pixels::had_row(d, v, 3));
    assert(pixels::had_row(e, v, 0) == -p && pixels::had_row(e, v, 1) == -q && pixels::had_row(
        e,
        v,
        2,
    ) == -r && pixels::had_row(e, v, 3) == -s);
    lemma_four_points(p, q, r, s);
    reveal(pixels::had_column);
    assert(pixels::had_coef(d, v, 0) == pixels::had(0, p, q, r, s));
    assert(pixels::had_coef(d, v, 1) == pixels::had(1, p, q, r, s));
    assert(pixels::had_coef(d, v, 2) == pixels::had(2, p, q, r, s));
    assert(pixels::had_coef(d, v, 3) == pixels::had(3, p, q, r, s));
    assert(pixels::had_coef(e, v, 0) == pixels::had(0, -p, -q, -r, -s));
    assert(pixels::had_coef(e, v, 1) == pixels::had(1, -p, -q, -r, -s));
    assert(pixels::had_coef(e, v, 2) == pixels::had(2, -p, -q, -r, -s));
    assert(pixels::had_coef(e, v, 3) == pixels::had(3, -p, -q, -r, -s));
}

proof fn lemma_flat_column(d: spec_fn(int, int) -> int, v: int, c: int)
    requires
        0 <= v < 4,
        forall|x: int, y: int| 0 <= x < 4 && 0 <= y < 4 ==> #[trigger] d(x, y) == c,
    ensures
        pixels::had_column(d, v) == (if v == 0 {
            16 * arith::abs(c)
        } else {
            0
        }),
{
    let p = if v == 0 {
        4 * c
    } else {
        0
    };
    assert forall|y: int| 0 <= y < 4 implies #[trigger] pixels::had_row(d, v, y) == p by {
        assert(d(0, y) == c && d(1, y) == c && d(2, y) == c && d(3, y) == c);
    }
    assert(pixels::had_row(d, v, 0) == p && pixels::had_row(d, v, 1) == p && pixels::had_row(
        d,
        v,
        2,
    ) == p && pixels::had_row(d, v, 3) == p);
    reveal(pixels::had_column);
    assert(pixels::had_coef(d, v, 0) == 4 * p);
    assert(pixels::had_coef(d, v, 1) == 0);
    assert(pixels::had_coef(d, v, 2) == 0);
    assert(pixels::had_coef(d, v, 3) == 0);
}

/// The transform of a flat difference has one coefficient, sixteen times the difference; the transform
/// of the opposite difference has the opposite coefficients; and no other block than the empty one has
/// no coefficient.
pub proof fn law_hadamard(d: spec_fn(int, int) -> int, e: spec_fn(int, int) -> int, c: int)
    requires
        forall|x: int, y: int| 0 <= x < 4 && 0 <= y < 4 ==> #[trigger] e(x, y) == -d(x, y),
    ensures
        pixels::had_sum(d) >= 0,
        pixels::had_sum(e) == pixels::had_sum(d),
        (forall|x: int, y: int| 0 <= x < 4 && 0 <= y < 4 ==> #[trigger] d(x, y) == c)
            ==> pixels::had_sum(d) == 16 * arith::abs(c),
        pixels::had_sum(d) == 0 ==> forall|x: int, y: int|
            0 <= x < 4 && 0 <= y < 4 ==> #[trigger] d(x, y) == 0,
{
    lemma_column(d, e, 0);
    lemma_column(d, e, 1);
    lemma_column(d, e, 2);
    lemma_column(d, e, 3);
    if forall|x: int, y: int| 0 <= x < 4 && 0 <= y < 4 ==> #[trigger] d(x, y) == c {
        lemma_flat_column(d, 0, c);
        lemma_flat_column(d, 1, c);
        lemma_flat_column(d, 2, c);
        lemma_flat_column(d, 3, c);
    }
    if pixels::had_sum(d) == 0 {
        assert forall|x: int, y: int| 0 <= x < 4 && 0 <= y < 4 implies #[trigger] d(x, y) == 0 by {
            lemma_four_points(d(0, y), d(1, y), d(2, y), d(3, y));
        }
    }
}

/// A block has no transformed difference from an equal one.
pub proof fn law_equal_blocks_have_no_satd(
    a: Seq<u8>,
    aa: At,
    b: Seq<u8>,
    ba: At,
    nbx: int,
    k: nat,
)
    requires
        nbx > 0,
        forall|x: int, y: int|
            0 <= x < 4 * nbx && 0 <= y ==> #[trigger] pixels::diff(a, aa, b, ba, x, y) == 0,
    ensures
        pixels::satd(a, aa, b, ba, nbx, k as int) == 0,
    decreases k,
{
    if k > 0 {
        law_equal_blocks_have_no_satd(a, aa, b, ba, nbx, (k - 1) as nat);
        let (bx, by) = ((k - 1) % nbx, (k - 1) / nbx);
        assert(0 <= by) by (nonlinear_arith)
            requires
                by == (k - 1) / nbx,
                k > 0,
                nbx > 0,
        ;
        assert(0 <= bx < nbx);
        let d = pixels::diff4(a, aa, b, ba, bx, by);
        let e = |x: int, y: int| -d(x, y);
        law_hadamard(d, e, 0);
    }
}

/// A vector to whole samples inside the picture is judged by the block that it points at: the SAD and
/// the SATD are those of the two blocks. So where these are equal it has no distortion, whatever the
/// kernels do.
pub proof fn law_whole_vectors_read_the_picture<K: Kernels>(
    by_sad: bool,
    k: K,
    refy: Seq<u8>,
    sy: Seq<u8>,
    cw: usize,
    ch: usize,
    lx: usize,
    ly: usize,
    rw: usize,
    rh: usize,
    job: McJob,
    mx: int,
    my: int,
)
    requires
        rw == 4 || rw == 8 || rw == 16,
        rh == 4 || rh == 8 || rh == 16,
        job.mv.0 == 4 * mx,
        job.mv.1 == 4 * my,
        0 <= lx + mx,
        0 <= ly + my,
        lx + mx + rw <= cw,
        ly + my + rh <= ch,
        cw * ch <= usize::MAX,
        ly * cw + lx <= usize::MAX,
        forall|x: int, y: int|
            0 <= x < rw && 0 <= y ==> #[trigger] sy[(ly * cw + lx) + y * cw + x] == refy[((ly + my)
                * cw + (lx + mx)) + y * cw + x],
    ensures
        distortion::mv_dist(by_sad, k, refy, sy, cw, ch, lx, ly, rw, rh, job) == 0,
{
    let (x0, y0) = ((lx + mx) as usize, (ly + my) as usize);
    let (sa, ra) = (pixels::placed(cw, lx, ly), pixels::placed(cw, x0, y0));
    assert(y0 * cw + x0 <= cw * ch) by (nonlinear_arith)
        requires
            0 <= y0,
            y0 < ch,
            0 <= x0 <= cw,
    ;
    assert(0 <= y0 * cw) by (nonlinear_arith)
        requires
            0 <= y0,
            0 <= cw,
    ;
    assert(0 <= ly * cw) by (nonlinear_arith)
        requires
            0 <= ly,
            0 <= cw,
    ;
    assert(ra.base == (ly + my) * cw + (lx + mx));
    assert(sa.base == ly * cw + lx);
    assert forall|x: int, y: int| 0 <= x < rw && 0 <= y implies #[trigger] pixels::diff(
        sy,
        sa,
        refy,
        ra,
        x,
        y,
    ) == 0 by {
        assert(sy[(ly * cw + lx) + y * cw + x] == refy[((ly + my) * cw + (lx + mx)) + y * cw + x]);
    }
    if by_sad {
        let n = (rw * rh) as nat;
        assert(apart_by(sy, sa, refy, ra, rw as int, n as int, 0)) by {
            assert forall|i: int| 0 <= i < n implies #[trigger] sy[sa.base + (i / (rw as int))
                * sa.stride + i % (rw as int)] - refy[ra.base + (i / (rw as int)) * ra.stride + i % (
            rw as int)] == 0 by {
                assert(pixels::diff(sy, sa, refy, ra, i % (rw as int), i / (rw as int)) == 0);
            }
        }
        assert(0 <= rw * rh) by (nonlinear_arith)
            requires
                rw >= 0,
                rh >= 0,
        ;
        law_sums_of_differences(sy, sa, refy, ra, rw as int, n, 0);
    } else {
        assert(4 * (rw as int / 4) == rw);
        law_equal_blocks_have_no_satd(
            sy,
            sa,
            refy,
            ra,
            rw as int / 4,
            ((rw / 4) * (rh / 4)) as nat,
        );
    }
}

/// The mean of two samples lies between them and is half their sum, rounded up.
pub proof fn law_mean(p: int, q: int)
    ensures
        2 * pixels::mean(p, q) == p + q || 2 * pixels::mean(p, q) == p + q + 1,
        p <= q ==> p <= pixels::mean(p, q) <= q,
        pixels::mean(p, q) == pixels::mean(q, p),
{
}

/// A blend is a sample; with all the weight on one side it is that side's sample; equal samples stay as
/// they are where the weights add up to 64; and 64 times a blend that is not clipped is the weighted sum,
/// rounded.
pub proof fn law_blend(p: u8, q: u8, w0: int, w1: int)
    ensures
        0 <= pixels::blend(p as int, q as int, w0, w1) <= 255,
        pixels::blend(p as int, q as int, 64, 0) == p,
        pixels::blend(p as int, q as int, 0, 64) == q,
        w0 + w1 == 64 ==> pixels::blend(p as int, p as int, w0, w1) == p,
        0 <= p * w0 + q * w1 <= 255 * 64 ==> -32 <= 64 * pixels::blend(p as int, q as int, w0, w1)
            - (p * w0 + q * w1) <= 32,
        pixels::blend(p as int, q as int, w0, w1) == pixels::blend(q as int, p as int, w1, w0),
{
    if w0 + w1 == 64 {
        assert(p * w0 + p * w1 == 64 * p) by (nonlinear_arith)
            requires
                w0 + w1 == 64,
        ;
    }
}

/// The quotient rounded towards zero.
pub proof fn law_quotient(a: int, b: int)
    requires
        b != 0,
    ensures
        arith::abs(pixels::quot(a, b)) * arith::abs(b) <= arith::abs(a),
        arith::abs(a) < (arith::abs(pixels::quot(a, b)) + 1) * arith::abs(b),
        pixels::quot(a, b) > 0 ==> (a < 0) == (b < 0),
        pixels::quot(a, b) < 0 ==> (a < 0) != (b < 0),
{
    let (x, y) = (arith::abs(a), arith::abs(b));
    vstd::arithmetic::div_mod::lemma_fundamental_div_mod(x, y);
    assert((x / y) * y == y * (x / y)) by (nonlinear_arith);
    assert((x / y + 1) * y == y * (x / y) + y) by (nonlinear_arith);
    assert(0 <= x / y) by (nonlinear_arith)
        requires
            x >= 0,
            y > 0,
    ;
}

/// The weight of list 1 is the share of the way from the reference of list 0 to that of list 1 that the
/// picture lies at, in parts of 64: exact to less than two parts. Moving all three pictures by the same
/// changes nothing.
pub proof fn law_weights_follow_the_distances(cur: int, l0: int, l1: int, d: int)
    requires
        l0 <= cur <= l1,
        0 < l1 - l0 <= 127,
    ensures
        ({
            let (w0, w1) = pixels::bi_weights(cur, l0, l1);
            &&& 64 * (cur - l0) - 2 * (l1 - l0) < (l1 - l0) * w1 < 64 * (cur - l0) + (l1 - l0)
            &&& w0 + w1 == 64
        }),
        pixels::bi_weights(cur + d, l0 + d, l1 + d) == pixels::bi_weights(cur, l0, l1),
{
    let (td, tb) = (l1 - l0, cur - l0);
    let a = 16384 + td / 2;
    let tx = pixels::quot(a, td);
    vstd::arithmetic::div_mod::lemma_fundamental_div_mod(a, td);
    assert(tx == a / td);
    assert(a - td < td * tx <= a);
    let f = (tb * tx + 32) / 64;
    assert(0 <= tx) by (nonlinear_arith)
        requires
            a - td < td * tx,
            a >= td,
            td > 0,
    ;
    assert(0 <= tb * tx <= td * tx) by (nonlinear_arith)
        requires
            0 <= tb <= td,
            0 <= tx,
    ;
    assert(0 <= f <= 257);
    let w1 = pixels::list1_weight(tb, td);
    assert(w1 == f / 4);
    assert(0 <= w1 <= 64);
    assert(256 * w1 <= tb * tx + 32);
    assert(256 * w1 >= tb * tx - 223);
    assert(td * (256 * w1) <= td * (tb * tx + 32) && td * (256 * w1) >= td * (tb * tx - 223))
        by (nonlinear_arith)
        requires
            td > 0,
            256 * w1 <= tb * tx + 32,
            256 * w1 >= tb * tx - 223,
    ;
    let u = td * tx;
    assert(td * (tb * tx + 32) == tb * u + 32 * td && td * (tb * tx - 223) == tb * u - 223 * td)
        by (nonlinear_arith)
        requires
            u == td * tx,
    ;
    assert(tb * u <= tb * a && tb * u >= tb * (a - td)) by (nonlinear_arith)
        requires
            a - td < u <= a,
            tb >= 0,
    ;
    assert(tb * a <= tb * 16384 + td * 64) by (nonlinear_arith)
        requires
            a <= 16384 + 64,
            0 <= tb <= td,
    ;
    assert(tb * (a - td) >= tb * 16384 - td * 64) by (nonlinear_arith)
        requires
            a - td >= 16384 - 64,
            0 <= tb <= td,
    ;
    assert(td * (256 * w1) == 256 * (td * w1)) by (nonlinear_arith);
}

/// An extended plane holds the plane, and beyond its edges the nearest sample of it.
pub proof fn law_extension(p: Seq<u8>, w: int, h: int, ow: int, oh: int, x: int, y: int)
    requires
        0 < w <= ow,
        0 < h <= oh,
        0 <= x < ow,
        0 <= y < oh,
    ensures
        pixels::extended(p, w, h, ow, oh).len() == ow * oh,
        ({
            let s = pixels::extended(p, w, h, ow, oh)[y * ow + x];
            &&& x < w && y < h ==> s == p[y * w + x]
            &&& x >= w && y < h ==> s == p[y * w + (w - 1)]
            &&& x < w && y >= h ==> s == p[(h - 1) * w + x]
            &&& x >= w && y >= h ==> s == p[(h - 1) * w + (w - 1)]
        }),
{
    crate::grid::lemma_cell(ow, oh, x, y);
    assert(0 <= ow * oh) by (nonlinear_arith)
        requires
            ow > 0,
            oh > 0,
    ;
}

/// Which 4x4 modes can be used: vertical and the two that lean left need what is above, horizontal and
/// horizontal-up what is on the left, DC nothing, the three that lean right both.
pub proof fn law_usable_modes(top: bool, left: bool)
    ensures
        pixels::i4_usable(0, top, left) == top,
        pixels::i4_usable(1, top, left) == left,
        pixels::i4_usable(2, top, left),
        pixels::i4_usable(3, top, left) == top,
        pixels::i4_usable(4, top, left) == (top && left),
        pixels::i4_usable(5, top, left) == (top && left),
        pixels::i4_usable(6, top, left) == (top && left),
        pixels::i4_usable(7, top, left) == top,
        pixels::i4_usable(8, top, left) == left,
{
}

} // verus!
