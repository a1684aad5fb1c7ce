//! What the measures of blocks say of a difference that is the same everywhere.
use vstd::prelude::*;
use crate::arith;
use crate::lookcost;
use crate::pixels;
use crate::pixels::At;
use super::samples;

verus! {

/// Two blocks differ by `d` at each of `w` by `h` samples.
pub open spec fn flat_difference(
    a: Seq<u8>,
    aa: At,
    b: Seq<u8>,
    ba: At,
    w: int,
    h: int,
    d: int,
) -> bool {
    forall|x: int, y: int|
        0 <= x < w && 0 <= y < h ==> #[trigger] pixels::diff(a, aa, b, ba, x, y) == d
}

/// The transformed difference of blocks that differ by the same everywhere: sixteen times that for each
/// 4x4 block.
pub proof fn law_flat_satd(
    a: Seq<u8>,
    aa: At,
    b: Seq<u8>,
    ba: At,
    nbx: int,
    nby: int,
    k: int,
    d: int,
)
    requires
        nbx > 0,
        0 <= k <= nbx * nby,
        flat_difference(a, aa, b, ba, 4 * nbx, 4 * nby, d),
    ensures
        pixels::satd(a, aa, b, ba, nbx, k) == 16 * k * arith::abs(d),
    decreases k,
{
    if k > 0 {
        law_flat_satd(a, aa, b, ba, nbx, nby, k - 1, d);
        let (bx, by) = ((k - 1) % nbx, (k - 1) / nbx);
        assert(0 <= by < nby && 0 <= bx < nbx) by (nonlinear_arith)
            requires
                bx == (k - 1) % nbx,
                by == (k - 1) / nbx,
                0 <= k - 1 < nbx * nby,
                nbx > 0,
        ;
        let f = pixels::diff4(a, aa, b, ba, bx, by);
        let e = |x: int, y: int| -f(x, y);
        assert forall|x: int, y: int| 0 <= x < 4 && 0 <= y < 4 implies #[trigger] f(x, y) == d by {
            assert(pixels::diff(a, aa, b, ba, 4 * bx + x, 4 * by + y) == d);
        }
        samples::law_hadamard(f, e, d);
        let v = arith::abs(d);
        assert(16 * (k - 1) * v + 16 * v == 16 * k * v) by (nonlinear_arith);
    } else {
        assert(16 * 0 * arith::abs(d) == 0) by (nonlinear_arith);
    }
}

proof fn lemma_flat_apart(
    a: Seq<u8>,
    aa: At,
    b: Seq<u8>,
    ba: At,
    w: int,
    h: int,
    d: int,
)
    requires
        w > 0,
        h > 0,
        flat_difference(a, aa, b, ba, w, h, d),
    ensures
        samples::apart_by(a, aa, b, ba, w, w * h, d),
{
    assert forall|i: int| 0 <= i < w * h implies #[trigger] a[aa.base + (i / w) * aa.stride + i % w]
        - b[ba.base + (i / w) * ba.stride + i % w] == d by {
        assert(0 <= i / w < h && 0 <= i % w < w) by (nonlinear_arith)
            requires
                0 <= i < w * h,
                w > 0,
        ;
        assert(pixels::diff(a, aa, b, ba, i % w, i / w) == d);
    }
}

/// A macroblock that differs from its prediction by the same everywhere: that difference for each of its
/// 256 samples, in either measure.
pub proof fn law_flat_macroblock(
    src: &[u8],
    stride: usize,
    x: usize,
    y: usize,
    pred: &[u8; 256],
    d: int,
    sad: i64,
    satd: i64,
)
    requires
        call_ensures(pixels::sad_16x16, (src, stride, x, y, pred), sad),
        call_ensures(pixels::satd_16x16, (src, stride, x, y, pred), satd),
        flat_difference(
            src@,
            pixels::placed(stride, x, y),
            pred@,
            pixels::dense(16),
            16,
            16,
            d,
        ),
    ensures
        sad == 256 * arith::abs(d),
        satd == 256 * arith::abs(d),
{
    let (at, de) = (pixels::placed(stride, x, y), pixels::dense(16));
    law_flat_satd(src@, at, pred@, de, 4, 4, 16, d);
    lemma_flat_apart(src@, at, pred@, de, 16, 16, d);
    samples::law_sums_of_differences(src@, at, pred@, de, 16, 256, d);
}

/// The same for an 8x8 and a 4x4 block.
pub proof fn law_flat_blocks(
    src: &[u8],
    stride: usize,
    x: usize,
    y: usize,
    p8: &[u8; 64],
    p4: &[u8; 16],
    d: int,
    eight: i64,
    four: i64,
)
    requires
        call_ensures(pixels::satd_8x8, (src, stride, x, y, p8), eight),
        call_ensures(pixels::satd_4x4, (src, stride, x, y, p4), four),
        flat_difference(src@, pixels::placed(stride, x, y), p8@, pixels::dense(8), 8, 8, d),
        flat_difference(src@, pixels::placed(stride, x, y), p4@, pixels::dense(4), 4, 4, d),
    ensures
        eight == 64 * arith::abs(d),
        four == 16 * arith::abs(d),
{
    let at = pixels::placed(stride, x, y);
    law_flat_satd(src@, at, p8@, pixels::dense(8), 2, 2, 4, d);
    law_flat_satd(src@, at, p4@, pixels::dense(4), 1, 1, 1, d);
}

/// The same for blocks of any size, and for their squared difference.
pub proof fn law_flat_rectangles(
    a: &[u8],
    aa: At,
    b: &[u8],
    ba: At,
    w: usize,
    h: usize,
    d: int,
    sad: i64,
    satd: i64,
    ssd: i64,
)
    requires
        w == 4 || w == 8 || w == 16,
        h == 4 || h == 8 || h == 16,
        call_ensures(pixels::sad_strided, (a, aa, b, ba, w, h), sad),
        call_ensures(pixels::satd_px, (a, aa, b, ba, w, h), satd),
        call_ensures(pixels::ssd_px, (a, aa, b, ba, w, h), ssd),
        flat_difference(a@, aa, b@, ba, w as int, h as int, d),
    ensures
        sad == (w * h) * arith::abs(d),
        satd == (w * h) * arith::abs(d),
        ssd == (w * h) * (d * d),
{
    let (u, v) = (w as int, h as int);
    lemma_flat_apart(a@, aa, b@, ba, u, v, d);
    assert(u * v >= 0) by (nonlinear_arith)
        requires
            u > 0,
            v > 0,
    ;
    samples::law_sums_of_differences(a@, aa, b@, ba, u, (u * v) as nat, d);
    law_flat_satd(a@, aa, b@, ba, u / 4, v / 4, (u / 4) * (v / 4), d);
    assert(16 * ((u / 4) * (v / 4)) == u * v);
}

/// Half resolution of a plane of equal samples has that sample everywhere, and half the size.
pub proof fn law_halved_flat_plane(y: &[u8], cw: usize, ch: usize, r: (Vec<u8>, usize, usize), v: u8, i: int, j: int)
    requires
        call_ensures(lookcost::downsample2x, (y, cw, ch), r),
        forall|k: int| 0 <= k < y@.len() ==> #[trigger] y@[k] == v,
        y@.len() == cw * ch,
        0 <= i < cw / 2,
        0 <= j < ch / 2,
    ensures
        r.1 == cw / 2 && r.2 == ch / 2,
        r.0@.len() == r.1 * r.2,
        r.0@[j * r.1 + i] == v,
{
    super::lookahead::law_halved_plane(y@, cw as int, ch as int, i, j);
    let (w, h) = (cw as int, ch as int);
    assert(0 <= 2 * j * w + 2 * i && (2 * j + 1) * w + 2 * i + 1 < w * h) by (nonlinear_arith)
        requires
            0 <= i,
            0 <= j,
            2 * i + 1 < w,
            2 * j + 1 < h,
    ;
    assert(2 * j * w + 2 * i + 1 < w * h && 0 <= (2 * j + 1) * w + 2 * i) by (nonlinear_arith)
        requires
            0 <= i,
            0 <= j,
            2 * i + 1 < w,
            2 * j + 1 < h,
    ;
}

/// A block of equal samples has no variance.
pub proof fn law_flat_variance(a: &[u8], at: At, w: usize, h: usize, r: u64, v: u8)
    requires
        w > 0,
        h > 0,
        call_ensures(pixels::block_variance, (a, at, w, h), r),
        forall|i: int|
            0 <= i < w * h ==> a@[at.base + #[trigger] (i / (w as int)) * at.stride + i % (
            w as int)] == v,
    ensures
        r == 0,
{
    super::details::law_flat_variance(a@, at, w as int, h as int, v);
}

/// The weights of bi-prediction as they are computed: they add up to 64, and the picture nearer to one
/// reference takes more of it.
pub proof fn law_computed_weights(cur: i32, l0: i32, l1: i32, r: (i32, i32))
    requires
        call_ensures(pixels::implicit_bi_weights, (cur, l0, l1), r),
        l0 <= cur <= l1,
        0 < l1 - l0 <= 127,
    ensures
        r.0 + r.1 == 64,
        64 * (cur - l0) - 2 * (l1 - l0) < (l1 - l0) * r.1 < 64 * (cur - l0) + (l1 - l0),
{
    samples::law_weights_follow_the_distances(cur as int, l0 as int, l1 as int, 0);
}

} // verus!
