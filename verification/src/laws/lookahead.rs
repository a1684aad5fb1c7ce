//! What the look-ahead measures.
use vstd::prelude::*;
use crate::arith;
use crate::gmc;
use crate::gmc::Shift;
use crate::gop;
use crate::gop::{Gop, Weigher};
use crate::kernels::Kernels;
use crate::lookcost;
use crate::lookcost::{LookaheadMode, MbCost};
use crate::mbtree;
use crate::mbtree::FramePair;
use crate::pixels;
use crate::signals;
use super::samples;

verus! {

/// Half resolution has half as many samples in each direction; each is the mean of the four that it
/// stands for, rounded, and lies between them.
pub proof fn law_halved_plane(y: Seq<u8>, cw: int, ch: int, i: int, j: int)
    requires
        0 <= i < cw / 2,
        0 <= j < ch / 2,
    ensures
        ({
            let h = lookcost::halved(y, cw, ch);
            let s = h[j * (cw / 2) + i] as int;
            let (a, b) = (y[2 * j * cw + 2 * i] as int, y[2 * j * cw + 2 * i + 1] as int);
            let (c, d) = (
                y[(2 * j + 1) * cw + 2 * i] as int,
                y[(2 * j + 1) * cw + 2 * i + 1] as int,
            );
            &&& h.len() == (cw / 2) * (ch / 2)
            &&& -2 < 4 * s - (a + b + c + d) <= 2
            &&& a <= s || b <= s || c <= s || d <= s
            &&& a >= s || b >= s || c >= s || d >= s
            &&& a == b && b == c && c == d ==> s == a
        }),
{
    let hw = cw / 2;
    crate::grid::lemma_cell(hw, ch / 2, i, j);
    assert(0 <= hw * (ch / 2)) by (nonlinear_arith)
        requires
            hw >= 0,
            ch / 2 >= 0,
    ;
}

/// A flat block has no texture: what is left of its transform without the mean is nothing. No block has
/// less than none.
pub proof fn law_texture_of_a_block(a: Seq<u8>, at: pixels::At, v: u8)
    ensures
        lookcost::ac(a, at) >= 0,
        (forall|x: int, y: int| 0 <= x < 4 && 0 <= y < 4 ==> a[#[trigger] at.index(x, y)] == v)
            ==> lookcost::ac(a, at) == 0,
{
    let d = lookcost::samples(a, at);
    let e = |x: int, y: int| -d(x, y);
    samples::law_hadamard(d, e, v as int);
    lemma_mean_is_part(d);
    if forall|x: int, y: int| 0 <= x < 4 && 0 <= y < 4 ==> a[#[trigger] at.index(x, y)] == v {
        assert forall|x: int, y: int| 0 <= x < 4 && 0 <= y < 4 implies #[trigger] d(x, y) == v by {
            assert(a[at.index(x, y)] == v);
        }
        lemma_flat_mean(d, v as int);
    }
}

proof fn lemma_flat_mean(d: spec_fn(int, int) -> int, v: int)
    requires
        forall|x: int, y: int| 0 <= x < 4 && 0 <= y < 4 ==> #[trigger] d(x, y) == v,
    ensures
        pixels::had_coef(d, 0, 0) == 16 * v,
{
    assert(d(0, 0) == v && d(1, 0) == v && d(2, 0) == v && d(3, 0) == v);
    assert(d(0, 1) == v && d(1, 1) == v && d(2, 1) == v && d(3, 1) == v);
    assert(d(0, 2) == v && d(1, 2) == v && d(2, 2) == v && d(3, 2) == v);
    assert(d(0, 3) == v && d(1, 3) == v && d(2, 3) == v && d(3, 3) == v);
}

proof fn lemma_mean_is_part(d: spec_fn(int, int) -> int)
    ensures
        pixels::had_sum(d) >= pixels::had_coef(d, 0, 0),
{
    reveal(pixels::had_column);
    assert(pixels::had_column(d, 0) >= pixels::had_coef(d, 0, 0));
    assert(pixels::had_column(d, 1) >= 0 && pixels::had_column(d, 2) >= 0 && pixels::had_column(d, 3)
        >= 0);
}

/// A macroblock costs at least one without prediction, and no less than its texture.
pub proof fn law_cost_without_prediction(a: Seq<u8>, cw: usize, x: int, y: int, bs: int)
    ensures
        lookcost::intra_of(a, cw, x, y, bs) >= 1,
        ({
            let t = lookcost::texture(a, cw, x, y, bs / 4, (bs / 4) * (bs / 4));
            &&& t >= 1 ==> lookcost::intra_of(a, cw, x, y, bs) == t
            &&& t < 1 ==> lookcost::intra_of(a, cw, x, y, bs) == 1
        }),
{
}

/// The texture of a square is that of its 4x4 blocks, row by row.
pub proof fn law_texture_adds_up(a: Seq<u8>, cw: usize, x: int, y: int, nb: int, k: int)
    requires
        0 <= k,
        nb > 0,
    ensures
        lookcost::texture(a, cw, x, y, nb, 0) == 0,
        lookcost::texture(a, cw, x, y, nb, k + 1) == lookcost::texture(a, cw, x, y, nb, k)
            + lookcost::ac(
            a,
            pixels::placed(cw, (x + 4 * (k % nb)) as usize, (y + 4 * (k / nb)) as usize),
        ),
{
}

/// Half a vector, doubled, is the vector up to one in each component, and never beyond it; doubling
/// wraps around.
pub proof fn law_half_vectors(mv: (i32, i32), x: int, y: int)
    ensures
        ({
            let h = mbtree::half_vector(mv);
            &&& 0 <= arith::abs(mv.0 as int) - 2 * arith::abs(h.0 as int) <= 1
            &&& 0 <= arith::abs(mv.1 as int) - 2 * arith::abs(h.1 as int) <= 1
            &&& h.0 > 0 ==> mv.0 > 0
            &&& h.0 < 0 ==> mv.0 < 0
            &&& h.1 > 0 ==> mv.1 > 0
            &&& h.1 < 0 ==> mv.1 < 0
        }),
        -0x4000_0000 <= x < 0x4000_0000 ==> mbtree::twice(x, y).0 == 2 * x,
        -0x4000_0000 <= y < 0x4000_0000 ==> mbtree::twice(x, y).1 == 2 * y,
{
    lemma_half(mv.0 as int);
    lemma_half(mv.1 as int);
}

proof fn lemma_half(v: int)
    ensures
        v >= 0 ==> pixels::quot(v, 2) == v / 2,
        v < 0 ==> pixels::quot(v, 2) == -((-v) / 2),
{
    assert(arith::abs(2) == 2);
    if v >= 0 {
        assert(arith::abs(v) == v);
    } else {
        assert(arith::abs(v) == -v);
    }
}

/// A search starts from the vector of the left neighbour; in the first column from that of the one above;
/// at the first macroblock from none.
pub proof fn law_seeds<'a, K: Kernels>(p: FramePair<'a, K>, out: Seq<MbCost>, x: int, y: int)
    requires
        0 <= x < p.mb_w,
        0 <= y < p.mb_h,
    ensures
        ({
            let i = y * p.mb_w + x;
            let s = p.seed(out, i);
            &&& x > 0 ==> s == out[i - 1].mv
            &&& x == 0 && y > 0 ==> s == out[i - p.mb_w].mv
            &&& x == 0 && y == 0 ==> s == (0i32, 0i32)
        }),
{
    crate::grid::lemma_cell(p.mb_w as int, p.mb_h as int, x, y);
}

/// Prediction never costs more than none; where there is no frame to predict from it costs the same, and
/// nothing moves.
pub proof fn law_costs<'a, K: Kernels>(p: FramePair<'a, K>, out: Seq<MbCost>, i: int)
    requires
        p.intra(i) <= i32::MAX,
    ensures
        p.cost(out, i).intra == p.intra(i),
        p.intra(i) >= 1,
        p.ref_full is None && p.ref_half is None ==> p.cost(out, i).inter == p.intra(i) && p.cost(
            out,
            i,
        ).mv == (0i32, 0i32),
        ({
            let c = p.cost(out, i);
            let w = p.mb_w as int;
            &&& p.mode == LookaheadMode::HalfRes ==> p.intra(i) == lookcost::intra_of(
                p.half@,
                (8 * w) as usize,
                8 * (i % w),
                8 * (i / w),
                8,
            )
            &&& p.mode != LookaheadMode::HalfRes ==> p.intra(i) == lookcost::intra_of(
                p.full@,
                (16 * w) as usize,
                16 * (i % w),
                16 * (i / w),
                16,
            )
        }),
{
}

/// With a frame to predict from in full resolution, the cost of prediction is that of the vector that was
/// found, or the cost without, whichever is less.
pub proof fn law_predicted_cost<'a, K: Kernels>(
    p: FramePair<'a, K>,
    out: Seq<MbCost>,
    i: int,
)
    requires
        p.mode == LookaheadMode::FullRes,
        p.ref_full is Some,
        0 <= p.intra(i) <= i32::MAX,
        0 <= p.look_full(p.ref_full->Some_0, i).found(p.seed(out, i), 8).c <= i32::MAX,
    ensures
        ({
            let f = p.look_full(p.ref_full->Some_0, i).found(p.seed(out, i), 8);
            let c = p.cost(out, i);
            &&& c.inter <= c.intra && c.inter <= f.c
            &&& c.inter == c.intra || c.inter == f.c
            &&& c.mv == (f.x as i32, f.y as i32)
        }),
{
}

/// A square lands where its vector points, rounded down to whole samples, or at the nearest place inside the
/// frame.
pub proof fn law_landing(mb: int, v: int, n: int)
    requires
        0 <= mb < n,
    ensures
        ({
            let p = mbtree::landing(mb, v, n);
            let q = 16 * mb + v / 4;
            &&& 0 <= p <= 16 * (n - 1)
            &&& 0 <= q <= 16 * (n - 1) ==> p == q
            &&& q < 0 ==> p == 0
            &&& q > 16 * (n - 1) ==> p == 16 * (n - 1)
        }),
{
}

/// A square reaches into the macroblock that it starts in and, unless it lies on a border, into the next,
/// with sixteen samples in all.
pub proof fn law_spans(p: int, n: int)
    requires
        0 <= p <= 16 * (n - 1),
    ensures
        ({
            let s = mbtree::spans(p, n);
            &&& 16 * s[0].0 <= p < 16 * s[0].0 + 16
            &&& s[0].1 == 16 * (s[0].0 + 1) - p
            &&& s.len() == 1 <==> p % 16 == 0
            &&& s.len() == 2 ==> s[1].0 == s[0].0 + 1 && s[0].1 + s[1].1 == 16
            &&& s.len() == 1 || s.len() == 2
        }),
{
}

/// The sums of costs: with prediction the lesser of both for each macroblock, without it the other.
pub proof fn law_cost_sums(costs: Seq<MbCost>, k: int)
    requires
        0 <= k < costs.len(),
    ensures
        gop::cost_sums(costs, 0) == (0int, 0int),
        ({
            let (a, b) = (gop::cost_sums(costs, k), gop::cost_sums(costs, k + 1));
            let c = costs[k];
            &&& b.1 - a.1 == c.intra
            &&& b.0 - a.0 == (if c.inter < c.intra {
                c.inter
            } else {
                c.intra
            })
        }),
{
}

/// The offset of a macroblock is what is due to it, kept within six QPs; nothing is moved in a group that
/// gains too little or is too level.
pub proof fn law_offset<'a, K: Kernels, W: Weigher>(g: Gop<'a, K, W>, costs: Seq<MbCost>, i: int)
    ensures
        ({
            let o = g.offset(costs, i);
            let due = gop::offset_of(*g.w, costs, i as usize);
            let still = gop::backs_off_of(*g.w, costs) || gop::level_of(*g.w, costs);
            &&& still ==> o == 0
            &&& !still && -6 <= due <= 6 ==> o == due
            &&& !still && due > 6 ==> o == 6
            &&& !still && due < -6 ==> o == -6
        }),
{
}

/// The walk over a square takes every place of its raster, row by row.
pub proof fn law_square_walk(wide: int, step: int, i: int, j: int)
    requires
        0 < step,
        0 <= wide,
        (2 * wide) % step == 0,
        0 <= i <= 2 * wide / step,
        0 <= j <= 2 * wide / step,
    ensures
        ({
            let n = 2 * wide / step + 1;
            signals::offset_at(wide, step, j * n + i) == (step * i - wide, step * j - wide)
        }),
{
    let n = 2 * wide / step + 1;
    assert(n > 0);
    crate::grid::lemma_cell(n, n, i, j);
}

/// The least difference is what it started from or that of a place on the walk, and no more than any of
/// them.
pub proof fn law_least_difference(
    sy: Seq<u8>,
    r: Seq<u8>,
    cw: usize,
    x: int,
    y: int,
    wide: int,
    step: int,
    init: int,
    k: int,
    i: int,
)
    requires
        0 <= i < k,
    ensures
        ({
            let m = signals::least_sad(sy, r, cw, x, y, wide, step, init, k);
            let o = signals::offset_at(wide, step, i);
            &&& m <= init
            &&& m <= signals::moved_sad(sy, r, cw, x, y, o.0, o.1)
        }),
    decreases k,
{
    if i < k - 1 {
        law_least_difference(sy, r, cw, x, y, wide, step, init, k - 1, i);
    } else if k > 1 {
        law_least_difference(sy, r, cw, x, y, wide, step, init, k - 1, 0);
    } else {
        assert(signals::least_sad(sy, r, cw, x, y, wide, step, init, 0) == init);
    }
}

/// What a search gains: the difference without motion, that of the sums of the samples, and the least one
/// within eight samples, which is no more than the first.
pub proof fn law_gains(sy: Seq<u8>, r: Seq<u8>, cw: usize, x: int, y: int)
    ensures
        ({
            let (still, sums, best) = signals::gained_of(sy, r, cw, x, y);
            let at = pixels::placed(cw, (16 * x) as usize, (16 * y) as usize);
            &&& still == signals::moved_sad(sy, r, cw, 16 * x, 16 * y, 0, 0)
            &&& best <= still
            &&& best <= signals::moved_sad(sy, r, cw, 16 * x, 16 * y, -8, -8)
            &&& best <= signals::moved_sad(sy, r, cw, 16 * x, 16 * y, 8, 8)
            &&& best <= signals::moved_sad(sy, r, cw, 16 * x, 16 * y, 4, 0)
            &&& sums >= 0
            &&& sums == pixels::sum_of(sy, at, 16, 256) - pixels::sum_of(r, at, 16, 256) || sums
                == pixels::sum_of(r, at, 16, 256) - pixels::sum_of(sy, at, 16, 256)
        }),
        ({
            let (local, far) = signals::headroom_of(sy, r, cw, x, y);
            &&& far <= local
            &&& local <= signals::moved_sad(sy, r, cw, 16 * x, 16 * y, -2, -2)
            &&& local <= signals::moved_sad(sy, r, cw, 16 * x, 16 * y, 0, 0)
            &&& local <= signals::moved_sad(sy, r, cw, 16 * x, 16 * y, 2, 2)
            &&& far <= signals::moved_sad(sy, r, cw, 16 * x, 16 * y, -24, -24)
            &&& far <= signals::moved_sad(sy, r, cw, 16 * x, 16 * y, 24, 24)
        }),
{
    law_square_walk(8, 4, 0, 0);
    law_square_walk(8, 4, 4, 4);
    law_square_walk(8, 4, 3, 2);
    law_square_walk(2, 1, 0, 0);
    law_square_walk(2, 1, 2, 2);
    law_square_walk(2, 1, 4, 4);
    law_square_walk(24, 4, 0, 0);
    law_square_walk(24, 4, 12, 12);
    let still = signals::moved_sad(sy, r, cw, 16 * x, 16 * y, 0, 0);
    let local = signals::headroom_of(sy, r, cw, x, y).0;
    law_least_difference(sy, r, cw, 16 * x, 16 * y, 8, 4, still, 25, 0);
    law_least_difference(sy, r, cw, 16 * x, 16 * y, 8, 4, still, 25, 24);
    law_least_difference(sy, r, cw, 16 * x, 16 * y, 8, 4, still, 25, 13);
    law_least_difference(sy, r, cw, 16 * x, 16 * y, 2, 1, u32::MAX as int, 25, 0);
    law_least_difference(sy, r, cw, 16 * x, 16 * y, 2, 1, u32::MAX as int, 25, 12);
    law_least_difference(sy, r, cw, 16 * x, 16 * y, 2, 1, u32::MAX as int, 25, 24);
    law_least_difference(sy, r, cw, 16 * x, 16 * y, 24, 4, local, 169, 0);
    law_least_difference(sy, r, cw, 16 * x, 16 * y, 24, 4, local, 169, 168);
}

/// The difference to the square `(dx, dy)` away is that of the two squares, sample by sample: none for
/// equal ones.
pub proof fn law_moved_difference(
    sy: Seq<u8>,
    r: Seq<u8>,
    cw: usize,
    x: int,
    y: int,
    dx: int,
    dy: int,
    d: int,
)
    requires
        0 <= x,
        0 <= y,
        0 <= x + dx,
        0 <= y + dy,
        x <= usize::MAX,
        y <= usize::MAX,
        x + dx <= usize::MAX,
        y + dy <= usize::MAX,
        0 <= y * cw + x <= usize::MAX,
        0 <= (y + dy) * cw + x + dx <= usize::MAX,
        forall|i: int, j: int|
            0 <= i < 16 && 0 <= j < 16 ==> #[trigger] sy[y * cw + x + j * cw + i] - r[(y + dy) * cw
                + (x + dx) + j * cw + i] == d,
    ensures
        signals::moved_sad(sy, r, cw, x, y, dx, dy) == 256 * arith::abs(d),
{
    let a = pixels::placed(cw, x as usize, y as usize);
    let b = pixels::placed(cw, (x + dx) as usize, (y + dy) as usize);
    assert(a.base == y * cw + x && b.base == (y + dy) * cw + (x + dx));
    assert(samples::apart_by(sy, a, r, b, 16, 256, d)) by {
        assert forall|k: int| 0 <= k < 256 implies #[trigger] sy[a.base + (k / 16) * a.stride + k
            % 16] - r[b.base + (k / 16) * b.stride + k % 16] == d by {
            assert(sy[y * cw + x + (k / 16) * cw + k % 16] - r[(y + dy) * cw + (x + dx) + (k / 16)
                * cw + k % 16] == d);
        }
    }
    samples::law_sums_of_differences(sy, a, r, b, 16, 256, d);
}

/// How many samples are taken along a side: one for every eight, and none nearer than sixteen to an edge.
pub proof fn law_samples_taken(side: int, k: int)
    requires
        side >= 32,
        0 <= k < gmc::taken(side),
    ensures
        16 <= 16 + 8 * k < side - 16,
        16 + 8 * gmc::taken(side) >= side - 16,
{
}

/// The difference of two frames at a single vector: none where they are equal at every sample taken, and
/// never negative.
pub proof fn law_global_difference(
    sy: Seq<u8>,
    r: Seq<u8>,
    cw: int,
    dx: int,
    dy: int,
    k: nat,
)
    ensures
        gmc::global_sad(sy, r, cw, dx, dy, k as int) >= 0,
        (forall|i: int|
            0 <= i < k ==> ({
                let (x, y) = (
                    16 + 8 * (i % gmc::taken(cw)),
                    16 + 8 * (#[trigger] (i / gmc::taken(cw))),
                );
                sy[y * cw + x] == r[(y + dy) * cw + (x + dx)]
            })) ==> gmc::global_sad(sy, r, cw, dx, dy, k as int) == 0,
    decreases k,
{
    if k > 0 {
        law_global_difference(sy, r, cw, dx, dy, (k - 1) as nat);
        let i = k - 1;
        let q = i / gmc::taken(cw);
    }
}

/// What the best single vector leaves is no more than any vector of the first walk leaves: twelve samples
/// and less in steps of four.
pub proof fn law_best_single_vector(sy: Seq<u8>, r: Seq<u8>, cw: int, n: int, k: int, i: int)
    requires
        0 <= i < k,
    ensures
        ({
            let o = signals::offset_at(12, 4, i);
            let b = gmc::coarse(sy, r, cw, n, k);
            &&& b.c <= gmc::global_sad(sy, r, cw, o.0, o.1, n)
            &&& b.c <= u64::MAX
            &&& b.c < u64::MAX ==> b.c == gmc::global_sad(sy, r, cw, b.dx, b.dy, n)
        }),
    decreases k,
{
    if i < k - 1 {
        law_best_single_vector(sy, r, cw, n, k - 1, i);
    } else if k > 1 {
        law_best_single_vector(sy, r, cw, n, k - 1, 0);
    } else {
        assert(gmc::coarse(sy, r, cw, n, 0).c == u64::MAX);
    }
}

/// And no more than any vector within three samples of the best of those.
pub proof fn law_refined_single_vector(
    sy: Seq<u8>,
    r: Seq<u8>,
    cw: int,
    n: int,
    b: Shift,
    k: int,
    i: int,
)
    requires
        0 <= i < k,
    ensures
        ({
            let o = signals::offset_at(3, 1, i);
            let m = gmc::refined(sy, r, cw, n, b, k);
            &&& m <= b.c
            &&& m <= gmc::global_sad(sy, r, cw, b.dx + o.0, b.dy + o.1, n)
        }),
    decreases k,
{
    if i < k - 1 {
        law_refined_single_vector(sy, r, cw, n, b, k - 1, i);
    } else if k > 1 {
        law_refined_single_vector(sy, r, cw, n, b, k - 1, 0);
    } else {
        assert(gmc::refined(sy, r, cw, n, b, 0) == b.c);
    }
}

/// The coarse variance of a macroblock is that of every other sample in every other row: none for equal
/// samples.
pub proof fn law_coarse_variance(sy: Seq<u8>, cw: usize, x: int, y: int, v: u8)
    requires
        forall|i: int, j: int|
            0 <= i < 8 && 0 <= j < 8 ==> #[trigger] sy[(16 * y + 2 * j) * cw + 16 * x + 2 * i] == v,
    ensures
        signals::coarse_variance(sy, cw, x, y) == 0,
{
    lemma_sparse_flat(sy, cw as int, x, y, v, 64);
    assert(((64 * v) * (64 * v)) / 64 == 64 * (v * v)) by (nonlinear_arith)
        requires
            v >= 0,
    ;
}

proof fn lemma_sparse_flat(sy: Seq<u8>, cw: int, x: int, y: int, v: u8, k: int)
    requires
        0 <= k <= 64,
        forall|i: int, j: int|
            0 <= i < 8 && 0 <= j < 8 ==> #[trigger] sy[(16 * y + 2 * j) * cw + 16 * x + 2 * i] == v,
    ensures
        signals::sparse_sum(sy, cw, x, y, k) == k * v,
        signals::sparse_squares(sy, cw, x, y, k) == k * (v * v),
    decreases k,
{
    if k > 0 {
        lemma_sparse_flat(sy, cw, x, y, v, k - 1);
        let (i, j) = ((k - 1) % 8, (k - 1) / 8);
        assert(sy[(16 * y + 2 * j) * cw + 16 * x + 2 * i] == v);
        assert((k - 1) * v + v == k * v) by (nonlinear_arith);
        assert((k - 1) * (v * v) + v * v == k * (v * v)) by (nonlinear_arith);
    } else {
        assert(0 * (v * v) == 0) by (nonlinear_arith);
    }
}

/// The macroblocks that stand for a frame lie two or more away from its edges, and are as many as asked for
/// or more, up to all that lie there.
pub proof fn law_sampled_macroblocks(v: Seq<(usize, usize)>, w: int, h: int, target: int, j: int)
    requires
        signals::stands_for(v, w, h, target),
        w >= 6,
        h >= 6,
        target >= 1,
        0 <= j < v.len(),
    ensures
        2 <= v[j].0 < w - 2,
        2 <= v[j].1 < h - 2,
        v.len() <= (w - 4) * (h - 4),
        v.len() >= target || v.len() == (w - 4) * (h - 4),
{
    let (a, b) = (w - 4, h - 4);
    let inner = a * b;
    let d = signals::stride_of(w, h, target);
    let n = v.len() as int;
    assert(j * d <= (n - 1) * d) by (nonlinear_arith)
        requires
            j <= n - 1,
            d >= 1,
    ;
    assert(0 <= j * d) by (nonlinear_arith)
        requires
            j >= 0,
            d >= 1,
    ;
    assert((j * d) / a < b && 0 <= (j * d) / a) by (nonlinear_arith)
        requires
            0 <= j * d < a * b,
            a > 0,
    ;
    assert(n <= inner) by (nonlinear_arith)
        requires
            (n - 1) * d < inner,
            d >= 1,
            n >= 1,
    ;
    if d > 1 {
        vstd::arithmetic::div_mod::lemma_fundamental_div_mod(inner, target);
        assert(target * d <= inner);
        assert(n >= target) by (nonlinear_arith)
            requires
                target * d <= inner,
                inner <= n * d,
                d >= 1,
        ;
    } else {
        assert(n * 1 == n);
    }
}

} // verus!
