//! What quantising a macroblock keeps and what its patterns say.
use vstd::prelude::*;
use crate::arith;
use crate::kernels;
use crate::kernels::Kernels;
use crate::quant;
use crate::quant::ChromaCode;
use crate::scan::ZIGZAG_4X4;
use crate::setup;

verus! {

/// The approximate bits of a level: one for none, three for a one, and one more for each step above, up to
/// thirteen steps.
pub proof fn law_level_rate(m: int)
    requires
        0 <= m,
    ensures
        quant::level_rate(0) == 1,
        quant::level_rate(1) == 3,
        1 <= m < 14 ==> quant::level_rate(m + 1) == quant::level_rate(m) + 1,
        14 <= m ==> quant::level_rate(m) == 16,
        quant::level_rate(m) <= quant::level_rate(m + 1),
{
}

/// A level one step nearer to zero is smaller by one and has not changed sides.
pub proof fn law_nearer(v: i32)
    requires
        v != 0,
    ensures
        arith::abs(quant::nearer(v) as int) == arith::abs(v as int) - 1,
        quant::nearer(v) < 0 ==> v < 0,
        quant::nearer(v) > 0 ==> v > 0,
{
}

/// Lowering moves exactly those levels that are not zero, that are the block's own and that are better
/// one step nearer to zero, and those by one step.
pub proof fn law_lowering<K: Kernels>(k: K, c: Seq<i32>, qp: u8, first: int, q: Seq<i32>, p: int)
    requires
        0 <= p < q.len(),
    ensures
        ({
            let r = quant::lowered(k, c, qp, first, q);
            let m = if q[p] < 0 {
                -q[p]
            } else {
                q[p] as int
            };
            let moved = q[p] != 0 && (p > 0 || first == 0) && kernels::lower_of(
                k,
                qp,
                p as usize,
                c[p],
                m as u32,
            );
            &&& r.len() == q.len()
            &&& moved && q[p] > 0 ==> r[p] == q[p] - 1
            &&& moved && q[p] < 0 ==> r[p] == q[p] + 1
            &&& !moved ==> r[p] == q[p]
        }),
{
}

/// The last level is the last place of the scan that is not zero.
pub proof fn law_last_level(q: Seq<i32>, first: int, top: int, i: int)
    requires
        0 <= first,
        first <= i < top <= 16,
    ensures
        ({
            let li = quant::last_level(q, first, top);
            &&& li == -1 || (first <= li < top && q[ZIGZAG_4X4[li] as int] != 0)
            &&& li < i ==> q[ZIGZAG_4X4[i] as int] == 0
        }),
    decreases top,
{
    let e = ZIGZAG_4X4@[top - 1] as int;
    if q[e] == 0 {
        assert(quant::last_level(q, first, top) == quant::last_level(q, first, top - 1));
        if first < top - 1 {
            law_last_level(q, first, top - 1, if i < top - 1 {
                i
            } else {
                first
            });
        } else {
            assert(quant::last_level(q, first, top - 1) == -1);
        }
    } else {
        assert(quant::last_level(q, first, top) == top - 1);
    }
}

/// Dropping the last level frees its bits, its last flag and one flag for each zero between it and the
/// level before it, or the start.
pub proof fn law_freed_bits(q: Seq<i32>, first: int, prev: int, li: int)
    requires
        0 <= first <= 1,
        first <= li < 16,
        first - 1 <= prev < li,
        prev >= first ==> q[ZIGZAG_4X4[prev] as int] != 0,
        forall|i: int| prev < i < li ==> q[#[trigger] ZIGZAG_4X4[i] as int] == 0,
    ensures
        ({
            let v = q[ZIGZAG_4X4[li] as int];
            let m = if v < 0 {
                -v
            } else {
                v as int
            };
            quant::freed_bits(q, first, li) == quant::level_rate(m) + 1 + (li - prev - 1)
        }),
{
    lemma_last_is(q, first, prev, li);
}

proof fn lemma_last_is(q: Seq<i32>, first: int, prev: int, top: int)
    requires
        0 <= first <= 1,
        first <= top <= 16,
        first - 1 <= prev < top,
        prev >= first ==> q[ZIGZAG_4X4[prev] as int] != 0,
        forall|i: int| prev < i < top ==> q[#[trigger] ZIGZAG_4X4[i] as int] == 0,
    ensures
        quant::last_level(q, first, top) == (if prev >= first {
            prev
        } else {
            -1
        }),
    decreases top,
{
    if top > first && top - 1 > prev {
        assert(q[ZIGZAG_4X4[top - 1] as int] == 0);
        lemma_last_is(q, first, prev, top - 1);
    }
}

/// Trimming cuts a block off at one place of its scan: before it every level stays, from it on there is
/// none; and the last level that stays is one that is better kept, at the bits that dropping it would
/// free.
pub proof fn law_trimming_cuts<K: Kernels>(
    k: K,
    c: Seq<i32>,
    qp: u8,
    first: int,
    q: Seq<i32>,
    top: int,
) -> (cut: int)
    requires
        0 <= first <= 1,
        first <= top <= 16,
        q.len() == 16,
        forall|i: int| top <= i < 16 ==> q[#[trigger] ZIGZAG_4X4[i] as int] == 0,
    ensures
        first <= cut <= top,
        ({
            let r = quant::trimmed(k, c, qp, first, q, top);
            &&& r.len() == 16
            &&& forall|i: int| cut <= i < 16 ==> r[#[trigger] ZIGZAG_4X4[i] as int] == 0
            &&& forall|i: int|
                0 <= i < cut ==> r[#[trigger] ZIGZAG_4X4[i] as int] == q[ZIGZAG_4X4[i] as int]
            &&& cut > first ==> {
                let p = ZIGZAG_4X4[cut - 1] as int;
                let m = if q[p] < 0 {
                    -q[p]
                } else {
                    q[p] as int
                };
                q[p] != 0 && !kernels::trim_of(
                    k,
                    qp,
                    p as usize,
                    c[p],
                    m as u32,
                    quant::freed_bits(r, first, cut - 1) as i64,
                )
            }
        }),
    decreases top,
{
    let li = quant::last_level(q, first, top);
    if first < top {
        law_last_level(q, first, top, first);
    }
    assert forall|i: int| first <= i && li < i < 16 implies q[#[trigger] ZIGZAG_4X4[i] as int]
        == 0 by {
        if i < top {
            law_last_level(q, first, top, i);
        }
    }
    if li >= 0 {
        let p = ZIGZAG_4X4[li] as int;
        if kernels::trim_of(
            k,
            qp,
            p as usize,
            c[p],
            arith::abs(q[p] as int) as u32,
            quant::freed_bits(q, first, li) as i64,
        ) {
            let q1 = q.update(p, 0);
            assert forall|i: int, j: int|
                0 <= i < 16 && 0 <= j < 16 && #[trigger] ZIGZAG_4X4[i] == #[trigger] ZIGZAG_4X4[j]
                    implies i == j by {
                crate::scan::law_zigzag4_is_a_permutation(0);
            }
            assert forall|i: int| li <= i < 16 implies q1[#[trigger] ZIGZAG_4X4[i] as int] == 0 by {
                assert(ZIGZAG_4X4[i] < 16);
            }
            assert forall|i: int| 0 <= i < li implies q1[#[trigger] ZIGZAG_4X4[i] as int]
                == q[ZIGZAG_4X4[i] as int] by {
                assert(ZIGZAG_4X4[i] < 16 && ZIGZAG_4X4[i] != ZIGZAG_4X4[li]);
            }
            law_trimming_cuts(k, c, qp, first, q1, li)
        } else {
            li + 1
        }
    } else {
        first
    }
}

/// Without refinement the levels are what the quantiser gives.
pub proof fn law_plain_levels<K: Kernels>(k: K, c: Seq<i32>, qp: u8, dz: u8, first: int)
    ensures
        quant::levels(k, false, c, qp, dz, first) == kernels::quant4_of(k, c, qp, dz),
{
}

/// A residual and its prediction add up to the source, sample by sample.
pub proof fn law_residual_is_what_is_missing(
    src: Seq<u8>,
    stride: usize,
    x0: usize,
    y0: usize,
    p4: Seq<i32>,
    p8: Seq<i32>,
    dx: int,
    dy: int,
)
    requires
        0 <= dx,
        0 <= dy,
        y0 * stride + x0 <= usize::MAX,
        forall|i: int| 0 <= i < 16 ==> 0 <= #[trigger] p4[i] <= 255,
        forall|i: int| 0 <= i < 64 ==> 0 <= #[trigger] p8[i] <= 255,
    ensures
        dx < 4 && dy < 4 ==> quant::res4(src, stride, x0, y0, p4)[4 * dy + dx] + p4[4 * dy + dx]
            == src[(y0 * stride + x0) + dy * stride + dx],
        dx < 8 && dy < 8 ==> quant::res8(src, stride, x0, y0, p8)[8 * dy + dx] + p8[8 * dy + dx]
            == src[(y0 * stride + x0) + dy * stride + dx],
{
    assert(0 <= y0 * stride) by (nonlinear_arith)
        requires
            0 <= y0,
            0 <= stride,
    ;
    if dx < 4 && dy < 4 {
        assert((4 * dy + dx) % 4 == dx && (4 * dy + dx) / 4 == dy);
        assert(0 <= p4[4 * dy + dx] <= 255);
    }
    if dx < 8 && dy < 8 {
        assert((8 * dy + dx) % 8 == dx && (8 * dy + dx) / 8 == dy);
        assert(0 <= p8[8 * dy + dx] <= 255);
    }
}

/// Cutting a square of luma into blocks undoes putting it together from blocks.
pub proof fn law_cutting_undoes_tiling(block: spec_fn(int) -> Seq<u8>, bx: int, by: int, j: int)
    requires
        0 <= bx < 4,
        0 <= by < 4,
        0 <= j < 16,
    ensures
        quant::pred4(quant::tiled(16, block), 16, bx, by)[j] == block(4 * by + bx)[j],
{
    let (x, y) = (4 * bx + j % 4, 4 * by + j / 4);
    let s = y * 16 + x;
    assert(s % 16 == x && s / 16 == y);
    assert(quant::tiled(16, block)[s] == block(4 * by + bx)[j]) by {
        assert(x / 4 == bx && y / 4 == by && x % 4 == j % 4 && y % 4 == j / 4);
        assert((y % 4) * 4 + x % 4 == j);
    }
}

/// The same for a square of chroma.
pub proof fn law_cutting_undoes_tiling_of_chroma(
    block: spec_fn(int) -> Seq<u8>,
    bx: int,
    by: int,
    j: int,
)
    requires
        0 <= bx < 2,
        0 <= by < 2,
        0 <= j < 16,
    ensures
        quant::pred4(quant::tiled(8, block), 8, bx, by)[j] == block(2 * by + bx)[j],
{
    let (x, y) = (4 * bx + j % 4, 4 * by + j / 4);
    let s = y * 8 + x;
    assert(s % 8 == x && s / 8 == y);
    assert(quant::tiled(8, block)[s] == block(2 * by + bx)[j]) by {
        assert(x / 4 == bx && y / 4 == by && x % 4 == j % 4 && y % 4 == j / 4);
        assert((y % 4) * 4 + x % 4 == j);
    }
}

/// The same for 8x8 blocks.
pub proof fn law_cutting_undoes_tiling_by_eight(
    block: spec_fn(int) -> Seq<u8>,
    b: int,
    j: int,
)
    requires
        0 <= b < 4,
        0 <= j < 64,
    ensures
        quant::pred8(quant::tiled8(block), b)[j] == block(b)[j],
{
    let (x, y) = (8 * (b % 2) + j % 8, 8 * (b / 2) + j / 8);
    let s = y * 16 + x;
    assert(s % 16 == x && s / 16 == y);
    assert(quant::tiled8(block)[s] == block(b)[j]) by {
        assert(x / 8 == b % 2 && y / 8 == b / 2 && x % 8 == j % 8 && y % 8 == j / 8);
        assert((y % 8) * 8 + x % 8 == j);
        assert((y / 8) * 2 + x / 8 == b);
    }
}

/// Block `i` of the luma raster is transformed from the samples that lie in its column and row.
pub proof fn law_luma_blocks_lie_in_the_raster<K: Kernels>(
    k: K,
    sy: Seq<u8>,
    cw: usize,
    lx: usize,
    ly: usize,
    pred: Seq<u8>,
    bx: int,
    by: int,
) -> (r: Seq<i32>)
    requires
        0 <= bx < 4,
        0 <= by < 4,
        lx + 16 <= cw,
        (ly + 16) * cw <= usize::MAX,
        ly + 16 <= usize::MAX,
    ensures
        quant::luma_coefs(k, sy, cw, lx, ly, pred, 4 * by + bx) == kernels::fdct4_of(k, r),
        r.len() == 16,
        forall|x: int, y: int|
            0 <= x < 4 && 0 <= y < 4 ==> #[trigger] r[4 * y + x] == sy[(ly + 4 * by + y) * cw + lx
                + 4 * bx + x] - pred[16 * (4 * by + y) + 4 * bx + x],
{
    let i = 4 * by + bx;
    assert(i % 4 == bx && i / 4 == by);
    let (x0, y0) = ((lx + 4 * bx) as usize, (ly + 4 * by) as usize);
    let r = quant::res4(sy, cw, x0, y0, quant::pred4(pred, 16, bx, by));
    assert(0 <= y0 * cw && y0 * cw + x0 <= (ly + 16) * cw) by (nonlinear_arith)
        requires
            0 <= y0 < ly + 16,
            0 <= x0 <= cw,
            0 <= cw,
    ;
    assert forall|x: int, y: int| 0 <= x < 4 && 0 <= y < 4 implies #[trigger] r[4 * y + x] == sy[(ly
        + 4 * by + y) * cw + lx + 4 * bx + x] - pred[16 * (4 * by + y) + 4 * bx + x] by {
        let j = 4 * y + x;
        assert(j % 4 == x && j / 4 == y);
        assert((y0 + y) * cw == y0 * cw + y * cw) by (nonlinear_arith);
    }
    r
}

/// A block, in the raster of sixteen, that has a level is in a quarter that the pattern marks, and a
/// marked quarter has such a block.
pub proof fn law_luma_pattern(q: Seq<[i32; 16]>, b: int)
    requires
        0 <= b < 4,
    ensures
        0 <= quant::luma_pattern(q) < 16,
        crate::plan::cbp_bit(quant::luma_pattern(q), b) <==> exists|x: int, y: int, j: int|
            2 * (b % 2) <= x < 2 * (b % 2) + 2 && 2 * (b / 2) <= y < 2 * (b / 2) + 2 && 0 <= j < 16
                && #[trigger] q[4 * y + x]@[j] != 0,
{
    let i = 8 * (b / 2) + 2 * (b % 2);
    let (x0, y0) = (2 * (b % 2), 2 * (b / 2));
    assert(i == 4 * y0 + x0);
    assert(i + 1 == 4 * y0 + (x0 + 1) && i + 4 == 4 * (y0 + 1) + x0 && i + 5 == 4 * (y0 + 1) + (x0
        + 1));
    if quant::quarter_coded(q, b) {
        let e = if quant::any_level(q[i]@, 0) {
            0int
        } else if quant::any_level(q[i + 1]@, 0) {
            1
        } else if quant::any_level(q[i + 4]@, 0) {
            4
        } else {
            5
        };
        let j = choose|j: int| 0 <= j < q[i + e]@.len() && #[trigger] q[i + e]@[j] != 0;
        let (x, y) = (x0 + e % 4, y0 + e / 4);
        assert(4 * y + x == i + e);
        assert(q[4 * y + x]@[j] != 0);
    }
    if exists|x: int, y: int, j: int|
        2 * (b % 2) <= x < 2 * (b % 2) + 2 && 2 * (b / 2) <= y < 2 * (b / 2) + 2 && 0 <= j < 16
            && #[trigger] q[4 * y + x]@[j] != 0 {
        let (x, y, j) = choose|x: int, y: int, j: int|
            2 * (b % 2) <= x < 2 * (b % 2) + 2 && 2 * (b / 2) <= y < 2 * (b / 2) + 2 && 0 <= j < 16
                && #[trigger] q[4 * y + x]@[j] != 0;
        assert(quant::any_level(q[4 * y + x]@, 0));
        assert(4 * y + x == i || 4 * y + x == i + 1 || 4 * y + x == i + 4 || 4 * y + x == i + 5);
    }
}

/// The pattern of four 8x8 blocks marks those that have a level.
pub proof fn law_luma8_pattern(q: Seq<[i32; 64]>, b: int)
    requires
        0 <= b < 4,
    ensures
        0 <= quant::luma8_pattern(q) < 16,
        crate::plan::cbp_bit(quant::luma8_pattern(q), b) <==> exists|j: int|
            0 <= j < 64 && #[trigger] q[b]@[j] != 0,
{
    assert(quant::any_level(q[b]@, 0) <==> exists|j: int| 0 <= j < 64 && #[trigger] q[b]@[j] != 0);
}

/// The bit of a quarter in a pattern is its binary digit.
pub proof fn law_pattern_bits(a: bool, b: bool, c: bool, d: bool)
    ensures
        0 <= quant::pattern(a, b, c, d) < 16,
        quant::pattern(a, b, c, d) % 2 == 1 <==> a,
        (quant::pattern(a, b, c, d) / 2) % 2 == 1 <==> b,
        (quant::pattern(a, b, c, d) / 4) % 2 == 1 <==> c,
        (quant::pattern(a, b, c, d) / 8) % 2 == 1 <==> d,
        crate::plan::cbp_bit(quant::pattern(a, b, c, d), 0) == a,
        crate::plan::cbp_bit(quant::pattern(a, b, c, d), 1) == b,
        crate::plan::cbp_bit(quant::pattern(a, b, c, d), 2) == c,
        crate::plan::cbp_bit(quant::pattern(a, b, c, d), 3) == d,
{
}

/// The chroma pattern is 2 exactly where a plane has a level behind the first of a block, and 0 exactly
/// where neither plane has any level.
pub proof fn law_chroma_pattern(u: ChromaCode, v: ChromaCode)
    ensures
        ({
            let ac = |c: ChromaCode|
                exists|i: int, j: int| 0 <= i < 4 && 1 <= j < 16 && #[trigger] c.q@[i]@[j] != 0;
            let dc = |c: ChromaCode| exists|i: int| 0 <= i < 4 && #[trigger] c.dc@[i] != 0;
            &&& quant::chroma_pattern(u, v) == 2 <==> ac(u) || ac(v)
            &&& quant::chroma_pattern(u, v) == 0 <==> !ac(u) && !ac(v) && !dc(u) && !dc(v)
            &&& 0 <= quant::chroma_pattern(u, v) <= 2
            &&& quant::chroma_pattern(u, v) == quant::chroma_pattern(v, u)
        }),
{
    lemma_any_ac(u);
    lemma_any_ac(v);
    assert(quant::any_level(u.dc@, 0) <==> exists|i: int| 0 <= i < 4 && #[trigger] u.dc@[i] != 0);
    assert(quant::any_level(v.dc@, 0) <==> exists|i: int| 0 <= i < 4 && #[trigger] v.dc@[i] != 0);
}

proof fn lemma_any_ac(c: ChromaCode)
    ensures
        c.any_ac() <==> exists|i: int, j: int|
            0 <= i < 4 && 1 <= j < 16 && #[trigger] c.q@[i]@[j] != 0,
{
    if c.any_ac() {
        let i = if quant::any_level(c.q@[0]@, 1) {
            0int
        } else if quant::any_level(c.q@[1]@, 1) {
            1
        } else if quant::any_level(c.q@[2]@, 1) {
            2
        } else {
            3
        };
        let j = choose|j: int| 1 <= j < c.q@[i]@.len() && #[trigger] c.q@[i]@[j] != 0;
        assert(c.q@[i]@[j] != 0);
    }
    if exists|i: int, j: int| 0 <= i < 4 && 1 <= j < 16 && #[trigger] c.q@[i]@[j] != 0 {
        let (i, j) = choose|i: int, j: int|
            0 <= i < 4 && 1 <= j < 16 && #[trigger] c.q@[i]@[j] != 0;
        assert(quant::any_level(c.q@[i]@, 1));
    }
}

/// The chroma QP is the luma QP up to 29, never above it, never falls as that rises, and takes each of
/// its values from 30 on at the luma QPs where the steps are.
pub proof fn law_chroma_qp(qp: u8)
    requires
        qp <= 51,
    ensures
        setup::chroma_of(qp) <= qp,
        setup::chroma_of(qp) <= 39,
        qp <= 29 ==> setup::chroma_of(qp) == qp,
        (setup::chroma_of(qp) >= 30) == (qp >= 31),
        (setup::chroma_of(qp) >= 31) == (qp >= 32),
        (setup::chroma_of(qp) >= 32) == (qp >= 33),
        (setup::chroma_of(qp) >= 33) == (qp >= 35),
        (setup::chroma_of(qp) >= 34) == (qp >= 36),
        (setup::chroma_of(qp) >= 35) == (qp >= 38),
        (setup::chroma_of(qp) >= 36) == (qp >= 40),
        (setup::chroma_of(qp) >= 37) == (qp >= 42),
        (setup::chroma_of(qp) >= 38) == (qp >= 45),
        (setup::chroma_of(qp) >= 39) == (qp >= 48),
        qp >= 30 ==> setup::chroma_of(qp) >= 29,
{
}

/// A moved QP is the sum where that is a QP, and else the nearest one.
pub proof fn law_moved_qp(q: u8, o: i32)
    ensures
        0 <= q + o <= 51 ==> setup::moved_qp(q, o) == q + o,
        q + o < 0 ==> setup::moved_qp(q, o) == 0,
        q + o > 51 ==> setup::moved_qp(q, o) == 51,
{
}

} // verus!
