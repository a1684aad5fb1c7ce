//! Where the samples, levels and counts of blocks come from and go to.
use vstd::prelude::*;
use crate::bslice::{BEnv, BState};
use crate::cavlc;
use crate::cavlc::{ElemView, Run};
use crate::distortion;
use crate::frame::FrameEncoder;
use crate::grid;
use crate::interplan;
use crate::intra4;
use crate::intra4::{I4Ctx, I4State};
use crate::intra8;
use crate::intra8::{I8Ctx, I8State};
use crate::intraplan;
use crate::kernels;
use crate::kernels::{Kernels, Rd};
use crate::mbcabac;
use crate::mbcavlc;
use crate::mbinter;
use crate::mbtree::FramePair;
use crate::parts;
use crate::partition::BInter;
use crate::pixels;
use crate::plan;
use crate::plan::{I16Mode, InterPlan, MbPlan};
use crate::pslice;
use crate::quant;
use crate::residual;
use crate::scan;
use crate::search;
use crate::search::{MeOptions, Pricer, Spot};
use crate::skip;
use super::contexts;
use super::elements;
use super::samples;

verus! {

/// The samples that a block of a plane is predicted from: those above it, those on its left and the one
/// above and left, as far as they are there.
pub open spec fn bordered(
    rec: Seq<u8>,
    w: int,
    x: int,
    y: int,
    n: int,
    top: Seq<u8>,
    left: Seq<u8>,
    corner: u8,
) -> bool {
    &&& y > 0 ==> forall|i: int| 0 <= i < n ==> #[trigger] top[i] == rec[(y - 1) * w + x + i]
    &&& x > 0 ==> forall|i: int| 0 <= i < n ==> #[trigger] left[i] == rec[(y + i) * w + x - 1]
    &&& x > 0 && y > 0 ==> corner == rec[(y - 1) * w + x - 1]
}

/// A whole macroblock is predicted from the samples around it: 16 in luma, 8 in each plane of chroma.
pub proof fn law_macroblock_prediction<K: Kernels>(
    k: K,
    fe: FrameEncoder,
    rec: Seq<u8>,
    x: int,
    y: int,
    m: I16Mode,
    c: u8,
) -> (r: (Seq<u8>, Seq<u8>, u8, Seq<u8>, Seq<u8>, u8))
    ensures
        intraplan::i16_prediction(k, fe, x, y, m) == kernels::intra16_of(
            k,
            m,
            (kernels::Around { top: y > 0, left: x > 0 }),
            r.0,
            r.1,
            r.2,
        ),
        bordered(fe.rec_y@, 16 * fe.mb_w, 16 * x, 16 * y, 16, r.0, r.1, r.2),
        intraplan::chroma_prediction(k, rec, fe.mb_w as int, x, y, c) == kernels::intrac_of(
            k,
            c,
            (kernels::Around { top: y > 0, left: x > 0 }),
            r.3,
            r.4,
            r.5,
        ),
        bordered(rec, 8 * fe.mb_w, 8 * x, 8 * y, 8, r.3, r.4, r.5),
{
    let (w, v) = (16 * fe.mb_w, 8 * fe.mb_w);
    (
        intraplan::above(fe.rec_y@, w, 16 * x, 16 * y, 16),
        intraplan::beside(fe.rec_y@, w, 16 * x, 16 * y, 16),
        intra4::corner_at(fe.rec_y@, w, 16 * x, 16 * y, y > 0 && x > 0),
        intraplan::above(rec, v, 8 * x, 8 * y, 8),
        intraplan::beside(rec, v, 8 * x, 8 * y, 8),
        intra4::corner_at(rec, v, 8 * x, 8 * y, y > 0 && x > 0),
    )
}

/// A 4x4 and an 8x8 block are predicted from the samples around them.
pub proof fn law_block_prediction<K: Kernels>(
    k: K,
    c: I4Ctx,
    s: I4State,
    d: I8Ctx,
    t: I8State,
    bx: int,
    by: int,
    m: u8,
) -> (r: (Seq<u8>, Seq<u8>, u8, Seq<u8>, Seq<u8>, u8))
    requires
        0 <= bx,
        0 <= by,
    ensures
        intra4::i4_prediction(k, c, s, bx, by, m) == kernels::intra4_of(
            k,
            m,
            (kernels::Around { top: by > 0, left: bx > 0 }),
            r.0,
            r.1,
            r.2,
        ),
        bordered(s.rec, 16 * c.mb_w, 4 * bx, 4 * by, 4, r.0, r.1, r.2),
        by > 0 ==> forall|i: int|
            4 <= i < 8 ==> #[trigger] r.0[i] == s.rec[(4 * by - 1) * (16 * c.mb_w) + 4 * bx + (if bx
                + 1 < 4 * c.mb_w && s.coded[(by - 1) * (4 * c.mb_w) + bx + 1] {
                i
            } else {
                3
            })],
        intra8::i8_prediction(k, d, t, bx, by, m) == kernels::intra8_of(
            k,
            m,
            (kernels::Around { top: by > 0, left: bx > 0 }),
            r.3,
            r.4,
            r.5,
        ),
        bordered(t.rec, 16 * d.mb_w, 4 * bx, 4 * by, 8, r.3, r.4, r.5),
        by > 0 ==> forall|i: int|
            8 <= i < 16 ==> #[trigger] r.3[i] == t.rec[(4 * by - 1) * (16 * d.mb_w) + 4 * bx + (if bx
                + 2 < 4 * d.mb_w && t.coded[(by - 1) * (4 * d.mb_w) + bx + 2] {
                i
            } else {
                7
            })],
{
    let (w, v) = (16 * c.mb_w, 16 * d.mb_w);
    (
        intra4::i4_top(
            s.rec,
            w,
            4 * bx,
            4 * by,
            by > 0,
            intra4::has_more(s.coded, 4 * c.mb_w, bx, by, 1),
        ),
        intra4::i4_left(s.rec, w, 4 * bx, 4 * by, bx > 0),
        intra4::corner_at(s.rec, w, 4 * bx, 4 * by, by > 0 && bx > 0),
        intra8::i8_top(
            t.rec,
            v,
            4 * bx,
            4 * by,
            by > 0,
            intra4::has_more(t.coded, 4 * d.mb_w, bx, by, 2),
        ),
        intra8::i8_left(t.rec, v, 4 * bx, 4 * by, bx > 0),
        intra4::corner_at(t.rec, v, 4 * bx, 4 * by, by > 0 && bx > 0),
    )
}

/// The samples of a luma macroblock: in each block, what its levels stand for at the QP, added to the
/// prediction of that block.
pub proof fn law_luma_samples<K: Kernels>(
    k: K,
    q: Seq<[i32; 16]>,
    qp: u8,
    pred: Seq<u8>,
    bx: int,
    by: int,
    j: int,
) -> (p: Seq<i32>)
    requires
        0 <= bx < 4,
        0 <= by < 4,
        0 <= j < 16,
    ensures
        quant::pred4(quant::luma_samples(k, q, qp, pred), 16, bx, by)[j] == kernels::add4_of(
            k,
            kernels::deq4_of(k, q[4 * by + bx]@, qp),
            p,
        )[j],
        p.len() == 16,
        forall|x: int, y: int|
            0 <= x < 4 && 0 <= y < 4 ==> #[trigger] p[4 * y + x] == pred[16 * (4 * by + y) + 4 * bx
                + x],
{
    let f = |i: int| quant::rec4(k, q[i]@, qp, quant::pred4(pred, 16, i % 4, i / 4));
    super::coding::law_cutting_undoes_tiling(f, bx, by, j);
    let i = 4 * by + bx;
    assert(i % 4 == bx && i / 4 == by);
    let p = quant::pred4(pred, 16, bx, by);
    assert forall|x: int, y: int| 0 <= x < 4 && 0 <= y < 4 implies #[trigger] p[4 * y + x]
        == pred[16 * (4 * by + y) + 4 * bx + x] by {
        assert((4 * y + x) % 4 == x && (4 * y + x) / 4 == y);
    }
    p
}

/// The same for chroma and for `I_16x16`, where the first coefficient of each block comes from the DC levels
/// of all.
pub proof fn law_samples_with_dc<K: Kernels>(
    k: K,
    qp: u8,
    dc: Seq<i32>,
    q: Seq<[i32; 16]>,
    cq: Seq<[i32; 16]>,
    cdc: Seq<i32>,
    qpc: u8,
    pred: Seq<u8>,
    cpred: Seq<u8>,
    bx: int,
    by: int,
    j: int,
)
    requires
        0 <= bx < 4,
        0 <= by < 4,
        0 <= j < 16,
    ensures
        quant::pred4(intraplan::i16_samples(k, qp, dc, q, pred), 16, bx, by)[j] == kernels::add4_of(
            k,
            kernels::deq4_of(k, q[4 * by + bx]@, qp).update(
                0,
                kernels::ldc_inv_of(k, dc, qp)[4 * by + bx],
            ),
            quant::pred4(pred, 16, bx, by),
        )[j],
        bx < 2 && by < 2 ==> quant::pred4(
            quant::chroma_samples(k, qpc, cdc, cq, cpred),
            8,
            bx,
            by,
        )[j] == kernels::add4_of(
            k,
            kernels::deq4_of(k, cq[2 * by + bx]@, qpc).update(
                0,
                kernels::cdc_inv_of(k, cdc, qpc)[2 * by + bx],
            ),
            quant::pred4(cpred, 8, bx, by),
        )[j],
{
    let f = |i: int|
        quant::rec4_dc(
            k,
            q[i]@,
            qp,
            kernels::ldc_inv_of(k, dc, qp)[i],
            quant::pred4(pred, 16, i % 4, i / 4),
        );
    super::coding::law_cutting_undoes_tiling(f, bx, by, j);
    assert((4 * by + bx) % 4 == bx && (4 * by + bx) / 4 == by);
    if bx < 2 && by < 2 {
        let g = |i: int|
            quant::rec4_dc(
                k,
                cq[i]@,
                qpc,
                kernels::cdc_inv_of(k, cdc, qpc)[i],
                quant::pred4(cpred, 8, i % 2, i / 2),
            );
        super::coding::law_cutting_undoes_tiling_of_chroma(g, bx, by, j);
        assert((2 * by + bx) % 2 == bx && (2 * by + bx) / 2 == by);
    }
}

/// The same for the 8x8 transform.
pub proof fn law_luma8_samples<K: Kernels>(
    k: K,
    q: Seq<[i32; 64]>,
    qp: u8,
    pred: Seq<u8>,
    b: int,
    j: int,
)
    requires
        0 <= b < 4,
        0 <= j < 64,
    ensures
        quant::pred8(quant::luma8_samples(k, q, qp, pred), b)[j] == kernels::add8_of(
            k,
            q[b]@,
            qp,
            quant::pred8(pred, b),
        )[j],
        quant::pred8(pred, b)[j] == pred[16 * (8 * (b / 2) + j / 8) + 8 * (b % 2) + j % 8],
{
    let f = |b: int| kernels::add8_of(k, q[b]@, qp, quant::pred8(pred, b));
    super::coding::law_cutting_undoes_tiling_by_eight(f, b, j);
}

/// The DC levels of an `I_16x16` macroblock come from the first coefficients of its blocks, in the raster;
/// its AC levels are quantised with the rounding of the frame and have no first level.
pub proof fn law_i16_levels<K: Kernels>(
    k: K,
    fe: FrameEncoder,
    sy: Seq<u8>,
    x: int,
    y: int,
    pred: Seq<u8>,
    i: int,
) -> (c: Seq<i32>)
    requires
        0 <= i < 16,
        !fe.rdoq_on,
        kernels::quant4_of(
            k,
            quant::luma_coefs(k, sy, fe.cw, (16 * x) as usize, (16 * y) as usize, pred, i),
            fe.qp,
            fe.idz,
        ).len() == 16,
    ensures
        ({
            let t = quant::luma_coefs(k, sy, fe.cw, (16 * x) as usize, (16 * y) as usize, pred, i);
            let l = intraplan::i16_levels(k, fe, sy, x, y, pred, i);
            &&& l[0] == 0
            &&& forall|j: int|
                1 <= j < 16 ==> #[trigger] l[j] == kernels::quant4_of(k, t, fe.qp, fe.idz)[j]
            &&& intraplan::i16_dc(k, fe, sy, x, y, pred) == kernels::ldc_of(k, c, fe.qp)
            &&& c.len() == 16 && c[i] == t[0]
        }),
{
    let (lx, ly) = ((16 * x) as usize, (16 * y) as usize);
    Seq::new(16, |i: int| quant::luma_coefs(k, sy, fe.cw, lx, ly, pred, i)[0])
}

/// A skip is predicted by reference 0 of list 0 at one vector: luma at the macroblock, chroma at half of
/// each measure.
pub proof fn law_skip_prediction<K: Kernels>(
    k: K,
    x: int,
    y: int,
    mv: (i32, i32),
    c: int,
) -> (j: (kernels::McJob, kernels::McJob))
    requires
        0 <= x,
        0 <= y,
        16 * x <= usize::MAX,
        16 * y <= usize::MAX,
        0 <= c < 2,
    ensures
        skip::skip_luma(k, x, y, mv) == kernels::mc_of(k, j.0),
        j.0.x == 16 * x && j.0.y == 16 * y && j.0.w == 16 && j.0.h == 16,
        j.0.plane == 0 && j.0.list == 0 && j.0.refi == 0 && j.0.mv == mv,
        skip::skip_chroma(k, x, y, mv, c) == kernels::mc_of(k, j.1).take(64),
        j.1.x == 8 * x && j.1.y == 8 * y && j.1.w == 8 && j.1.h == 8,
        j.1.plane == 1 + c && j.1.list == 0 && j.1.refi == 0 && j.1.mv == mv,
{
    (
        distortion::luma_job(0, 0, (16 * x) as usize, (16 * y) as usize, 16, 16, mv),
        kernels::McJob {
            list: 0,
            refi: 0,
            plane: (1 + c) as u8,
            x: (8 * x) as usize,
            y: (8 * y) as usize,
            w: 8,
            h: 8,
            mv,
        },
    )
}

/// The distortion of a macroblock is that of its luma and the share of that of both its chroma planes.
pub proof fn law_macroblock_distortion<K: Kernels>(
    k: K,
    fe: FrameEncoder,
    sy: Seq<u8>,
    su: Seq<u8>,
    sv: Seq<u8>,
    x: int,
    y: int,
)
    ensures
        ({
            let l = skip::rec_distance(sy, fe.rec_y@, fe.cw, 16, x, y);
            let c = skip::rec_distance(su, fe.rec_u@, fe.ccw, 8, x, y) + skip::rec_distance(
                sv,
                fe.rec_v@,
                fe.ccw,
                8,
                x,
                y,
            );
            skip::mb_distortion(k, fe, sy, su, sv, x, y) - l == kernels::chroma_share_of(
                k,
                c as i64,
            )
        }),
        skip::rec_distance(sy, sy, fe.cw, 16, x, y) == 0,
{
    let at = pixels::placed(fe.cw, (16 * x) as usize, (16 * y) as usize);
    assert(samples::apart_by(sy, at, sy, at, 16, 256, 0));
    samples::law_sums_of_differences(sy, at, sy, at, 16, 256, 0);
}

/// The 8x8 blocks of a CABAC macroblock: those of marked quarters, in order, without a flag of their own;
/// each shows the number of its levels in its four cells, an unmarked one none.
pub proof fn law_eight_blocks(nzc: Seq<u8>, q: Seq<[i32; 64]>, cbp: int, n: int)
    requires
        0 <= n < 4,
        nzc.len() == 48,
    ensures
        mbcabac::eight_bins(q, cbp, 0).len() == 0,
        plan::cbp_bit(cbp, n) ==> mbcabac::eight_bins(q, cbp, n + 1) == mbcabac::eight_bins(
            q,
            cbp,
            n,
        ) + residual::residual_bins(scan::zigzag8(q[n]@), 6, 0),
        !plan::cbp_bit(cbp, n) ==> mbcabac::eight_bins(q, cbp, n + 1) =~= mbcabac::eight_bins(
            q,
            cbp,
            n,
        ),
        ({
            let t = if plan::cbp_bit(cbp, n) {
                residual::count_nz(scan::zigzag8(q[n]@), 64) as u8
            } else {
                0
            };
            let r = mbcabac::eight_put(nzc, q, cbp, n + 1);
            let (x, y) = (2 * (n % 2), 2 * (n / 2));
            &&& r.len() == 48
            &&& r[9 + 8 * y + x] == t && r[9 + 8 * y + x + 1] == t
            &&& r[9 + 8 * (y + 1) + x] == t && r[9 + 8 * (y + 1) + x + 1] == t
            &&& forall|c: int|
                0 <= c < 48 && c != 9 + 8 * y + x && c != 10 + 8 * y + x && c != 17 + 8 * y + x && c
                    != 18 + 8 * y + x ==> #[trigger] r[c] == mbcabac::eight_put(nzc, q, cbp, n)[c]
        }),
    decreases n,
{
    lemma_eight_len(nzc, q, cbp, n);
    contexts::law_cache_cells(4 * n);
    contexts::law_cache_cells(4 * n + 1);
    contexts::law_cache_cells(4 * n + 2);
    contexts::law_cache_cells(4 * n + 3);
}

proof fn lemma_eight_len(nzc: Seq<u8>, q: Seq<[i32; 64]>, cbp: int, n: int)
    requires
        0 <= n <= 4,
        nzc.len() == 48,
    ensures
        mbcabac::eight_put(nzc, q, cbp, n).len() == 48,
    decreases n,
{
    if n > 0 {
        lemma_eight_len(nzc, q, cbp, n - 1);
    }
}

/// The chroma counts of a macroblock: without AC blocks they stay as they were.
pub proof fn law_chroma_counts(
    g: Seq<u8>,
    w: int,
    x: int,
    y: int,
    chroma: int,
    q: Seq<[[i32; 16]; 4]>,
    i: int,
    nzc: Seq<u8>,
    mask: u16,
    dc: Seq<[i32; 4]>,
)
    ensures
        chroma != 2 ==> mbcabac::chroma_counts(g, w, x, y, chroma, q, i) == g,
        chroma != 2 ==> mbcabac::chroma_nzc(nzc, chroma, q) == nzc,
        chroma < 1 ==> mbcabac::chroma_dc_mask(mask, chroma, dc) == mask,
        chroma >= 1 && residual::count_nz(dc[0]@, 4) == 0 && residual::count_nz(dc[1]@, 4) == 0
            ==> mbcabac::chroma_dc_mask(mask, chroma, dc) == mask,
        chroma >= 1 && residual::count_nz(dc[0]@, 4) > 0 ==> ((mbcabac::chroma_dc_mask(
            mask,
            chroma,
            dc,
        ) >> 7u16) & 1u16) == 1,
        chroma >= 1 && residual::count_nz(dc[1]@, 4) > 0 ==> ((mbcabac::chroma_dc_mask(
            mask,
            chroma,
            dc,
        ) >> 8u16) & 1u16) == 1,
{
    assert forall|m: u16| ((#[trigger] (m | (1u16 << 7u16)) >> 7u16) & 1u16) == 1 by {
        assert(((m | (1u16 << 7u16)) >> 7u16) & 1u16 == 1) by (bit_vector);
    }
    assert forall|m: u16|
        (((#[trigger] (m | (1u16 << 7u16)) | (1u16 << 8u16)) >> 7u16) & 1u16) == 1 by {
        assert((((m | (1u16 << 7u16)) | (1u16 << 8u16)) >> 7u16) & 1u16 == 1) by (bit_vector);
    }
    assert forall|m: u16| ((#[trigger] (m | (1u16 << 8u16)) >> 8u16) & 1u16) == 1 by {
        assert(((m | (1u16 << 8u16)) >> 8u16) & 1u16 == 1) by (bit_vector);
    }
}

/// The 8x8 transform is taken only where it codes something and is less than the 4x4 one, where both are
/// charged the levels and sixteen more, and the 8x8 one the penalty.
pub proof fn law_takes_8x8<K: Kernels>(
    k: K,
    fe: FrameEncoder,
    sy: Seq<u8>,
    x: int,
    y: int,
    pred: Seq<u8>,
    q4: Seq<[i32; 16]>,
    q8: Seq<[i32; 64]>,
) -> (r: (Rd, Rd))
    requires
        0 <= quant::luma8_rate(q8, 4) <= 0xffff,
        0 <= quant::luma_rate(q4, 16) <= 0xffff,
        0 <= fe.inter8_pen <= 0xffff_ffff,
    ensures
        interplan::takes_8x8(k, fe, sy, x, y, pred, q4, q8) ==> quant::luma8_pattern(q8) > 0
            && kernels::rd_less_of(k, fe.qp, r.0, r.1),
        quant::luma8_pattern(q8) > 0 && kernels::rd_less_of(k, fe.qp, r.0, r.1)
            ==> interplan::takes_8x8(k, fe, sy, x, y, pred, q4, q8),
        r.0.rate == quant::luma8_rate(q8, 4) + fe.inter8_pen + 16,
        r.1.rate == quant::luma_rate(q4, 16) + 16,
        r.0.ssd == interplan::mb_distance(
            quant::luma8_samples(k, q8, fe.qp, pred),
            sy,
            fe.cw,
            (16 * x) as usize,
            (16 * y) as usize,
        ) as i64,
{
    let (lx, ly) = ((16 * x) as usize, (16 * y) as usize);
    (
        Rd {
            ssd: interplan::mb_distance(
                quant::luma8_samples(k, q8, fe.qp, pred),
                sy,
                fe.cw,
                lx,
                ly,
            ) as i64,
            rate: (quant::luma8_rate(q8, 4) + 16 + fe.inter8_pen) as i64,
        },
        Rd {
            ssd: interplan::mb_distance(
                quant::luma_samples(k, q4, fe.qp, pred),
                sy,
                fe.cw,
                lx,
                ly,
            ) as i64,
            rate: (quant::luma_rate(q4, 16) + 16) as i64,
        },
    )
}

/// A macroblock in CAVLC: an inter one has its head, its pattern, then luma, then chroma; what stood before
/// stays.
pub proof fn law_inter_elements(
    fe: FrameEncoder,
    num_refs: usize,
    x: int,
    y: int,
    mode: u8,
    pp: Seq<(i32, (i32, i32))>,
    bspec: Option<BInter>,
    p: InterPlan,
    out: Seq<ElemView>,
    b: int,
)
    requires
        p.wf(),
        0 <= b < 16,
    ensures
        ({
            let r = mbcavlc::inter_coded(fe, num_refs, x, y, mode, pp, bspec, p, out).out;
            let head = mbcavlc::inter_pred_elems(num_refs, mode, pp, bspec, p)
                + mbcavlc::inter_cbp_elems(fe, p);
            let n = out.len() as int;
            let m = n + head.len();
            let cbp = p.cbp as int % 16;
            let at = m + 4 * elements::marked_before(cbp, b / 4) + b % 4;
            let c = m + 4 * elements::marked_before(cbp, 4);
            &&& r.len() >= m
            &&& r.take(m) == out + head
            &&& plan::cbp_bit(cbp, b / 4) ==> at < r.len() && r[at] is Residual && r[at]->levels == (
            if p.t8x8 {
                mbcavlc::levels8(p.q8@)
            } else {
                mbcavlc::levels4(p.q_blocks@)
            })[b]
            &&& r.len() == c + (if p.cbp < 16 {
                0int
            } else if p.cbp < 32 {
                2
            } else {
                10
            })
            &&& p.cbp >= 16 ==> r[c] == (ElemView::Residual { levels: p.c_dc_levels@[0]@, nc: -1int })
        }),
{
    let w = fe.mb_w as int;
    let head = mbcavlc::inter_pred_elems(num_refs, mode, pp, bspec, p) + mbcavlc::inter_cbp_elems(
        fe,
        p,
    );
    let whole = out + mbcavlc::inter_pred_elems(num_refs, mode, pp, bspec, p)
        + mbcavlc::inter_cbp_elems(fe, p);
    assert(whole =~= out + head);
    let levels = if p.t8x8 {
        mbcavlc::levels8(p.q8@)
    } else {
        mbcavlc::levels4(p.q_blocks@)
    };
    let cbp = p.cbp as int % 16;
    let s = mbcavlc::coding(fe, whole);
    let run = Run { nnz: s.ny, out: whole };
    elements::law_luma_order(w, x, y, levels, cbp, run, b);
    elements::lemma_marked(cbp, 3);
    elements::lemma_marked(cbp, b / 4);
    let l = mbcavlc::with_luma(w, x, y, levels, cbp, s);
    assert(l.out == cavlc::luma_run(w, x, y, levels, cbp, 0, run).out);
    let r = mbcavlc::with_chroma(w, x, y, p.c_dc_levels@, p.c_q@, p.cbp as int / 16, l);
    elements::law_chroma_elements(w, x, y, p.c_dc_levels@, p.c_q@, p.cbp as int / 16, l);
    lemma_chroma_keeps(w, x, y, p.c_dc_levels@, p.c_q@, p.cbp as int / 16, l);
    let m = whole.len() as int;
    assert(r.out.take(m) =~= whole) by {
        assert forall|i: int| 0 <= i < m implies r.out[i] == whole[i] by {
            assert(l.out.take(m)[i] == whole[i]);
        }
    }
}

proof fn lemma_chroma_keeps(
    w: int,
    x: int,
    y: int,
    dc: Seq<[i32; 4]>,
    q: Seq<[[i32; 16]; 4]>,
    chroma: int,
    s: mbcavlc::Coding,
)
    ensures
        ({
            let r = mbcavlc::with_chroma(w, x, y, dc, q, chroma, s).out;
            &&& r.len() >= s.out.len()
            &&& forall|i: int| 0 <= i < s.out.len() ==> #[trigger] r[i] == s.out[i]
        }),
{
    reveal_with_fuel(cavlc::chroma_run, 5);
}

/// An `I_NxN` macroblock in CAVLC starts with its type, 0 and in a P slice 5; then the transform flag, set for
/// 8x8 and clear for 4x4, which is left out where the stream has one transform; then its modes.
pub proof fn law_nxn_head(fe: FrameEncoder, x: int, y: int, p: MbPlan, is_p: bool)
    requires
        p.wf(),
        p.use_i4,
    ensures
        ({
            let h = mbcavlc::nxn_head(fe, x, y, p, is_p);
            &&& h[0] == ElemView::Ue(
                if is_p {
                    5
                } else {
                    0
                },
            )
            &&& p.i8 is Some ==> h[1] == ElemView::Flag(true) && h.skip(2) == mbcavlc::i8_mode_elems(
                fe,
                x,
                y,
                p.i8->Some_0.modes@,
                4,
            )
            &&& p.i8 is None && fe.transform_8x8 ==> h[1] == ElemView::Flag(false) && h.skip(2)
                == mbcavlc::i4_mode_elems(fe, x, y, p.i4->Some_0.modes@, 16)
            &&& p.i8 is None && !fe.transform_8x8 ==> h.skip(1) == mbcavlc::i4_mode_elems(
                fe,
                x,
                y,
                p.i4->Some_0.modes@,
                16,
            )
        }),
{
    let h = mbcavlc::nxn_head(fe, x, y, p, is_p);
    if p.i8 is Some {
        assert(h.skip(2) =~= mbcavlc::i8_mode_elems(fe, x, y, p.i8->Some_0.modes@, 4));
    } else if fe.transform_8x8 {
        assert(h.skip(2) =~= mbcavlc::i4_mode_elems(fe, x, y, p.i4->Some_0.modes@, 16));
    } else {
        assert(h.skip(1) =~= mbcavlc::i4_mode_elems(fe, x, y, p.i4->Some_0.modes@, 16));
    }
}

/// The modes come in coding order: that of block `z` behind those before it, against the prediction of its
/// place; those of 8x8 blocks by quarters.
pub proof fn law_mode_order(fe: FrameEncoder, x: int, y: int, m: Seq<u8>, e: Seq<u8>, z: int)
    requires
        0 <= z < 16,
    ensures
        mbcavlc::i4_mode_elems(fe, x, y, m, 0).len() == 0,
        mbcavlc::i4_mode_elems(fe, x, y, m, z + 1) == mbcavlc::i4_mode_elems(fe, x, y, m, z)
            + mbcavlc::mode_elems(
            m[4 * contexts::row(z) + contexts::column(z)],
            fe.i4_predicted(4 * x + contexts::column(z), 4 * y + contexts::row(z)),
        ),
        mbcavlc::i8_mode_elems(fe, x, y, e, 0).len() == 0,
        z < 4 ==> mbcavlc::i8_mode_elems(fe, x, y, e, z + 1) == mbcavlc::i8_mode_elems(fe, x, y, e, z)
            + mbcavlc::mode_elems(
            e[z],
            fe.i4_predicted(4 * x + 2 * (z % 2), 4 * y + 2 * (z / 2)),
        ),
{
    super::levels::law_blocks_come_by_quarters(z);
}

/// The parts of divided quarters lie in their quarters, in the order of the quarters.
pub proof fn law_quarter_rectangles(subs: Seq<u8>, q: int, i: int)
    requires
        0 <= q < 4,
        q < subs.len(),
        subs[q] <= 3,
        0 <= i < mbinter::sub_rects(subs[q] as int).len(),
    ensures
        ({
            let a = parts::quarter_rects(subs, q);
            let b = parts::quarter_rects(subs, q + 1);
            let r = mbinter::sub_rects(subs[q] as int)[i];
            &&& parts::quarter_rects(subs, 0).len() == 0
            &&& b.len() == a.len() + mbinter::sub_rects(subs[q] as int).len()
            &&& b[a.len() + i] == (
                (8 * (q % 2) + r.0) as usize,
                (8 * (q / 2) + r.1) as usize,
                r.2,
                r.3,
            )
            &&& 8 * (q % 2) + r.0 + r.2 <= 16 && 8 * (q / 2) + r.1 + r.3 <= 16
        }),
{
}

/// The walk starts at whole samples where that is asked for: at the nearest ones of where the search begins,
/// at what they cost.
pub proof fn law_walk_starts_whole<K: Kernels>(
    p: Pricer<K>,
    o: MeOptions,
    start: Option<(i32, i32)>,
    b: Spot,
)
    requires
        i32::MIN <= b.x <= i32::MAX - 3,
        i32::MIN <= b.y <= i32::MAX - 3,
    ensures
        ({
            let c = p.centred(o, start, b);
            &&& start is Some || !o.me_snap ==> c == b
            &&& start is None && o.me_snap ==> c.x % 4 == 0 && c.y % 4 == 0 && -1 <= c.x - b.x <= 2 && -1
                <= c.y - b.y <= 2
            &&& b.x % 4 == 0 && b.y % 4 == 0 ==> c == b
            &&& c != b ==> c.c == p.cost_at(true, c.x, c.y)
        }),
{
    super::searching::law_snapped(b.x);
    super::searching::law_snapped(b.y);
}

/// A given vector is not walked from; and the walk takes its distances in turn, each from where the one
/// before ended.
pub proof fn law_walk<K: Kernels>(
    p: Pricer<K>,
    o: MeOptions,
    mv: (i32, i32),
    fc: bool,
    steps: Seq<int>,
    i: int,
    s: Spot,
)
    requires
        0 <= i < steps.len(),
    ensures
        p.walked(o, Some(mv), s) == s,
        p.ladder(fc, steps, steps.len() as int, s) == s,
        p.ladder(fc, steps, i, s) == p.ladder(fc, steps, i + 1, p.dia_walk(fc, steps[i], s)),
        p.repriced(s).x == s.x && p.repriced(s).y == s.y,
        p.sadfp ==> p.repriced(s).c == p.cost_at(false, s.x, s.y),
        !p.sadfp ==> p.repriced(s) == s,
{
}

/// A rescue is no worse than where the walk stalled, and than any point of the grid around it.
pub proof fn law_rescue<K: Kernels>(p: Pricer<K>, o: MeOptions, s: Spot, i: int, j: int)
    requires
        o.me_range >= 0,
        0 <= i <= o.me_range,
        0 <= j <= o.me_range,
    ensures
        ({
            let r = p.rescue(o, s);
            let n = o.me_range as int;
            let (cx, cy) = (search::snapped(s.x), search::snapped(s.y));
            &&& r.c <= s.c
            &&& r.c <= p.cost_at(
                false,
                crate::arith::wrap(cx + 4 * (2 * i - n)),
                crate::arith::wrap(cy + 4 * (2 * j - n)),
            )
        }),
{
    let f = p.f(false);
    let n = o.me_range as int;
    let (cx, cy) = (search::snapped(s.x), search::snapped(s.y));
    let g = search::grid(cx, cy, n);
    let b = search::scan(f, g, 0, s);
    search::lemma_scan_falls(f, g, 0, s);
    search::lemma_cascade_falls(f, search::ring9(4), 0, b);
    assert(0 <= (n + 1) * (n + 1) && 0 < (n + 1) * (n + 1)) by (nonlinear_arith)
        requires
            n >= 0,
    ;
    super::searching::law_grid(cx, cy, n, i, j, 0);
    let k = choose|k: int| 0 <= k < g.len() && g[k] == (cx + 4 * (2 * i - n), cy + 4 * (2 * j - n));
    assert(b.c <= f(crate::arith::wrap(g[k].0), crate::arith::wrap(g[k].1)));
}

/// A pass of the refinement is never worse than where it starts.
pub proof fn law_refining_pass<K: Kernels>(p: Pricer<K>, o: MeOptions, pat: int, step: int, s: Spot)
    ensures
        p.sp_pass(o, pat, step, s).c <= s.c,
        pat % 2 == 1 ==> p.sp_pass(o, pat, step, s) == search::cascade(
            p.f(false),
            search::ring4(step),
            0,
            s,
        ),
{
    search::lemma_cascade_falls(p.f(false), search::ring4(step), 0, s);
    search::lemma_cascade_falls(p.f(false), search::ring8(step), 0, s);
    search::lemma_scan_falls(p.f(false), search::around(search::ring8(step), s), 0, s);
}

/// The difference of a block from the rounded mean of two others: none where it is that mean, and it does
/// not matter which of the two comes first.
pub proof fn law_difference_from_the_mean(
    s: Seq<u8>,
    sa: pixels::At,
    a: Seq<u8>,
    aa: pixels::At,
    b: Seq<u8>,
    ba: pixels::At,
    w: int,
    k: nat,
)
    ensures
        pixels::sad_mean(s, sa, a, aa, b, ba, w, k as int) >= 0,
        pixels::sad_mean(s, sa, a, aa, b, ba, w, k as int) == pixels::sad_mean(
            s,
            sa,
            b,
            ba,
            a,
            aa,
            w,
            k as int,
        ),
        pixels::sad_mean(s, sa, a, aa, a, aa, w, k as int) == pixels::sad(s, sa, a, aa, w, k as int),
    decreases k,
{
    if k > 0 {
        law_difference_from_the_mean(s, sa, a, aa, b, ba, w, (k - 1) as nat);
        let (dx, dy) = ((k - 1) % w, (k - 1) / w);
        samples::law_mean(a[aa.index(dx, dy)] as int, b[ba.index(dx, dy)] as int);
        samples::law_mean(a[aa.index(dx, dy)] as int, a[aa.index(dx, dy)] as int);
    }
}

/// The look-ahead compares each macroblock at its place: 16 by 16 samples in full resolution, 8 by 8 in half.
pub proof fn law_look<'a, K: Kernels>(p: FramePair<'a, K>, r: &'a [u8], x: int, y: int)
    requires
        p.wf(),
        0 <= x < p.mb_w,
        0 <= y < p.mb_h,
    ensures
        ({
            let i = y * p.mb_w + x;
            let (f, h) = (p.look_full(r, i), p.look_half(r, i));
            &&& f.bx0 == 16 * x && f.by0 == 16 * y && f.bs == 16 && f.cw == 16 * p.mb_w && f.ch == 16
                * p.mb_h
            &&& h.bx0 == 8 * x && h.by0 == 8 * y && h.bs == 8 && h.cw == 8 * p.mb_w && h.ch == 8
                * p.mb_h
            &&& f.sy@ == p.full@ && h.sy@ == p.half@
        }),
{
    grid::lemma_cell(p.mb_w as int, p.mb_h as int, x, y);
}

/// The end of a B slice: the run that is still open, if there is one.
pub proof fn law_b_slice_end(s: BState, t: BState)
    requires
        crate::bslice::b_ended(s, t),
    ensures
        s.run == 0 ==> t.out@ =~= s.out@,
        s.run > 0 ==> t.out@.len() == s.out@.len() + 1 && t.out@.last() == ElemView::Ue(s.run)
            && t.out@.drop_last() =~= s.out@,
        t.fe == s.fe,
{
}

/// The types of whole quarters are charged four bits in one, those of divided ones each by its bins.
pub proof fn law_types_price<'a, K: Kernels>(s: parts::Searcher<'a, K>, v: parts::ShapeView)
    requires
        v.subs.len() == 4,
    ensures
        v.mode != 3 ==> pslice::types_price(s, v) == 0,
        v.mode == 3 && v.subs[0] == 0 && v.subs[1] == 0 && v.subs[2] == 0 && v.subs[3] == 0
            ==> pslice::types_price(s, v) == s.plain(4),
        v.mode == 3 && v.subs[0] == 3 && v.subs[1] == 0 && v.subs[2] == 1 && v.subs[3] == 2
            ==> pslice::types_price(s, v) == s.plain(3) + s.plain(1) + s.plain(2) + s.plain(3),
{
    if v.subs[0] == 0 && v.subs[1] == 0 && v.subs[2] == 0 && v.subs[3] == 0 {
        assert(v.subs =~= crate::trial::whole_quarters());
    }
    assert(crate::trial::whole_quarters()[0] == 0);
}

/// What a B macroblock is searched with: each list on its own, the first before the second, around its own
/// prediction; both together at the two vectors that were found, blended by the frame's weights and charged
/// both differences.
pub proof fn law_both_lists<'a, K: Kernels>(
    env: BEnv<'a, K>,
    fe: &'a FrameEncoder,
    st: crate::search::MeState,
    x: int,
    y: int,
    w: int,
    h: int,
    p0: (i32, i32),
    p1: (i32, i32),
)
    ensures
        ({
            let b = env.both_of(fe, st, x, y, w, h, p0, p1).0;
            let (a, sa) = env.searcher(fe, false).found(st, 0, x, y, w, h, seq![p0], None);
            let (c, sc) = env.searcher(fe, true).found(sa, 0, x, y, w, h, seq![p1], None);
            &&& b.m0 == (a.x as i32, a.y as i32) && b.c0 == a.c as i64
            &&& b.m1 == (c.x as i32, c.y as i32) && b.c1 == c.c as i64
            &&& env.both_of(fe, st, x, y, w, h, p0, p1).1 == sc
        }),
{
    reveal(BEnv::both_of);
}

/// A block that is predicted exactly has no distortion; one that is off by the same everywhere has that much
/// for each sample.
pub proof fn law_region_difference(
    sy: Seq<u8>,
    cw: usize,
    lx: usize,
    ly: usize,
    rw: usize,
    rh: usize,
    pred: Seq<u8>,
    d: int,
)
    requires
        rw == 4 || rw == 8 || rw == 16,
        rh == 4 || rh == 8 || rh == 16,
        ly * cw + lx <= usize::MAX,
        forall|x: int, y: int|
            0 <= x < rw && 0 <= y < rh ==> #[trigger] sy[(ly * cw + lx) + y * cw + x] - pred[y * rw
                + x] == d,
    ensures
        distortion::region_dist(true, sy, cw, lx, ly, rw, rh, pred) == (rw * rh) * crate::arith::abs(
            d,
        ),
{
    let (a, b) = (pixels::placed(cw, lx, ly), pixels::dense(rw));
    assert(0 <= ly * cw) by (nonlinear_arith)
        requires
            0 <= ly,
            0 <= cw,
    ;
    assert(a.base == ly * cw + lx);
    let n = (rw * rh) as nat;
    let w = rw as int;
    assert(samples::apart_by(sy, a, pred, b, w, n as int, d)) by {
        assert forall|i: int| 0 <= i < n implies #[trigger] sy[a.base + (i / w) * a.stride + i % w]
            - pred[b.base + (i / w) * b.stride + i % w] == d by {
            assert(0 <= i / w < rh && 0 <= i % w < w) by (nonlinear_arith)
                requires
                    0 <= i < w * rh,
                    w > 0,
            ;
            assert(sy[(ly * cw + lx) + (i / w) * cw + i % w] - pred[(i / w) * rw + i % w] == d);
        }
    }
    samples::law_sums_of_differences(sy, a, pred, b, w, n, d);
}

} // verus!
