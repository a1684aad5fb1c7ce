//! What prices, plans and pairs of frames are made of.
use vstd::prelude::*;
use crate::cabac::Bin;
use crate::frame::FrameEncoder;
use crate::gop;
use crate::gop::{Gop, Weigher};
use crate::grid;
use crate::interplan::InterResidual;
use crate::intraplan;
use crate::kernels;
use crate::kernels::{Kernels, Phase, Price};
use crate::lookcost::{LookaheadMode, MbCost};
use crate::mbcabac::CabacState;
use crate::mbinter;
use crate::mbtree;
use crate::mbtree::FramePair;
use crate::motion::MvNeighbor;
use crate::parts::Searcher;
use crate::pixels;
use crate::plan;
use crate::plan::{InterPlan, MbPlan};
use crate::pslice;
use crate::quant;
use crate::search::{MeOptions, MeState, Pricer, Spot};
use crate::shapes;
use crate::skip;

verus! {

/// A B macroblock in halves is not direct, and its type is that of its two predictions.
pub proof fn law_b_halves_are_remembered(
    fe0: FrameEncoder,
    fe1: FrameEncoder,
    b0: Seq<Bin>,
    b1: Seq<Bin>,
    cs0: CabacState,
    cs1: CabacState,
    dir: u8,
    m: u8,
    h: [(u8, (i32, i32), (i32, i32)); 2],
    p: InterPlan,
    x: int,
    y: int,
)
    requires
        mbinter::b_inter_coded(fe0, fe1, b0, b1, cs0, cs1, dir, Some((m, h)), p, x, y),
        fe0.wf(),
        fe0.has_mb(x, y),
        cs0.wf(fe0.mb_w * fe0.mb_h),
        1 <= h@[0].0 <= 3,
        1 <= h@[1].0 <= 3,
        m == 1 || m == 2,
    ensures
        !cs1.mb_direct@[y * fe0.mb_w + x],
        ({
            let t = mbinter::b_type(dir as int, Some((m, h)));
            &&& 4 <= t <= 21
            &&& (t % 2 == 0) == (m == 1)
        }),
        mbinter::b_type(dir as int, None) == dir,
        mbinter::b_shape(dir as int, Some((m, h))).preds == seq![h@[0].0, h@[1].0],
        mbinter::b_shape(dir as int, Some((m, h))).l == mbinter::p_layout(m as int),
        mbinter::b_rects(m as int) == crate::motion::rects(m as int),
{
    grid::lemma_cell(fe0.mb_w as int, fe0.mb_h as int, x, y);
    super::walks::law_b_types(h@[0].0 as int, h@[1].0 as int, m as int);
    assert(mbinter::b_rects(m as int) =~= crate::motion::rects(m as int));
}

/// The motion of a B macroblock in halves: the differences of list 0 of those halves that use it, in order,
/// then those of list 1.
pub proof fn law_b_halves_motion(
    bins: Seq<Bin>,
    cs: CabacState,
    dir: u8,
    m: u8,
    h: [(u8, (i32, i32), (i32, i32)); 2],
    d: Seq<(i32, i32)>,
    w: int,
    x: int,
    y: int,
)
    requires
        m == 1 || m == 2,
    ensures
        ({
            let l = mbinter::p_layout(m as int);
            let (m0, m1) = mbinter::b_motion(
                bins,
                cs,
                mbinter::b_shape(dir as int, Some((m, h))),
                d,
                w,
                x,
                y,
            );
            let z0 = mbinter::motion0(bins, cs, false, -1i8, w, x, y);
            let z1 = mbinter::motion0(m0.bins, cs, true, -1i8, w, x, y);
            &&& h@[0].0 == 1 && h@[1].0 == 1 ==> m0 == z0.with_mvd(l[0], d[0], 0).with_mvd(
                l[1],
                d[1],
                0,
            ) && m1 == z1
            &&& h@[0].0 == 1 && h@[1].0 == 2 ==> m0 == z0.with_mvd(l[0], d[0], 0) && m1
                == z1.with_mvd(l[1], d[1], 0)
            &&& h@[0].0 == 2 && h@[1].0 == 1 ==> m0 == z0.with_mvd(l[1], d[0], 0) && m1
                == z1.with_mvd(l[0], d[1], 0)
            &&& h@[0].0 == 3 && h@[1].0 == 3 ==> m0 == z0.with_mvd(l[0], d[0], 0).with_mvd(
                l[1],
                d[1],
                0,
            ) && m1 == z1.with_mvd(l[0], d[2], 0).with_mvd(l[1], d[3], 0)
        }),
{
    reveal_with_fuel(mbinter::Motion::with_used, 4);
    reveal_with_fuel(mbinter::used_count, 4);
}

/// The pattern of a planned inter macroblock holds the luma pattern in its low four bits and the chroma
/// pattern above them.
pub proof fn law_planned_pattern<K: Kernels>(
    r: InterResidual,
    k: K,
    fe: FrameEncoder,
    sy: Seq<u8>,
    su: Seq<u8>,
    sv: Seq<u8>,
    x: int,
    y: int,
    pred: Seq<u8>,
    pu: Seq<u8>,
    pv: Seq<u8>,
    flat: bool,
)
    requires
        r.codes(k, fe, sy, su, sv, x, y, pred, pu, pv, flat),
    ensures
        r.cbp as int % 16 == (if r.t8x8 {
            quant::luma8_pattern(r.q8@)
        } else {
            quant::luma_pattern(r.q_blocks@)
        }),
        r.cbp as int / 16 == r.chroma_cbp(),
        r.c_dc_levels@[0]@ == quant::chroma_dc(
            k,
            crate::interplan::inter_way(fe),
            su,
            fe.ccw,
            (8 * x) as usize,
            (8 * y) as usize,
            pu,
        ),
        r.c_dc_levels@[1]@ == quant::chroma_dc(
            k,
            crate::interplan::inter_way(fe),
            sv,
            fe.ccw,
            (8 * x) as usize,
            (8 * y) as usize,
            pv,
        ),
{
    super::coding::law_luma_pattern(r.q_blocks@, 0);
    super::coding::law_luma8_pattern(r.q8@, 0);
}

/// The pattern of a planned intra macroblock marks the quarters that have a level.
pub proof fn law_planned_intra_pattern<K: Kernels>(
    k: K,
    a: FrameEncoder,
    sy: Seq<u8>,
    x: int,
    y: int,
    r: MbPlan,
    b: int,
)
    requires
        intraplan::luma_planned(k, a, sy, x, y, r),
        0 <= b < 4,
    ensures
        r.i4 is Some ==> (plan::cbp_bit(r.i4->Some_0.cbp_luma as int, b) <==> exists|
            u: int,
            v: int,
            j: int,
        |
            2 * (b % 2) <= u < 2 * (b % 2) + 2 && 2 * (b / 2) <= v < 2 * (b / 2) + 2 && 0 <= j < 16
                && #[trigger] r.i4->Some_0.q@[4 * v + u]@[j] != 0),
        r.i8 is Some ==> (plan::cbp_bit(r.i8->Some_0.cbp_luma as int, b) <==> exists|j: int|
            0 <= j < 64 && #[trigger] r.i8->Some_0.q@[b]@[j] != 0),
{
    if r.i4 is Some {
        super::coding::law_luma_pattern(r.i4->Some_0.q@, b);
    }
    if r.i8 is Some {
        super::coding::law_luma8_pattern(r.i8->Some_0.q@, b);
    }
}

/// A whole quarter costs what its search found and one bit for its type; a divided one starts from the bins
/// of its type.
pub proof fn law_quarter_costs<'a, K: Kernels>(
    s: Searcher<'a, K>,
    st: MeState,
    nb: Seq<MvNeighbor>,
    num_refs: int,
    x: int,
    y: int,
    mv16: (i32, i32),
)
    ensures
        ({
            let (f, st1) = s.best_of(st, nb, num_refs, x, y, 8, 8, seq![mv16]);
            let (whole, best) = shapes::quarter_of(s, st, nb, num_refs, x, y, mv16).0;
            &&& whole.cost == f.cost + s.plain(1)
            &&& whole.sub == 0
            &&& whole.parts == seq![(f.refi, f.mv)]
            &&& best.cost <= whole.cost
        }),
{
    reveal(shapes::quarter_of);
    let (f, st1) = s.best_of(st, nb, num_refs, x, y, 8, 8, seq![mv16]);
    let whole = shapes::ArmView {
        parts: seq![(f.refi, f.mv)],
        sub: 0,
        cost: f.cost + s.plain(1),
    };
    super::partitions::law_arms_are_no_dearer(
        s,
        st1,
        nb,
        num_refs,
        x,
        y,
        seq![mv16, f.mv],
        1,
        whole,
    );
}

/// Intra coding is taken to cost the least distortion of a mode that can be used, and the charge for intra:
/// no more than any such mode and the charge.
pub proof fn law_intra_estimate<K: Kernels>(
    k: K,
    fe: FrameEncoder,
    sy: Seq<u8>,
    x: int,
    y: int,
    m: plan::I16Mode,
)
    requires
        m.usable(y > 0, x > 0),
    ensures
        ({
            let charge = kernels::price_of(
                k,
                Price { phase: Phase::Intra, bits: 0, loud: fe.mb_loud },
            );
            let c = pslice::intra_cost(k, fe, sy, x, y) - charge;
            &&& fe.fast && !fe.mb_use_satd ==> c <= intraplan::i16_sad(k, fe, sy, x, y, m)
            &&& !fe.fast || fe.mb_use_satd ==> c <= intraplan::i16_cost(k, fe, sy, x, y, m)
        }),
{
    intraplan::law_i16_mode_is_cheapest(k, fe, sy, x, y, m);
}

/// The look-ahead in half resolution starts from half the seed, and the vector that it finds counts double;
/// the hybrid one searches on from that in full resolution, near by.
pub proof fn law_half_resolution<'a, K: Kernels>(p: FramePair<'a, K>, out: Seq<MbCost>, i: int)
    requires
        p.ref_full is Some,
        p.ref_half is Some,
    ensures
        ({
            let h = p.look_half(p.ref_half->Some_0, i).found(
                mbtree::half_vector(p.seed(out, i)),
                8,
            );
            let f = p.look_full(p.ref_full->Some_0, i).found(mbtree::twice(h.x, h.y), 2);
            let c = p.cost(out, i);
            &&& p.mode == LookaheadMode::HalfRes ==> c.mv == mbtree::twice(h.x, h.y)
            &&& p.mode == LookaheadMode::HalfRes ==> c.inter == (if h.c < p.intra(i) {
                h.c
            } else {
                p.intra(i)
            }) as i32
            &&& p.mode == LookaheadMode::Hybrid ==> c.mv == (f.x as i32, f.y as i32)
            &&& p.mode == LookaheadMode::Hybrid ==> c.inter == (if f.c < p.intra(i) {
                f.c
            } else {
                p.intra(i)
            }) as i32
        }),
{
}

/// Each frame of a group is compared with the one before it, the first with none.
pub proof fn law_frames_follow_each_other<'a, K: Kernels, W: Weigher>(
    g: Gop<'a, K, W>,
    p: FramePair<'a, K>,
    f: int,
)
    requires
        g.shows(p, f),
        0 <= f < g.frames@.len(),
    ensures
        p.full@ == g.full(f),
        f == 0 ==> p.ref_full is None && p.ref_half is None,
        f > 0 ==> p.ref_full is Some && p.ref_full->Some_0@ == g.full(f - 1),
        f > 0 && g.mode != LookaheadMode::FullRes ==> p.ref_half is Some && p.ref_half->Some_0@
            == g.half(f - 1),
        p.mode == g.mode,
        p.mb_w == g.cfg.mbs_across() && p.mb_h == g.cfg.mbs_down(),
{
}

/// A group gets no offsets where none are asked for, where it is empty, and where its second frame differs
/// from its first as grain does and that counts; nowhere else without being looked at.
pub proof fn law_idle_groups<'a, K: Kernels, W: Weigher>(g: Gop<'a, K, W>)
    ensures
        !g.active ==> g.idle(),
        g.frames@.len() == 0 ==> g.idle(),
        g.grain_veto && g.frames@.len() >= 2 && gop::grain_of(*g.w, g.full(1), g.full(0)) ==> g.idle(),
        g.active && g.frames@.len() > 0 && !g.grain_veto ==> !g.idle(),
        g.active && g.frames@.len() == 1 ==> !g.idle(),
{
}

/// The distortion per sample is what the cost is above the plain price of the rate, over the number of
/// samples, rounded down.
pub proof fn law_distortion_per_sample<K: Kernels>(p: Pricer<K>, s: Spot)
    requires
        p.rw > 0,
        p.rh > 0,
    ensures
        ({
            let price = kernels::price_of(
                *p.k,
                Price {
                    phase: Phase::Plain,
                    bits: p.rate_at(s.x, s.y) as u32,
                    loud: p.fe.mb_loud,
                },
            );
            let d = s.c - price;
            let n = p.rw * p.rh;
            d >= 0 ==> p.per_sample(s) >= 0 && p.per_sample(s) * n <= d && d < (p.per_sample(s) + 1)
                * n
        }),
{
    let price = kernels::price_of(
        *p.k,
        Price { phase: Phase::Plain, bits: p.rate_at(s.x, s.y) as u32, loud: p.fe.mb_loud },
    );
    let d = s.c - price;
    let n = p.rw * p.rh;
    assert(n > 0) by (nonlinear_arith)
        requires
            p.rw > 0,
            p.rh > 0,
            n == p.rw * p.rh,
    ;
    if d >= 0 {
        super::samples::law_quotient(d, n);
        assert(p.per_sample(s) >= 0) by {
            assert(d / n >= 0) by (nonlinear_arith)
                requires
                    d >= 0,
                    n > 0,
            ;
        }
    }
}

proof fn lemma_flat_sums(a: Seq<u8>, at: pixels::At, w: int, k: nat, v: u8)
    requires
        forall|i: int| 0 <= i < k ==> a[at.base + #[trigger] (i / w) * at.stride + i % w] == v,
    ensures
        pixels::sum_of(a, at, w, k as int) == k * v,
        pixels::squares_of(a, at, w, k as int) == k * (v * v),
    decreases k,
{
    if k > 0 {
        lemma_flat_sums(a, at, w, (k - 1) as nat, v);
        let i = k - 1;
        assert(a[at.base + (i / w) * at.stride + i % w] == v);
        assert((k - 1) * v + v == k * v) by (nonlinear_arith);
        assert((k - 1) * (v * v) + v * v == k * (v * v)) by (nonlinear_arith);
    } else {
        assert(0 * (v * v) == 0) by (nonlinear_arith);
    }
}

/// Equal samples have no variance.
pub proof fn law_flat_variance(a: Seq<u8>, at: pixels::At, w: int, h: int, v: u8)
    requires
        w > 0,
        h > 0,
        forall|i: int|
            0 <= i < w * h ==> a[at.base + #[trigger] (i / w) * at.stride + i % w] == v,
    ensures
        pixels::variance(a, at, w, h) == 0,
{
    let n = w * h;
    assert(n > 0) by (nonlinear_arith)
        requires
            w > 0,
            h > 0,
            n == w * h,
    ;
    lemma_flat_sums(a, at, w, n as nat, v);
    let s = n * v;
    assert(s * s == n * (n * (v * v))) by (nonlinear_arith)
        requires
            s == n * v,
    ;
    assert((n * (n * (v * v))) / n == n * (v * v)) by {
        vstd::arithmetic::div_mod::lemma_div_multiples_vanish(n * (v * v), n);
    }
    assert(0int / n == 0) by (nonlinear_arith)
        requires
            n > 0,
    ;
}

/// A block of equal samples is flat at every limit.
pub proof fn law_flat_blocks_are_flat<K: Kernels>(p: Pricer<K>, o: MeOptions, v: u8)
    requires
        p.rw > 0,
        p.rh > 0,
        o.me_wide_var > 0,
        p.ly * p.fe.cw + p.lx <= usize::MAX,
        forall|i: int|
            0 <= i < p.rw * p.rh ==> p.sy@[(p.ly * p.fe.cw + p.lx) + #[trigger] (i / (p.rw as int))
                * p.fe.cw + i % (p.rw as int)] == v,
    ensures
        p.flat(o),
{
    let at = pixels::placed(p.fe.cw, p.lx, p.ly);
    assert(0 <= p.ly * p.fe.cw) by (nonlinear_arith)
        requires
            0 <= p.ly,
            0 <= p.fe.cw,
    ;
    assert(at.base == p.ly * p.fe.cw + p.lx);
    law_flat_variance(p.sy@, at, p.rw as int, p.rh as int, v);
}

/// A skip is free in luma exactly where the quantiser leaves no level of any block; in a plane of chroma
/// where it leaves none behind the first ones, and none of these together.
pub proof fn law_free_skip<K: Kernels>(
    k: K,
    qp: u8,
    sy: Seq<u8>,
    cw: usize,
    lx: usize,
    ly: usize,
    pred: Seq<u8>,
    i: int,
    j: int,
)
    requires
        0 <= i < 16,
        kernels::quant4_of(k, quant::luma_coefs(k, sy, cw, lx, ly, pred, i), qp, 6).len() == 16,
        0 <= j < 16,
    ensures
        ({
            let q = kernels::quant4_of(k, quant::luma_coefs(k, sy, cw, lx, ly, pred, i), qp, 6);
            q[j] != 0 ==> !skip::luma_free(k, qp, sy, cw, lx, ly, pred)
        }),
        ({
            let q = kernels::quant4_of(k, quant::chroma_coefs(k, sy, cw, lx, ly, pred, i), qp, 6);
            i < 4 && j >= 1 && q.len() == 16 && q[j] != 0 ==> !skip::chroma_free(
                k,
                qp,
                sy,
                cw,
                lx,
                ly,
                pred,
            )
        }),
{
    let c = quant::luma_coefs(k, sy, cw, lx, ly, pred, i);
    let q = kernels::quant4_of(k, c, qp, 6);
    if q[j] != 0 {
        assert(quant::any_level(q, 0));
    }
    let d = quant::chroma_coefs(k, sy, cw, lx, ly, pred, i);
    let e = kernels::quant4_of(k, d, qp, 6);
    if i < 4 && j >= 1 && e.len() == 16 && e[j] != 0 {
        assert(quant::any_level(e, 1));
    }
}

/// A DC level of a plane of chroma keeps a skip from being free.
pub proof fn law_free_skip_has_no_dc<K: Kernels>(
    k: K,
    qp: u8,
    s: Seq<u8>,
    cw: usize,
    x: usize,
    y: usize,
    pred: Seq<u8>,
    c: Seq<i32>,
    j: int,
)
    requires
        c.len() == 4,
        forall|i: int|
            0 <= i < 4 ==> #[trigger] c[i] == quant::chroma_coefs(k, s, cw, x, y, pred, i)[0],
        kernels::cdc_of(k, c, qp, false).len() == 4,
        0 <= j < 4,
        kernels::cdc_of(k, c, qp, false)[j] != 0,
    ensures
        !skip::chroma_free(k, qp, s, cw, x, y, pred),
{
    let d = Seq::new(4, |i: int| quant::chroma_coefs(k, s, cw, x, y, pred, i)[0]);
    assert(d =~= c);
    assert(quant::any_level(kernels::cdc_of(k, c, qp, false), 0));
}

} // verus!
