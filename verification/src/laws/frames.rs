//! What frames start from and what macroblocks leave in them.
use vstd::prelude::*;
use crate::arith;
use crate::bits;
use crate::bslice::BEnv;
use crate::config::EncoderConfig;
use crate::frame::FrameEncoder;
use crate::grid;
use crate::interplan;
use crate::interplan::InterResidual;
use crate::intra4;
use crate::intra4::{I4Ctx, I4State};
use crate::intra8;
use crate::intra8::{I8Ctx, I8State};
use crate::intraplan;
use crate::kernels;
use crate::kernels::Kernels;
use crate::mbstate;
use crate::motion;
use crate::motion::MvNeighbor;
use crate::params;
use crate::params::LEVEL_CAPS;
use crate::parts;
use crate::parts::Searcher;
use crate::pslice::SkipCensus;
use crate::quant;
use crate::rank;
use crate::rect;
use crate::search::MeState;
use crate::setup;
use crate::setup::{FrameParams, YuvFrame};
use crate::signals::FrameSignals;
use super::contexts;

verus! {

/// Magnitudes, the lesser and the greater of two numbers, and a number kept in a range.
pub proof fn law_numbers(a: int, b: int, c: int)
    ensures
        arith::abs(a) >= 0 && (arith::abs(a) == a || arith::abs(a) == -a),
        arith::min(a, b) <= a && arith::min(a, b) <= b && (arith::min(a, b) == a || arith::min(a, b)
            == b),
        arith::max(a, b) >= a && arith::max(a, b) >= b && (arith::max(a, b) == a || arith::max(a, b)
            == b),
        b <= c ==> b <= arith::clamp(a, b, c) <= c,
        b <= a <= c ==> arith::clamp(a, b, c) == a,
        b <= c && a < b ==> arith::clamp(a, b, c) == b,
        b <= c && a > c ==> arith::clamp(a, b, c) == c,
{
}

/// The bits that end a payload: a one, then zeros, up to a whole byte and no further.
pub proof fn law_trailing_bits(len: int, i: int)
    requires
        0 <= len,
    ensures
        ({
            let t = bits::trailing(len);
            &&& (len + t.len()) % 8 == 0
            &&& 1 <= t.len() <= 8
            &&& t[0]
            &&& 0 < i < t.len() ==> !t[i]
        }),
{
}

/// What the levels allow: each names how many macroblocks a frame and the buffer may have. Both never fall
/// from one level to the next.
pub proof fn law_level_limits(i: int)
    requires
        0 <= i < 16,
    ensures
        i < 15 ==> LEVEL_CAPS[i].0 < LEVEL_CAPS[i + 1].0 && LEVEL_CAPS[i].1 <= LEVEL_CAPS[i + 1].1
            && LEVEL_CAPS[i].2 <= LEVEL_CAPS[i + 1].2,
        LEVEL_CAPS[i].0 / 10 == seq![1int, 1, 1, 1, 2, 2, 2, 3, 3, 3, 4, 4, 4, 5, 5, 5][i],
        LEVEL_CAPS[i].0 % 10 == seq![0int, 1, 2, 3, 0, 1, 2, 0, 1, 2, 0, 1, 2, 0, 1, 2][i],
        LEVEL_CAPS[i].1 == seq![
            99int,
            396,
            396,
            396,
            396,
            792,
            1620,
            1620,
            3600,
            5120,
            8192,
            8192,
            8704,
            22080,
            36864,
            36864,
        ][i],
        LEVEL_CAPS[i].2 == seq![
            396int,
            900,
            2376,
            2376,
            2376,
            4752,
            8100,
            8100,
            18000,
            20480,
            32768,
            32768,
            34816,
            110400,
            184320,
            184320,
        ][i],
        forall|f: int, d: int|
            #[trigger] params::level_fits(i, f, d) == (f <= LEVEL_CAPS[i].1 && d
                <= LEVEL_CAPS[i].2),
{
}

/// Writing a block into a grid: its cells come at their columns and rows, and no other cell changes.
pub proof fn law_put_block<T>(
    g: Seq<T>,
    w: int,
    h: int,
    x0: int,
    y0: int,
    rw: int,
    rh: int,
    b: Seq<T>,
    v: T,
    x: int,
    y: int,
)
    requires
        g.len() == w * h,
        0 <= x < w,
        0 <= y < h,
    ensures
        ({
            let r = rect::put_block(g, w, x0, y0, rw, rh, b);
            let f = rect::fill(g, w, x0, y0, rw, rh, v);
            let covered = x0 <= x < x0 + rw && y0 <= y < y0 + rh;
            &&& r.len() == g.len() && f.len() == g.len()
            &&& covered ==> r[y * w + x] == b[(y - y0) * rw + (x - x0)] && f[y * w + x] == v
            &&& !covered ==> r[y * w + x] == g[y * w + x] && f[y * w + x] == g[y * w + x]
        }),
{
    grid::lemma_cell(w, h, x, y);
}

/// A skipped macroblock leaves its prediction as samples and, in all its blocks, one vector into reference
/// 0; its blocks count as coded, as inter, and as DC for intra prediction.
pub proof fn law_skip_leaves(
    a: FrameEncoder,
    b: FrameEncoder,
    x: int,
    y: int,
    mv: (i32, i32),
    py: Seq<u8>,
    pu: Seq<u8>,
    pv: Seq<u8>,
    dx: int,
    dy: int,
)
    requires
        a.wf(),
        a.has_mb(x, y),
        mbstate::skip_committed(a, b, x, y, mv, py, pu, pv),
        0 <= dx < 16,
        0 <= dy < 16,
    ensures
        ({
            let w = a.mb_w as int;
            let i = (4 * y + dy) * (4 * w) + 4 * x + dx;
            &&& b.rec_y@[(16 * y + dy) * (16 * w) + 16 * x + dx] == py[16 * dy + dx]
            &&& dx < 8 && dy < 8 ==> b.rec_u@[(8 * y + dy) * (8 * w) + 8 * x + dx] == pu[8 * dy + dx]
            &&& dx < 8 && dy < 8 ==> b.rec_v@[(8 * y + dy) * (8 * w) + 8 * x + dx] == pv[8 * dy + dx]
            &&& dx < 4 && dy < 4 ==> b.mv_y@[i] == mv && b.ref_idx_y@[i] == 0 && b.inter_y@[i]
                && b.coded_y@[i] && b.modes_y@[i] == 2
            &&& b.cur_qp == a.cur_qp
        }),
{
    let (w, h) = (a.mb_w as int, a.mb_h as int);
    grid::lemma_cell(16 * w, 16 * h, 16 * x + dx, 16 * y + dy);
    if dx < 8 && dy < 8 {
        grid::lemma_cell(8 * w, 8 * h, 8 * x + dx, 8 * y + dy);
    }
    if dx < 4 && dy < 4 {
        grid::lemma_cell(4 * w, 4 * h, 4 * x + dx, 4 * y + dy);
    }
}

/// Direct motion leaves each block of the macroblock its own references and vectors in both lists.
pub proof fn law_direct_leaves(
    a: FrameEncoder,
    b: FrameEncoder,
    x: int,
    y: int,
    d: Seq<(i32, (i32, i32), i32, (i32, i32))>,
    dx: int,
    dy: int,
)
    requires
        a.wf(),
        a.has_mb(x, y),
        mbstate::direct_committed(a, b, x, y, d),
        0 <= dx < 4,
        0 <= dy < 4,
    ensures
        ({
            let i = (4 * y + dy) * (4 * a.mb_w) + 4 * x + dx;
            (b.ref_idx_y@[i], b.mv_y@[i], b.ref_idx1_y@[i], b.mv1_y@[i]) == d[4 * dy + dx]
                && b.inter_y@[i] && b.coded_y@[i]
        }),
{
    let (w, h) = (a.mb_w as int, a.mb_h as int);
    grid::lemma_cell(4 * w, 4 * h, 4 * x + dx, 4 * y + dy);
}

/// A new frame: everything is blank, nothing is coded or refers to anything, all modes are DC, the QP is
/// that of the configuration and equal weights blend. Frames of intra macroblocks alone are quantised with
/// the wider rounding.
pub proof fn law_new_frame(cfg: EncoderConfig, p: FrameParams, r: FrameEncoder, i: int)
    requires
        setup::coded_size_ok(cfg),
        cfg.qp <= 51,
        call_ensures(FrameEncoder::new, (&cfg, p), r),
        0 <= i < r.mv_y@.len(),
    ensures
        r.wf(),
        r.mb_w == cfg.mbs_across() && r.mb_h == cfg.mbs_down(),
        r.qp == cfg.qp && r.cur_qp == cfg.qp && r.qpc == setup::chroma_of(cfg.qp),
        r.bi_w.0 == 32 && r.bi_w.1 == 32,
        !r.coded_y@[i] && !r.inter_y@[i],
        r.ref_idx_y@[i] < 0 && r.ref_idx1_y@[i] < 0,
        r.mv_y@[i] == (0i32, 0i32) && r.mv1_y@[i] == (0i32, 0i32),
        r.nnz_y@[i] == 0,
        r.modes_y@[i] == 2,
        p.all_intra ==> r.idz == 2,
        !p.all_intra ==> r.idz == 3,
        r.transform_8x8 == cfg.transform_8x8,
        r.fast == p.fast,
{
}

/// The coded planes hold the picture and repeat its edges, in whole macroblocks.
pub proof fn law_coded_planes(
    cfg: EncoderConfig,
    f: YuvFrame,
    r: (Vec<u8>, Vec<u8>, Vec<u8>),
    x: int,
    y: int,
)
    requires
        f.wf(),
        setup::coded_size_ok(cfg),
        call_ensures(setup::coded_source, (&cfg, &f), r),
        f.width == cfg.width,
        f.height == cfg.height,
        0 <= x < 16 * cfg.mbs_across(),
        0 <= y < 16 * cfg.mbs_down(),
    ensures
        ({
            let (cx, cy) = (
                if x < f.width {
                    x
                } else {
                    f.width - 1
                },
                if y < f.height {
                    y
                } else {
                    f.height - 1
                },
            );
            r.0@[y * (16 * cfg.mbs_across()) + x] == f.y@[cy * f.width + cx]
        }),
        ({
            let (hw, hh) = ((f.width + 1) / 2, (f.height + 1) / 2);
            let (cx, cy) = (
                if x < hw {
                    x
                } else {
                    hw - 1
                },
                if y < hh {
                    y
                } else {
                    hh - 1
                },
            );
            x < 8 * cfg.mbs_across() && y < 8 * cfg.mbs_down() ==> r.1@[y * (8 * cfg.mbs_across()) + x]
                == f.u@[cy * hw + cx] && r.2@[y * (8 * cfg.mbs_across()) + x] == f.v@[cy * hw + cx]
        }),
{
    let (w, h) = (cfg.mbs_across(), cfg.mbs_down());
    super::samples::law_extension(
        f.y@,
        f.width as int,
        f.height as int,
        16 * w,
        16 * h,
        x,
        y,
    );
    if x < 8 * w && y < 8 * h {
        super::samples::law_extension(f.u@, f.cw(), f.ch(), 8 * w, 8 * h, x, y);
        super::samples::law_extension(f.v@, f.cw(), f.ch(), 8 * w, 8 * h, x, y);
    }
}

/// A new census of skips has seen nothing, and looks at an eighth of the frame first, but no less than 64
/// macroblocks.
pub proof fn law_new_skip_census(n: u64, r: SkipCensus)
    requires
        call_ensures(SkipCensus::new, (n,), r),
    ensures
        r.free == 0 && r.seen == 0,
        r.learn >= 64,
        n >= 520 ==> r.learn == n / 8,
        n < 520 ==> r.learn == 64,
{
}

proof fn lemma_at_most_rises(v: Seq<i64>, a: int, b: int, k: int)
    requires
        a <= b,
    ensures
        rank::at_most(v, a, k) <= rank::at_most(v, b, k),
    decreases k,
{
    if k > 0 {
        lemma_at_most_rises(v, a, b, k - 1);
    }
}

/// What stands at a later place of a sorted list is never less.
pub proof fn law_ranks_rise(v: Seq<i64>, j: int, k: int, a: i64, b: i64)
    requires
        j <= k,
        rank::is_nth(v, j, a),
        rank::is_nth(v, k, b),
    ensures
        a <= b,
{
    if b < a {
        lemma_at_most_rises(v, b as int, a - 1, v.len() as int);
    }
}

/// At a place of a sorted list, no more entries are less than there are places before it, and no more are
/// greater than there are places behind it.
pub proof fn law_rank(v: Seq<i64>, k: int, r: i64)
    requires
        rank::is_nth(v, k, r),
    ensures
        rank::at_most(v, r - 1, v.len() as int) <= k,
        v.len() - rank::at_most(v, r as int, v.len() as int) < v.len() - k,
        rank::at_most(v, r as int, 0) == 0,
{
}

/// The ranks of the variances of a frame rise with the place.
pub proof fn law_variance_ranks<'a>(f: FrameSignals<'a>, j: usize, k: usize, a: i64, b: i64)
    requires
        f.wf(),
        j <= k < f.mb_w * f.mb_h,
        call_ensures(FrameSignals::<'a>::var_rank, (&f, j), a),
        call_ensures(FrameSignals::<'a>::var_rank, (&f, k), b),
    ensures
        a <= b,
        exists|x: int, y: int|
            0 <= x < f.mb_w && 0 <= y && a == #[trigger] setup::mb_spread(f.sy@, f.cw, x, y),
{
    let w = f.mb_w as int;
    let n = f.mb_w * f.mb_h;
    let u = choose|v: Seq<i64>|
        {
            &&& v.len() == n
            &&& forall|i: int|
                0 <= i < v.len() ==> #[trigger] v[i] == setup::mb_spread(f.sy@, f.cw, i % w, i / w)
            &&& #[trigger] rank::is_nth(v, j as int, a)
        };
    let v = choose|v: Seq<i64>|
        {
            &&& v.len() == n
            &&& forall|i: int|
                0 <= i < v.len() ==> #[trigger] v[i] == setup::mb_spread(f.sy@, f.cw, i % w, i / w)
            &&& #[trigger] rank::is_nth(v, k as int, b)
        };
    assert(u =~= v) by {
        assert forall|i: int| 0 <= i < n implies u[i] == v[i] by {
            assert(u[i] == setup::mb_spread(f.sy@, f.cw, i % w, i / w));
            assert(v[i] == setup::mb_spread(f.sy@, f.cw, i % w, i / w));
        }
    }
    law_ranks_rise(u, j as int, k as int, a, b);
    rank::law_nth_is_an_entry(u, j as int, a);
    let i = choose|i: int| 0 <= i < u.len() && #[trigger] u[i] == a;
    assert(a == setup::mb_spread(f.sy@, f.cw, i % w, i / w));
    assert(0 <= i / w) by (nonlinear_arith)
        requires
            i >= 0,
            w > 0,
    ;
}

/// A partition is searched around its prediction: the vector that its difference is coded against is the
/// first one that the search is given, and that is the predicted one for the reference; the block, the
/// reference and the list are its own.
pub proof fn law_search_is_priced_by_the_prediction<'a, K: Kernels>(
    s: Searcher<'a, K>,
    st: MeState,
    nb: Seq<MvNeighbor>,
    r: int,
    x: int,
    y: int,
    w: int,
    h: int,
    extra: Seq<(i32, i32)>,
) -> (p: crate::search::Pricer<'a, K>)
    requires
        0 <= x <= usize::MAX,
        0 <= y <= usize::MAX,
        0 <= w <= usize::MAX,
        0 <= h <= usize::MAX,
        0 <= r <= i32::MAX,
    ensures
        p.center == motion::predicted(nb[0], nb[1], nb[2], r),
        p.lx == x && p.ly == y && p.rw == w && p.rh == h,
        p.refi == r && p.list == s.list && *p.reference == s.refs@[r],
        p.rate == s.rate && p.sy == s.sy,
        p.sadfp == (s.o.sadfp && !s.fe.fast),
        s.found(st, r, x, y, w, h, parts::seeds_of(nb, r, extra), None) == p.searched(
            *s.o,
            st,
            parts::seeds_of(nb, r, extra),
            None,
        ),
        parts::seeds_of(nb, r, extra).len() == 1 + extra.len(),
        forall|i: int|
            0 <= i < extra.len() ==> #[trigger] parts::seeds_of(nb, r, extra)[1 + i] == extra[i],
{
    reveal(Searcher::found);
    let seeds = parts::seeds_of(nb, r, extra);
    assert(seeds[0] == motion::predicted(nb[0], nb[1], nb[2], r));
    s.pricer(r, x, y, w, h, seeds[0], false)
}

/// A refinement keeps the reference, starts from the vector that was found, and is priced by the same
/// prediction, in the final measure.
pub proof fn law_refinement_is_priced_by_the_prediction<'a, K: Kernels>(
    s: Searcher<'a, K>,
    st: MeState,
    nb: Seq<MvNeighbor>,
    num_refs: int,
    x: int,
    y: int,
    w: int,
    h: int,
    r: i32,
    mv: (i32, i32),
) -> (p: crate::search::Pricer<'a, K>)
    requires
        0 <= r,
    ensures
        p.center == motion::predicted(nb[0], nb[1], nb[2], r as int),
        !p.sadfp,
        s.refined_of(st, nb, num_refs, x, y, w, h, r as int, mv).0.refi == r,
        ({
            let e = p.searched(*s.o, st, seq![p.center], Some(mv)).0;
            let f = s.refined_of(st, nb, num_refs, x, y, w, h, r as int, mv).0;
            f.mv == (e.x as i32, e.y as i32) && f.cost == (e.c + s.ref_price(
                r as int,
                num_refs,
            )) as i64
        }),
{
    reveal(Searcher::found);
    reveal(Searcher::refined_of);
    let c = motion::predicted(nb[0], nb[1], nb[2], r as int);
    assert(seq![c][0] == c);
    s.pricer(r as int, x, y, w, h, c, true)
}

/// Partitions are searched in their order: one found after the other behind those that were there, each
/// adding its cost.
pub proof fn law_parts_in_turn<'a, K: Kernels>(
    s: Searcher<'a, K>,
    st: MeState,
    nb: Seq<MvNeighbor>,
    num_refs: int,
    x: int,
    y: int,
    rs: Seq<(usize, usize, usize, usize)>,
    extra: Seq<(i32, i32)>,
    i: int,
    parts: Seq<(i32, (i32, i32))>,
    cost: int,
)
    requires
        0 <= i <= rs.len(),
    ensures
        ({
            let r = s.parts_from(st, nb, num_refs, x, y, rs, extra, i, parts, cost);
            let f = s.best_of(
                st,
                nb,
                num_refs,
                x + rs[i].0,
                y + rs[i].1,
                rs[i].2 as int,
                rs[i].3 as int,
                extra,
            ).0;
            &&& r.0.len() == parts.len() + (rs.len() - i)
            &&& r.0.take(parts.len() as int) == parts
            &&& i < rs.len() ==> r.0[parts.len() as int] == (f.refi, f.mv)
            &&& i + 1 == rs.len() ==> r.1 == cost + f.cost
            &&& i == rs.len() ==> r.1 == cost
        }),
    decreases rs.len() - i,
{
    if i < rs.len() {
        let (f, st1) = s.best_of(
            st,
            nb,
            num_refs,
            x + rs[i].0,
            y + rs[i].1,
            rs[i].2 as int,
            rs[i].3 as int,
            extra,
        );
        let next = parts.push((f.refi, f.mv));
        let r = s.parts_from(st, nb, num_refs, x, y, rs, extra, i, parts, cost);
        law_parts_in_turn(s, st1, nb, num_refs, x, y, rs, extra, i + 1, next, cost + f.cost as int);
        assert(r.0.take(next.len() as int) == next);
        assert(r.0[parts.len() as int] == next[parts.len() as int]) by {
            assert(r.0.take(next.len() as int)[parts.len() as int] == r.0[parts.len() as int]);
        }
        assert(r.0.take(parts.len() as int) =~= parts) by {
            assert forall|j: int| 0 <= j < parts.len() implies r.0[j] == parts[j] by {
                assert(r.0.take(next.len() as int)[j] == next[j]);
            }
        }
    } else {
        assert(parts.take(parts.len() as int) =~= parts);
    }
}

/// The predicted vector of a whole B macroblock, in each list: for reference 0, from that list's motion of
/// the neighbours.
pub proof fn law_b_center<'a, K: Kernels>(
    env: BEnv<'a, K>,
    fe: FrameEncoder,
    x: int,
    y: int,
    second: bool,
)
    ensures
        ({
            let n = motion::part_neighbours(fe.motion(), second, 4 * x, 4 * y, 4);
            env.center(fe, x, y, second) == motion::predicted(n.0, n.1, n.2, 0)
        }),
        env.searcher(&fe, second).list == (if second {
            1u8
        } else {
            0u8
        }),
        env.searcher(&fe, second).refs@ == (if second {
            env.future@
        } else {
            env.past@
        }),
{
}

/// Inter macroblocks are quantised with the narrow rounding, intra ones with that of the frame; chroma by
/// the chroma QP.
pub proof fn law_ways(fe: FrameEncoder)
    ensures
        interplan::inter_way(fe).dz == 6,
        !interplan::inter_way(fe).intra,
        interplan::inter_way(fe).qpc == fe.qpc,
        interplan::inter_way(fe).on == fe.rdoq_on,
        intraplan::intra_way(fe).dz == fe.idz,
        intraplan::intra_way(fe).intra,
        intraplan::intra_way(fe).qpc == fe.qpc,
        intraplan::intra_way(fe).on == fe.rdoq_on,
{
}

/// Without refinement, the levels of an inter macroblock are what the quantiser makes of the transformed
/// residual of each block at the macroblock's QP, with the narrow rounding.
pub proof fn law_inter_levels<K: Kernels>(
    r: InterResidual,
    k: K,
    fe: FrameEncoder,
    sy: Seq<u8>,
    su: Seq<u8>,
    sv: Seq<u8>,
    x: int,
    y: int,
    pred: Seq<u8>,
    pu: Seq<u8>,
    pv: Seq<u8>,
    flat: bool,
    i: int,
)
    requires
        r.codes(k, fe, sy, su, sv, x, y, pred, pu, pv, flat),
        !fe.rdoq_on,
        0 <= i < 16,
    ensures
        r.q_blocks@[i]@ == kernels::quant4_of(
            k,
            quant::luma_coefs(k, sy, fe.cw, (16 * x) as usize, (16 * y) as usize, pred, i),
            fe.qp,
            6,
        ),
        r.t8x8 ==> fe.transform_8x8 && fe.inter8x8 && flat,
        r.t8x8 ==> quant::luma8_pattern(r.q8@) > 0,
{
}

/// Planning a 4x4 block leaves its mode and its levels at its place in the raster and marks it as coded;
/// no other block's change, and neither do samples outside it.
pub proof fn law_i4_block<K: Kernels>(k: K, c: I4Ctx, s: I4State, z: int, o: int, x: int, y: int, h: int)
    requires
        0 <= z < 16,
        0 <= o < 16,
        s.modes.len() == 16,
        s.q.len() == 16,
        0 <= c.mb_x < c.mb_w,
        0 <= c.mb_y < h,
        s.coded.len() == (4 * c.mb_w) * (4 * h),
        s.rec.len() == (16 * c.mb_w) * (16 * h),
        0 <= x < 16 * c.mb_w,
        0 <= y < 16 * h,
    ensures
        ({
            let n = intra4::i4_step(k, c, s, z);
            let place = 4 * contexts::row(z) + contexts::column(z);
            let (bx, by) = (4 * c.mb_x + contexts::column(z), 4 * c.mb_y + contexts::row(z));
            let inside = 4 * bx <= x < 4 * bx + 4 && 4 * by <= y < 4 * by + 4;
            &&& n.modes[place] == intra4::i4_mode(k, c, s, contexts::column(z), contexts::row(z))
            &&& o != place ==> n.modes[o] == s.modes[o] && n.q[o] == s.q[o]
            &&& n.coded[by * (4 * c.mb_w) + bx]
            &&& !inside ==> n.rec[y * (16 * c.mb_w) + x] == s.rec[y * (16 * c.mb_w) + x]
        }),
{
    super::levels::law_blocks_come_by_quarters(z);
    let (bx, by) = (4 * c.mb_x + contexts::column(z), 4 * c.mb_y + contexts::row(z));
    grid::lemma_cell(4 * c.mb_w, 4 * h, bx, by);
    grid::lemma_cell(16 * c.mb_w, 16 * h, x, y);
}

/// Planning an 8x8 block leaves its mode in the four blocks that it covers, its mode and its levels at its
/// number, and marks it as coded.
pub proof fn law_i8_block<K: Kernels>(k: K, c: I8Ctx, s: I8State, b: int, o: int, dx: int, dy: int, h: int)
    requires
        0 <= b < 4,
        0 <= o < 4,
        0 <= dx < 2,
        0 <= dy < 2,
        s.modes.len() == 4,
        s.q.len() == 4,
        0 <= c.mb_x < c.mb_w,
        0 <= c.mb_y < h,
        s.coded.len() == (4 * c.mb_w) * (4 * h),
        s.modes_y.len() == (4 * c.mb_w) * (4 * h),
    ensures
        ({
            let n = intra8::i8_step(k, c, s, b);
            let (bx, by) = (4 * c.mb_x + 2 * (b % 2), 4 * c.mb_y + 2 * (b / 2));
            let m = intra8::i8_mode(k, c, s, bx, by);
            let i = (by + dy) * (4 * c.mb_w) + bx + dx;
            &&& n.modes[b] == m
            &&& n.modes_y[i] == m && n.coded[i]
            &&& o != b ==> n.modes[o] == s.modes[o] && n.q[o] == s.q[o]
        }),
{
    let (bx, by) = (4 * c.mb_x + 2 * (b % 2), 4 * c.mb_y + 2 * (b / 2));
    grid::lemma_cell(4 * c.mb_w, 4 * h, bx + dx, by + dy);
}

} // verus!
