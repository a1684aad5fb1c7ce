//! What comes of deciding and planning a macroblock.
use vstd::prelude::*;
use crate::arith;
use crate::bslice::{BAct, BChoice, BCounts, BEnv, Both};
use crate::cabac::Bin;
use crate::extmv;
use crate::frame::FrameEncoder;
use crate::gop;
use crate::gop::{Gop, Weigher};
use crate::grid;
use crate::interplan;
use crate::intraplan;
use crate::kernels;
use crate::kernels::Kernels;
use crate::lookcost::Look;
use crate::mbcabac;
use crate::mbcabac::CabacState;
use crate::mbcavlc;
use crate::mbinter;
use crate::mbstate::RefFrame;
use crate::motion;
use crate::partition;
use crate::parts::ShapeView;
use crate::pcabac::{CEnv, CState};
use crate::pixels;
use crate::plan::{I8Plan, InterPlan, MbPlan};
use crate::pslice;
use crate::pslice::{PEnv, PState};
use crate::rect;
use crate::search::MeState;
use super::partitions;
use super::samples;
use super::walks::{both, law_contexts_count_neighbours, left_addr, upper_addr};

verus! {

/// A slice of skipped B macroblocks: one flag and one end bin for each, the flag set at its lowest context,
/// the end set for the last one alone.
pub proof fn law_all_skipped(n: nat, i: int)
    requires
        0 <= i < n,
    ensures
        mbinter::all_skip_bins(n).len() == 2 * n,
        mbinter::all_skip_bins(n)[2 * i] == Bin::dec(24, 1),
        mbinter::all_skip_bins(n)[2 * i + 1] == Bin::term(i == n - 1),
{
}

/// An `I_8x8` macroblock starts with the transform flag, set, at context 399 and one more for each neighbour
/// with that transform; the neighbours behind see it.
pub proof fn law_i8_flag(fe: FrameEncoder, cs: CabacState, p: MbPlan, i8: I8Plan, x: int, y: int)
    requires
        fe.has_mb(x, y),
    ensures
        ({
            let w = fe.mb_w as int;
            let (l, u) = (left_addr(w, x, y), upper_addr(w, x, y));
            let c = mbcabac::i8_code(fe, cs, p, i8, x, y);
            &&& c.bins.len() > 0
            &&& c.bins[0] == Bin::dec(
                399 + both(x > 0 && cs.mb_t8x8@[l], y > 0 && cs.mb_t8x8@[u]),
                1,
            )
            &&& c.t8
            &&& c.cbp == i8.cbp_luma + 16 * p.cbp_chroma
            &&& c.delta == (if c.cbp == 0 {
                None
            } else {
                Some(fe.qp - fe.cur_qp)
            })
        }),
{
    let w = fe.mb_w as int;
    law_contexts_count_neighbours(cs.mb_t8x8@, cs.cmode@, cs.cat@, w, x, y);
}

/// A vector to whole samples inside the picture costs nothing in the look-ahead where it points at an equal
/// square.
pub proof fn law_equal_square_costs_nothing<'a, K: Kernels>(l: Look<'a, K>, mx: int, my: int)
    requires
        l.wf(),
        l.sy@.len() <= usize::MAX,
        0 <= l.bx0 + mx,
        0 <= l.by0 + my,
        l.bx0 + mx + l.bs <= l.cw,
        l.by0 + my + l.bs <= l.ch,
        forall|x: int, y: int|
            0 <= x < l.bs && 0 <= y ==> #[trigger] l.sy@[(l.by0 * l.cw + l.bx0) + y * l.cw + x]
                == l.ref_y@[((l.by0 + my) * l.cw + (l.bx0 + mx)) + y * l.cw + x],
    ensures
        l.cost(4 * mx, 4 * my) == 0,
{
    let (x0, y0) = ((l.bx0 + mx) as usize, (l.by0 + my) as usize);
    let (sa, ra) = (pixels::placed(l.cw, l.bx0, l.by0), pixels::placed(l.cw, x0, y0));
    let (cw, ch) = (l.cw as int, l.ch as int);
    assert(0 <= y0 * cw && y0 * cw + x0 <= cw * ch) by (nonlinear_arith)
        requires
            0 <= y0 < ch,
            0 <= x0 <= cw,
            0 <= cw,
    ;
    assert(0 <= l.by0 * cw && l.by0 * cw + l.bx0 <= cw * ch) by (nonlinear_arith)
        requires
            0 <= l.by0 < ch,
            0 <= l.bx0 <= cw,
            0 <= cw,
    ;
    assert(sa.base == l.by0 * l.cw + l.bx0);
    assert(ra.base == (l.by0 + my) * l.cw + (l.bx0 + mx));
    assert forall|x: int, y: int| 0 <= x < l.bs && 0 <= y implies #[trigger] pixels::diff(
        l.sy@,
        sa,
        l.ref_y@,
        ra,
        x,
        y,
    ) == 0 by {
        assert(l.sy@[(l.by0 * l.cw + l.bx0) + y * l.cw + x] == l.ref_y@[((l.by0 + my) * l.cw + (l.bx0
            + mx)) + y * l.cw + x]);
    }
    let n = l.bs as int / 4;
    assert(4 * n == l.bs);
    samples::law_equal_blocks_have_no_satd(l.sy@, sa, l.ref_y@, ra, n, (n * n) as nat);
}

/// The offsets of a group of frames: one for each macroblock of each frame, none beyond six QPs; all zero in
/// a group that is idle, and a group is idle where the tree is off.
pub proof fn law_group_offsets<'a, K: Kernels, W: Weigher>(
    g: Gop<'a, K, W>,
    v: Vec<Vec<i32>>,
    f: int,
    m: int,
)
    requires
        gop::settled(g, v),
        0 <= f < g.frames@.len(),
        0 <= m < g.mbs(),
    ensures
        v@.len() == g.frames@.len(),
        v@[f]@.len() == g.mbs(),
        -6 <= v@[f]@[m] <= 6,
        g.idle() ==> v@[f]@[m] == 0,
        !g.active ==> g.idle(),
{
    if g.idle() {
        assert(v@[f]@[m] == 0);
    } else {
        let costs = choose|costs: Seq<crate::lookcost::MbCost>|
            #[trigger] g.costed(costs, g.frames@.len() as int) && g.lists(
                v@,
                g.frames@.len() as int,
                |i: int| g.offset(costs, i),
            );
        assert(v@[f]@[m] == g.offset(costs, f * g.mbs() + m));
        super::lookahead::law_offset(g, costs, f * g.mbs() + m);
    }
}

/// The shape that is coded: where the field of another encoder has one vector for the macroblock, the whole
/// of it with that vector in reference 0; else the own shape.
pub proof fn law_transplanted<'a, K: Kernels>(
    env: PEnv<'a, K>,
    fe: FrameEncoder,
    x: int,
    y: int,
    s: ShapeView,
)
    ensures
        ({
            let r = env.transplanted(fe, x, y, s);
            let w4 = 4 * fe.mb_w as int;
            &&& env.ext is None ==> r == s
            &&& env.ext is Some && extmv::uniform(env.ext->Some_0@, w4, x, y) is None ==> r == s
            &&& env.ext is Some && extmv::uniform(env.ext->Some_0@, w4, x, y) is Some ==> r.mode == 0
                && r.parts == seq![(0i32, extmv::uniform(env.ext->Some_0@, w4, x, y)->Some_0)]
            &&& env.places(fe, x, y) ==> r.mode == 0
        }),
{
}

/// A shape that a skip would leave no more than the limit of is skipped, where such skips are asked for and
/// enough skips were free: in CABAC and in CAVLC.
pub proof fn law_small_loss_is_skipped<'a, K: Kernels>(
    env: CEnv<'a, K>,
    a: FrameEncoder,
    s: CState,
    t: CState,
    x: int,
    y: int,
    mv: (i32, i32),
    sad: u32,
    shape: ShapeView,
    e: PEnv<'a, K>,
    u: PState,
    v: PState,
)
    requires
        env.choice_step(a, s, t, x, y, mv, sad, Some(shape)),
        e.shape_step(a, u, v, x, y, mv, sad, shape),
    ensures
        env.e.p.rd_skip && t.census.reaches(env.e.p.rd_skip_min_free) && env.e.p.skip_ssd is Some
            && env.e.skip_ssd(a, x, y, mv) <= env.e.p.skip_ssd->Some_0 ==> env.skip_step(
            a,
            s,
            t,
            x,
            y,
            mv,
            sad,
        ),
        !env.e.p.rd_skip || !t.census.reaches(env.e.p.rd_skip_min_free) || env.e.p.skip_ssd is None
            ==> env.shape_step(a, s, t, x, y, shape),
        e.p.rd_skip && v.census.reaches(e.p.rd_skip_min_free) && e.p.skip_ssd is Some && e.skip_ssd(
            a,
            x,
            y,
            mv,
        ) <= e.p.skip_ssd->Some_0 ==> v.run == u.run + 1 && v.out@ == u.out@,
{
}

/// Intra is judged: by the verdict, where one was given; without one and without weighing, exactly where it
/// is taken to cost less than the shape.
pub proof fn law_intra_is_judged<'a, K: Kernels>(
    env: CEnv<'a, K>,
    a: FrameEncoder,
    b: FrameEncoder,
    x: int,
    y: int,
    shape: ShapeView,
    verdict: Option<bool>,
    intra: bool,
)
    requires
        env.intra_judged(a, b, x, y, shape, verdict, intra),
    ensures
        verdict is Some ==> intra == verdict->Some_0,
        verdict is None && !env.c.intra_rd ==> intra == (pslice::intra_cost(
            *env.e.k,
            a,
            env.e.sy@,
            x,
            y,
        ) < shape.cost),
{
}

/// Quarters in parts are kept as they are where they are not weighed; where they are, they give way exactly
/// where whole quarters give no more.
pub proof fn law_quarters_are_weighed<'a, K: Kernels>(
    env: CEnv<'a, K>,
    a: FrameEncoder,
    b: FrameEncoder,
    x: int,
    y: int,
    flat: ShapeView,
    parted: ShapeView,
    out: ShapeView,
    gain: Option<kernels::Gain>,
)
    requires
        env.quarters_kept(a, b, x, y, flat, parted, out, gain),
    ensures
        out == flat || out == parted,
        !env.c.arms_rd ==> out == parted && gain is None,
        gain is Some ==> out == parted && !kernels::rd_at_most_of(
            *env.e.k,
            env.rd_qp(a),
            gain->Some_0.whole,
            gain->Some_0.parts,
        ),
{
}

/// The choice for a B macroblock: direct unless something costs less; the vectors of both lists that the whole
/// was searched with; divided only where that is asked for.
pub proof fn law_b_choice<'a, K: Kernels>(
    env: BEnv<'a, K>,
    fe: &'a FrameEncoder,
    v: Both,
    st: MeState,
    x: int,
    y: int,
    c: BChoice,
    st1: MeState,
)
    requires
        env.chosen(fe, v, st, x, y, c, st1),
    ensures
        c.mv0 == v.m0 && c.mv1 == v.m1,
        c.dir == 0 <==> env.direct_dist(*fe, x, y) as i64 <= v.c0 && env.direct_dist(*fe, x, y) as i64
            <= v.c1 && env.direct_dist(*fe, x, y) as i64 <= v.bi,
        c.dir != 0 ==> c.dir == v.cheapest().0,
        env.b.force == 0 && !env.b.split ==> c.split is None,
        env.b.force > 0 && c.dir != 0 ==> c.split is Some && c.split->Some_0.0 == env.b.force,
{
}

/// A B macroblock that direct prediction wins is left without residual exactly where the slice is busy and
/// its distortion is within the limit.
pub proof fn law_busy_direct_is_skipped<'a, K: Kernels>(
    env: BEnv<'a, K>,
    fe: &'a FrameEncoder,
    n: BCounts,
    st: MeState,
    x: int,
    y: int,
    act: BAct,
    n1: BCounts,
    st1: MeState,
)
    requires
        env.decided(fe, n, st, x, y, act, n1, st1),
        !env.direct_free(*fe, x, y),
    ensures
        ({
            let v = env.whole_of(fe, st, x, y).0;
            let d = env.direct_dist(*fe, x, y);
            let wins = v.against(d as i64).0 == 0;
            &&& act is Skip <==> wins && n1.busy(*env.b) && env.b.skip_dist is Some && d
                <= env.b.skip_dist->Some_0
            &&& n.dirwin < u64::MAX ==> n1.dirwin == n.dirwin + (if wins {
                1int
            } else {
                0
            })
            &&& n1.free == n.free
        }),
{
}

/// An `I_16x16` macroblock leaves DC as the mode of all its blocks, an `I_4x4` one the mode of each; all its
/// blocks are coded.
pub proof fn law_intra_modes_are_left<K: Kernels>(
    k: K,
    a: FrameEncoder,
    m: FrameEncoder,
    sy: Seq<u8>,
    su: Seq<u8>,
    sv: Seq<u8>,
    x: int,
    y: int,
    p: MbPlan,
    dx: int,
    dy: int,
)
    requires
        a.wf(),
        a.has_mb(x, y),
        mbcavlc::intra_planned(k, a, m, sy, su, sv, x, y, p),
        m.modes_y@.len() == a.modes_y@.len(),
        m.coded_y@.len() == a.coded_y@.len(),
        0 <= dx < 4,
        0 <= dy < 4,
    ensures
        ({
            let i = (4 * y + dy) * (4 * a.mb_w) + 4 * x + dx;
            &&& m.coded_y@[i]
            &&& !p.use_i4 ==> m.modes_y@[i] == 2
            &&& p.i4 is Some ==> m.modes_y@[i] == p.i4->Some_0.modes@[4 * dy + dx]
        }),
{
    reveal(intraplan::wins8);
    reveal(intraplan::wins4);
    let (w, h) = (a.mb_w as int, a.mb_h as int);
    grid::lemma_cell(4 * w, 4 * h, 4 * x + dx, 4 * y + dy);
    let i = (4 * y + dy) * (4 * w) + 4 * x + dx;
    let r = p.i16_part();
    let l = intraplan::luma_after(k, a, sy, x, y, r);
    assert(m.luma() == l);
    assert(l.modes_y.len() == a.modes_y@.len());
    assert(l.coded.len() == a.coded_y@.len());
    assert(rect::inside(4 * w, 4 * x, 4 * y, 4, 4, i));
}

/// Planning a P macroblock in one piece: its one difference leads a decoder from the prediction to its
/// vector, and all its blocks have the vector and the reference; they are DC for intra prediction.
#[verifier::spinoff_prover]
#[verifier::rlimit(60)]
pub proof fn law_p16_plan<K: Kernels>(
    k: K,
    a: FrameEncoder,
    b: FrameEncoder,
    l1: RefFrame,
    sy: Seq<u8>,
    su: Seq<u8>,
    sv: Seq<u8>,
    x: int,
    y: int,
    part: (i32, (i32, i32)),
    r: InterPlan,
    dx: int,
    dy: int,
)
    requires
        a.wf(),
        a.has_mb(x, y),
        interplan::inter_planned(
            k,
            a,
            b,
            l1,
            sy,
            su,
            sv,
            x,
            y,
            0,
            seq![part],
            None,
            seq![0u8, 0u8, 0u8, 0u8],
            r,
        ),
        0 <= dx < 4,
        0 <= dy < 4,
    ensures
        ({
            let n = motion::part_neighbours(a.motion(), false, 4 * x, 4 * y, 4);
            let f = motion::predicted(n.0, n.1, n.2, part.0 as int);
            let i = (4 * y + dy) * (4 * a.mb_w) + 4 * x + dx;
            &&& r.n_mvd == 1
            &&& arith::wrap(f.0 + r.mvds@[0].0) == part.1.0
            &&& arith::wrap(f.1 + r.mvds@[0].1) == part.1.1
            &&& r.plan_refs@[0] == part.0
            &&& b.mv_y@[i] == part.1 && b.ref_idx_y@[i] == part.0
            &&& b.inter_y@[i] && b.coded_y@[i]
            &&& b.modes_y@[i] == 2
            &&& b.cur_qp == a.cur_qp
        }),
{
    let subs = seq![0u8, 0u8, 0u8, 0u8];
    let ps = seq![part];
    let m = a.motion();
    let used = interplan::used_parts(m, l1, x, y, 0, ps, None, subs);
    let one = partition::p_parts(0, ps);
    assert(!interplan::is_split(None, 0, subs));
    assert(used == one);
    assert(one.len() == 1);
    partitions::law_p_vectors_decode(m, x, y, one, 0);
    assert(partitions::before(m, false, x, y, one, 0, 0) == m);
    assert(interplan::differences_of(m, l1, x, y, 0, ps, None, subs)
        == partition::coded_differences(m, false, x, y, one));
    assert(r.mvds@[0].0 == partition::coded_differences(m, false, x, y, one)[0].0);
    lemma_p16_motion_left(k, a, b, l1, sy, su, sv, x, y, part, r, dx, dy);
}

proof fn lemma_p16_motion_left<K: Kernels>(
    k: K,
    a: FrameEncoder,
    b: FrameEncoder,
    l1: RefFrame,
    sy: Seq<u8>,
    su: Seq<u8>,
    sv: Seq<u8>,
    x: int,
    y: int,
    part: (i32, (i32, i32)),
    r: InterPlan,
    dx: int,
    dy: int,
)
    requires
        a.wf(),
        a.has_mb(x, y),
        interplan::inter_planned(
            k,
            a,
            b,
            l1,
            sy,
            su,
            sv,
            x,
            y,
            0,
            seq![part],
            None,
            seq![0u8, 0u8, 0u8, 0u8],
            r,
        ),
        0 <= dx < 4,
        0 <= dy < 4,
    ensures
        ({
            let i = (4 * y + dy) * (4 * a.mb_w) + 4 * x + dx;
            &&& r.plan_refs@[0] == part.0
            &&& b.mv_y@[i] == part.1 && b.ref_idx_y@[i] == part.0
            &&& b.inter_y@[i] && b.coded_y@[i]
            &&& b.modes_y@[i] == 2
            &&& b.cur_qp == a.cur_qp
        }),
{
    let subs = seq![0u8, 0u8, 0u8, 0u8];
    let ps = seq![part];
    let m = a.motion();
    let (w, h) = (a.mb_w as int, a.mb_h as int);
    grid::lemma_cell(4 * w, 4 * h, 4 * x + dx, 4 * y + dy);
    let one = partition::p_parts(0, ps);
    assert(interplan::used_parts(m, l1, x, y, 0, ps, None, subs) == one);
    let used = one;
    let py = partition::predicted_plane(k, a.bi_w, 0, x, y, used);
    let pu = partition::predicted_plane(k, a.bi_w, 1, x, y, used);
    let pv = partition::predicted_plane(k, a.bi_w, 2, x, y, used);
    let after = interplan::motion_after(m, l1, x, y, 0, ps, None, subs);
    let c = choose|c: FrameEncoder|
        {
            &&& #[trigger] c.motion() == after
            &&& interplan::only_motion(a, c)
            &&& interplan::residual_of(r).leaves(k, c, b, x, y, py, pu, pv)
        };
    reveal_with_fuel(partition::moved, 2);
    assert(one.len() == 1);
    assert(after == partition::committed(m, false, x, y, one[0]));
    partitions::law_committed_motion(m, false, x, y, one[0], 4 * x + dx, 4 * y + dy);
    assert(r.plan_refs@[0] == interplan::ref_of(0, ps, None, subs, 0));
    let i = (4 * y + dy) * (4 * w) + 4 * x + dx;
    assert(c.mv_y@ == after.mv0 && c.ref_idx_y@ == after.ref0 && c.inter_y@ == after.inter
        && c.coded_y@ == after.coded);
    assert(rect::inside(4 * w, 4 * x, 4 * y, 4, 4, i));
}

} // verus!
