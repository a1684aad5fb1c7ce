//! What each macroblock of a CABAC slice leaves behind.
use vstd::prelude::*;
use crate::bcabac;
use crate::bcabac::BCState;
use crate::binarize;
use crate::bslice;
use crate::bslice::BEnv;
use crate::cabac::Bin;
use crate::frame::FrameEncoder;
use crate::grid;
use crate::icabac;
use crate::icabac::{IEnv, IState};
use crate::interplan;
use crate::kernels;
use crate::kernels::{Kernels, Rd};
use crate::mbcabac;
use crate::mbcabac::CabacState;
use crate::mbcavlc;
use crate::mbinter;
use crate::mbinter::{Motion, PartView};
use crate::mbstate;
use crate::partition::BInter;
use crate::pcabac;
use crate::pcabac::{CEnv, COptions, CState, PayView};
use crate::plan::{InterPlan, MbPlan};
use crate::pslice;
use crate::pslice::{PEnv, PState, Probe};
use crate::setup;
use crate::trial;
use super::walks::{both, law_contexts_count_neighbours, left_addr, upper_addr};

verus! {

/// `b` goes on from `a`.
pub open spec fn goes_on(b: Seq<Bin>, a: Seq<Bin>) -> bool {
    a.len() <= b.len() && b.take(a.len() as int) == a
}

proof fn lemma_goes_on(c: Seq<Bin>, b: Seq<Bin>, a: Seq<Bin>)
    requires
        goes_on(c, b),
        goes_on(b, a),
    ensures
        goes_on(c, a),
{
    assert(c.take(a.len() as int) =~= b.take(a.len() as int)) by {
        assert forall|i: int| 0 <= i < a.len() implies c[i] == b[i] by {
            assert(c.take(b.len() as int)[i] == b[i]);
        }
    }
}

proof fn lemma_more(a: Seq<Bin>, x: Seq<Bin>)
    ensures
        goes_on(a + x, a),
{
    assert((a + x).take(a.len() as int) =~= a);
}

proof fn lemma_refs_go_on(m: Motion, l: Seq<PartView>, r: Seq<i32>, n: int)
    ensures
        goes_on(m.with_refs(l, r, n).bins, m.bins),
    decreases n,
{
    if n > 0 {
        lemma_refs_go_on(m, l, r, n - 1);
        let p = m.with_refs(l, r, n - 1);
        let q = p.with_ref(l[n - 1], r[n - 1]);
        assert(goes_on(q.bins, p.bins)) by {
            assert(q.bins.take(p.bins.len() as int) =~= p.bins);
        }
        lemma_goes_on(q.bins, p.bins, m.bins);
    } else {
        assert(m.bins.take(m.bins.len() as int) =~= m.bins);
    }
}

proof fn lemma_mvd_goes_on(m: Motion, p: PartView, d: (i32, i32), r: i8)
    ensures
        goes_on(m.with_mvd(p, d, r).bins, m.bins),
{
    assert(m.with_mvd(p, d, r).bins.take(m.bins.len() as int) =~= m.bins);
}

proof fn lemma_mvds_go_on(
    m: Motion,
    l: Seq<PartView>,
    d: Seq<(i32, i32)>,
    k: int,
    r: spec_fn(int) -> i8,
    n: int,
)
    ensures
        goes_on(m.with_mvds(l, d, k, r, n).bins, m.bins),
    decreases n,
{
    if n > 0 {
        lemma_mvds_go_on(m, l, d, k, r, n - 1);
        let p = m.with_mvds(l, d, k, r, n - 1);
        lemma_mvd_goes_on(p, l[n - 1], d[k + n - 1], r(n - 1));
        lemma_goes_on(m.with_mvds(l, d, k, r, n).bins, p.bins, m.bins);
    } else {
        assert(m.bins.take(m.bins.len() as int) =~= m.bins);
    }
}

proof fn lemma_quarters_go_on(m: Motion, p: InterPlan, n: int)
    ensures
        goes_on(mbinter::with_quarters(m, p, n).bins, m.bins),
    decreases n,
{
    if n > 0 {
        lemma_quarters_go_on(m, p, n - 1);
        let l = mbinter::p_sub_layout(n - 1, p.sub_types@[n - 1] as int);
        let q = mbinter::with_quarters(m, p, n - 1);
        let r = |i: int| p.plan_refs@[n - 1] as i8;
        let k = mbinter::sub_count(p.sub_types@, n - 1);
        lemma_mvds_go_on(q, l, p.mvds@, k, r, l.len() as int);
        assert(mbinter::with_quarters(m, p, n) == q.with_mvds(l, p.mvds@, k, r, l.len() as int));
        lemma_goes_on(mbinter::with_quarters(m, p, n).bins, q.bins, m.bins);
    } else {
        assert(m.bins.take(m.bins.len() as int) =~= m.bins);
    }
}

proof fn lemma_p_motion_goes_on(m: Motion, p: InterPlan, mode: int, num_refs: int)
    ensures
        goes_on(mbinter::p_motion(m, p, mode, num_refs).bins, m.bins),
{
    let l = mbinter::p_layout(mode);
    let m1 = if num_refs > 1 {
        m.with_refs(l, p.plan_refs@, l.len() as int)
    } else {
        m
    };
    if num_refs > 1 {
        lemma_refs_go_on(m, l, p.plan_refs@, l.len() as int);
    } else {
        assert(m.bins.take(m.bins.len() as int) =~= m.bins);
    }
    let r = |i: int| p.plan_refs@[i] as i8;
    lemma_quarters_go_on(m1, p, 4);
    lemma_mvds_go_on(m1, l, p.mvds@, 0, r, l.len() as int);
    let e = mbinter::p_motion(m, p, mode, num_refs);
    assert(e == mbinter::with_quarters(m1, p, 4) || e == m1.with_mvds(
        l,
        p.mvds@,
        0,
        r,
        l.len() as int,
    ));
    lemma_goes_on(e.bins, m1.bins, m.bins);
}

proof fn lemma_used_go_on(
    m: Motion,
    l: Seq<PartView>,
    preds: Seq<u8>,
    second: bool,
    d: Seq<(i32, i32)>,
    k: int,
    n: int,
)
    ensures
        goes_on(m.with_used(l, preds, second, d, k, n).bins, m.bins),
    decreases n,
{
    if n > 0 {
        lemma_used_go_on(m, l, preds, second, d, k, n - 1);
        let p = m.with_used(l, preds, second, d, k, n - 1);
        lemma_mvd_goes_on(
            p,
            l[n - 1],
            d[k + mbinter::used_count(preds, second, n - 1)],
            0,
        );
        if mbinter::uses(preds[n - 1], second) {
            lemma_goes_on(m.with_used(l, preds, second, d, k, n).bins, p.bins, m.bins);
        }
    } else {
        assert(m.bins.take(m.bins.len() as int) =~= m.bins);
    }
}

/// The flag in front of a macroblock: behind the bins `a`, whether it is skipped.
pub open spec fn flag_stands(
    a: Seq<Bin>,
    b: Seq<Bin>,
    cs: CabacState,
    base: int,
    w: int,
    x: int,
    y: int,
    skipped: bool,
) -> bool {
    let (l, u) = (left_addr(w, x, y), upper_addr(w, x, y));
    &&& goes_on(b, a)
    &&& b.len() > a.len()
    &&& b[a.len() as int] == Bin::dec(
        base + both(x > 0 && !cs.mb_skip@[l], y > 0 && !cs.mb_skip@[u]),
        if skipped {
            1
        } else {
            0
        },
    )
}

proof fn lemma_flag(
    a: Seq<Bin>,
    b: Seq<Bin>,
    cs: CabacState,
    base: int,
    w: int,
    x: int,
    y: int,
    skipped: bool,
)
    requires
        0 <= x < w,
        0 <= y,
        goes_on(
            b,
            a.push(
                Bin::dec(
                    base + mbinter::skip_ctx(cs, w, x, y),
                    if skipped {
                        1
                    } else {
                        0
                    },
                ),
            ),
        ),
    ensures
        flag_stands(a, b, cs, base, w, x, y, skipped),
{
    law_contexts_count_neighbours(cs.mb_skip@, cs.cmode@, cs.cat@, w, x, y);
    let f = a.push(
        Bin::dec(
            base + mbinter::skip_ctx(cs, w, x, y),
            if skipped {
                1
            } else {
                0
            },
        ),
    );
    assert(b.take(f.len() as int)[a.len() as int] == f[a.len() as int]);
    assert(b.take(a.len() as int) =~= a) by {
        assert forall|i: int| 0 <= i < a.len() implies b[i] == a[i] by {
            assert(b.take(f.len() as int)[i] == f[i]);
        }
    }
}

/// Each macroblock of a P slice starts with its skip flag, context 11 and one more for each neighbour that
/// is there and not skipped; a skipped one is over with it; the neighbours behind see the flag as it was
/// coded; and its QP is noted.
#[verifier::spinoff_prover]
#[verifier::rlimit(100)]
pub proof fn law_p_macroblock_flag<'a, K: Kernels>(
    env: CEnv<'a, K>,
    s: CState,
    t: CState,
    x: int,
    y: int,
)
    requires
        env.step(s, t, x, y),
        s.wf(),
        s.fe.has_mb(x, y),
    ensures
        ({
            let w = s.fe.mb_w as int;
            let i = y * w + x;
            let skipped = t.cs.mb_skip@[i];
            &&& flag_stands(s.cab@, t.cab@, s.cs, 11, w, x, y, skipped)
            &&& skipped ==> t.cab@.len() == s.cab@.len() + 2
            &&& t.qpy@ == s.qpy@.update(i, t.fe.cur_qp)
        }),
{
    reveal(CEnv::step);
    let w = s.fe.mb_w as int;
    grid::lemma_cell(w, s.fe.mb_h as int, x, y);
    let a = env.at_mb(s.fe, x, y);
    if env.e.refs@.len() > 0 {
        let pr = choose|pr: Probe|
            #[trigger] pr.tells(*env.e.k, a, env.e.sy@, env.e.su@, env.e.sv@, x, y)
                && env.probed_step(s, t, x, y, pr.mv, pr.free, pr.sad);
        assert(env.probed_step(s, t, x, y, pr.mv, pr.free, pr.sad));
        if pr.free || pslice::greedy(*env.e.p, a, pslice::looked(s.census), pr.sad, x, y) {
            lemma_p_skip(env, a, s, t, x, y, pr.mv, pr.sad);
        } else {
            let b = pslice::measured(a, env.e.p.satd_var, env.e.sy@, x, y);
            assert(b.mb_w == s.fe.mb_w);
            assert(env.decided_step(b, s, t, x, y, pr.mv, pr.sad));
            lemma_p_decided(env, b, s, t, x, y, pr.mv, pr.sad);
        }
    } else {
        lemma_p_intra(env, a, s, t, x, y);
    }
}

proof fn lemma_p_decided<'a, K: Kernels>(
    env: CEnv<'a, K>,
    a: FrameEncoder,
    s: CState,
    t: CState,
    x: int,
    y: int,
    mv: (i32, i32),
    sad: u32,
)
    requires
        env.decided_step(a, s, t, x, y, mv, sad),
        a.mb_w == s.fe.mb_w,
        s.wf(),
        s.fe.has_mb(x, y),
    ensures
        ({
            let w = s.fe.mb_w as int;
            let i = y * w + x;
            let skipped = t.cs.mb_skip@[i];
            &&& flag_stands(s.cab@, t.cab@, s.cs, 11, w, x, y, skipped)
            &&& skipped ==> t.cab@.len() == s.cab@.len() + 2
            &&& t.qpy@ == s.qpy@.update(i, t.fe.cur_qp)
        }),
{
    let i = grid::cell(a.mb_w as int, x, y);
    let (b, c, choice) = choose|b: FrameEncoder, c: FrameEncoder, choice: Option<crate::parts::ShapeView>|
        {
            &&& #[trigger] env.decided(
                &a,
                s.me,
                s.pay@,
                s.gates@,
                x,
                y,
                b,
                t.me,
                t.pay@,
                t.gates@,
                choice,
            )
            &&& trial::undone(a, b)
            &&& #[trigger] pslice::noted(b, c, i, false, sad)
            &&& env.choice_step(c, s, t, x, y, mv, sad, choice)
        };
    assert(b.mb_w == a.mb_w);
    assert(c.mb_w == a.mb_w);
    match choice {
        None => {
            lemma_p_intra(env, c, s, t, x, y);
        },
        Some(shape) => {
            if env.e.p.rd_skip && t.census.reaches(env.e.p.rd_skip_min_free) && (
            env.e.p.skip_ssd matches Some(v) && env.e.skip_ssd(c, x, y, mv) <= v) {
                lemma_p_skip(env, c, s, t, x, y, mv, sad);
            } else {
                lemma_p_shape(env, c, s, t, x, y, shape);
            }
        },
    }
}

proof fn lemma_p_skip<'a, K: Kernels>(
    env: CEnv<'a, K>,
    a: FrameEncoder,
    s: CState,
    t: CState,
    x: int,
    y: int,
    mv: (i32, i32),
    sad: u32,
)
    requires
        env.skip_step(a, s, t, x, y, mv, sad),
        a.mb_w == s.fe.mb_w,
        s.wf(),
        s.fe.has_mb(x, y),
    ensures
        ({
            let w = s.fe.mb_w as int;
            let i = y * w + x;
            &&& t.cs.mb_skip@[i]
            &&& flag_stands(s.cab@, t.cab@, s.cs, 11, w, x, y, true)
            &&& t.cab@.len() == s.cab@.len() + 2
            &&& t.qpy@ == s.qpy@.update(i, t.fe.cur_qp)
        }),
{
    let w = s.fe.mb_w as int;
    grid::lemma_cell(w, s.fe.mb_h as int, x, y);
    let bins = choose|bins: Seq<Bin>|
        {
            &&& env.e.skips(a, t.fe, x, y, mv, sad)
            &&& #[trigger] mbinter::p_skip_coded(s.cab@, bins, s.cs, t.cs, w, x, y)
            &&& pcabac::closed(s, t, grid::cell(w, x, y), bins)
        };
    assert(t.cab@.take(bins.len() as int) =~= bins);
    lemma_flag(s.cab@, t.cab@, s.cs, 11, w, x, y, true);
}

proof fn lemma_p_intra<'a, K: Kernels>(
    env: CEnv<'a, K>,
    a: FrameEncoder,
    s: CState,
    t: CState,
    x: int,
    y: int,
)
    requires
        env.intra_step(a, s, t, x, y),
        a.mb_w == s.fe.mb_w,
        s.wf(),
        s.fe.has_mb(x, y),
    ensures
        ({
            let w = s.fe.mb_w as int;
            let i = y * w + x;
            &&& !t.cs.mb_skip@[i]
            &&& flag_stands(s.cab@, t.cab@, s.cs, 11, w, x, y, false)
            &&& t.qpy@ == s.qpy@.update(i, t.fe.cur_qp)
        }),
{
    let w = s.fe.mb_w as int;
    let i = grid::cell(w, x, y);
    grid::lemma_cell(w, s.fe.mb_h as int, x, y);
    let f = env.flagged(s, x, y);
    let (cs, m, p, bins) = choose|cs: CabacState, m: FrameEncoder, p: MbPlan, bins: Seq<Bin>|
        {
            &&& pcabac::not_skipped(s.cs, cs, i)
            &&& #[trigger] mbcavlc::intra_planned(
                *env.e.k,
                a,
                m,
                env.e.sy@,
                env.e.su@,
                env.e.sv@,
                x,
                y,
                p,
            )
            &&& #[trigger] mbcabac::p_intra_coded(m, t.fe, f, bins, cs, t.cs, p, x, y)
            &&& pcabac::closed(s, t, i, bins)
        };
    let rest = binarize::mb_type_p_intra_bins(mbcabac::type_of(p)) + mbcabac::intra_code(
        m,
        cs,
        p,
        x,
        y,
    ).bins;
    assert(t.cab@ =~= f + (rest.push(t.cab@.last())));
    lemma_more(f, rest.push(t.cab@.last()));
    lemma_flag(s.cab@, t.cab@, s.cs, 11, w, x, y, false);
}

proof fn lemma_p_shape<'a, K: Kernels>(
    env: CEnv<'a, K>,
    a: FrameEncoder,
    s: CState,
    t: CState,
    x: int,
    y: int,
    shape: crate::parts::ShapeView,
)
    requires
        env.shape_step(a, s, t, x, y, shape),
        a.mb_w == s.fe.mb_w,
        s.wf(),
        s.fe.has_mb(x, y),
    ensures
        ({
            let w = s.fe.mb_w as int;
            let i = y * w + x;
            &&& !t.cs.mb_skip@[i]
            &&& flag_stands(s.cab@, t.cab@, s.cs, 11, w, x, y, false)
            &&& t.qpy@ == s.qpy@.update(i, t.fe.cur_qp)
        }),
{
    let w = s.fe.mb_w as int;
    let i = grid::cell(w, x, y);
    grid::lemma_cell(w, s.fe.mb_h as int, x, y);
    let f = env.flagged(s, x, y);
    let n = env.e.refs@.len() as usize;
    let (cs, m, p, bins) = choose|cs: CabacState, m: FrameEncoder, p: InterPlan, bins: Seq<Bin>|
        {
            &&& pcabac::not_skipped(s.cs, cs, i)
            &&& #[trigger] interplan::inter_planned(
                *env.e.k,
                a,
                m,
                env.e.refs@[0],
                env.e.sy@,
                env.e.su@,
                env.e.sv@,
                x,
                y,
                shape.mode,
                shape.parts,
                None,
                shape.subs,
                p,
            )
            &&& #[trigger] mbinter::p_inter_coded(
                m,
                t.fe,
                f,
                bins,
                cs,
                t.cs,
                shape.mode,
                p,
                x,
                y,
                n,
            )
            &&& pcabac::closed(s, t, i, bins)
        };
    let ty = mbinter::p_type_bins(shape.mode as int, p.sub_types@);
    let m0 = mbinter::motion0(f + ty, cs, false, 0, m.mb_w as int, x, y);
    let e = mbinter::p_motion(m0, p, shape.mode as int, n as int);
    let c = mbinter::inter_code(m, cs, p, !mbinter::has_sub(p.sub_types@), x, y);
    assert(bins == e.bins + c.bins);
    lemma_p_motion_goes_on(m0, p, shape.mode as int, n as int);
    lemma_more(f, ty);
    lemma_goes_on(e.bins, f + ty, f);
    lemma_more(e.bins, c.bins);
    lemma_goes_on(bins, e.bins, f);
    assert(t.cab@.take(bins.len() as int) =~= bins);
    lemma_goes_on(t.cab@, bins, f);
    lemma_flag(s.cab@, t.cab@, s.cs, 11, w, x, y, false);
}

/// Each macroblock of a B slice starts with its skip flag, context 24 and one more for each neighbour that
/// is there and not skipped; a skipped one is over with it; the neighbours behind see the flag as it was
/// coded.
#[verifier::spinoff_prover]
#[verifier::rlimit(100)]
pub proof fn law_b_macroblock_flag<'a, K: Kernels>(
    env: BEnv<'a, K>,
    s: BCState,
    t: BCState,
    x: int,
    y: int,
    n: int,
)
    requires
        env.bins_step(s, t, x, y),
        s.wf(n),
        s.fe.has_mb(x, y),
    ensures
        ({
            let w = s.fe.mb_w as int;
            let skipped = t.cs.mb_skip@[y * w + x];
            &&& flag_stands(s.cab@, t.cab@, s.cs, 24, w, x, y, skipped)
            &&& skipped ==> t.cab@.len() == s.cab@.len() + 2
            &&& env.direct_free(env.at_mb(s.fe, x, y), x, y) ==> skipped
        }),
{
    let w = s.fe.mb_w as int;
    let i = grid::cell(w, x, y);
    grid::lemma_cell(w, s.fe.mb_h as int, x, y);
    let a = env.at_mb(s.fe, x, y);
    let act = choose|act: bslice::BAct|
        {
            &&& #[trigger] env.decided(&a, s.counts, s.me, x, y, act, t.counts, t.me)
            &&& t.stats == env.tallied(s.stats, s.counts, t.counts, act)
            &&& env.acted_bins(a, s, t, x, y, act)
        };
    match act {
        bslice::BAct::Skip => {
            let bins = choose|bins: Seq<Bin>|
                {
                    &&& mbstate::direct_committed(a, t.fe, x, y, env.direct_motion(a, x, y))
                    &&& #[trigger] mbinter::b_skip_coded(s.cab@, bins, s.cs, t.cs, w, x, y)
                    &&& t.cab@ == bcabac::ended(s, i, bins)
                };
            assert(t.cab@.take(bins.len() as int) =~= bins);
            lemma_flag(s.cab@, t.cab@, s.cs, 24, w, x, y, true);
        },
        bslice::BAct::Code(c) => {
            lemma_b_choice(env, a, s, t, x, y, n, c);
        },
    }
}

proof fn lemma_b_choice<'a, K: Kernels>(
    env: BEnv<'a, K>,
    a: FrameEncoder,
    s: BCState,
    t: BCState,
    x: int,
    y: int,
    n: int,
    c: bslice::BChoice,
)
    requires
        env.choice_bins(a, s, t, x, y, c),
        a.mb_w == s.fe.mb_w,
        s.wf(n),
        s.fe.has_mb(x, y),
    ensures
        ({
            let w = s.fe.mb_w as int;
            &&& !t.cs.mb_skip@[y * w + x]
            &&& flag_stands(s.cab@, t.cab@, s.cs, 24, w, x, y, false)
        }),
{
    let w = s.fe.mb_w as int;
    let i = grid::cell(w, x, y);
    grid::lemma_cell(w, s.fe.mb_h as int, x, y);
    let f = env.flagged(s, x, y);
    let (bi, cs, m, p, bins) = choose|
        bi: BInter,
        cs: CabacState,
        m: FrameEncoder,
        p: InterPlan,
        bins: Seq<Bin>,
    |
        {
            &&& c.describes(bi)
            &&& pcabac::not_skipped(s.cs, cs, i)
            &&& #[trigger] interplan::inter_planned(
                *env.k,
                a,
                m,
                env.future@[0],
                env.sy@,
                env.su@,
                env.sv@,
                x,
                y,
                0,
                Seq::empty(),
                Some(bi),
                trial::whole_quarters(),
                p,
            )
            &&& #[trigger] mbinter::b_inter_coded(m, t.fe, f, bins, cs, t.cs, c.dir, c.split, p, x, y)
            &&& t.cab@ == bcabac::ended(s, i, bins)
        };
    let mw = m.mb_w as int;
    let ty = mbinter::b_type_bins(cs, mw, x, y, mbinter::b_type(c.dir as int, c.split));
    let sh = mbinter::b_shape(c.dir as int, c.split);
    let k = sh.l.len() as int;
    let z0 = mbinter::motion0(f + ty, cs, false, sh.own, mw, x, y);
    let m0 = z0.with_used(sh.l, sh.preds, false, p.mvds@, 0, k);
    let z1 = mbinter::motion0(m0.bins, cs, true, sh.own, mw, x, y);
    let at = mbinter::used_count(sh.preds, false, k);
    let m1 = z1.with_used(sh.l, sh.preds, true, p.mvds@, at, k);
    let code = mbinter::inter_code(m, cs, p, false, x, y);
    assert(bins == m1.bins + code.bins);
    lemma_used_go_on(z0, sh.l, sh.preds, false, p.mvds@, 0, k);
    lemma_used_go_on(z1, sh.l, sh.preds, true, p.mvds@, at, k);
    lemma_more(f, ty);
    lemma_goes_on(m0.bins, f + ty, f);
    lemma_goes_on(m1.bins, m0.bins, f);
    lemma_more(m1.bins, code.bins);
    lemma_goes_on(bins, m1.bins, f);
    assert(t.cab@.take(bins.len() as int) =~= bins);
    lemma_goes_on(t.cab@, bins, f);
    lemma_flag(s.cab@, t.cab@, s.cs, 24, w, x, y, false);
}

/// The pick among weighed candidates is one of them, no later one is less than it, and it is the first
/// where none is less than the first.
pub proof fn law_weighed_pick<K: Kernels>(k: K, qp: u8, rds: Seq<Rd>, i: int, best: int, j: int)
    requires
        0 <= best < i <= rds.len(),
    ensures
        ({
            let r = pcabac::cheapest(k, qp, rds, i, best);
            &&& 0 <= r < rds.len()
            &&& r == best || i <= r
            &&& r < j < rds.len() && i <= j ==> !kernels::rd_less_of(k, qp, rds[j], rds[r])
        }),
    decreases rds.len() - i,
{
    if i < rds.len() {
        if kernels::rd_less_of(k, qp, rds[i], rds[best]) {
            law_weighed_pick(k, qp, rds, i + 1, i, j);
        } else {
            law_weighed_pick(k, qp, rds, i + 1, best, j);
        }
    }
}

/// Quarters are searched in parts only where that is asked for, with one reference, without grain and while
/// it pays.
pub proof fn law_when_quarters_are_divided<'a, K: Kernels>(
    env: CEnv<'a, K>,
    fe: FrameEncoder,
    p: PayView,
)
    ensures
        ({
            let o = env.shape_options(fe, p);
            &&& o.arms == (env.c.arms && env.e.refs@.len() == 1 && p.paying && !env.c.grain)
            &&& o.do_splits == (env.e.p.do_splits && !fe.fast)
            &&& o.sub8x8 == env.e.p.sub8x8
        }),
{
}

/// Each macroblock that was searched in parts counts once and adds what it saved, if anything; whether it
/// pays is asked again once enough have been counted.
pub proof fn law_pay<K: Kernels>(k: K, c: COptions, p: PayView, gain: Option<crate::kernels::Gain>)
    ensures
        ({
            let q = pcabac::paid(k, c, p, gain);
            &&& !c.arms_pay ==> q == p
            &&& c.arms_pay ==> q.seen == p.seen + 1
            &&& c.arms_pay && gain is None ==> q.gains == p.gains
            &&& c.arms_pay && gain is Some ==> q.gains.len() == p.gains.len() + 1 && q.gains.last()
                == gain->Some_0
            &&& c.arms_pay && q.seen < c.pay_learn ==> q.paying == p.paying
            &&& c.arms_pay && q.seen >= c.pay_learn ==> q.paying == kernels::pays_of(
                k,
                q.gains,
                q.seen as usize,
            )
        }),
{
}

/// A macroblock begins with its QP, the chroma QP that belongs to it and its loudness.
pub proof fn law_c_macroblock_begins<'a, K: Kernels>(env: CEnv<'a, K>, fe: FrameEncoder, x: int, y: int)
    ensures
        ({
            let i = y * fe.mb_w + x;
            let a = env.at_mb(fe, x, y);
            &&& a.qp == env.e.qps@[i]
            &&& a.qpc == setup::chroma_of(env.e.qps@[i])
            &&& a.mb_loud == env.loud@[i]
            &&& a.cur_qp == fe.cur_qp
        }),
{
}

/// Shapes are weighed by the QP of the macroblock where that is asked for, else by that of the slice.
pub proof fn law_weighing_qp<'a, K: Kernels>(env: CEnv<'a, K>, fe: FrameEncoder)
    ensures
        env.c.rd_by_mb ==> env.rd_qp(fe) == fe.qp,
        !env.c.rd_by_mb ==> env.rd_qp(fe) == env.e.p.qp,
{
}

/// In a slice of macroblocks one after the other, each goes on from the bins before it, and the bin behind
/// it ends the slice exactly where it is the last of the frame: in an I slice, a P slice and a B slice.
pub proof fn law_slices_end_once<'a, K: Kernels>(
    ie: IEnv<'a, K>,
    pe: CEnv<'a, K>,
    be: BEnv<'a, K>,
    it: Seq<IState>,
    pt: Seq<CState>,
    bt: Seq<BCState>,
    n: int,
    i: int,
)
    requires
        icabac::i_traced(ie, it, n),
        pcabac::slice_traced(pe, pt, n),
        bcabac::b_bins_traced(be, bt, n),
        0 <= i < n,
        it[i].fe.mb_w >= 1,
        pt[i].fe.mb_w >= 1,
        bt[i].fe.mb_w >= 1,
    ensures
        it[i + 1].cab@.last() == Bin::term(i + 1 == it[i].fe.mb_w * it[i].fe.mb_h),
        pt[i + 1].cab@.last() == Bin::term(i + 1 == pt[i].fe.mb_w * pt[i].fe.mb_h),
        bt[i + 1].cab@.last() == Bin::term(i + 1 == bt[i].fe.mb_w * bt[i].fe.mb_h),
{
    let (u, v, w) = (it[i].fe.mb_w as int, pt[i].fe.mb_w as int, bt[i].fe.mb_w as int);
    assert(icabac::i_traced_at(ie, it, i));
    assert(pcabac::traced_at(pe, pt, i));
    assert(bcabac::b_bins_at(be, bt, i));
    ie.law_only_the_last_i_macroblock_ends_the_slice(it[i], it[i + 1], i % u, i / u);
    pe.law_only_the_last_macroblock_ends_the_slice(pt[i], pt[i + 1], i % v, i / v);
    be.law_only_the_last_b_macroblock_ends_the_slice(bt[i], bt[i + 1], i % w, i / w);
    lemma_place(u, i);
    lemma_place(v, i);
    lemma_place(w, i);
}

proof fn lemma_place(w: int, i: int)
    requires
        w >= 1,
        0 <= i,
    ensures
        grid::cell(w, i % w, i / w) == i,
{
    vstd::arithmetic::div_mod::lemma_fundamental_div_mod(i, w);
    assert((i / w) * w == w * (i / w)) by (nonlinear_arith);
}

/// How many macroblocks a decoder has been told of when it has read the elements up to macroblock `i` of a P
/// slice: one for each that was coded, and the runs that were written before them.
pub open spec fn told(t: Seq<PState>, i: int) -> int
    decreases i,
{
    if i <= 0 {
        0
    } else if t[i].run == t[i - 1].run + 1 && t[i].out@ == t[i - 1].out@ {
        told(t, i - 1)
    } else {
        told(t, i - 1) + t[i - 1].run + 1
    }
}

/// In a P slice no macroblock is lost and none counted twice: those that a decoder was told of and those of
/// the run that is still open are all that came before.
pub proof fn law_runs_account_for_all<'a, K: Kernels>(
    env: PEnv<'a, K>,
    t: Seq<PState>,
    n: int,
    i: int,
)
    requires
        pslice::slice_traced(env, t, n),
        env.is_p,
        env.refs@.len() > 0,
        t[0].run == 0,
        0 <= i <= n,
    ensures
        told(t, i) + t[i].run == i,
    decreases i,
{
    if i > 0 {
        law_runs_account_for_all(env, t, n, i - 1);
        assert(pslice::traced_at(env, t, i - 1));
        let w = t[i - 1].fe.mb_w as int;
        super::deciding::law_skip_runs(env, t[i - 1], t[i], (i - 1) % w, (i - 1) / w);
    }
}

} // verus!
