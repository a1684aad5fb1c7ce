//! What decides how a macroblock is coded.
use vstd::prelude::*;
use crate::arith;
use crate::bits;
use crate::bslice;
use crate::bslice::{BCounts, BEnv, BOptions, BState, Both};
use crate::cavlc::ElemView;
use crate::extmv;
use crate::extmv::MvScore;
use crate::frame::FrameEncoder;
use crate::grid;
use crate::kernels::Kernels;
use crate::mbstate;
use crate::pslice;
use crate::pslice::{PEnv, POptions, PState, SkipCensus};
use crate::search::MeState;
use crate::setup;
use crate::shapes::ShapesView;
use super::motion::in_the_middle;

verus! {

/// What is noted of a macroblock, and whether it is in the frame.
pub open spec fn note(fe: FrameEncoder, x: int, y: int) -> (bool, bool, int) {
    let there = 0 <= x < fe.mb_w && 0 <= y;
    let i = y * fe.mb_w + x;
    let skipped = there && fe.mb_was_skip@[i];
    (
        there,
        skipped,
        if skipped {
            fe.mb_skip_sad@[i] as int
        } else {
            0
        },
    )
}

/// The threshold for skipping without a search: the left neighbour's difference where only that is
/// there; that of the one neighbour that was skipped where there is exactly one; else the middle of the
/// three differences, where one that was not skipped counts as none. The third neighbour is the one above
/// right or, where the frame ends, above left.
pub proof fn law_skip_threshold(fe: FrameEncoder, x: int, y: int)
    requires
        0 <= x < fe.mb_w,
        0 <= y,
    ensures
        ({
            let t = mbstate::skip_threshold(fe, x, y);
            let a = note(fe, x - 1, y);
            let b = note(fe, x, y - 1);
            let r = note(fe, x + 1, y - 1);
            let c = if r.0 {
                r
            } else {
                note(fe, x - 1, y - 1)
            };
            if a.0 && !b.0 && !c.0 {
                t == a.2
            } else {
                &&& a.1 && !b.1 && !c.1 ==> t == a.2
                &&& !a.1 && b.1 && !c.1 ==> t == b.2
                &&& !a.1 && !b.1 && c.1 ==> t == c.2
                &&& (a.1 && b.1) || (a.1 && c.1) || (b.1 && c.1) ==> in_the_middle(
                    t,
                    a.2,
                    b.2,
                    c.2,
                )
                &&& !a.1 && !b.1 && !c.1 ==> t == 0
            }
        }),
{
}

/// A field has one vector for a macroblock exactly where all its sixteen blocks have it.
pub proof fn law_uniform_vector(f: Seq<(i32, i32)>, w4: int, x: int, y: int, r: int, c: int)
    requires
        0 <= r < 4,
        0 <= c < 4,
    ensures
        ({
            let first = (4 * y) * w4 + 4 * x;
            let i = (4 * y + r) * w4 + 4 * x + c;
            &&& extmv::uniform(f, w4, x, y) is Some ==> i < f.len() && f[i]
                == extmv::uniform(f, w4, x, y)->Some_0
            &&& i < f.len() && first < f.len() && f[i] != f[first] ==> extmv::uniform(f, w4, x, y)
                is None
            &&& extmv::corner(f, w4, x, y) == (if first < f.len() {
                Some(f[first])
            } else {
                None
            })
        }),
{
    assert(extmv::block_at(w4, x, y, r, c) == (4 * y + r) * w4 + 4 * x + c);
    assert(extmv::block_at(w4, x, y, 0, 0) == (4 * y) * w4 + 4 * x);
    if extmv::is_uniform(f, w4, x, y) {
        let i = extmv::block_at(w4, x, y, r, c);
        assert(i < f.len() && f[i] == f[extmv::block_at(w4, x, y, 0, 0)]);
    }
}

/// The scores of two ways to code add up what each found: the macroblocks, the bits and the distortions
/// of both, how often the other won, how often the vectors differed.
pub proof fn law_scores_add_up(
    s: MvScore,
    own: (i64, usize),
    other: (i64, usize),
    won: bool,
    differs: bool,
)
    requires
        own.0 >= 0,
        other.0 >= 0,
        s.n < u64::MAX,
        s.won < u64::MAX,
        s.differed < u64::MAX,
        s.bits + own.1 <= u64::MAX,
        s.other_bits + other.1 <= u64::MAX,
        s.ssd + own.0 <= u64::MAX,
        s.other_ssd + other.0 <= u64::MAX,
    ensures
        ({
            let t = s.with(own, other, won, differs);
            &&& t.n == s.n + 1
            &&& t.bits == s.bits + own.1 && t.other_bits == s.other_bits + other.1
            &&& t.ssd == s.ssd + own.0 && t.other_ssd == s.other_ssd + other.0
            &&& t.won == (if won {
                s.won + 1
            } else {
                s.won as int
            })
            &&& t.differed == (if differs {
                s.differed + 1
            } else {
                s.differed as int
            })
            &&& s.placed(differs) == (MvScore { differed: t.differed, ..s })
        }),
{
}

/// A share of free skips is reached once enough macroblocks were looked at and no less than that share of
/// them, in percent, was free. Looking counts one, a free skip counts one.
pub proof fn law_skip_census(c: SkipCensus, percent: u32)
    requires
        c.seen < u64::MAX,
        c.free < u64::MAX,
    ensures
        c.reaches(percent) ==> c.seen >= c.learn && 100 * c.free >= percent * c.seen,
        c.seen >= c.learn && 100 * c.free >= percent * c.seen ==> c.reaches(percent),
        pslice::looked(c).seen == c.seen + 1 && pslice::looked(c).free == c.free,
        pslice::freed(c).free == c.free + 1 && pslice::freed(c).seen == c.seen,
{
    assert(percent * c.seen == c.seen * percent) by (nonlinear_arith);
}

/// A skip is taken without a search only in a frame that is not fast, where that is asked for, where enough
/// skips were free, and where it leaves less than the threshold; and then always.
pub proof fn law_greedy_skip(
    p: POptions,
    fe: FrameEncoder,
    c: SkipCensus,
    sad: u32,
    x: int,
    y: int,
)
    ensures
        pslice::greedy(p, fe, c, sad, x, y) ==> !fe.fast && p.greedy_skip && sad
            < mbstate::skip_threshold(fe, x, y) && (p.greedy_min_free == 0 || c.reaches(
            p.greedy_min_free,
        )),
        !fe.fast && p.greedy_skip && sad < mbstate::skip_threshold(fe, x, y) && (p.greedy_min_free
            == 0 || c.reaches(p.greedy_min_free)) ==> pslice::greedy(p, fe, c, sad, x, y),
{
}

/// A macroblock begins with its own QP and the chroma QP that belongs to it; a fast frame measures it by
/// SATD exactly where its variance reaches the limit.
pub proof fn law_macroblock_begins(
    fe: FrameEncoder,
    qp: u8,
    limit: Option<i64>,
    sy: Seq<u8>,
    x: int,
    y: int,
)
    ensures
        pslice::begun(fe, qp).qp == qp,
        pslice::begun(fe, qp).qpc == setup::chroma_of(qp),
        pslice::begun(fe, qp).cur_qp == fe.cur_qp,
        fe.fast && limit is Some ==> pslice::measured(fe, limit, sy, x, y).mb_use_satd == (
        setup::mb_spread(sy, fe.cw, x, y) >= limit->Some_0),
        fe.fast && limit is None ==> !pslice::measured(fe, limit, sy, x, y).mb_use_satd,
        !fe.fast ==> pslice::measured(fe, limit, sy, x, y) == fe,
{
}

/// The shape that is picked is one of those that were searched, and the whole where nothing costs less.
pub proof fn law_pick_is_a_shape(v: ShapesView)
    ensures
        ({
            let r = pslice::picked(v);
            &&& v.splits is None ==> r == v.whole
            &&& v.splits is Some ==> ({
                let s = v.splits->Some_0;
                let q = if s.quarters is None {
                    v.whole
                } else if s.quarters->Some_0.1 is None {
                    s.quarters->Some_0.0
                } else {
                    s.quarters->Some_0.1->Some_0
                };
                &&& r == v.whole || r == s.rows || r == s.cols || r == q
                &&& v.whole.cost <= s.rows.cost && v.whole.cost <= s.cols.cost && v.whole.cost
                    <= q.cost ==> r == v.whole
            })
        }),
{
}

/// A macroblock that is not skipped is coded as intra exactly where that is taken to cost less than the
/// shape; the shape is never dearer than it was without that choice.
pub proof fn law_intra_only_where_cheaper<'a, K: Kernels>(
    env: PEnv<'a, K>,
    fe: &'a FrameEncoder,
    st: MeState,
    x: int,
    y: int,
)
    ensures
        ({
            let d = env.decided(fe, st, x, y).0;
            d is Some ==> d->Some_0.cost <= pslice::intra_cost(*env.k, *fe, env.sy@, x, y)
        }),
{
}

/// One step of a P slice counts: a macroblock is either one more in the run of skipped ones and leaves no
/// element, or it ends the run and leaves first the length of the run. Its QP is noted at its place.
#[verifier::spinoff_prover]
#[verifier::rlimit(60)]
pub proof fn law_skip_runs<'a, K: Kernels>(
    env: PEnv<'a, K>,
    s: PState,
    t: PState,
    x: int,
    y: int,
)
    requires
        env.step(s, t, x, y),
        env.is_p,
        env.refs@.len() > 0,
    ensures
        t.qpy@ == s.qpy@.update(y * s.fe.mb_w + x, t.fe.cur_qp),
        ({
            ||| t.run == s.run + 1 && t.out@ == s.out@
            ||| t.run == 0 && t.out@.len() > s.out@.len() && t.out@.take(s.out@.len() as int) == s.out@
                && t.out@[s.out@.len() as int] == ElemView::Ue(s.run)
        }),
        t.census.seen == (s.census.seen + 1) as u64,
{
    let a = env.at_mb(s.fe, x, y);
    let i = grid::cell(a.mb_w as int, x, y);
    let pr = choose|pr: pslice::Probe|
        #[trigger] pr.tells(*env.k, a, env.sy@, env.su@, env.sv@, x, y) && env.probed_step(
            s,
            t,
            x,
            y,
            pr.mv,
            pr.free,
            pr.sad,
        );
    assert(env.probed_step(s, t, x, y, pr.mv, pr.free, pr.sad));
    assert(pslice::skip_counted(s, t, i) || exists|w: Seq<ElemView>|
        #[trigger] pslice::emitted(s, t, i, true, w)) by {
        if !pr.free && !pslice::greedy(*env.p, a, pslice::looked(s.census), pr.sad, x, y) {
            let b = pslice::measured(a, env.p.satd_var, env.sy@, x, y);
            let choice = env.decided(&b, s.me, x, y).0;
            assert(env.coded_step(b, s, t, x, y, pr.mv, pr.sad, choice));
            lemma_coded_step(env, b, s, t, x, y, pr.mv, pr.sad, choice);
        }
    }
    if !pslice::skip_counted(s, t, i) {
        let w = choose|w: Seq<ElemView>| #[trigger] pslice::emitted(s, t, i, true, w);
        assert(t.out@.take(s.out@.len() as int) =~= s.out@);
    }
}

proof fn lemma_coded_step<'a, K: Kernels>(
    env: PEnv<'a, K>,
    a: FrameEncoder,
    s: PState,
    t: PState,
    x: int,
    y: int,
    mv: (i32, i32),
    sad: u32,
    choice: Option<crate::parts::ShapeView>,
)
    requires
        env.is_p,
        env.coded_step(a, s, t, x, y, mv, sad, choice),
    ensures
        ({
            let i = grid::cell(a.mb_w as int, x, y);
            pslice::skip_counted(s, t, i) || exists|w: Seq<ElemView>|
                #[trigger] pslice::emitted(s, t, i, true, w)
        }),
{
    let i = grid::cell(a.mb_w as int, x, y);
    let c = choose|c: FrameEncoder|
        #[trigger] pslice::noted(a, c, i, false, sad) && (match choice {
            None => env.intra_step(c, s, t, x, y),
            Some(shape) => env.shape_step(c, s, t, x, y, mv, sad, shape),
        });
    assert(c.mb_w == a.mb_w);
    match choice {
        None => {
            assert(env.intra_step(c, s, t, x, y));
        },
        Some(shape) => {
            assert(env.shape_step(c, s, t, x, y, mv, sad, shape));
        },
    }
}

/// At the end of a P slice the run that is still open is written, if there is one; nothing else changes.
pub proof fn law_slice_end(s: PState, t: PState, is_p: bool)
    requires
        pslice::slice_ended(s, t, is_p),
    ensures
        is_p && s.run > 0 ==> t.out@.len() == s.out@.len() + 1 && t.out@.last() == ElemView::Ue(
            s.run,
        ) && t.out@.drop_last() == s.out@,
        !is_p || s.run == 0 ==> t.out@ == s.out@,
        t.fe == s.fe,
        t.qpy == s.qpy,
{
    if is_p && s.run > 0 {
        assert(t.out@.drop_last() =~= s.out@);
    }
}

/// The cheapest of list 0, list 1 and both: none of the three costs less; where they cost the same, one
/// list goes before both, and list 0 before list 1.
pub proof fn law_cheapest_lists(v: Both)
    ensures
        ({
            let (p, c) = v.cheapest();
            &&& c <= v.c0 && c <= v.c1 && c <= v.bi
            &&& p == 1 || p == 2 || p == 3
            &&& p == 1 ==> c == v.c0
            &&& p == 2 ==> c == v.c1 && v.c1 < v.c0
            &&& p == 3 ==> c == v.bi && v.bi < v.c0 && v.bi < v.c1
        }),
{
}

/// Direct prediction is taken unless another one costs less.
pub proof fn law_direct_or_cheaper(v: Both, direct: i64)
    ensures
        ({
            let (p, c) = v.against(direct);
            &&& c <= direct && c <= v.c0 && c <= v.c1 && c <= v.bi
            &&& p == 0 <==> direct <= v.c0 && direct <= v.c1 && direct <= v.bi
            &&& p == 0 ==> c == direct
            &&& p != 0 ==> (p, c) == v.cheapest()
        }),
{
}

/// Two vectors are charged the codes of their differences from the predicted ones: four bits where both are
/// met exactly, and the same where vectors and predictions move together.
pub proof fn law_pair_bits<'a, K: Kernels>(
    m0: (i32, i32),
    p0: (i32, i32),
    m1: (i32, i32),
    p1: (i32, i32),
)
    ensures
        BEnv::<'a, K>::pair_bits(p0, p0, p1, p1) == 4,
        BEnv::<'a, K>::pair_bits(m0, p0, m1, p1) == BEnv::<'a, K>::pair_bits(m1, p1, m0, p0),
        BEnv::<'a, K>::pair_bits(m0, p0, p1, p1) == 2 + bits::mvd_rate(arith::wrap(m0.0 - p0.0))
            + bits::mvd_rate(arith::wrap(m0.1 - p0.1)),
        BEnv::<'a, K>::pair_bits(p0, p0, m1, p1) == 2 + bits::mvd_rate(arith::wrap(m1.0 - p1.0))
            + bits::mvd_rate(arith::wrap(m1.1 - p1.1)),
{
    reveal_with_fuel(bits::bit_len, 3);
    vstd::arithmetic::power2::lemma2_to64();
    assert(bits::mvd_rate(0) == 1);
}

/// A B slice is busy once 32 macroblocks were looked at and 32 coded, fewer skips were free than the share
/// asked for, and direct prediction won no less often than the share asked for.
pub proof fn law_busy(n: BCounts, o: BOptions)
    ensures
        n.busy(o) ==> n.seen >= 32 && n.coded >= 32 && 100 * n.free < o.busy_pct * n.seen && 100
            * n.dirwin >= o.dirwin_pct * n.coded,
        n.seen >= 32 && n.coded >= 32 && 100 * n.free < o.busy_pct * n.seen && 100 * n.dirwin
            >= o.dirwin_pct * n.coded ==> n.busy(o),
{
    assert(o.busy_pct * n.seen == n.seen * o.busy_pct) by (nonlinear_arith);
    assert(o.dirwin_pct * n.coded == n.coded * o.dirwin_pct) by (nonlinear_arith);
}

/// A B macroblock is divided only where that costs less than the best whole one: into columns where these
/// cost less than rows, too, else into rows.
pub proof fn law_b_division<'a, K: Kernels>(
    env: BEnv<'a, K>,
    fe: &'a FrameEncoder,
    st: MeState,
    x: int,
    y: int,
    best: int,
)
    ensures
        ({
            let r = env.splits_of(fe, st, x, y, best).0;
            let (h1, c1, st1) = env.halves_of(fe, st, x, y, 1);
            let (h2, c2, st2) = env.halves_of(fe, st1, x, y, 2);
            &&& r is None <==> best <= c1 && best <= c2
            &&& c2 < c1 && c2 < best ==> r == Some((2u8, h2))
            &&& c1 <= c2 && c1 < best ==> r == Some((1u8, h1))
        }),
{
}

/// One step of a B slice counts: a macroblock is either one more in the run of skipped ones and leaves no
/// element, or it ends the run and leaves first the length of the run.
pub proof fn law_b_skip_runs<'a, K: Kernels>(
    env: BEnv<'a, K>,
    s: BState,
    t: BState,
    x: int,
    y: int,
)
    requires
        env.step(s, t, x, y),
    ensures
        ({
            ||| t.run == s.run + 1 && t.out@ == s.out@
            ||| t.run == 0 && t.out@.len() > s.out@.len() && t.out@.take(s.out@.len() as int) == s.out@
                && t.out@[s.out@.len() as int] == ElemView::Ue(s.run)
        }),
        t.counts.seen == (s.counts.seen + 1) as u64,
{
    let a = env.at_mb(s.fe, x, y);
    let act = choose|act: bslice::BAct|
        #[trigger] env.decided(&a, s.counts, s.me, x, y, act, t.counts, t.me) && env.acted(
            a,
            s,
            t,
            x,
            y,
            act,
        );
    match act {
        bslice::BAct::Skip => {},
        bslice::BAct::Code(c) => {
            let w = choose|w: Seq<ElemView>|
                #[trigger] env.codes(a, t.fe, x, y, c, w) && t.run == 0 && t.out@ == s.out@ + seq![
                    ElemView::Ue(s.run),
                ] + w;
            assert(t.out@.take(s.out@.len() as int) =~= s.out@);
        },
    }
}

/// A B macroblock whose direct prediction loses nothing is skipped, whatever else was counted.
pub proof fn law_free_direct_is_skipped<'a, K: Kernels>(
    env: BEnv<'a, K>,
    s: BState,
    t: BState,
    x: int,
    y: int,
)
    requires
        env.step(s, t, x, y),
        env.direct_free(env.at_mb(s.fe, x, y), x, y),
        s.counts.free < u64::MAX,
    ensures
        t.run == s.run + 1,
        t.out@ == s.out@,
        t.counts.free == s.counts.free + 1,
        t.counts.coded == s.counts.coded,
        t.me == s.me,
{
}

/// A P macroblock whose skip loses nothing is skipped, and counted as free.
pub proof fn law_free_skip_is_taken<'a, K: Kernels>(
    env: PEnv<'a, K>,
    s: PState,
    t: PState,
    x: int,
    y: int,
    mv: (i32, i32),
    sad: u32,
)
    requires
        env.probed_step(s, t, x, y, mv, true, sad),
        s.census.free < u64::MAX,
    ensures
        t.run == s.run + 1,
        t.out@ == s.out@,
        t.census.free == s.census.free + 1,
        t.me == s.me,
{
}

} // verus!
