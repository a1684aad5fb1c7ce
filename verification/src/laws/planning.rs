//! How the plan of a macroblock is made.
use vstd::prelude::*;
use crate::binarize;
use crate::bits;
use crate::frame::FrameEncoder;
use crate::interplan;
use crate::interplan::InterResidual;
use crate::intra4;
use crate::intra4::{I4Ctx, I4State, Pick};
use crate::intra8;
use crate::intra8::{I8Ctx, I8State};
use crate::intraplan;
use crate::intraplan::I16Part;
use crate::kernels::{Around, Kernels};
use crate::partition::BInter;
use crate::pixels;
use crate::plan;
use crate::plan::{InterPlan, MbPlan};
use crate::quant;
use crate::trial;

verus! {

/// A 4x4 block is predicted from the four samples above it and the next four, which repeat the fourth
/// where they are not coded yet; from the four on its left; and from the one above and left.
pub proof fn law_samples_around_four(rec: Seq<u8>, cw: int, px: int, py: int, more: bool, i: int)
    requires
        0 <= i < 8,
    ensures
        intra4::i4_top(rec, cw, px, py, true, more).len() == 8,
        intra4::i4_top(rec, cw, px, py, true, true)[i] == rec[(py - 1) * cw + px + i],
        i < 4 ==> intra4::i4_top(rec, cw, px, py, true, more)[i] == rec[(py - 1) * cw + px + i],
        i >= 4 ==> intra4::i4_top(rec, cw, px, py, true, false)[i] == rec[(py - 1) * cw + px + 3],
        intra4::i4_left(rec, cw, px, py, true).len() == 4,
        i < 4 ==> intra4::i4_left(rec, cw, px, py, true)[i] == rec[(py + i) * cw + px - 1],
        intra4::corner_at(rec, cw, px, py, true) == rec[(py - 1) * cw + px - 1],
{
}

/// The same for an 8x8 block, with twice as many samples.
pub proof fn law_samples_around_eight(rec: Seq<u8>, cw: int, px: int, py: int, more: bool, i: int)
    requires
        0 <= i < 16,
    ensures
        intra8::i8_top(rec, cw, px, py, true, more).len() == 16,
        intra8::i8_top(rec, cw, px, py, true, true)[i] == rec[(py - 1) * cw + px + i],
        i < 8 ==> intra8::i8_top(rec, cw, px, py, true, more)[i] == rec[(py - 1) * cw + px + i],
        i >= 8 ==> intra8::i8_top(rec, cw, px, py, true, false)[i] == rec[(py - 1) * cw + px + 7],
        intra8::i8_left(rec, cw, px, py, true).len() == 8,
        i < 8 ==> intra8::i8_left(rec, cw, px, py, true)[i] == rec[(py + i) * cw + px - 1],
{
}

/// The same for a whole macroblock.
pub proof fn law_samples_around_square(rec: Seq<u8>, w: int, x: int, y: int, n: int, i: int)
    requires
        0 <= i < n,
    ensures
        y > 0 ==> intraplan::above(rec, w, x, y, n)[i] == rec[(y - 1) * w + x + i],
        x > 0 ==> intraplan::beside(rec, w, x, y, n)[i] == rec[(y + i) * w + x - 1],
        intraplan::above(rec, w, x, y, n).len() == n,
        intraplan::beside(rec, w, x, y, n).len() == n,
        intraplan::mb_around(x, y).top == (y > 0),
        intraplan::mb_around(x, y).left == (x > 0),
        intra4::around(x, y).top == (y > 0),
        intra4::around(x, y).left == (x > 0),
{
}

/// The samples above right are there where the frame goes on to the right and that block has been coded.
pub proof fn law_more_samples(coded: Seq<bool>, w4: int, bx: int, by: int, step: int)
    ensures
        intra4::has_more(coded, w4, bx, by, step) == (bx + step < w4 && coded[(by - 1) * w4 + bx
            + step]),
{
}

/// The pick is what it started from or a usable mode of the list, costs no more than any usable one of
/// them, and is the first of those that cost as little.
pub proof fn law_cheapest_mode(
    cost: spec_fn(u8) -> int,
    has: Around,
    modes: Seq<u8>,
    i: int,
    p: Pick,
    j: int,
)
    requires
        0 <= i <= j < modes.len(),
    ensures
        ({
            let r = intra4::cheapest(cost, has, modes, i, p);
            &&& r.cost <= p.cost
            &&& pixels::i4_usable(modes[j] as int, has.top, has.left) ==> r.cost <= cost(modes[j])
            &&& r == p || (r.cost < p.cost && r.cost == cost(r.mode) && modes.contains(r.mode)
                && pixels::i4_usable(r.mode as int, has.top, has.left))
        }),
    decreases modes.len() - i,
{
    let m = modes[i];
    let next = if pixels::i4_usable(m as int, has.top, has.left) && cost(m) < p.cost {
        Pick { mode: m, cost: cost(m) }
    } else {
        p
    };
    assert(modes.contains(m));
    if i + 1 < modes.len() {
        law_cheapest_mode(
            cost,
            has,
            modes,
            i + 1,
            next,
            if j > i {
                j
            } else {
                i + 1
            },
        );
    } else {
        assert(intra4::cheapest(cost, has, modes, i + 1, next) == next);
    }
}

/// All modes are tried, or the predicted one, which is the smaller one of those on the left and above,
/// and the plain ones.
pub proof fn law_tried_modes(c: I4Ctx, s: I4State, lbx: int, lby: int, m: u8)
    requires
        0 <= lbx < 4,
        0 <= lby < 4,
        0 <= c.mb_x,
        0 <= c.mb_y,
    ensures
        ({
            let t = intra4::i4_tried(c, s, lbx, lby);
            let (bx, by) = (4 * c.mb_x + lbx, 4 * c.mb_y + lby);
            let w4 = 4 * c.mb_w;
            let l = if bx == 0 {
                2u8
            } else if lbx > 0 {
                s.modes[4 * lby + lbx - 1]
            } else {
                c.modes_y[by * w4 + bx - 1]
            };
            let u = if by == 0 {
                2u8
            } else if lby > 0 {
                s.modes[4 * lby + lbx - 4]
            } else {
                c.modes_y[(by - 1) * w4 + bx]
            };
            &&& !c.few && m <= 8 ==> t.contains(m)
            &&& !c.few ==> t.len() == 9
            &&& c.few ==> t.len() == 4 && (t[0] == l || t[0] == u) && t[0] <= l && t[0] <= u && t[1]
                == 2 && t[2] == 0 && t[3] == 1
        }),
{
    if m <= 8 {
        assert(intra4::nine()[m as int] == m);
    }
}

/// The mode of a 4x4 block costs no more than any mode that can be used, where all are tried.
pub proof fn law_i4_mode_is_cheapest<K: Kernels>(
    k: K,
    c: I4Ctx,
    s: I4State,
    lbx: int,
    lby: int,
    m: u8,
)
    requires
        0 <= lbx < 4,
        0 <= lby < 4,
        0 <= c.mb_x,
        0 <= c.mb_y,
        !c.few,
        m <= 8,
        ({
            let (bx, by) = (4 * c.mb_x + lbx, 4 * c.mb_y + lby);
            pixels::i4_usable(m as int, by > 0, bx > 0) && intra4::i4_cost(k, c, s, bx, by, m)
                < i64::MAX
        }),
    ensures
        ({
            let (bx, by) = (4 * c.mb_x + lbx, 4 * c.mb_y + lby);
            let r = intra4::i4_mode(k, c, s, lbx, lby);
            &&& intra4::i4_cost(k, c, s, bx, by, r) <= intra4::i4_cost(k, c, s, bx, by, m)
            &&& pixels::i4_usable(r as int, by > 0, bx > 0)
            &&& r <= 8
        }),
{
    let (bx, by) = (4 * c.mb_x + lbx, 4 * c.mb_y + lby);
    let f = |m: u8| intra4::i4_cost(k, c, s, bx, by, m);
    let has = intra4::around(bx, by);
    let start = Pick { mode: 2, cost: i64::MAX as int };
    assert(intra4::nine()[m as int] == m);
    law_cheapest_mode(f, has, intra4::nine(), 0, start, m as int);
    let r = intra4::cheapest(f, has, intra4::nine(), 0, start);
    assert(r != start);
    let i = choose|i: int| 0 <= i < 9 && intra4::nine()[i] == r.mode;
    assert(intra4::nine()[i] == i);
}

/// The mode of an 8x8 block costs no more than any mode that can be used. A mode other than the predicted
/// one is charged four times the QP.
pub proof fn law_i8_mode_is_cheapest<K: Kernels>(k: K, c: I8Ctx, s: I8State, bx: int, by: int, m: u8)
    requires
        0 <= bx,
        0 <= by,
        m <= 8,
        pixels::i4_usable(m as int, by > 0, bx > 0),
        intra8::i8_cost(k, c, s, bx, by, m) < i64::MAX,
    ensures
        ({
            let r = intra8::i8_mode(k, c, s, bx, by);
            &&& intra8::i8_cost(k, c, s, bx, by, r) <= intra8::i8_cost(k, c, s, bx, by, m)
            &&& pixels::i4_usable(r as int, by > 0, bx > 0)
        }),
        intra8::i8_cost(k, c, s, bx, by, m) - pixels::satd(
            c.sy,
            pixels::placed((16 * c.mb_w) as usize, (4 * bx) as usize, (4 * by) as usize),
            intra8::i8_prediction(k, c, s, bx, by, m),
            pixels::dense(8),
            2,
            4,
        ) == (if m == intra8::i8_expected(s, 4 * c.mb_w, bx, by) {
            0
        } else {
            4 * c.cost_qp
        }),
        bx == 0 || by == 0 ==> intra8::i8_expected(s, 4 * c.mb_w, bx, by) == 2,
        bx > 0 && by > 0 ==> ({
            let e = intra8::i8_expected(s, 4 * c.mb_w, bx, by);
            let (l, u) = (
                s.modes_y[by * (4 * c.mb_w) + bx - 1] as int,
                s.modes_y[(by - 1) * (4 * c.mb_w) + bx] as int,
            );
            (e == l || e == u) && e <= l && e <= u
        }),
{
    let f = |m: u8| intra8::i8_cost(k, c, s, bx, by, m);
    let has = intra4::around(bx, by);
    let start = Pick { mode: 2, cost: i64::MAX as int };
    assert(intra4::nine()[m as int] == m);
    law_cheapest_mode(f, has, intra4::nine(), 0, start, m as int);
}

/// Which chroma modes can be used: DC always, horizontal with a left neighbour, vertical with an upper
/// one, plane with both.
pub proof fn law_usable_chroma_modes(has: Around)
    ensures
        intraplan::chroma_usable(0, has),
        intraplan::chroma_usable(1, has) == has.left,
        intraplan::chroma_usable(2, has) == has.top,
        intraplan::chroma_usable(3, has) == (has.top && has.left),
{
}

proof fn lemma_chroma_pick(cost: spec_fn(u8) -> int, has: Around, m: int, best: u8, j: u8)
    requires
        1 <= m <= 4,
        best < m,
        intraplan::chroma_usable(best as int, has),
        m <= j <= 3 || j == best,
        j == best || intraplan::chroma_usable(j as int, has),
    ensures
        ({
            let r = intraplan::chroma_pick(cost, has, m, best);
            &&& cost(r) <= cost(j)
            &&& cost(r) <= cost(best)
            &&& intraplan::chroma_usable(r as int, has)
            &&& r <= 3
        }),
    decreases 4 - m,
{
    if m < 4 {
        let next = if intraplan::chroma_usable(m, has) && cost(m as u8) < cost(best) {
            m as u8
        } else {
            best
        };
        if j == best || j == m {
            lemma_chroma_pick(cost, has, m + 1, next, next);
        } else {
            lemma_chroma_pick(cost, has, m + 1, next, j);
        }
    }
}

/// The chroma mode can be used and costs no more than any other that can.
pub proof fn law_chroma_mode_is_cheapest<K: Kernels>(
    k: K,
    fe: FrameEncoder,
    su: Seq<u8>,
    sv: Seq<u8>,
    x: int,
    y: int,
    m: u8,
)
    requires
        m <= 3,
        intraplan::chroma_usable(m as int, intraplan::mb_around(x, y)),
    ensures
        ({
            let r = intraplan::chroma_mode(k, fe, su, sv, x, y);
            &&& intraplan::chroma_cost(k, fe, su, sv, x, y, r) <= intraplan::chroma_cost(
                k,
                fe,
                su,
                sv,
                x,
                y,
                m,
            )
            &&& intraplan::chroma_usable(r as int, intraplan::mb_around(x, y))
            &&& r <= 3
        }),
{
    let f = |m: u8| intraplan::chroma_cost(k, fe, su, sv, x, y, m);
    lemma_chroma_pick(f, intraplan::mb_around(x, y), 1, 0, m);
}

/// The rate that a trial charges for the type of a quarter is the number of bins that it takes.
pub proof fn law_quarter_rates(t: u8, subs: Seq<u8>, n: int)
    requires
        t <= 3,
        0 <= n < subs.len(),
    ensures
        trial::sub_bins(t) == binarize::sub_type_p_bins(t as int).len(),
        trial::all_sub_bins(subs, 0) == 0,
        trial::all_sub_bins(subs, n + 1) == trial::all_sub_bins(subs, n) + trial::sub_bins(subs[n]),
{
}

/// A difference is charged the bits of its two codes; the most negative numbers, whose codes do not fit,
/// are left out.
pub proof fn law_difference_rates(mvds: Seq<(i32, i32)>, n: int)
    requires
        0 <= n < mvds.len(),
        mvds[n].0 != i32::MIN,
        mvds[n].1 != i32::MIN,
    ensures
        trial::mvd_rate(mvds, 0) == 0,
        trial::mvd_rate(mvds, n + 1) == trial::mvd_rate(mvds, n) + bits::se(
            mvds[n].0 as int,
        ).len() + bits::se(mvds[n].1 as int).len(),
{
}

/// How many levels are not zero: none where all are zero, and one more for each that is not.
pub proof fn law_level_counts(s: Seq<i32>, from: int, n: int)
    requires
        0 <= from,
    ensures
        quant::level_count(s, from, from) == 0,
        n >= from ==> quant::level_count(s, from, n + 1) - quant::level_count(s, from, n) == (if s[n]
            == 0 {
            0int
        } else {
            1
        }),
        quant::rate_sum(s, 0) == 0,
        n >= 0 ==> quant::rate_sum(s, n + 1) - quant::rate_sum(s, n) == (if s[n] == 0 {
            0int
        } else if s[n] > 0 {
            quant::level_rate(s[n] as int)
        } else {
            quant::level_rate(-s[n])
        }),
{
}

/// A level counts where it is not zero: the count is 0 exactly where there is none.
pub proof fn law_no_levels_count_none(s: Seq<i32>, from: int, n: int)
    requires
        0 <= from <= n,
    ensures
        quant::level_count(s, from, n) >= 0,
        quant::level_count(s, from, n) == 0 <==> forall|i: int| from <= i < n ==> s[i] == 0,
        quant::level_count(s, from, n) <= n - from,
    decreases n,
{
    if n > from {
        law_no_levels_count_none(s, from, n - 1);
        if quant::level_count(s, from, n) == 0 {
            assert forall|i: int| from <= i < n implies s[i] == 0 by {
                if i < n - 1 {
                    assert(s[i] == 0);
                }
            }
        }
    }
}

/// The rate of an `I_16x16` macroblock counts all its levels, and sixteen more where an AC level is not zero.
pub proof fn law_i16_rate(dc: Seq<i32>, q: Seq<[i32; 16]>)
    ensures
        ({
            let ac = intra4::total_levels(intra4::q_views(q), 1, 16);
            let d = quant::level_count(dc, 0, 16);
            &&& ac > 0 ==> intraplan::i16_rate(dc, q) == d + ac + 16
            &&& ac <= 0 ==> intraplan::i16_rate(dc, q) == d + ac
        }),
        intraplan::tries_i4(
            (I16Part { mode: plan::I16Mode::Dc, dc, q }),
        ) == (intraplan::i16_rate(dc, q) > 2),
{
}

/// Block `i` of sixteen adds its levels to the total.
pub proof fn law_total_levels(q: Seq<Seq<i32>>, e: Seq<Seq<i32>>, from: int, n: int)
    requires
        0 <= n,
    ensures
        intra4::total_levels(q, from, 0) == 0,
        intra4::total_levels(q, from, n + 1) == intra4::total_levels(q, from, n)
            + quant::level_count(q[n], from, 16),
        intra8::total_levels8(e, 0) == 0,
        intra8::total_levels8(e, n + 1) == intra8::total_levels8(e, n) + quant::level_count(
            e[n],
            0,
            64,
        ),
{
}

/// Only one of the finer intra types wins: 8x8 only where the stream has that transform, 4x4 only where it
/// is tried.
pub proof fn law_one_intra_type_wins<K: Kernels>(
    k: K,
    a: FrameEncoder,
    sy: Seq<u8>,
    x: int,
    y: int,
    r: MbPlan,
)
    requires
        intraplan::luma_planned(k, a, sy, x, y, r),
    ensures
        !(r.i4 is Some && r.i8 is Some),
        r.use_i4 == (r.i4 is Some || r.i8 is Some),
        r.i8 is Some ==> a.transform_8x8,
        r.i4 is Some ==> intraplan::i16_rate(r.i16_dc_levels@, r.i16_q@) > 2,
        r.i16_cbp15 == (intra4::total_levels(intra4::q_views(r.i16_q@), 1, 16) > 0),
        r.i4 is Some ==> crate::kernels::rd_less_of(
            k,
            a.qp,
            intraplan::rd4(k, a, sy, x, y),
            intraplan::rd16(k, a, sy, x, y, r.i16_part()),
        ),
        r.i8 is Some ==> crate::kernels::rd_at_most_of(
            k,
            a.qp,
            intraplan::rd8(
                k,
                a,
                sy,
                x,
                y,
                intraplan::i16_rate(r.i16_dc_levels@, r.i16_q@) > 2,
            ),
            intraplan::rd16(k, a, sy, x, y, r.i16_part()),
        ),
{
    reveal(intraplan::wins8);
    reveal(intraplan::wins4);
}

/// The rates of the two finer types count their levels and sixteen more.
pub proof fn law_intra_rates<K: Kernels>(
    k: K,
    a: FrameEncoder,
    sy: Seq<u8>,
    x: int,
    y: int,
    four: bool,
)
    requires
        intra4::total_levels(intraplan::i4_trial(k, a, sy, x, y).q, 0, 16) <= 256,
        0 <= intra4::total_levels(intraplan::i4_trial(k, a, sy, x, y).q, 0, 16),
        intra8::total_levels8(intraplan::i8_trial(k, a, sy, x, y, four).q, 4) <= 256,
        0 <= intra8::total_levels8(intraplan::i8_trial(k, a, sy, x, y, four).q, 4),
    ensures
        intraplan::rd4(k, a, sy, x, y).rate == intra4::total_levels(
            intraplan::i4_trial(k, a, sy, x, y).q,
            0,
            16,
        ) + 16,
        intraplan::rd8(k, a, sy, x, y, four).rate == intra8::total_levels8(
            intraplan::i8_trial(k, a, sy, x, y, four).q,
            4,
        ) + 16,
{
}

/// The chroma pattern of an intra plan: 2 exactly with a level behind the first of a block, 0 exactly
/// without any level.
pub proof fn law_intra_chroma_pattern<K: Kernels>(
    k: K,
    a: FrameEncoder,
    b: FrameEncoder,
    su: Seq<u8>,
    sv: Seq<u8>,
    x: int,
    y: int,
    r: MbPlan,
)
    requires
        intraplan::chroma_planned(k, a, b, su, sv, x, y, r),
    ensures
        ({
            let ac = exists|c: int, i: int, j: int|
                0 <= c < 2 && 0 <= i < 4 && 1 <= j < 16 && #[trigger] r.c_q_blocks@[c]@[i]@[j] != 0;
            let dc = exists|c: int, i: int|
                0 <= c < 2 && 0 <= i < 4 && #[trigger] r.c_dc_levels@[c]@[i] != 0;
            &&& r.cbp_chroma == 2 <==> ac
            &&& r.cbp_chroma == 0 <==> !ac && !dc
            &&& r.cbp_chroma <= 2
        }),
{
    lemma_ac(r.c_q_blocks@);
    lemma_dc(r.c_dc_levels@);
    assert(intraplan::plane_any_ac(r.c_q_blocks@[0]@) || intraplan::plane_any_ac(
        r.c_q_blocks@[1]@,
    ) <==> any_ac(r.c_q_blocks@));
}

/// Some level of two chroma planes behind the first of a block is not zero.
pub open spec fn any_ac(q: Seq<[[i32; 16]; 4]>) -> bool {
    exists|c: int, i: int, j: int|
        0 <= c < 2 && 0 <= i < 4 && 1 <= j < 16 && #[trigger] q[c]@[i]@[j] != 0
}

proof fn lemma_ac(q: Seq<[[i32; 16]; 4]>)
    ensures
        any_ac(q) <==> intraplan::plane_any_ac(q[0]@) || intraplan::plane_any_ac(q[1]@),
{
    if any_ac(q) {
        let (c, i, j) = choose|c: int, i: int, j: int|
            0 <= c < 2 && 0 <= i < 4 && 1 <= j < 16 && #[trigger] q[c]@[i]@[j] != 0;
        assert(quant::any_level(q[c]@[i]@, 1));
    }
    if intraplan::plane_any_ac(q[0]@) {
        lemma_plane_ac(q, 0);
    }
    if intraplan::plane_any_ac(q[1]@) {
        lemma_plane_ac(q, 1);
    }
}

proof fn lemma_plane_ac(q: Seq<[[i32; 16]; 4]>, c: int)
    requires
        0 <= c < 2,
        intraplan::plane_any_ac(q[c]@),
    ensures
        any_ac(q),
{
    let i = if quant::any_level(q[c]@[0]@, 1) {
        0int
    } else if quant::any_level(q[c]@[1]@, 1) {
        1
    } else if quant::any_level(q[c]@[2]@, 1) {
        2
    } else {
        3
    };
    let j = choose|j: int| 1 <= j < q[c]@[i]@.len() && #[trigger] q[c]@[i]@[j] != 0;
    assert(q[c]@[i]@[j] != 0);
}

proof fn lemma_dc(d: Seq<[i32; 4]>)
    ensures
        (exists|c: int, i: int| 0 <= c < 2 && 0 <= i < 4 && #[trigger] d[c]@[i] != 0)
            <==> quant::any_level(d[0]@, 0) || quant::any_level(d[1]@, 0),
{
    if exists|c: int, i: int| 0 <= c < 2 && 0 <= i < 4 && #[trigger] d[c]@[i] != 0 {
        let (c, i) = choose|c: int, i: int| 0 <= c < 2 && 0 <= i < 4 && #[trigger] d[c]@[i] != 0;
        assert(quant::any_level(d[c]@, 0));
    }
    if quant::any_level(d[0]@, 0) {
        let i = choose|i: int| 0 <= i < d[0]@.len() && #[trigger] d[0]@[i] != 0;
        assert(d[0]@[i] != 0);
    }
    if quant::any_level(d[1]@, 0) {
        let i = choose|i: int| 0 <= i < d[1]@.len() && #[trigger] d[1]@[i] != 0;
        assert(d[1]@[i] != 0);
    }
}

/// The pattern of an inter residual: its luma part marks the quarters with a level, in the transform that
/// is used; its chroma part is 2 exactly with a level behind the first of a block, 0 exactly without
/// any.
#[verifier::spinoff_prover]
#[verifier::rlimit(60)]
pub proof fn law_inter_pattern_marks_levels(r: InterResidual, b: int)
    requires
        r.cbp == r.luma_cbp() + 16 * r.chroma_cbp(),
        0 <= b < 4,
    ensures
        plan::cbp_bit(r.cbp as int % 16, b) <==> (if r.t8x8 {
            exists|j: int| 0 <= j < 64 && #[trigger] r.q8@[b]@[j] != 0
        } else {
            exists|x: int, y: int, j: int|
                2 * (b % 2) <= x < 2 * (b % 2) + 2 && 2 * (b / 2) <= y < 2 * (b / 2) + 2 && 0 <= j
                    < 16 && #[trigger] r.q_blocks@[4 * y + x]@[j] != 0
        }),
        r.cbp / 16 == 2 <==> any_ac(r.c_q@),
        r.cbp / 16 == 0 <==> !any_ac(r.c_q@) && !(exists|c: int, i: int|
            0 <= c < 2 && 0 <= i < 4 && #[trigger] r.c_dc_levels@[c]@[i] != 0),
        r.cbp < 48,
{
    let (l, c) = (r.luma_cbp(), r.chroma_cbp());
    assert(0 <= l < 16) by {
        super::coding::law_luma_pattern(r.q_blocks@, b);
        super::coding::law_luma8_pattern(r.q8@, b);
    }
    assert(r.cbp as int % 16 == l && r.cbp as int / 16 == c);
    if r.t8x8 {
        super::coding::law_luma8_pattern(r.q8@, b);
    } else {
        super::coding::law_luma_pattern(r.q_blocks@, b);
    }
    lemma_chroma_cbp(r);
}

proof fn lemma_chroma_cbp(r: InterResidual)
    ensures
        0 <= r.chroma_cbp() <= 2,
        r.chroma_cbp() == 2 <==> any_ac(r.c_q@),
        r.chroma_cbp() == 0 <==> !any_ac(r.c_q@) && !(exists|c: int, i: int|
            0 <= c < 2 && 0 <= i < 4 && #[trigger] r.c_dc_levels@[c]@[i] != 0),
{
    lemma_ac(r.c_q@);
    lemma_dc(r.c_dc_levels@);
    assert(r.any_ac(0) == intraplan::plane_any_ac(r.c_q@[0]@));
    assert(r.any_ac(1) == intraplan::plane_any_ac(r.c_q@[1]@));
}

/// The 8x8 transform may be used only where the stream has it, inter macroblocks take it and no partition
/// is smaller; a residual that uses it codes something.
pub proof fn law_when_8x8(fe: FrameEncoder, flat: bool, subs: Seq<u8>)
    ensures
        interplan::may_8x8(fe, flat) == (fe.transform_8x8 && fe.inter8x8 && flat),
        interplan::no_sub_types(subs) == (subs[0] == 0 && subs[1] == 0 && subs[2] == 0 && subs[3]
            == 0),
{
}

/// The references of a P macroblock: that of each partition; of a divided quarter, that of its first part;
/// and 0 in a B macroblock.
pub proof fn law_planned_references(
    mode: u8,
    parts: Seq<(i32, (i32, i32))>,
    bspec: Option<BInter>,
    t: Seq<u8>,
    i: int,
)
    requires
        mode <= 3,
        0 <= i < 4,
    ensures
        bspec is Some ==> interplan::ref_of(mode, parts, bspec, t, i) == 0,
        bspec is None && mode == 0 && i == 0 ==> interplan::ref_of(mode, parts, bspec, t, i)
            == parts[0].0,
        bspec is None && (mode == 1 || mode == 2) && i < 2 ==> interplan::ref_of(
            mode,
            parts,
            bspec,
            t,
            i,
        ) == parts[i].0,
        bspec is None && mode == 3 && t[0] == 0 && t[1] == 0 && t[2] == 0 && t[3] == 0
            ==> interplan::ref_of(mode, parts, bspec, t, i) == parts[i].0,
        bspec is None && mode == 3 && t[0] == 3 && i == 1 ==> interplan::ref_of(
            mode,
            parts,
            bspec,
            t,
            i,
        ) == parts[4].0,
{
    reveal_with_fuel(crate::partition::quarter_start, 3);
}

/// A plan that codes nothing and moves by no difference is charged its quarters' types and the overhead.
pub proof fn law_rate_of_nothing(p: InterPlan)
    requires
        p.n_mvd == 0,
        !p.t8x8,
        forall|i: int, j: int| 0 <= i < 16 && 0 <= j < 16 ==> #[trigger] p.q_blocks@[i]@[j] == 0,
        forall|c: int, i: int, j: int|
            0 <= c < 2 && 0 <= i < 4 && 0 <= j < 16 ==> #[trigger] p.c_q@[c]@[i]@[j] == 0,
        forall|c: int, i: int| 0 <= c < 2 && 0 <= i < 4 ==> #[trigger] p.c_dc_levels@[c]@[i] == 0,
    ensures
        trial::plan_rate(p, seq![0u8, 0u8, 0u8, 0u8]) == 20,
        trial::plan_rate(p, seq![3u8, 3u8, 3u8, 3u8]) == 28,
{
    lemma_luma_rate_zero(p.q_blocks@, 16);
    lemma_plane_rate_zero(p.c_q@, 0, 4);
    lemma_plane_rate_zero(p.c_q@, 1, 4);
    lemma_rate_zero(p.c_dc_levels@[0]@, 4);
    lemma_rate_zero(p.c_dc_levels@[1]@, 4);
    reveal_with_fuel(trial::all_sub_bins, 5);
    assert(trial::mvd_rate(p.mvds@, 0) == 0);
}

proof fn lemma_rate_zero(s: Seq<i32>, n: int)
    requires
        0 <= n,
        forall|j: int| 0 <= j < n ==> #[trigger] s[j] == 0,
    ensures
        quant::rate_sum(s, n) == 0,
    decreases n,
{
    if n > 0 {
        lemma_rate_zero(s, n - 1);
    }
}

proof fn lemma_luma_rate_zero(q: Seq<[i32; 16]>, n: int)
    requires
        0 <= n <= 16,
        forall|i: int, j: int| 0 <= i < 16 && 0 <= j < 16 ==> #[trigger] q[i]@[j] == 0,
    ensures
        quant::luma_rate(q, n) == 0,
    decreases n,
{
    if n > 0 {
        lemma_luma_rate_zero(q, n - 1);
        lemma_rate_zero(q[n - 1]@, 16);
    }
}

proof fn lemma_plane_rate_zero(q: Seq<[[i32; 16]; 4]>, c: int, n: int)
    requires
        0 <= n <= 4,
        0 <= c < 2,
        forall|c: int, i: int, j: int|
            0 <= c < 2 && 0 <= i < 4 && 0 <= j < 16 ==> #[trigger] q[c]@[i]@[j] == 0,
    ensures
        trial::plane_rate(q[c]@, n) == 0,
    decreases n,
{
    if n > 0 {
        lemma_plane_rate_zero(q, c, n - 1);
        lemma_rate_zero(q[c]@[n - 1]@, 16);
    }
}

/// A plan of whole blocks is charged for what it codes: the levels of all its blocks, its differences, its
/// quarters' types and the overhead; with the 8x8 transform for those levels in place of the others.
pub proof fn law_rate_is_a_sum(p: InterPlan, q: InterPlan, subs: Seq<u8>)
    requires
        q == (InterPlan { n_mvd: q.n_mvd, ..p }),
        p.n_mvd < 16,
        q.n_mvd == p.n_mvd + 1,
        p.mvds@[p.n_mvd as int].0 != i32::MIN,
        p.mvds@[p.n_mvd as int].1 != i32::MIN,
    ensures
        trial::plan_rate(q, subs) - trial::plan_rate(p, subs) == bits::se(
            p.mvds@[p.n_mvd as int].0 as int,
        ).len() + bits::se(p.mvds@[p.n_mvd as int].1 as int).len(),
        p.t8x8 ==> trial::plan_rate(p, subs) - trial::plan_rate(
            (InterPlan { t8x8: false, ..p }),
            subs,
        ) == quant::luma8_rate(p.q8@, 4) - quant::luma_rate(p.q_blocks@, 16),
{
}

} // verus!
