//! Where a motion search looks and where it ends.
use vstd::prelude::*;
use crate::arith;
use crate::bits;
use crate::kernels::Kernels;
use crate::search;
use crate::search::{MeOptions, MeState, Pricer, Spot, DIA_RUNGS};
use crate::shapes;

verus! {

/// The rings: the four neighbours at distance `d` on the axes; with the corners eight; and, with the
/// centre, nine.
pub proof fn law_rings(d: int, x: int, y: int)
    requires
        d > 0,
    ensures
        search::ring4(d).len() == 4,
        search::ring8(d).len() == 8,
        search::ring9(d).len() == 9,
        search::ring4(d).contains((x, y)) <==> (x == 0 && (y == d || y == -d)) || (y == 0 && (x == d
            || x == -d)),
        search::ring8(d).contains((x, y)) <==> (x == -d || x == 0 || x == d) && (y == -d || y == 0
            || y == d) && !(x == 0 && y == 0),
        search::ring9(d).contains((x, y)) <==> (x == -d || x == 0 || x == d) && (y == -d || y == 0
            || y == d),
{
    let (r4, r8, r9) = (search::ring4(d), search::ring8(d), search::ring9(d));
    if (x == 0 && (y == d || y == -d)) || (y == 0 && (x == d || x == -d)) {
        let i = if y == 0 {
            if x == d {
                0int
            } else {
                1
            }
        } else if y == d {
            2
        } else {
            3
        };
        assert(r4[i] == (x, y));
    }
    if (x == -d || x == 0 || x == d) && (y == -d || y == 0 || y == d) {
        let i = (if y == -d {
            0int
        } else if y == 0 {
            3
        } else {
            6
        }) + (if x == -d {
            0int
        } else if x == 0 {
            1
        } else {
            2
        });
        assert(r9[i] == (x, y));
        if !(x == 0 && y == 0) {
            let j = if y == 0 {
                if x == d {
                    0int
                } else {
                    1
                }
            } else if x == 0 {
                if y == d {
                    2
                } else {
                    3
                }
            } else if x == d {
                if y == d {
                    4
                } else {
                    6
                }
            } else {
                if y == d {
                    7
                } else {
                    5
                }
            };
            assert(r8[j] == (x, y));
        }
    }
}

/// The grid holds every second whole sample within `r` samples of its centre in both directions, and
/// nothing else.
pub proof fn law_grid(cx: int, cy: int, r: int, i: int, j: int, k: int)
    requires
        0 <= r,
        0 <= i <= r,
        0 <= j <= r,
        0 <= k < (r + 1) * (r + 1),
    ensures
        search::grid(cx, cy, r).len() == (r + 1) * (r + 1),
        search::grid(cx, cy, r).contains((cx + 4 * (2 * i - r), cy + 4 * (2 * j - r))),
        ({
            let (x, y) = search::grid(cx, cy, r)[k];
            &&& -4 * r <= x - cx <= 4 * r && (x - cx + 4 * r) % 8 == 0
            &&& -4 * r <= y - cy <= 4 * r && (y - cy + 4 * r) % 8 == 0
        }),
{
    let n = r + 1;
    crate::grid::lemma_cell(n, n, i, j);
    let m = j * n + i;
    assert(search::grid(cx, cy, r)[m] == (cx + 4 * (2 * i - r), cy + 4 * (2 * j - r)));
    assert(0 <= k / n < n && 0 <= k % n < n) by (nonlinear_arith)
        requires
            0 <= k < n * n,
            n > 0,
    ;
}

/// The nearest whole sample is a multiple of four, at most two quarter samples away, and the higher one
/// halfway.
pub proof fn law_snapped(v: int)
    requires
        i32::MIN <= v <= i32::MAX - 3,
    ensures
        search::snapped(v) % 4 == 0,
        -1 <= search::snapped(v) - v <= 2,
        v % 4 == 0 ==> search::snapped(v) == v,
{
}

/// The better one of two is a candidate or what was there, costs what the cheaper one costs, and stays
/// where the candidate costs the same.
pub proof fn law_better(f: spec_fn(int, int) -> int, x: int, y: int, s: Spot)
    requires
        i32::MIN <= x <= i32::MAX,
        i32::MIN <= y <= i32::MAX,
    ensures
        ({
            let r = search::better(f, x, y, s);
            &&& r.c <= s.c && r.c <= f(x, y)
            &&& r == s || (r.x == x && r.y == y && r.c == f(x, y))
            &&& f(x, y) >= s.c ==> r == s
        }),
{
}

/// A scan ends at what it started from or at one of its candidates, at the lowest cost among them all;
/// where none is cheaper it stays.
pub proof fn law_scan(f: spec_fn(int, int) -> int, cands: Seq<(int, int)>, i: int, s: Spot, j: int)
    requires
        0 <= i,
        i <= j < cands.len(),
        forall|k: int|
            0 <= k < cands.len() ==> i32::MIN <= (#[trigger] cands[k]).0 <= i32::MAX && i32::MIN
                <= cands[k].1 <= i32::MAX,
    ensures
        ({
            let r = search::scan(f, cands, i, s);
            &&& r.c <= s.c
            &&& r.c <= f(cands[j].0, cands[j].1)
            &&& r == s || (r.c < s.c && r.c == f(r.x, r.y) && cands.contains((r.x, r.y)))
        }),
    decreases cands.len() - i,
{
    let t = search::better(f, cands[i].0, cands[i].1, s);
    assert(cands.contains((cands[i].0, cands[i].1))) by {
        assert(cands[i] == (cands[i].0, cands[i].1));
    }
    if i + 1 < cands.len() {
        law_scan(
            f,
            cands,
            i + 1,
            t,
            if j > i {
                j
            } else {
                i + 1
            },
        );
    } else {
        assert(search::scan(f, cands, i + 1, t) == t);
    }
}

/// Where a pass over a ring brings nothing, no neighbour of the ring is cheaper.
proof fn lemma_quiet_cascade(
    f: spec_fn(int, int) -> int,
    ring: Seq<(int, int)>,
    i: int,
    s: Spot,
    j: int,
)
    requires
        0 <= i <= j < ring.len(),
        search::cascade(f, ring, i, s).c >= s.c,
    ensures
        search::cascade(f, ring, i, s) == s,
        f(arith::wrap(s.x + ring[j].0), arith::wrap(s.y + ring[j].1)) >= s.c,
    decreases ring.len() - i,
{
    search::lemma_cascade_falls(f, ring, i, s);
    let t = search::better(f, s.x + ring[i].0, s.y + ring[i].1, s);
    search::lemma_cascade_falls(f, ring, i + 1, t);
    assert(t == s);
    if i < j {
        lemma_quiet_cascade(f, ring, i + 1, s, j);
    }
}

/// Where a scan around a point brings nothing, no neighbour is cheaper.
proof fn lemma_quiet_scan(
    f: spec_fn(int, int) -> int,
    cands: Seq<(int, int)>,
    i: int,
    s: Spot,
    j: int,
)
    requires
        0 <= i <= j < cands.len(),
        search::scan(f, cands, i, s).c >= s.c,
    ensures
        search::scan(f, cands, i, s) == s,
        f(arith::wrap(cands[j].0), arith::wrap(cands[j].1)) >= s.c,
    decreases cands.len() - i,
{
    search::lemma_scan_falls(f, cands, i, s);
    let t = search::better(f, cands[i].0, cands[i].1, s);
    search::lemma_scan_falls(f, cands, i + 1, t);
    assert(t == s);
    if i + 1 < cands.len() {
        lemma_quiet_scan(
            f,
            cands,
            i + 1,
            s,
            if j > i {
                j
            } else {
                i + 1
            },
        );
    } else {
        assert(search::scan(f, cands, i + 1, t) == t);
    }
}

/// The walk at one distance ends at a point none of whose four neighbours at that distance is cheaper.
pub proof fn law_walk_ends_in_a_valley<K: Kernels>(
    p: Pricer<K>,
    fc: bool,
    step: int,
    s: Spot,
    x: int,
    y: int,
)
    requires
        step > 0,
        s.c >= 0,
        forall|u: int, v: int| 0 <= #[trigger] p.cost_at(true, u, v),
        (x == 0 && (y == step || y == -step)) || (y == 0 && (x == step || x == -step)),
    ensures
        ({
            let r = p.dia_walk(fc, step, s);
            &&& r.c <= s.c
            &&& r.c <= p.cost_at(true, arith::wrap(r.x + x), arith::wrap(r.y + y))
        }),
    decreases s.c,
{
    let t = p.dia_pass(fc, step, s);
    let f = p.f(true);
    let ring = search::ring4(step);
    law_rings(step, x, y);
    let j = choose|j: int| 0 <= j < ring.len() && ring[j] == (x, y);
    assert(0 <= t.c <= s.c) by {
        search::lemma_cascade_falls(f, ring, 0, s);
        search::lemma_scan_falls(f, search::around(ring, s), 0, s);
        lemma_cascade_cost(p, ring, 0, s);
        lemma_scan_cost(p, search::around(ring, s), 0, s);
    }
    if t.c < s.c {
        law_walk_ends_in_a_valley(p, fc, step, t, x, y);
    } else if fc && p.batched(step, s) {
        lemma_quiet_scan(f, search::around(ring, s), 0, s, j);
        assert(search::around(ring, s)[j] == (s.x + x, s.y + y));
    } else {
        lemma_quiet_cascade(f, ring, 0, s, j);
    }
}

proof fn lemma_cascade_cost<K: Kernels>(p: Pricer<K>, ring: Seq<(int, int)>, i: int, s: Spot)
    requires
        s.c >= 0,
        forall|u: int, v: int| 0 <= #[trigger] p.cost_at(true, u, v),
    ensures
        search::cascade(p.f(true), ring, i, s).c >= 0,
    decreases ring.len() - i,
{
    if i < ring.len() {
        let t = search::better(p.f(true), s.x + ring[i].0, s.y + ring[i].1, s);
        assert(p.cost_at(true, arith::wrap(s.x + ring[i].0), arith::wrap(s.y + ring[i].1)) >= 0);
        lemma_cascade_cost(p, ring, i + 1, t);
    }
}

proof fn lemma_scan_cost<K: Kernels>(p: Pricer<K>, cands: Seq<(int, int)>, i: int, s: Spot)
    requires
        s.c >= 0,
        forall|u: int, v: int| 0 <= #[trigger] p.cost_at(true, u, v),
    ensures
        search::scan(p.f(true), cands, i, s).c >= 0,
    decreases cands.len() - i,
{
    if i < cands.len() {
        let t = search::better(p.f(true), cands[i].0, cands[i].1, s);
        assert(p.cost_at(true, arith::wrap(cands[i].0), arith::wrap(cands[i].1)) >= 0);
        lemma_scan_cost(p, cands, i + 1, t);
    }
}

/// The walk tries ever shorter distances, each half the one before, down to one whole sample; a mask
/// chooses among them, and a fast frame takes four samples and one.
pub proof fn law_distances<K: Kernels>(p: Pricer<K>, o: MeOptions, i: int)
    requires
        0 <= i < 5,
    ensures
        DIA_RUNGS[4] == 4,
        i < 4 ==> DIA_RUNGS[i] == 2 * DIA_RUNGS[i + 1],
        search::chosen_rungs(o.dia_mask as int, 0).contains(DIA_RUNGS[i] as int) == ((
        o.dia_mask as int / pow_2(i)) % 2 == 1),
        p.fe.fast ==> p.steps(o) == seq![16int, 4int],
        !p.fe.fast && p.rw >= 8 && p.rh >= 8 ==> p.steps(o) == search::chosen_rungs(
            o.dia_mask as int,
            0,
        ),
        !p.fe.fast && (p.rw < 8 || p.rh < 8) ==> p.steps(o) == search::chosen_rungs(
            o.dia_sub_mask as int,
            0,
        ),
{
    lemma_chosen(o.dia_mask as int, 0, i);
}

/// Two to the power `i`.
pub open spec fn pow_2(i: int) -> int
    decreases i,
{
    if i <= 0 {
        1
    } else {
        2 * pow_2(i - 1)
    }
}

proof fn lemma_chosen(mask: int, a: int, i: int)
    requires
        0 <= a <= i < 5,
        0 <= mask,
    ensures
        search::chosen_rungs(mask, a).contains(DIA_RUNGS[i] as int) == ((mask / pow_2(i - a)) % 2
            == 1),
    decreases 5 - a,
{
    let r = search::chosen_rungs(mask, a);
    let t = search::chosen_rungs(mask / 2, a + 1);
    lemma_shorter(mask / 2, a + 1);
    if mask % 2 == 1 {
        assert(r[0] == DIA_RUNGS[a]);
        assert(r =~= seq![DIA_RUNGS[a] as int] + t);
    }
    if i > a {
        lemma_chosen(mask / 2, a + 1, i);
        let m = pow_2(i - a - 1);
        assert(m > 0) by {
            lemma_pow_2(i - a - 1);
        }
        assert((mask / 2) / m == mask / (2 * m)) by {
            vstd::arithmetic::div_mod::lemma_div_denominator(mask, 2, m);
        }
        assert(DIA_RUNGS[i] != DIA_RUNGS[a]);
        if t.contains(DIA_RUNGS[i] as int) {
            let k = choose|k: int| 0 <= k < t.len() && t[k] == DIA_RUNGS[i];
            assert(r[if mask % 2 == 1 {
                k + 1
            } else {
                k
            }] == DIA_RUNGS[i]);
        }
    } else {
        assert(pow_2(0) == 1);
        assert(!t.contains(DIA_RUNGS[a] as int)) by {
            if t.contains(DIA_RUNGS[a] as int) {
                let k = choose|k: int| 0 <= k < t.len() && t[k] == DIA_RUNGS[a];
                assert(t[k] < DIA_RUNGS[a]);
            }
        }
    }
}

proof fn lemma_pow_2(i: int)
    requires
        0 <= i,
    ensures
        pow_2(i) > 0,
    decreases i,
{
    if i > 0 {
        lemma_pow_2(i - 1);
    }
}

proof fn lemma_shorter(mask: int, a: int)
    requires
        1 <= a <= 5,
    ensures
        forall|k: int|
            0 <= k < search::chosen_rungs(mask, a).len() ==> #[trigger] search::chosen_rungs(
                mask,
                a,
            )[k] < DIA_RUNGS[a - 1],
    decreases 5 - a,
{
    if a < 5 {
        lemma_shorter(mask / 2, a + 1);
        assert(DIA_RUNGS[a] < DIA_RUNGS[a - 1]);
        let t = search::chosen_rungs(mask / 2, a + 1);
        let r = search::chosen_rungs(mask, a);
        assert forall|k: int| 0 <= k < r.len() implies #[trigger] r[k] < DIA_RUNGS[a - 1] by {
            if mask % 2 == 1 {
                if k > 0 {
                    assert(r[k] == t[k - 1]);
                }
            } else {
                assert(r[k] == t[k]);
            }
        }
    }
}

/// The search starts from the given vector; without one from the cheapest of the zero vector and the
/// predicted ones, which is one of them.
pub proof fn law_search_starts_from_a_prediction<K: Kernels>(
    p: Pricer<K>,
    preds: Seq<(i32, i32)>,
    mv: (i32, i32),
    j: int,
)
    requires
        0 <= j < preds.len(),
    ensures
        ({
            let b = p.base(preds, None);
            let g = p.base(preds, Some(mv));
            &&& b.c <= p.cost_at(true, 0, 0)
            &&& b.c <= p.cost_at(true, preds[j].0 as int, preds[j].1 as int)
            &&& b.c == p.cost_at(true, b.x, b.y)
            &&& (b.x == 0 && b.y == 0) || exists|i: int|
                0 <= i < preds.len() && b.x == (#[trigger] preds[i]).0 && b.y == preds[i].1
            &&& g.x == mv.0 && g.y == mv.1 && g.c == p.cost_at(false, g.x, g.y)
        }),
{
    let f = p.f(true);
    let z = Spot { x: 0, y: 0, c: p.cost_at(true, 0, 0) };
    let cands = search::ints(preds);
    assert forall|k: int| 0 <= k < cands.len() implies i32::MIN <= (#[trigger] cands[k]).0
        <= i32::MAX && i32::MIN <= cands[k].1 <= i32::MAX by {}
    law_scan(f, cands, 0, z, j);
    let b = search::scan(f, cands, 0, z);
    assert(cands[j] == (preds[j].0 as int, preds[j].1 as int));
    if b != z {
        let i = choose|i: int| 0 <= i < cands.len() && cands[i] == (b.x, b.y);
        assert(b.x == preds[i].0 && b.y == preds[i].1);
    }
}

/// The grid is searched only where that is asked for, in a frame that is not fast, while the frame has
/// not learned that it does not pay, for a distortion per sample above the limit; and only on flat blocks
/// and in a first search, unless any stall counts.
pub proof fn law_stall<K: Kernels>(p: Pricer<K>, o: MeOptions, st: MeState, refine: bool, s: Spot)
    ensures
        p.stalled(o, st, refine, s) ==> o.me_wide && !p.fe.fast && !st.resc_off && p.per_sample(s)
            > o.me_rescue,
        p.stalled(o, st, refine, s) && !o.me_fast ==> !refine && p.flat(o),
        o.me_wide && !p.fe.fast && !st.resc_off && p.per_sample(s) > o.me_rescue && o.me_fast
            ==> p.stalled(o, st, refine, s),
        o.me_wide && !p.fe.fast && !st.resc_off && p.per_sample(s) > o.me_rescue && !refine
            && p.flat(o) ==> p.stalled(o, st, refine, s),
{
}

/// Below whole samples the search refines, except in a fast frame where that is not forced, and except
/// in a first search where it is put off; and first by half samples, then by quarters.
pub proof fn law_refinement<K: Kernels>(
    p: Pricer<K>,
    o: MeOptions,
    st: MeState,
    start: Option<(i32, i32)>,
    pat: int,
    s: Spot,
)
    ensures
        p.refines(o, start) == ((!p.fe.fast || o.subpel_force) && (!o.sp_defer || start is Some)),
        p.refine(o, pat, s) == p.sp_walk(o, pat, 1, 1, p.sp_walk(o, pat, 2, 1, s)),
        o.pattern is Some ==> p.pattern(o) == o.pattern->Some_0,
        o.pattern is None && (p.rw < 8 || p.rh < 8) ==> p.pattern(o) == o.sub_pattern,
        o.pattern is None && p.rw >= 8 && p.rh >= 8 ==> p.pattern(o) == (if o.sp_single_pass {
            2int
        } else {
            0
        }),
        p.learned_pattern(o, st) != p.pattern(o) ==> p.learned_pattern(o, st) == 2 && p.pattern(o)
            == 0 && st.sp_1pass && st.sp_learn_n >= o.sp_learn > 0,
        p.pattern(o) == 0 && st.sp_1pass && st.sp_learn_n >= o.sp_learn && o.sp_learn > 0
            ==> p.learned_pattern(o, st) == 2,
{
}

/// What a frame learns of the grid: each stall counts once until enough were watched; one counts as
/// helped where the cost fell by a sixteenth; when the last one is in, the grid is given up where too few
/// were helped.
pub proof fn law_rescues_are_counted(st: MeState, o: MeOptions, pre: int, post: int)
    requires
        st.wf(),
        st.resc_n < o.me_learn,
    ensures
        ({
            let r = st.rescued(o, pre, post);
            let helped = 16 * (pre - post) >= pre;
            &&& r.resc_n == st.resc_n + 1
            &&& r.resc_big == st.resc_big + (if helped {
                1int
            } else {
                0
            })
            &&& r.resc_n < o.me_learn ==> r.resc_off == st.resc_off
            &&& r.resc_n == o.me_learn && !st.resc_off ==> r.resc_off == (100 * r.resc_big
                < o.me_payoff_pct * o.me_learn)
            &&& st.resc_off ==> r.resc_off
        }),
{
    let big = st.resc_big + if post * 16 <= pre * 15 {
        1int
    } else {
        0
    };
    assert(o.me_payoff_pct * o.me_learn == o.me_learn * o.me_payoff_pct) by (nonlinear_arith);
}

/// Once enough were watched nothing is learned any more.
pub proof fn law_learning_ends(st: MeState, o: MeOptions, a: int, b: int, c: int)
    ensures
        st.resc_n >= o.me_learn ==> st.rescued(o, a, b) == st,
        st.sp_learn_n >= o.sp_learn ==> st.refined(o, a, b, c) == st,
{
}

/// What a frame learns of the first ring: what it brought and what the whole refinement brought are added
/// up; when the last one is in, a single pass is taken from then on where the ring's share is large enough.
pub proof fn law_refinements_are_counted(st: MeState, o: MeOptions, pre: int, ring1: int, post: int)
    requires
        st.wf(),
        st.sp_learn_n < o.sp_learn,
        0 <= post <= ring1 <= pre <= search::COST_MAX,
    ensures
        ({
            let r = st.refined(o, pre, ring1, post);
            &&& r.sp_learn_n == st.sp_learn_n + 1
            &&& r.sp_ring1 == st.sp_ring1 + (pre - ring1)
            &&& r.sp_total == st.sp_total + (pre - post)
            &&& r.sp_learn_n < o.sp_learn ==> r.sp_1pass == st.sp_1pass
            &&& r.sp_learn_n == o.sp_learn ==> r.sp_1pass == (r.sp_total > 0 && 100 * r.sp_ring1
                >= o.sp_t * r.sp_total)
        }),
{
    assert(search::COST_MAX * st.sp_learn_n <= search::COST_MAX * 0x1_0000_0000) by (nonlinear_arith)
        requires
            st.sp_learn_n <= 0x1_0000_0000,
    ;
    let tot = st.sp_total + (pre - post);
    assert(o.sp_t * tot == tot * o.sp_t) by (nonlinear_arith);
}

/// The rate of a reference: nothing with one, one bit with two, else its code, which never gets shorter
/// for later ones.
pub proof fn law_reference_rate(r: int, n: int)
    requires
        0 <= r,
    ensures
        n <= 1 ==> bits::ref_rate(r, n) == 0,
        n == 2 ==> bits::ref_rate(r, n) == 1,
        n > 2 ==> bits::ref_rate(r, n) == bits::ue(r as nat).len() && bits::ref_rate(r, n)
            <= bits::ref_rate(r + 1, n),
        n > 2 ==> bits::ref_rate(0, n) == 1,
{
    reveal_with_fuel(bits::bit_len, 2);
    lemma_bit_len_rises((r + 1) as nat, (r + 2) as nat);
}

proof fn lemma_bit_len_rises(a: nat, b: nat)
    requires
        a <= b,
    ensures
        bits::bit_len(a) <= bits::bit_len(b),
    decreases b,
{
    if a > 0 {
        lemma_bit_len_rises(a / 2, b / 2);
    }
}

/// The quantiser's step doubles with every six QPs and grows with each, and so does the cost above which a
/// macroblock is searched in parts.
pub proof fn law_steps_double(qp: int)
    requires
        0 <= qp,
    ensures
        shapes::qstep16(qp + 6) == 2 * shapes::qstep16(qp),
        shapes::qstep16(qp) < shapes::qstep16(qp + 1),
        shapes::qstep16(4) == 16,
        shapes::qstep16(0) == 10,
        shapes::qstep16(1) == 11,
        shapes::qstep16(2) == 13,
        shapes::qstep16(3) == 14,
        shapes::qstep16(5) == 18,
        shapes::split_gate(qp) <= shapes::split_gate(qp + 1),
        0 <= 15 * (shapes::qstep16(qp) + 160) - 2 * shapes::split_gate(qp) < 4,
    decreases qp,
{
    reveal_with_fuel(shapes::qstep16, 3);
    if qp >= 6 {
        law_steps_double(qp - 6);
    }
}

} // verus!
