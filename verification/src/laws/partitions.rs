//! What the partitions of an inter macroblock are coded and predicted by.
use vstd::prelude::*;
use crate::arith;
use crate::distortion;
use crate::grid;
use crate::kernels;
use crate::kernels::Kernels;
use crate::mbinter;
use crate::motion;
use crate::motion::{MotionView, MvNeighbor};
use crate::partition;
use crate::partition::{BInter, MotionPart};
use crate::parts::Searcher;
use crate::rect;
use crate::search::MeState;
use crate::shapes;
use crate::shapes::{ArmView, QuartersView, ShapeOptions};

verus! {

/// A decoder adds the difference of a partition to its prediction and has the vector, in either list; a
/// partition that does not use a list has no difference in it.
pub proof fn law_difference_leads_to_the_vector(
    m: MotionView,
    second: bool,
    x: int,
    y: int,
    p: MotionPart,
)
    ensures
        ({
            let f = partition::forecast(m, second, x, y, p);
            let d = partition::difference(m, second, x, y, p);
            let used = if second {
                p.use1
            } else {
                p.use0
            };
            let v = if second {
                p.mv1
            } else {
                p.mv0
            };
            &&& used ==> arith::wrap(f.0 + d.0) == v.0 && arith::wrap(f.1 + d.1) == v.1
            &&& !used ==> d == (0int, 0int)
            &&& i32::MIN <= d.0 <= i32::MAX && i32::MIN <= d.1 <= i32::MAX
        }),
{
    let f = partition::forecast(m, second, x, y, p);
    let v = if second {
        p.mv1
    } else {
        p.mv0
    };
    lemma_wrap_back(v.0 as int, f.0 as int);
    lemma_wrap_back(v.1 as int, f.1 as int);
}

proof fn lemma_wrap_back(v: int, f: int)
    requires
        i32::MIN <= v <= i32::MAX,
        i32::MIN <= f <= i32::MAX,
    ensures
        arith::wrap(f + arith::wrap(v - f)) == v,
        i32::MIN <= arith::wrap(v - f) <= i32::MAX,
{
}

/// The predicted vector of a partition is that of its place: from the blocks left of its first one,
/// above it, and above right of its first row; by the reference that it has in the list.
pub proof fn law_forecast(m: MotionView, second: bool, x: int, y: int, p: MotionPart)
    requires
        p.wf(),
    ensures
        ({
            let n = motion::part_neighbours(
                m,
                second,
                4 * x + p.rx as int / 4,
                4 * y + p.ry as int / 4,
                p.rw as int / 4,
            );
            let r = if second {
                0
            } else {
                p.refi as int
            };
            let v = partition::forecast(m, second, x, y, p);
            &&& p.rule == 0 || p.rule == 3 ==> v == motion::predicted(n.0, n.1, n.2, r)
            &&& p.rule == 1 && p.part == 0 && n.1.ref_idx == r ==> v == n.1.mv
            &&& p.rule == 1 && p.part == 1 && n.0.ref_idx == r ==> v == n.0.mv
            &&& p.rule == 2 && p.part == 0 && n.0.ref_idx == r ==> v == n.0.mv
            &&& p.rule == 2 && p.part == 1 && n.2.ref_idx == r ==> v == n.2.mv
        }),
{
}

/// A partition leaves its motion in the blocks that it covers and in no others: its reference and vector
/// in each list that it uses, no reference in the others. In a P slice the second list stays.
pub proof fn law_committed_motion(
    m: MotionView,
    both: bool,
    x: int,
    y: int,
    p: MotionPart,
    bx: int,
    by: int,
)
    requires
        m.wf(),
        p.wf(),
        0 <= bx < m.w,
        0 <= by < m.h,
    ensures
        ({
            let n = partition::committed(m, both, x, y, p);
            let i = by * m.w + bx;
            let covered = 16 * x + p.rx <= 4 * bx < 16 * x + p.rx + p.rw && 16 * y + p.ry <= 4 * by
                < 16 * y + p.ry + p.rh;
            &&& n.w == m.w && n.h == m.h
            &&& covered ==> n.inter[i] && n.coded[i]
            &&& covered && p.use0 ==> n.mv0[i] == p.mv0 && n.ref0[i] == p.refi
            &&& covered && !p.use0 ==> n.mv0[i] == (0i32, 0i32) && n.ref0[i] == -1
            &&& covered && both && p.use1 ==> n.mv1[i] == p.mv1 && n.ref1[i] == 0
            &&& covered && both && !p.use1 ==> n.mv1[i] == (0i32, 0i32) && n.ref1[i] == -1
            &&& !covered ==> n.mv0[i] == m.mv0[i] && n.ref0[i] == m.ref0[i] && n.mv1[i] == m.mv1[i]
                && n.ref1[i] == m.ref1[i] && n.inter[i] == m.inter[i] && n.coded[i] == m.coded[i]
            &&& !both ==> n.mv1 == m.mv1 && n.ref1 == m.ref1
        }),
{
    grid::lemma_cell(m.w, m.h, bx, by);
}

/// The motion that partition `i` is predicted from: that of the frame with all partitions before it.
pub open spec fn before(
    m: MotionView,
    both: bool,
    x: int,
    y: int,
    parts: Seq<MotionPart>,
    k: int,
    i: int,
) -> MotionView
    decreases i - k,
{
    if k >= i {
        m
    } else {
        before(partition::committed(m, both, x, y, parts[k]), both, x, y, parts, k + 1, i)
    }
}

/// The differences of a P macroblock come one for each partition and in their order, and lead a decoder
/// to their vectors: each is added to the prediction from the frame with all partitions before it.
pub proof fn law_p_vectors_decode(m: MotionView, x: int, y: int, parts: Seq<MotionPart>, i: int)
    requires
        0 <= i < parts.len(),
        forall|j: int| 0 <= j < parts.len() ==> (#[trigger] parts[j]).use0 && !parts[j].use1,
    ensures
        ({
            let ds = partition::coded_differences(m, false, x, y, parts);
            let f = partition::forecast(before(m, false, x, y, parts, 0, i), false, x, y, parts[i]);
            &&& ds.len() == parts.len()
            &&& arith::wrap(f.0 + ds[i].0) == parts[i].mv0.0
            &&& arith::wrap(f.1 + ds[i].1) == parts[i].mv0.1
        }),
{
    lemma_p_differences(m, x, y, parts, 0, i);
    lemma_no_second(m, x, y, parts, 0);
    law_difference_leads_to_the_vector(before(m, false, x, y, parts, 0, i), false, x, y, parts[i]);
}

proof fn lemma_p_differences(m: MotionView, x: int, y: int, parts: Seq<MotionPart>, k: int, i: int)
    requires
        0 <= k <= i < parts.len(),
        forall|j: int| 0 <= j < parts.len() ==> (#[trigger] parts[j]).use0 && !parts[j].use1,
    ensures
        partition::differences(m, false, false, x, y, parts, k).len() == parts.len() - k,
        partition::differences(m, false, false, x, y, parts, k)[i - k] == partition::difference(
            before(m, false, x, y, parts, k, i),
            false,
            x,
            y,
            parts[i],
        ),
    decreases parts.len() - k,
{
    assert(parts[k].use0);
    let n = partition::committed(m, false, x, y, parts[k]);
    if k < i {
        lemma_p_differences(n, x, y, parts, k + 1, i);
    } else if k + 1 < parts.len() {
        lemma_p_differences(n, x, y, parts, k + 1, k + 1);
    } else {
        assert(partition::differences(n, false, false, x, y, parts, k + 1).len() == 0);
    }
}

proof fn lemma_no_second(m: MotionView, x: int, y: int, parts: Seq<MotionPart>, k: int)
    requires
        0 <= k <= parts.len(),
        forall|j: int| 0 <= j < parts.len() ==> (#[trigger] parts[j]).use0 && !parts[j].use1,
    ensures
        partition::differences(m, false, true, x, y, parts, k).len() == 0,
    decreases parts.len() - k,
{
    if k < parts.len() {
        assert(!parts[k].use1);
        lemma_no_second(partition::committed(m, false, x, y, parts[k]), x, y, parts, k + 1);
    }
}

/// A whole B macroblock codes the difference of list 0 before that of list 1, each where it is used.
pub proof fn law_b_differences(m: MotionView, x: int, y: int, p: MotionPart)
    ensures
        ({
            let ds = partition::coded_differences(m, true, x, y, seq![p]);
            let (d0, d1) = (
                partition::difference(m, false, x, y, p),
                partition::difference(m, true, x, y, p),
            );
            &&& p.use0 && p.use1 ==> ds == seq![d0, d1]
            &&& p.use0 && !p.use1 ==> ds == seq![d0]
            &&& !p.use0 && p.use1 ==> ds == seq![d1]
            &&& !p.use0 && !p.use1 ==> ds.len() == 0
        }),
{
    let ps = seq![p];
    let n = partition::committed(m, true, x, y, p);
    assert(partition::differences(n, true, false, x, y, ps, 1).len() == 0);
    assert(partition::differences(n, true, true, x, y, ps, 1).len() == 0);
    assert(partition::differences(m, true, false, x, y, ps, 0) =~= (if p.use0 {
        seq![partition::difference(m, false, x, y, p)]
    } else {
        Seq::empty()
    }));
    assert(partition::differences(m, true, true, x, y, ps, 0) =~= (if p.use1 {
        seq![partition::difference(m, true, x, y, p)]
    } else {
        Seq::empty()
    }));
    let ds = partition::coded_differences(m, true, x, y, ps);
    if p.use0 && p.use1 {
        assert(ds =~= seq![
            partition::difference(m, false, x, y, p),
            partition::difference(m, true, x, y, p),
        ]);
    } else if p.use0 {
        assert(ds =~= seq![partition::difference(m, false, x, y, p)]);
    } else if p.use1 {
        assert(ds =~= seq![partition::difference(m, true, x, y, p)]);
    }
}

/// The partitions of a P macroblock lie where its shape has them, use list 0 alone, and have the
/// references and vectors in their order.
pub proof fn law_p_partitions(mode: u8, parts: Seq<(i32, (i32, i32))>, i: int)
    requires
        mode <= 3,
        0 <= i < motion::rects(mode as int).len(),
    ensures
        ({
            let p = partition::p_parts(mode, parts)[i];
            &&& partition::p_parts(mode, parts).len() == motion::rects(mode as int).len()
            &&& (p.rx, p.ry, p.rw, p.rh) == motion::rects(mode as int)[i]
            &&& p.use0 && !p.use1
            &&& p.refi == parts[i].0 && p.mv0 == parts[i].1
            &&& p.rule == mode && p.part == i
        }),
{
}

/// The parts of a quarter lie in that quarter, use list 0 alone, and take their references and vectors
/// behind those of the quarters before.
pub proof fn law_quarter_partitions(t: Seq<u8>, parts: Seq<(i32, (i32, i32))>, q: int, i: int)
    requires
        0 <= q < 4,
        q < t.len(),
        t[q] <= 3,
        0 <= i < mbinter::sub_rects(t[q] as int).len(),
    ensures
        ({
            let at = partition::quarter_start(t, q);
            let p = partition::quarter_parts(q, t[q], parts, at)[i];
            let r = mbinter::sub_rects(t[q] as int)[i];
            &&& p.rx == r.0 + (if q == 1 || q == 3 {
                8int
            } else {
                0
            })
            &&& p.ry == r.1 + (if q >= 2 {
                8int
            } else {
                0
            })
            &&& p.rw == r.2 && p.rh == r.3
            &&& p.use0 && !p.use1 && p.rule == 0
            &&& p.refi == parts[at + i].0 && p.mv0 == parts[at + i].1
            &&& partition::quarter_start(t, 0) == 0
            &&& partition::quarter_start(t, q + 1) == at + (if t[q] == 0 {
                1int
            } else if t[q] == 3 {
                4
            } else {
                2
            })
        }),
{
}

/// The partitions of a B macroblock: one for the whole of it, or two halves; each uses list 0, list 1 or
/// both by its prediction, at the first reference.
pub proof fn law_b_partitions(b: BInter, i: int)
    requires
        b.mvmode <= 2,
        0 <= i < 2,
    ensures
        ({
            let ps = partition::b_parts(b);
            &&& b.mvmode == 0 ==> ps.len() == 1 && ps[0].rx == 0 && ps[0].ry == 0 && ps[0].rw == 16
                && ps[0].rh == 16 && ps[0].mv0 == b.mv0 && ps[0].mv1 == b.mv1 && ps[0].use0 == (
            b.dir == 1 || b.dir == 3) && ps[0].use1 == (b.dir == 2 || b.dir == 3) && ps[0].refi == 0
            &&& b.mvmode > 0 ==> ps.len() == 2 && ps[i].mv0 == b.parts2@[i].1 && ps[i].mv1
                == b.parts2@[i].2 && ps[i].use0 == (b.parts2@[i].0 == 1 || b.parts2@[i].0 == 3)
                && ps[i].use1 == (b.parts2@[i].0 == 2 || b.parts2@[i].0 == 3) && ps[i].refi == 0
                && ps[i].part == i && ps[i].rule == b.mvmode
            &&& b.mvmode > 0 ==> (ps[i].rx, ps[i].ry, ps[i].rw, ps[i].rh) == motion::rects(
                b.mvmode as int,
            )[i]
        }),
{
}

/// The blocks of a direct macroblock lie in its raster; each uses the lists that have a reference.
pub proof fn law_direct_partitions(d: Seq<(i32, (i32, i32), i32, (i32, i32))>, x: int, y: int)
    requires
        0 <= x < 4,
        0 <= y < 4,
    ensures
        ({
            let p = partition::direct_parts(d)[4 * y + x];
            let e = d[4 * y + x];
            &&& partition::direct_parts(d).len() == 16
            &&& p.rx == 4 * x && p.ry == 4 * y && p.rw == 4 && p.rh == 4
            &&& p.use0 == (e.0 >= 0) && p.use1 == (e.2 >= 0)
            &&& p.mv0 == e.1 && p.mv1 == e.3
        }),
{
    assert((4 * y + x) % 4 == x && (4 * y + x) / 4 == y);
}

/// Luma is predicted at the partition's place and chroma at half of each measure; list 0 by the
/// partition's reference, list 1 by its first.
#[verifier::spinoff_prover]
#[verifier::rlimit(60)]
pub proof fn law_prediction_jobs(plane: u8, second: bool, x: int, y: int, p: MotionPart)
    requires
        p.wf(),
        0 <= x,
        0 <= y,
        16 * x + 16 <= usize::MAX,
        16 * y + 16 <= usize::MAX,
    ensures
        ({
            let j = partition::part_job(plane, second, x, y, p);
            let s: int = if plane == 0 {
                1
            } else {
                2
            };
            &&& s * j.x == 16 * x + p.rx && s * j.y == 16 * y + p.ry
            &&& s * j.w == p.rw && s * j.h == p.rh
            &&& j.plane == plane
            &&& second ==> j.list == 1 && j.refi == 0 && j.mv == p.mv1
            &&& !second ==> j.list == 0 && j.refi == p.refi && j.mv == p.mv0
        }),
{
    lemma_halves(16 * x + p.rx);
    lemma_halves(16 * y + p.ry);
    lemma_halves(p.rw as int);
    lemma_halves(p.rh as int);
    let (rx, ry) = (p.rx as int, p.ry as int);
    assert((16 * x + rx) % 4 == 0 && (16 * y + ry) % 4 == 0);
}

proof fn lemma_halves(v: int)
    requires
        v >= 0,
    ensures
        v % 4 == 0 ==> 2 * (v / 2) == v,
        0 <= v / 2 <= v,
{
}

/// A partition that uses one list is predicted from it, one that uses both from the blend of both.
pub proof fn law_prediction_lists<K: Kernels>(
    k: K,
    bi_w: (i32, i32),
    plane: u8,
    x: int,
    y: int,
    p: MotionPart,
)
    ensures
        ({
            let s = partition::part_samples(k, bi_w, plane, x, y, p);
            let a = kernels::mc_of(k, partition::part_job(plane, false, x, y, p));
            let b = kernels::mc_of(k, partition::part_job(plane, true, x, y, p));
            &&& p.use0 && !p.use1 ==> s == a
            &&& !p.use0 && p.use1 ==> s == b
            &&& p.use0 && p.use1 ==> s == distortion::blended(a, b, bi_w)
        }),
{
}

/// The sample `(x, y)` of a plane lies in the partition.
pub open spec fn in_part(plane: u8, p: MotionPart, x: int, y: int) -> bool {
    let s: int = if plane == 0 {
        1
    } else {
        2
    };
    p.rx <= s * x < p.rx + p.rw && p.ry <= s * y < p.ry + p.rh
}

/// Each sample of a prediction comes from the partition that it lies in.
pub proof fn law_prediction_is_tiled<K: Kernels>(
    k: K,
    bi_w: (i32, i32),
    plane: u8,
    mb_x: int,
    mb_y: int,
    parts: Seq<MotionPart>,
    i: int,
    x: int,
    y: int,
)
    requires
        partition::rects_ok(parts),
        0 <= i < parts.len(),
        in_part(plane, parts[i], x, y),
        forall|j: int| i < j < parts.len() ==> !in_part(plane, #[trigger] parts[j], x, y),
    ensures
        ({
            let s: int = if plane == 0 {
                1
            } else {
                2
            };
            let p = parts[i];
            partition::predicted_plane(k, bi_w, plane, mb_x, mb_y, parts)[y * (16int / s) + x]
                == partition::part_samples(k, bi_w, plane, mb_x, mb_y, p)[(y - p.ry as int / s) * (
            p.rw as int / s) + (x - p.rx as int / s)]
        }),
{
    let n: nat = if plane == 0 {
        256
    } else {
        64
    };
    lemma_formed(k, bi_w, plane, mb_x, mb_y, parts, 0, partition::blank(n), i, x, y);
}

proof fn lemma_formed<K: Kernels>(
    k: K,
    bi_w: (i32, i32),
    plane: u8,
    mb_x: int,
    mb_y: int,
    parts: Seq<MotionPart>,
    a: int,
    acc: Seq<u8>,
    i: int,
    x: int,
    y: int,
)
    requires
        partition::rects_ok(parts),
        0 <= a <= parts.len(),
        acc.len() == (if plane == 0 {
            256int
        } else {
            64
        }),
        0 <= i < parts.len(),
        in_part(plane, parts[i], x, y),
        forall|j: int| i < j < parts.len() ==> !in_part(plane, #[trigger] parts[j], x, y),
    ensures
        ({
            let s: int = if plane == 0 {
                1
            } else {
                2
            };
            let p = parts[i];
            let at = y * (16int / s) + x;
            let r = partition::formed(k, bi_w, plane, mb_x, mb_y, parts, a, acc);
            &&& a <= i ==> r[at] == partition::part_samples(k, bi_w, plane, mb_x, mb_y, p)[(y
                - p.ry as int / s) * (p.rw as int / s) + (x - p.rx as int / s)]
            &&& a > i ==> r[at] == acc[at]
        }),
    decreases parts.len() - a,
{
    if a < parts.len() {
        let s: int = if plane == 0 {
            1
        } else {
            2
        };
        let p = parts[a];
        let o = parts[i];
        let side = partition::scaled(plane, 16);
        assert(side == 16int / s);
        assert(0 <= x < side && 0 <= y < side);
        grid::lemma_cell(side, side, x, y);
        let at = y * side + x;
        let next = rect::put_block(
            acc,
            side,
            partition::scaled(plane, p.rx as int),
            partition::scaled(plane, p.ry as int),
            partition::scaled(plane, p.rw as int),
            partition::scaled(plane, p.rh as int),
            partition::part_samples(k, bi_w, plane, mb_x, mb_y, p),
        );
        assert(next.len() == acc.len());
        assert(0 <= at < acc.len());
        assert(rect::inside(
            side,
            partition::scaled(plane, p.rx as int),
            partition::scaled(plane, p.ry as int),
            partition::scaled(plane, p.rw as int),
            partition::scaled(plane, p.rh as int),
            at,
        ) == in_part(plane, p, x, y));
        lemma_formed(k, bi_w, plane, mb_x, mb_y, parts, a + 1, next, i, x, y);
    }
}

/// Dividing a quarter is taken up only where it costs less than leaving it whole.
pub proof fn law_arms_are_no_dearer<'a, K: Kernels>(
    s: Searcher<'a, K>,
    st: MeState,
    nb: Seq<MvNeighbor>,
    num_refs: int,
    x: int,
    y: int,
    extra: Seq<(i32, i32)>,
    sub: int,
    best: ArmView,
)
    ensures
        ({
            let r = shapes::arm_from(s, st, nb, num_refs, x, y, extra, sub, best).0;
            &&& r.cost <= best.cost
            &&& r.cost == best.cost ==> r == best
        }),
    decreases 4 - sub,
{
    if sub < 4 {
        let (ps, c, st1) = s.parts_from(
            st,
            nb,
            num_refs,
            x,
            y,
            mbinter::sub_rects(sub),
            extra,
            0,
            Seq::empty(),
            s.plain(crate::trial::sub_bins(sub as u8)),
        );
        law_arms_are_no_dearer(
            s,
            st1,
            nb,
            num_refs,
            x,
            y,
            extra,
            sub + 1,
            if c < best.cost {
                ArmView { parts: ps, sub: sub as u8, cost: c }
            } else {
                best
            },
        );
    }
}

/// The divided quarters of a macroblock never cost more than the undivided ones, and there is one type and
/// one undivided part for each quarter.
pub proof fn law_quarters_are_no_dearer<'a, K: Kernels>(
    s: Searcher<'a, K>,
    st: MeState,
    nb: Seq<MvNeighbor>,
    num_refs: int,
    x: int,
    y: int,
    mv16: (i32, i32),
    q: int,
    acc: QuartersView,
)
    requires
        0 <= q <= 4,
    ensures
        ({
            let r = shapes::quarters_from(s, st, nb, num_refs, x, y, mv16, q, acc).0;
            &&& r.cost - acc.cost <= r.flat_cost - acc.flat_cost
            &&& r.subs.len() == acc.subs.len() + 4 - q
            &&& r.flat.len() == acc.flat.len() + 4 - q
        }),
    decreases 4 - q,
{
    if q < 4 {
        let (bx, by) = (x + shapes::quarter_xy(q).0, y + shapes::quarter_xy(q).1);
        let ((f, a), st1) = shapes::quarter_of(s, st, nb, num_refs, bx, by, mv16);
        assert(a.cost <= f.cost && f.parts.len() == 1) by {
            reveal(shapes::quarter_of);
            let (g, st0) = s.best_of(st, nb, num_refs, bx, by, 8, 8, seq![mv16]);
            law_arms_are_no_dearer(s, st0, nb, num_refs, bx, by, seq![mv16, g.mv], 1, f);
        }
        law_quarters_are_no_dearer(
            s,
            st1,
            nb,
            num_refs,
            x,
            y,
            mv16,
            q + 1,
            QuartersView {
                parts: acc.parts + a.parts,
                flat: acc.flat + f.parts,
                subs: acc.subs.push(a.sub),
                cost: acc.cost + a.cost,
                flat_cost: acc.flat_cost + f.cost,
            },
        );
    }
}

/// A macroblock is searched in parts exactly where that is asked for and its whole costs more than the
/// limit of its QP and no less than the floor; quarters are among the parts exactly where they are asked
/// for.
pub proof fn law_when_parts_are_searched<'a, K: Kernels>(
    s: Searcher<'a, K>,
    st: MeState,
    nb: Seq<MvNeighbor>,
    num_refs: int,
    x: int,
    y: int,
    o: ShapeOptions,
)
    ensures
        ({
            let r = shapes::shapes_of(s, st, nb, num_refs, x, y, o).0;
            let wanted = o.do_splits && r.whole.cost > shapes::split_gate(s.fe.qp as int)
                && r.whole.cost >= kernels::split_floor_of(*s.k, s.fe.mb_loud);
            &&& r.whole.mode == 0
            &&& r.splits is Some == wanted
            &&& wanted ==> r.splits->Some_0.rows.mode == 1 && r.splits->Some_0.cols.mode == 2
                && r.splits->Some_0.quarters is Some == o.sub8x8
            &&& wanted && o.sub8x8 ==> r.splits->Some_0.quarters->Some_0.0.mode == 3
                && r.splits->Some_0.quarters->Some_0.1 is Some == o.arms
            &&& wanted && o.sub8x8 && o.arms ==> r.splits->Some_0.quarters->Some_0.1->Some_0.cost
                <= r.splits->Some_0.quarters->Some_0.0.cost
        }),
{
    reveal(shapes::plain_shape);
    reveal(shapes::quarter_shapes);
    let (whole, st1) = shapes::plain_shape(s, st, nb, num_refs, x, y, 0, Seq::empty(), 0);
    let mv16 = whole.parts[0].1;
    let (rows, st2) = shapes::plain_shape(s, st1, nb, num_refs, x, y, 1, seq![mv16], 0);
    let (cols, st3) = shapes::plain_shape(s, st2, nb, num_refs, x, y, 2, seq![mv16], 0);
    law_quarters_are_no_dearer(s, st3, nb, num_refs, x, y, mv16, 0, shapes::no_quarters());
}

/// The quarters of a macroblock lie left to right and top to bottom.
pub proof fn law_quarter_places(q: int)
    requires
        0 <= q < 4,
    ensures
        shapes::quarter_xy(q).0 == (if q == 0 || q == 2 {
            0int
        } else {
            8
        }),
        shapes::quarter_xy(q).1 == (if q < 2 {
            0int
        } else {
            8
        }),
{
}

} // verus!
