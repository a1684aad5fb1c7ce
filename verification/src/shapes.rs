//! The shapes that a macroblock of a P slice may be divided into, and what each costs.
use vstd::prelude::*;
use crate::kernels;
use crate::kernels::{split_floor, Kernels};
use crate::mbinter;
use crate::mbinter::sub_mb_partitions_p;
use crate::motion;
use crate::motion::{inter_partitions, MvNeighbor};
use crate::parts;
use crate::parts::{PartFound, Searcher, Shape, ShapeView};
use crate::search::MeState;
use crate::trial;

verus! {

/// Rectangles that lie in a macroblock, with sides of 4, 8 or 16.
pub open spec fn in_mb(rs: Seq<(usize, usize, usize, usize)>) -> bool {
    forall|i: int|
        0 <= i < rs.len() ==> {
            let r = #[trigger] rs[i];
            &&& r.2 == 4 || r.2 == 8 || r.2 == 16
            &&& r.3 == 4 || r.3 == 8 || r.3 == 16
            &&& r.0 + r.2 <= 16
            &&& r.1 + r.3 <= 16
        }
}

proof fn lemma_quarter_rects(subs: Seq<u8>, n: int)
    requires
        0 <= n <= 4,
    ensures
        in_mb(parts::quarter_rects(subs, n)),
        parts::quarter_rects(subs, n).len() <= 4 * n,
        n > 0 ==> parts::quarter_rects(subs, n).len() >= 1,
    decreases n,
{
    if n > 0 {
        lemma_quarter_rects(subs, n - 1);
    }
}

/// The rectangles of a shape lie in the macroblock; there are sixteen at most.
pub proof fn lemma_shape_rects(mode: u8, subs: Seq<u8>)
    ensures
        in_mb(parts::shape_rects(mode, subs)),
        1 <= parts::shape_rects(mode, subs).len() <= 16,
{
    lemma_quarter_rects(subs, 4);
}

/// Rectangles of a macroblock can be searched for.
pub proof fn lemma_regions<'a, K: Kernels>(
    s: Searcher<'a, K>,
    mb_x: int,
    mb_y: int,
    rs: Seq<(usize, usize, usize, usize)>,
)
    requires
        s.wf(),
        s.fe.has_mb(mb_x, mb_y),
        in_mb(rs),
    ensures
        parts::all_regions(s, 16 * mb_x, 16 * mb_y, rs),
{
}

/// The rectangles of the parts of a shape.
pub fn list_shape_rects(mode: u8, subs: [u8; 4]) -> (r: Vec<(usize, usize, usize, usize)>)
    ensures
        r@ == parts::shape_rects(mode, subs@),
{
    let flat: bool = subs[0] == 0 && subs[1] == 0 && subs[2] == 0 && subs[3] == 0;
    assert(flat == (subs@ == trial::whole_quarters())) by {
        if flat {
            assert(subs@ =~= trial::whole_quarters());
        }
    }
    if mode != 3 || flat {
        return inter_partitions(mode);
    }
    let mut r: Vec<(usize, usize, usize, usize)> = Vec::new();
    let mut q: usize = 0;
    assert(r@ =~= parts::quarter_rects(subs@, 0));
    while q < 4
        invariant
            q <= 4,
            r@ == parts::quarter_rects(subs@, q as int),
        decreases 4 - q,
    {
        let (bx, by): (usize, usize) = (8 * (q % 2), 8 * (q / 2));
        let rs: Vec<(usize, usize, usize, usize)> = sub_mb_partitions_p(subs[q]);
        let ghost before = r@;
        let mut i: usize = 0;
        while i < rs.len()
            invariant
                i <= rs@.len(),
                bx <= 8 && by <= 8,
                rs@ == mbinter::sub_rects(subs@[q as int] as int),
                r@ == before + parts::shifted(rs@.take(i as int), bx as int, by as int),
            decreases rs@.len() - i,
        {
            let (x, y, w, h): (usize, usize, usize, usize) = rs[i];
            assert(x <= 8 && y <= 8);
            r.push((bx + x, by + y, w, h));
            i = i + 1;
            assert(rs@.take(i as int) =~= rs@.take(i - 1).push(rs@[i - 1]));
            assert(r@ =~= before + parts::shifted(rs@.take(i as int), bx as int, by as int));
        }
        assert(rs@.take(i as int) =~= rs@);
        q = q + 1;
    }
    r
}

/// The step of the quantiser at a QP, times sixteen.
pub open spec fn qstep16(qp: int) -> int
    decreases qp,
{
    if qp < 0 {
        0
    } else if qp == 0 {
        10
    } else if qp == 1 {
        11
    } else if qp == 2 {
        13
    } else if qp == 3 {
        14
    } else if qp == 4 {
        16
    } else if qp == 5 {
        18
    } else {
        2 * qstep16(qp - 6)
    }
}

/// The cost of a whole macroblock above which it is searched in parts.
pub open spec fn split_gate(qp: int) -> int {
    2 * ((30 * (qstep16(qp) + 160)) / 8)
}

/// The cost of a whole macroblock above which it is searched in parts.
pub fn split_gate_at(qp: u8) -> (r: i64)
    requires
        qp <= 51,
    ensures
        r == split_gate(qp as int),
{
    let table: [i64; 6] = [10, 11, 13, 14, 16, 18];
    let mut s: i64 = table[(qp % 6) as usize];
    let mut i: u8 = qp % 6;
    while i < qp
        invariant
            i <= qp <= 51,
            i % 6 == qp % 6,
            s == qstep16(i as int),
            0 <= s,
            i < 6 ==> s <= 18,
            i < 12 ==> s <= 36,
            i < 18 ==> s <= 72,
            i < 24 ==> s <= 144,
            i < 30 ==> s <= 288,
            i < 36 ==> s <= 576,
            i < 42 ==> s <= 1152,
            i < 48 ==> s <= 2304,
            s <= 4608,
        decreases qp - i,
    {
        s = 2 * s;
        i = i + 6;
    }
    2 * ((30 * (s + 160)) / 8)
}

/// One way to divide a quarter: its parts, its type and its cost.
#[verifier::ext_equal]
pub struct ArmView {
    pub parts: Seq<(i32, (i32, i32))>,
    pub sub: u8,
    pub cost: int,
}

/// The quarters searched so far: their parts, the same undivided, their types and costs.
#[verifier::ext_equal]
pub struct QuartersView {
    pub parts: Seq<(i32, (i32, i32))>,
    pub flat: Seq<(i32, (i32, i32))>,
    pub subs: Seq<u8>,
    pub cost: int,
    pub flat_cost: int,
}

/// The rectangle of a whole quarter.
pub open spec fn quarter_xy(q: int) -> (int, int) {
    (8 * (q % 2), 8 * (q / 2))
}

/// The best of `best` and the divided types from `sub` on.
pub open spec fn arm_from<'a, K: Kernels>(
    s: Searcher<'a, K>,
    st: MeState,
    nb: Seq<MvNeighbor>,
    num_refs: int,
    x: int,
    y: int,
    extra: Seq<(i32, i32)>,
    sub: int,
    best: ArmView,
) -> (ArmView, MeState)
    decreases 4 - sub,
{
    if sub >= 4 {
        (best, st)
    } else {
        let (ps, c, st1) = s.parts_from(
            st,
            nb,
            num_refs,
            x,
            y,
            mbinter::sub_rects(sub),
            extra,
            0,
            Seq::empty(),
            s.plain(trial::sub_bins(sub as u8)),
        );
        arm_from(
            s,
            st1,
            nb,
            num_refs,
            x,
            y,
            extra,
            sub + 1,
            if c < best.cost {
                ArmView { parts: ps, sub: sub as u8, cost: c }
            } else {
                best
            },
        )
    }
}

/// One quarter at `(x, y)` searched: undivided, and in the cheapest way.
#[verifier::opaque]
pub open spec fn quarter_of<'a, K: Kernels>(
    s: Searcher<'a, K>,
    st: MeState,
    nb: Seq<MvNeighbor>,
    num_refs: int,
    x: int,
    y: int,
    mv16: (i32, i32),
) -> ((ArmView, ArmView), MeState) {
    let (f, st1) = s.best_of(st, nb, num_refs, x, y, 8, 8, seq![mv16]);
    let whole = ArmView { parts: seq![(f.refi, f.mv)], sub: 0, cost: f.cost + s.plain(1) };
    let (a, st2) = arm_from(s, st1, nb, num_refs, x, y, seq![mv16, f.mv], 1, whole);
    ((whole, a), st2)
}

/// The quarters from `q` on searched, undivided and divided, behind `acc`.
pub open spec fn quarters_from<'a, K: Kernels>(
    s: Searcher<'a, K>,
    st: MeState,
    nb: Seq<MvNeighbor>,
    num_refs: int,
    x: int,
    y: int,
    mv16: (i32, i32),
    q: int,
    acc: QuartersView,
) -> (QuartersView, MeState)
    decreases 4 - q,
{
    if q >= 4 {
        (acc, st)
    } else {
        let ((f, a), st1) = quarter_of(
            s,
            st,
            nb,
            num_refs,
            x + quarter_xy(q).0,
            y + quarter_xy(q).1,
            mv16,
        );
        quarters_from(
            s,
            st1,
            nb,
            num_refs,
            x,
            y,
            mv16,
            q + 1,
            QuartersView {
                parts: acc.parts + a.parts,
                flat: acc.flat + f.parts,
                subs: acc.subs.push(a.sub),
                cost: acc.cost + a.cost,
                flat_cost: acc.flat_cost + f.cost,
            },
        )
    }
}

/// A way to divide a quarter.
pub struct Arm {
    pub parts: Vec<(i32, (i32, i32))>,
    pub sub: u8,
    pub cost: i64,
}

impl View for Arm {
    type V = ArmView;

    open spec fn view(&self) -> ArmView {
        ArmView { parts: self.parts@, sub: self.sub, cost: self.cost as int }
    }
}

impl Arm {
    pub open spec fn wf(self, num_refs: int) -> bool {
        &&& self.sub <= 3
        &&& self.parts@.len() == mbinter::sub_rects(self.sub as int).len()
        &&& forall|i: int|
            0 <= i < self.parts@.len() ==> 0 <= (#[trigger] self.parts@[i]).0 < num_refs
        &&& 0 <= self.cost <= 0x2000_0000_0000
    }
}

fn search_arm<'a, K: Kernels>(
    s: &Searcher<'a, K>,
    st: &mut MeState,
    nb: &[MvNeighbor; 3],
    num_refs: usize,
    x: usize,
    y: usize,
    extra: &[(i32, i32)],
    first: Arm,
) -> (r: Arm)
    requires
        s.wf(),
        old(st).wf(),
        1 <= num_refs <= s.refs@.len(),
        x + 8 <= s.fe.cw,
        y + 8 <= 16 * s.fe.mb_h,
        first.wf(num_refs as int),
    ensures
        (r@, *final(st)) == arm_from(
            *s,
            *old(st),
            nb@,
            num_refs as int,
            x as int,
            y as int,
            extra@,
            1,
            first@,
        ),
        final(st).wf(),
        r.wf(num_refs as int),
{
    let ghost st0 = *st;
    let ghost a0 = first@;
    let mut best: Arm = first;
    let mut sub: u8 = 1;
    while sub < 4
        invariant
            1 <= sub <= 4,
            s.wf(),
            st.wf(),
            1 <= num_refs <= s.refs@.len(),
            x + 8 <= s.fe.cw,
            y + 8 <= 16 * s.fe.mb_h,
            best.wf(num_refs as int),
            arm_from(
                *s,
                *st,
                nb@,
                num_refs as int,
                x as int,
                y as int,
                extra@,
                sub as int,
                best@,
            ) == arm_from(*s, st0, nb@, num_refs as int, x as int, y as int, extra@, 1, a0),
        decreases 4 - sub,
    {
        let rs: Vec<(usize, usize, usize, usize)> = sub_mb_partitions_p(sub);
        let base: i64 = s.plain_price(
            if sub == 1 {
                2
            } else {
                3
            },
        );
        let (ps, c): (Vec<(i32, (i32, i32))>, i64) = s.search_parts(
            st,
            nb,
            num_refs,
            x,
            y,
            &rs,
            extra,
            base,
        );
        if c < best.cost {
            best = Arm { parts: ps, sub, cost: c };
        }
        sub = sub + 1;
    }
    best
}

fn search_quarter<'a, K: Kernels>(
    s: &Searcher<'a, K>,
    st: &mut MeState,
    nb: &[MvNeighbor; 3],
    num_refs: usize,
    x: usize,
    y: usize,
    mv16: (i32, i32),
) -> (r: (Arm, Arm))
    requires
        s.wf(),
        old(st).wf(),
        1 <= num_refs <= s.refs@.len(),
        x + 8 <= s.fe.cw,
        y + 8 <= 16 * s.fe.mb_h,
    ensures
        ({
            let (v, st1) = quarter_of(
                *s,
                *old(st),
                nb@,
                num_refs as int,
                x as int,
                y as int,
                mv16,
            );
            &&& *final(st) == st1
            &&& v == (r.0@, r.1@)
        }),
        final(st).wf(),
        r.0.wf(num_refs as int) && r.0.sub == 0 && r.0.cost <= 0x500_0000_0000,
        r.1.wf(num_refs as int),
{
    reveal(quarter_of);
    let extra: [(i32, i32); 1] = [mv16];
    assert(extra@ =~= seq![mv16]);
    let f: PartFound = s.best_part(st, nb, num_refs, x, y, 8, 8, &extra);
    let j8: i64 = f.cost + s.plain_price(1);
    let both: [(i32, i32); 2] = [mv16, f.mv];
    assert(both@ =~= seq![mv16, f.mv]);
    let mut one: Vec<(i32, (i32, i32))> = Vec::new();
    one.push((f.refi, f.mv));
    assert(one@ =~= seq![(f.refi, f.mv)]);
    let mut two: Vec<(i32, (i32, i32))> = Vec::new();
    two.push((f.refi, f.mv));
    assert(two@ =~= seq![(f.refi, f.mv)]);
    let a: Arm = search_arm(
        s,
        st,
        nb,
        num_refs,
        x,
        y,
        &both,
        Arm { parts: one, sub: 0, cost: j8 },
    );
    (Arm { parts: two, sub: 0, cost: j8 }, a)
}

/// Nothing searched yet.
pub open spec fn no_quarters() -> QuartersView {
    QuartersView {
        parts: Seq::empty(),
        flat: Seq::empty(),
        subs: Seq::empty(),
        cost: 0,
        flat_cost: 0,
    }
}

/// The four quarters, divided where that is cheaper, and the same undivided.
pub struct Quarters {
    pub parts: Vec<(i32, (i32, i32))>,
    pub flat: Vec<(i32, (i32, i32))>,
    pub subs: [u8; 4],
    pub cost: i64,
    pub flat_cost: i64,
}

impl Quarters {
    pub open spec fn seen(self, n: int) -> QuartersView {
        QuartersView {
            parts: self.parts@,
            flat: self.flat@,
            subs: self.subs@.take(n),
            cost: self.cost as int,
            flat_cost: self.flat_cost as int,
        }
    }

    pub open spec fn wf(self, num_refs: int, n: int) -> bool {
        &&& forall|i: int| 0 <= i < 4 ==> #[trigger] self.subs@[i] <= 3
        &&& self.parts@.len() == parts::quarter_rects(self.subs@, n).len()
        &&& self.flat@.len() == n
        &&& forall|i: int|
            0 <= i < self.parts@.len() ==> 0 <= (#[trigger] self.parts@[i]).0 < num_refs
        &&& forall|i: int| 0 <= i < self.flat@.len() ==> 0 <= (#[trigger] self.flat@[i]).0 < num_refs
        &&& 0 <= self.cost <= 0x2000_0000_0000 * n
        &&& 0 <= self.flat_cost <= 0x500_0000_0000 * n
    }
}

proof fn lemma_rects_prefix(a: Seq<u8>, b: Seq<u8>, n: int)
    requires
        forall|i: int| 0 <= i < n ==> a[i] == b[i],
    ensures
        parts::quarter_rects(a, n) == parts::quarter_rects(b, n),
    decreases n,
{
    if n > 0 {
        lemma_rects_prefix(a, b, n - 1);
    }
}

#[verifier::rlimit(50)]
fn search_quarters<'a, K: Kernels>(
    s: &Searcher<'a, K>,
    st: &mut MeState,
    nb: &[MvNeighbor; 3],
    num_refs: usize,
    x: usize,
    y: usize,
    mv16: (i32, i32),
) -> (r: Quarters)
    requires
        s.wf(),
        old(st).wf(),
        1 <= num_refs <= s.refs@.len(),
        x + 16 <= s.fe.cw,
        y + 16 <= 16 * s.fe.mb_h,
    ensures
        ({
            let (v, st1) = quarters_from(
                *s,
                *old(st),
                nb@,
                num_refs as int,
                x as int,
                y as int,
                mv16,
                0,
                no_quarters(),
            );
            &&& *final(st) == st1
            &&& r.seen(4) == v
        }),
        final(st).wf(),
        r.wf(num_refs as int, 4),
{
    let ghost st0 = *st;
    let mut r: Quarters = Quarters {
        parts: Vec::new(),
        flat: Vec::new(),
        subs: [0; 4],
        cost: 0,
        flat_cost: 0,
    };
    let mut q: usize = 0;
    assert(r.seen(0) =~= no_quarters());
    while q < 4
        invariant
            q <= 4,
            s.wf(),
            st.wf(),
            1 <= num_refs <= s.refs@.len(),
            x + 16 <= s.fe.cw,
            y + 16 <= 16 * s.fe.mb_h,
            st0 == *old(st),
            r.wf(num_refs as int, q as int),
            quarters_from(
                *s,
                *st,
                nb@,
                num_refs as int,
                x as int,
                y as int,
                mv16,
                q as int,
                r.seen(q as int),
            ) == quarters_from(
                *s,
                st0,
                nb@,
                num_refs as int,
                x as int,
                y as int,
                mv16,
                0,
                no_quarters(),
            ),
        decreases 4 - q,
    {
        let ghost before = r;
        let (qx, qy): (usize, usize) = (x + 8 * (q % 2), y + 8 * (q / 2));
        let (mut f, mut a): (Arm, Arm) = search_quarter(s, st, nb, num_refs, qx, qy, mv16);
        let ghost (fv, av) = (f@, a@);
        assert(f.parts@.len() == 1 && av.parts.len() == mbinter::sub_rects(a.sub as int).len());
        r.parts.append(&mut a.parts);
        r.flat.append(&mut f.parts);
        r.subs[q] = a.sub;
        r.cost = r.cost + a.cost;
        r.flat_cost = r.flat_cost + f.cost;
        q = q + 1;
        proof {
            lemma_rects_prefix(r.subs@, before.subs@, q - 1);
            assert(r.subs@.take(q as int) =~= before.subs@.take(q - 1).push(av.sub));
            assert(r.seen(q as int) =~= QuartersView {
                parts: before.parts@ + av.parts,
                flat: before.flat@ + fv.parts,
                subs: before.subs@.take(q - 1).push(av.sub),
                cost: before.cost + av.cost,
                flat_cost: before.flat_cost + fv.cost,
            });
        }
    }
    assert(r.subs@.take(4) =~= r.subs@);
    r
}

/// The shapes of a macroblock that was searched in parts. If quarters were searched too, they
/// stand undivided, and divided where that was to be tried.
pub struct Splits {
    pub rows: Shape,
    pub cols: Shape,
    pub quarters: Option<(Shape, Option<Shape>)>,
}

/// The shapes that were searched.
pub struct Shapes {
    pub whole: Shape,
    pub splits: Option<Splits>,
}

/// The shapes of a macroblock that was searched in parts.
#[verifier::ext_equal]
pub struct SplitsView {
    pub rows: ShapeView,
    pub cols: ShapeView,
    pub quarters: Option<(ShapeView, Option<ShapeView>)>,
}

/// The shapes that were searched.
#[verifier::ext_equal]
pub struct ShapesView {
    pub whole: ShapeView,
    pub splits: Option<SplitsView>,
}

impl View for Splits {
    type V = SplitsView;

    open spec fn view(&self) -> SplitsView {
        SplitsView {
            rows: self.rows@,
            cols: self.cols@,
            quarters: match self.quarters {
                None => None,
                Some((f, None)) => Some((f@, None)),
                Some((f, Some(d))) => Some((f@, Some(d@))),
            },
        }
    }
}

impl View for Shapes {
    type V = ShapesView;

    open spec fn view(&self) -> ShapesView {
        ShapesView {
            whole: self.whole@,
            splits: match self.splits {
                None => None,
                Some(s) => Some(s@),
            },
        }
    }
}

impl Splits {
    pub open spec fn wf(self, num_refs: int) -> bool {
        &&& self.rows.wf(num_refs) && self.rows.mode == 1
        &&& self.cols.wf(num_refs) && self.cols.mode == 2
        &&& self.quarters matches Some(q) ==> {
            &&& q.0.wf(num_refs) && q.0.mode == 3
            &&& q.0.subs@ == trial::whole_quarters()
            &&& q.1 matches Some(d) ==> d.wf(num_refs) && d.mode == 3
        }
    }
}

impl Shapes {
    pub open spec fn wf(self, num_refs: int) -> bool {
        &&& self.whole.wf(num_refs) && self.whole.mode == 0
        &&& self.splits matches Some(s) ==> s.wf(num_refs)
    }
}

/// How far a macroblock is searched.
#[derive(Clone, Copy)]
pub struct ShapeOptions {
    /// Search rows and columns where the whole costs much.
    pub do_splits: bool,
    /// Search quarters then, too.
    pub sub8x8: bool,
    /// Divide the quarters, too.
    pub arms: bool,
}

/// A shape of undivided quarters or of a lower mode, searched in one go.
#[verifier::opaque]
pub open spec fn plain_shape<'a, K: Kernels>(
    s: Searcher<'a, K>,
    st: MeState,
    nb: Seq<MvNeighbor>,
    num_refs: int,
    x: int,
    y: int,
    mode: u8,
    extra: Seq<(i32, i32)>,
    base: int,
) -> (ShapeView, MeState) {
    let (ps, c, st1) = s.parts_from(
        st,
        nb,
        num_refs,
        x,
        y,
        motion::rects(mode as int),
        extra,
        0,
        Seq::empty(),
        base,
    );
    (ShapeView { mode, parts: ps, subs: trial::whole_quarters(), cost: c }, st1)
}

/// The quarters, behind a whole with the vector `mv16`.
#[verifier::opaque]
pub open spec fn quarter_shapes<'a, K: Kernels>(
    s: Searcher<'a, K>,
    st: MeState,
    nb: Seq<MvNeighbor>,
    num_refs: int,
    x: int,
    y: int,
    arms: bool,
    mv16: (i32, i32),
) -> ((ShapeView, Option<ShapeView>), MeState) {
    if !arms {
        let (f, st1) = plain_shape(s, st, nb, num_refs, x, y, 3, seq![mv16], s.plain(4));
        ((f, None), st1)
    } else {
        let (q, st1) = quarters_from(s, st, nb, num_refs, x, y, mv16, 0, no_quarters());
        (
            (
                ShapeView {
                    mode: 3,
                    parts: q.flat,
                    subs: trial::whole_quarters(),
                    cost: q.flat_cost,
                },
                Some(ShapeView { mode: 3, parts: q.parts, subs: q.subs, cost: q.cost }),
            ),
            st1,
        )
    }
}

/// The shapes of a macroblock at `(x, y)`.
pub open spec fn shapes_of<'a, K: Kernels>(
    s: Searcher<'a, K>,
    st: MeState,
    nb: Seq<MvNeighbor>,
    num_refs: int,
    x: int,
    y: int,
    o: ShapeOptions,
) -> (ShapesView, MeState) {
    let (whole, st1) = plain_shape(s, st, nb, num_refs, x, y, 0, Seq::empty(), 0);
    let mv16 = whole.parts[0].1;
    if !(o.do_splits && whole.cost > split_gate(s.fe.qp as int) && whole.cost
        >= kernels::split_floor_of(*s.k, s.fe.mb_loud)) {
        (ShapesView { whole, splits: None }, st1)
    } else {
        let (rows, st2) = plain_shape(s, st1, nb, num_refs, x, y, 1, seq![mv16], 0);
        let (cols, st3) = plain_shape(s, st2, nb, num_refs, x, y, 2, seq![mv16], 0);
        if !o.sub8x8 {
            (ShapesView { whole, splits: Some(SplitsView { rows, cols, quarters: None }) }, st3)
        } else {
            let (q, st4) = quarter_shapes(s, st3, nb, num_refs, x, y, o.arms, mv16);
            (ShapesView { whole, splits: Some(SplitsView { rows, cols, quarters: Some(q) }) }, st4)
        }
    }
}

fn search_plain<'a, K: Kernels>(
    s: &Searcher<'a, K>,
    st: &mut MeState,
    nb: &[MvNeighbor; 3],
    num_refs: usize,
    x: usize,
    y: usize,
    mode: u8,
    extra: &[(i32, i32)],
    base: i64,
) -> (r: Shape)
    requires
        s.wf(),
        old(st).wf(),
        1 <= num_refs <= s.refs@.len(),
        x + 16 <= s.fe.cw,
        y + 16 <= 16 * s.fe.mb_h,
        0 <= base <= kernels::PRICE_MAX,
        mode <= 3,
    ensures
        (r@, *final(st)) == plain_shape(
            *s,
            *old(st),
            nb@,
            num_refs as int,
            x as int,
            y as int,
            mode,
            extra@,
            base as int,
        ),
        final(st).wf(),
        r.wf(num_refs as int),
        r.mode == mode,
        r.subs@ == trial::whole_quarters(),
{
    reveal(plain_shape);
    let rs: Vec<(usize, usize, usize, usize)> = inter_partitions(mode);
    let (ps, c): (Vec<(i32, (i32, i32))>, i64) = s.search_parts(
        st,
        nb,
        num_refs,
        x,
        y,
        &rs,
        extra,
        base,
    );
    let subs: [u8; 4] = [0; 4];
    assert(subs@ =~= trial::whole_quarters());
    Shape { mode, parts: ps, subs, cost: c }
}

fn search_quarter_shapes<'a, K: Kernels>(
    s: &Searcher<'a, K>,
    st: &mut MeState,
    nb: &[MvNeighbor; 3],
    num_refs: usize,
    x: usize,
    y: usize,
    arms: bool,
    mv16: (i32, i32),
) -> (r: (Shape, Option<Shape>))
    requires
        s.wf(),
        old(st).wf(),
        1 <= num_refs <= s.refs@.len(),
        x + 16 <= s.fe.cw,
        y + 16 <= 16 * s.fe.mb_h,
    ensures
        ({
            let (v, st1) = quarter_shapes(
                *s,
                *old(st),
                nb@,
                num_refs as int,
                x as int,
                y as int,
                arms,
                mv16,
            );
            &&& *final(st) == st1
            &&& match r {
                (f, None) => v == (f@, None::<ShapeView>),
                (f, Some(d)) => v == (f@, Some(d@)),
            }
        }),
        final(st).wf(),
        r.0.wf(num_refs as int) && r.0.mode == 3,
        r.0.subs@ == trial::whole_quarters(),
        r.1 matches Some(d) ==> d.wf(num_refs as int) && d.mode == 3,
        arms == r.1 is Some,
{
    reveal(quarter_shapes);
    if !arms {
        let base: i64 = s.plain_price(4);
        let extra: [(i32, i32); 1] = [mv16];
        assert(extra@ =~= seq![mv16]);
        let f: Shape = search_plain(s, st, nb, num_refs, x, y, 3, &extra, base);
        (f, None)
    } else {
        let q: Quarters = search_quarters(s, st, nb, num_refs, x, y, mv16);
        let none: [u8; 4] = [0; 4];
        assert(none@ =~= trial::whole_quarters());
        assert(q.subs@.take(4) =~= q.subs@);
        proof {
            if q.subs@ == trial::whole_quarters() {
                lemma_whole_rects(q.subs@);
            }
        }
        let f: Shape = Shape { mode: 3, parts: q.flat, subs: none, cost: q.flat_cost };
        let d: Shape = Shape { mode: 3, parts: q.parts, subs: q.subs, cost: q.cost };
        (f, Some(d))
    }
}

proof fn lemma_whole_rects(subs: Seq<u8>)
    requires
        subs == trial::whole_quarters(),
    ensures
        parts::quarter_rects(subs, 4).len() == 4,
{
    reveal_with_fuel(parts::quarter_rects, 5);
}

/// Search the shapes of a macroblock.
pub fn search_shapes<'a, K: Kernels>(
    s: &Searcher<'a, K>,
    st: &mut MeState,
    nb: &[MvNeighbor; 3],
    num_refs: usize,
    x: usize,
    y: usize,
    o: ShapeOptions,
) -> (r: Shapes)
    requires
        s.wf(),
        old(st).wf(),
        1 <= num_refs <= s.refs@.len(),
        x + 16 <= s.fe.cw,
        y + 16 <= 16 * s.fe.mb_h,
        s.fe.qp <= 51,
    ensures
        ({
            let (v, st1) = shapes_of(
                *s,
                *old(st),
                nb@,
                num_refs as int,
                x as int,
                y as int,
                o,
            );
            &&& *final(st) == st1
            &&& v == r@
        }),
        final(st).wf(),
        r.wf(num_refs as int),
        r.splits matches Some(t) ==> (t.quarters matches Some(q) ==> o.arms == q.1 is Some),
{
    let empty: [(i32, i32); 0] = [];
    assert(empty@ =~= Seq::empty());
    let whole: Shape = search_plain(s, st, nb, num_refs, x, y, 0, &empty, 0);
    let mv16: (i32, i32) = whole.parts[0].1;
    let gate: i64 = split_gate_at(s.fe.qp);
    if !(o.do_splits && whole.cost > gate && whole.cost >= split_floor(s.k, s.fe.mb_loud)) {
        return Shapes { whole, splits: None };
    }
    let extra: [(i32, i32); 1] = [mv16];
    assert(extra@ =~= seq![mv16]);
    let rows: Shape = search_plain(s, st, nb, num_refs, x, y, 1, &extra, 0);
    let cols: Shape = search_plain(s, st, nb, num_refs, x, y, 2, &extra, 0);
    if !o.sub8x8 {
        return Shapes { whole, splits: Some(Splits { rows, cols, quarters: None }) };
    }
    let q: (Shape, Option<Shape>) = search_quarter_shapes(
        s,
        st,
        nb,
        num_refs,
        x,
        y,
        o.arms,
        mv16,
    );
    Shapes { whole, splits: Some(Splits { rows, cols, quarters: Some(q) }) }
}

} // verus!
