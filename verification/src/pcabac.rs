//! P slices coded with CABAC: shapes are searched further, and may be decided by what coding
//! them really gives.
use vstd::prelude::*;
use crate::cabac::{Bin, CabacEncoder};
use crate::cavlc;
use crate::census;
use crate::frame::FrameEncoder;
use crate::grid;
use crate::interplan;
use crate::intraplan::plan_mb;
use crate::kernels;
use crate::kernels::{pays, rd_at_most, rd_less, Gain, Kernels, Rd};
use crate::mbcabac;
use crate::mbcabac::{emit_mb_cabac_p_intra, CabacState};
use crate::mbcavlc;
use crate::mbinter;
use crate::mbinter::{emit_mb_cabac_p_inter, emit_no_skip_cabac, emit_p_skip_cabac};
use crate::motion;
use crate::motion::MvNeighbor;
use crate::parts;
use crate::parts::{Searcher, Shape, ShapeView};
use crate::plan::{InterPlan, MbPlan};
use crate::pslice;
use crate::pslice::{
    intra_cost_of, pick_shape, probe_skip, settle, take_skip, PEnv, Probe, SkipCensus,
};
use crate::residual;
use crate::search::MeState;
use crate::setup::{chroma_qp, mb_variance};
use crate::shapes;
use crate::shapes::{search_shapes, ShapeOptions, Shapes, ShapesView, Splits};
use crate::skip;
use crate::trial;

verus! {

/// How a P slice is decided beyond the options that all P slices have.
#[derive(Clone, Copy)]
pub struct COptions {
    /// Decide the shape by what planning each one gives.
    pub shape_rd: bool,
    /// Search the quarters in parts, where there is one reference.
    pub arms: bool,
    /// The frame shows grain, for which the search in parts is given up.
    pub grain: bool,
    /// Keep the parts of quarters only if planning them gives less than whole quarters do.
    pub arms_rd: bool,
    /// Give the parts up when they have not saved enough, after a number of macroblocks.
    pub arms_pay: bool,
    pub pay_learn: usize,
    /// Decide between intra and inter by what coding and planning give.
    pub intra_rd: bool,
    /// Weigh shapes by the QP of the macroblock, not by that of the slice.
    pub rd_by_mb: bool,
}

/// What the parts of quarters have saved so far.
pub struct Pay {
    pub seen: usize,
    pub gains: Vec<Gain>,
    pub paying: bool,
}

/// The same with the gains as a sequence.
#[verifier::ext_equal]
pub struct PayView {
    pub seen: int,
    pub gains: Seq<Gain>,
    pub paying: bool,
}

impl View for Pay {
    type V = PayView;

    open spec fn view(&self) -> PayView {
        PayView { seen: self.seen as int, gains: self.gains@, paying: self.paying }
    }
}

/// A macroblock more was searched in parts, and may have saved something.
pub open spec fn paid<K: Kernels>(k: K, c: COptions, p: PayView, gain: Option<Gain>) -> PayView {
    if !c.arms_pay {
        p
    } else {
        let gains = match gain {
            Some(g) => p.gains.push(g),
            None => p.gains,
        };
        PayView {
            seen: p.seen + 1,
            gains,
            paying: if p.seen + 1 >= c.pay_learn {
                kernels::pays_of(k, gains, (p.seen + 1) as usize)
            } else {
                p.paying
            },
        }
    }
}

fn pay<K: Kernels>(k: &K, c: &COptions, p: &mut Pay, gain: Option<Gain>)
    requires
        kernels::steady(*k),
        old(p).seen < usize::MAX,
    ensures
        final(p)@ == paid(*k, *c, old(p)@, gain),
        final(p).seen <= old(p).seen + 1,
{
    if c.arms_pay {
        p.seen = p.seen + 1;
        if let Some(g) = gain {
            p.gains.push(g);
        }
        if p.seen >= c.pay_learn {
            p.paying = pays(k, &p.gains, p.seen);
        }
    }
}

/// What the macroblocks of a P slice are decided and coded with.
pub struct CEnv<'a, K: Kernels> {
    pub e: PEnv<'a, K>,
    pub c: &'a COptions,
    /// The macroblocks of much texture.
    pub loud: &'a [bool],
}

/// Shapes planned on trial one after the other; each trial is undone before the next.
pub open spec fn shapes_tried<'a, K: Kernels>(
    e: PEnv<'a, K>,
    f: Seq<FrameEncoder>,
    mb_x: int,
    mb_y: int,
    cands: Seq<ShapeView>,
    rds: Seq<Rd>,
) -> bool {
    &&& f.len() == cands.len() + 1
    &&& rds.len() == cands.len()
    &&& forall|i: int| 0 <= i < cands.len() ==> #[trigger] tried_at(e, f, mb_x, mb_y, cands, rds, i)
}

/// Candidate `i` was planned on trial and undone.
pub open spec fn tried_at<'a, K: Kernels>(
    e: PEnv<'a, K>,
    f: Seq<FrameEncoder>,
    mb_x: int,
    mb_y: int,
    cands: Seq<ShapeView>,
    rds: Seq<Rd>,
    i: int,
) -> bool {
    &&& trial::plan_tried(
        *e.k,
        f[i],
        e.refs@[0],
        e.sy@,
        e.su@,
        e.sv@,
        mb_x,
        mb_y,
        cands[i].mode,
        cands[i].parts,
        cands[i].subs,
        rds[i],
    )
    &&& trial::undone(f[i], f[i + 1])
}

/// The first one of the cheapest of `rds[best]` and the candidates from `i` on.
pub open spec fn cheapest<K: Kernels>(k: K, qp: u8, rds: Seq<Rd>, i: int, best: int) -> int
    decreases rds.len() - i,
{
    if i >= rds.len() {
        best
    } else if kernels::rd_less_of(k, qp, rds[i], rds[best]) {
        cheapest(k, qp, rds, i + 1, i)
    } else {
        cheapest(k, qp, rds, i + 1, best)
    }
}

/// The shapes as a sequence of views.
pub open spec fn views(v: Seq<Shape>) -> Seq<ShapeView> {
    v.map_values(|s: Shape| s@)
}

/// A trial that is undone leaves a frame that can be coded.
pub proof fn lemma_undone_ok(a: FrameEncoder, b: FrameEncoder)
    requires
        pslice::frame_ok(a),
        b.wf(),
        trial::undone(a, b),
    ensures
        pslice::frame_ok(b),
        b.mb_w == a.mb_w,
        b.mb_h == a.mb_h,
{
}

/// Two trials that are undone leave what was there before the first.
pub proof fn lemma_undone_twice(a: FrameEncoder, b: FrameEncoder, c: FrameEncoder)
    requires
        trial::undone(a, b),
        trial::undone(b, c),
    ensures
        trial::undone(a, c),
{
}

impl<'a, K: Kernels> PEnv<'a, K> {
    /// Plan a shape on trial.
    fn try_shape(&self, fe: &mut FrameEncoder, mb_x: usize, mb_y: usize, shape: &Shape) -> (r: Rd)
        requires
            pslice::frame_ok(*old(fe)),
            self.wf(*old(fe)),
            self.refs@.len() >= 1,
            old(fe).has_mb(mb_x as int, mb_y as int),
            shape.wf(self.refs@.len() as int),
        ensures
            trial::plan_tried(
                *self.k,
                *old(fe),
                self.refs@[0],
                self.sy@,
                self.su@,
                self.sv@,
                mb_x as int,
                mb_y as int,
                shape.mode,
                shape.parts@,
                shape.subs@,
                r,
            ),
            trial::undone(*old(fe), *final(fe)),
            pslice::frame_ok(*final(fe)),
            self.wf(*final(fe)),
    {
        let ghost a = *fe;
        assert(self.refs@[0].mv@.len() == self.refs@[0].ref_idx@.len());
        proof {
            pslice::lemma_shape_ok(a, self.refs@[0], *shape, self.refs@.len() as int);
        }
        let r: Rd = fe.trial_plan(
            self.k,
            &self.refs[0],
            self.sy,
            self.su,
            self.sv,
            mb_x,
            mb_y,
            shape.mode,
            &shape.parts,
            shape.subs,
        );
        proof {
            lemma_undone_ok(a, *fe);
        }
        r
    }

    /// Plan shapes on trial, one after the other.
    #[verifier::rlimit(50)]
    fn try_shapes(&self, fe: &mut FrameEncoder, mb_x: usize, mb_y: usize, cands: &Vec<Shape>) -> (r: Vec<
        Rd,
    >)
        requires
            pslice::frame_ok(*old(fe)),
            self.wf(*old(fe)),
            self.refs@.len() >= 1,
            old(fe).has_mb(mb_x as int, mb_y as int),
            forall|i: int|
                0 <= i < cands@.len() ==> (#[trigger] cands@[i]).wf(self.refs@.len() as int),
        ensures
            exists|f: Seq<FrameEncoder>|
                {
                    &&& #[trigger] shapes_tried(
                        *self,
                        f,
                        mb_x as int,
                        mb_y as int,
                        views(cands@),
                        r@,
                    )
                    &&& f[0] == *old(fe)
                    &&& f.last() == *final(fe)
                },
            pslice::frame_ok(*final(fe)),
            self.wf(*final(fe)),
            trial::undone(*old(fe), *final(fe)),
            r@.len() == cands@.len(),
    {
        let ghost a = *fe;
        let ghost (gx, gy) = (mb_x as int, mb_y as int);
        let ghost mut f: Seq<FrameEncoder> = seq![*fe];
        let mut r: Vec<Rd> = Vec::new();
        let mut i: usize = 0;
        while i < cands.len()
            invariant
                a == *old(fe),
                gx == mb_x && gy == mb_y,
                i <= cands@.len(),
                pslice::frame_ok(*fe),
                self.wf(*fe),
                self.refs@.len() >= 1,
                fe.has_mb(gx, gy),
                forall|j: int|
                    0 <= j < cands@.len() ==> (#[trigger] cands@[j]).wf(self.refs@.len() as int),
                f.len() == i + 1,
                r@.len() == i,
                f[0] == a,
                f.last() == *fe,
                trial::undone(a, *fe),
                forall|j: int|
                    0 <= j < i ==> #[trigger] tried_at(
                        *self,
                        f,
                        gx,
                        gy,
                        views(cands@),
                        r@,
                        j,
                    ),
            decreases cands@.len() - i,
        {
            let ghost (f0, r0) = (f, r@);
            let ghost before = *fe;
            let rd: Rd = self.try_shape(fe, mb_x, mb_y, &cands[i]);
            r.push(rd);
            proof {
                f = f.push(*fe);
                assert forall|j: int| 0 <= j < i + 1 implies #[trigger] tried_at(
                    *self,
                    f,
                    gx,
                    gy,
                    views(cands@),
                    r@,
                    j,
                ) by {
                    assert(views(cands@)[j] == cands@[j]@);
                    if j < i {
                        assert(tried_at(*self, f0, gx, gy, views(cands@), r0, j));
                        assert(f[j] == f0[j] && f[j + 1] == f0[j + 1] && r@[j] == r0[j]);
                    } else {
                        assert(f[j] == before && f[j + 1] == *fe && r@[j] == rd);
                    }
                }
            }
            i = i + 1;
        }
        assert(shapes_tried(*self, f, gx, gy, views(cands@), r@));
        r
    }
}

fn cheapest_of<K: Kernels>(k: &K, qp: u8, rds: &Vec<Rd>) -> (r: usize)
    requires
        kernels::steady(*k),
        rds@.len() >= 1,
    ensures
        r == cheapest(*k, qp, rds@, 1, 0),
        r < rds@.len(),
{
    let mut best: usize = 0;
    let mut i: usize = 1;
    while i < rds.len()
        invariant
            1 <= i <= rds@.len(),
            best < rds@.len(),
            kernels::steady(*k),
            cheapest(*k, qp, rds@, i as int, best as int) == cheapest(*k, qp, rds@, 1, 0),
        decreases rds@.len() - i,
    {
        if rd_less(k, qp, rds[i], rds[best]) {
            best = i;
        }
        i = i + 1;
    }
    best
}

/// The shapes in the order in which they were searched.
pub open spec fn candidates(v: ShapesView) -> Seq<ShapeView> {
    match v.splits {
        None => seq![v.whole],
        Some(s) => match s.quarters {
            None => seq![v.whole, s.rows, s.cols],
            Some((f, None)) => seq![v.whole, s.rows, s.cols, f],
            Some((f, Some(d))) => seq![v.whole, s.rows, s.cols, d],
        },
    }
}

/// Two shapes.
pub open spec fn pair(a: ShapeView, b: ShapeView) -> Seq<ShapeView> {
    seq![a, b]
}

/// The quarters undivided and in parts, where they were searched in parts.
pub open spec fn both_quarters(v: ShapesView) -> Option<(ShapeView, ShapeView)> {
    match v.splits {
        Some(shapes::SplitsView { quarters: Some((flat, Some(parted))), .. }) => Some(
            (flat, parted),
        ),
        _ => None,
    }
}

/// The shapes with other divided quarters.
pub open spec fn with_quarters(v: ShapesView, d: ShapeView) -> ShapesView {
    match v.splits {
        Some(s) => match s.quarters {
            Some((f, _)) => ShapesView {
                splits: Some(shapes::SplitsView { quarters: Some((f, Some(d))), ..s }),
                ..v
            },
            None => v,
        },
        None => v,
    }
}

/// How the quarters are divided, where they were searched in parts.
pub open spec fn divided(v: ShapesView) -> Option<Seq<u8>> {
    match v.splits {
        Some(shapes::SplitsView { quarters: Some((_, Some(d))), .. }) => Some(d.subs),
        _ => None,
    }
}

fn divided_of(v: &Shapes) -> (r: Option<[u8; 4]>)
    ensures
        r is Some == divided(v@) is Some,
        r matches Some(t) ==> divided(v@) == Some(t@),
{
    match &v.splits {
        Some(Splits { quarters: Some((_, Some(d))), .. }) => Some(d.subs),
        _ => None,
    }
}

fn are_whole(t: &[u8; 4]) -> (r: bool)
    ensures
        r == (t@ == trial::whole_quarters()),
{
    let r: bool = t[0] == 0 && t[1] == 0 && t[2] == 0 && t[3] == 0;
    if r {
        assert(t@ =~= trial::whole_quarters());
    }
    r
}

/// The shapes in the order in which they were searched.
fn list_candidates(v: &Shapes, Ghost(num_refs): Ghost<int>) -> (r: Vec<Shape>)
    requires
        v.wf(num_refs),
    ensures
        views(r@) == candidates(v@),
        r@.len() == candidates(v@).len(),
        forall|i: int|
            0 <= i < r@.len() ==> (#[trigger] r@[i]).wf(num_refs),
{
    let mut r: Vec<Shape> = Vec::new();
    r.push(v.whole.copy());
    if let Some(s) = &v.splits {
        r.push(s.rows.copy());
        r.push(s.cols.copy());
        if let Some((f, d)) = &s.quarters {
            match d {
                Some(d) => r.push(d.copy()),
                None => r.push(f.copy()),
            }
        }
    }
    assert(views(r@) =~= candidates(v@));
    r
}

impl<'a, K: Kernels> CEnv<'a, K> {
    pub open spec fn wf(&self, fe: FrameEncoder) -> bool {
        &&& self.e.wf(fe)
        &&& self.loud@.len() == fe.mb_w * fe.mb_h
        &&& self.e.is_p
    }

    /// The QP by which shapes are weighed.
    pub open spec fn rd_qp(&self, fe: FrameEncoder) -> u8 {
        if self.c.rd_by_mb {
            fe.qp
        } else {
            self.e.p.qp
        }
    }

    /// Quarters in parts are kept only if planning them gives less than whole quarters.
    pub open spec fn quarters_kept(
        &self,
        a: FrameEncoder,
        b: FrameEncoder,
        mb_x: int,
        mb_y: int,
        flat: ShapeView,
        parted: ShapeView,
        out: ShapeView,
        gain: Option<Gain>,
    ) -> bool {
        if !(self.c.arms_rd && parted.subs != trial::whole_quarters()) {
            b == a && out == parted && gain is None
        } else {
            exists|f: Seq<FrameEncoder>, rds: Seq<Rd>|
                {
                    &&& #[trigger] shapes_tried(self.e, f, mb_x, mb_y, pair(parted, flat), rds)
                    &&& f[0] == a
                    &&& f.last() == b
                    &&& if kernels::rd_at_most_of(*self.e.k, self.rd_qp(a), rds[1], rds[0]) {
                        out == flat && gain is None
                    } else {
                        &&& out == parted
                        &&& gain == Some(
                            Gain { qp: self.rd_qp(a), parts: rds[0], whole: rds[1] },
                        )
                    }
                }
        }
    }

    /// The shapes after their quarters were weighed, and what the parts have saved then.
    pub open spec fn quarters_settled(
        &self,
        a: FrameEncoder,
        b: FrameEncoder,
        mb_x: int,
        mb_y: int,
        v: ShapesView,
        u: ShapesView,
        p: PayView,
        q: PayView,
    ) -> bool {
        match both_quarters(v) {
            Some((flat, parted)) => {
                exists|out: ShapeView, gain: Option<Gain>|
                    {
                        &&& #[trigger] self.quarters_kept(
                            a,
                            b,
                            mb_x,
                            mb_y,
                            flat,
                            parted,
                            out,
                            gain,
                        )
                        &&& u == with_quarters(v, out)
                        &&& q == paid(*self.e.k, *self.c, p, gain)
                    }
            },
            None => b == a && u == v && q == p,
        }
    }

    /// The shape that is picked: the cheapest one, or where that is asked for and there is more
    /// than one, the one whose planning gives least. Then intra is weighed against it, too.
    pub open spec fn shape_ranked(
        &self,
        a: FrameEncoder,
        b: FrameEncoder,
        mb_x: int,
        mb_y: int,
        v: ShapesView,
        shape: ShapeView,
        verdict: Option<bool>,
    ) -> bool {
        let cands = candidates(v);
        if !(self.c.shape_rd && cands.len() > 1) {
            b == a && shape == pslice::picked(v) && verdict is None
        } else {
            exists|f: Seq<FrameEncoder>, rds: Seq<Rd>, ssd: int, n: usize|
                {
                    let qp = self.rd_qp(a);
                    let i = cheapest(*self.e.k, qp, rds, 1, 0);
                    &&& #[trigger] shapes_tried(self.e, f, mb_x, mb_y, cands, rds)
                    &&& f[0] == a
                    &&& #[trigger] trial::intra_tried(
                        *self.e.k,
                        f.last(),
                        self.e.sy@,
                        self.e.su@,
                        self.e.sv@,
                        mb_x,
                        mb_y,
                        true,
                        ssd,
                        n,
                    )
                    &&& trial::undone(f.last(), b)
                    &&& shape == cands[i]
                    &&& verdict == Some(
                        kernels::rd_less_of(
                            *self.e.k,
                            qp,
                            Rd { ssd: ssd as i64, rate: n as i64 },
                            rds[i],
                        ),
                    )
                }
        }
    }

    /// Intra is weighed against a shape: the one is coded, the other planned.
    pub open spec fn intra_weighed(
        &self,
        a: FrameEncoder,
        b: FrameEncoder,
        mb_x: int,
        mb_y: int,
        shape: ShapeView,
        intra: bool,
    ) -> bool {
        exists|c: FrameEncoder, ssd: int, n: usize, rd: Rd|
            {
                &&& #[trigger] trial::intra_tried(
                    *self.e.k,
                    a,
                    self.e.sy@,
                    self.e.su@,
                    self.e.sv@,
                    mb_x,
                    mb_y,
                    true,
                    ssd,
                    n,
                )
                &&& trial::undone(a, c)
                &&& #[trigger] trial::plan_tried(
                    *self.e.k,
                    c,
                    self.e.refs@[0],
                    self.e.sy@,
                    self.e.su@,
                    self.e.sv@,
                    mb_x,
                    mb_y,
                    shape.mode,
                    shape.parts,
                    shape.subs,
                    rd,
                )
                &&& trial::undone(c, b)
                &&& intra == kernels::rd_less_of(
                    *self.e.k,
                    self.e.p.qp,
                    Rd { ssd: ssd as i64, rate: n as i64 },
                    rd,
                )
            }
    }

    /// Intra is taken: by a verdict that was given, by what coding and planning give, or by
    /// distortion.
    pub open spec fn intra_judged(
        &self,
        a: FrameEncoder,
        b: FrameEncoder,
        mb_x: int,
        mb_y: int,
        shape: ShapeView,
        verdict: Option<bool>,
        intra: bool,
    ) -> bool {
        if verdict is Some {
            b == a && intra == verdict->0
        } else if self.c.intra_rd && !a.fast {
            self.intra_weighed(a, b, mb_x, mb_y, shape, intra)
        } else {
            b == a && intra == (pslice::intra_cost(*self.e.k, a, self.e.sy@, mb_x, mb_y)
                < shape.cost)
        }
    }

    /// What the gates of the quarters answered: whether the search in parts was given up for grain,
    /// whether each quarter was divided, and whether the rate took the division back.
    pub open spec fn quarters_asked(&self, v: ShapesView, u: ShapesView) -> Seq<(usize, bool)> {
        if v.splits is None {
            Seq::empty()
        } else {
            self.grain_asked() + self.division_asked(divided(v), divided(u))
        }
    }

    /// What was answered on grain, where there is one reference.
    pub open spec fn grain_asked(&self) -> Seq<(usize, bool)> {
        if self.c.arms && self.e.refs@.len() == 1 {
            seq![(census::SUB8_GRAIN, self.c.grain)]
        } else {
            Seq::empty()
        }
    }

    /// What the gates of divided quarters answered, given how they were divided by their costs and
    /// by the rate.
    pub open spec fn division_asked(
        &self,
        d: Option<Seq<u8>>,
        u: Option<Seq<u8>>,
    ) -> Seq<(usize, bool)> {
        match d {
            None => Seq::empty(),
            Some(d) => seq![
                (census::SUB8_SPLIT, d[0] != 0),
                (census::SUB8_SPLIT, d[1] != 0),
                (census::SUB8_SPLIT, d[2] != 0),
                (census::SUB8_SPLIT, d[3] != 0),
            ] + (if self.c.arms_rd && d != trial::whole_quarters() {
                seq![(census::SUB8_RD_REVERT, u == Some(trial::whole_quarters()))]
            } else {
                Seq::empty()
            }),
        }
    }

    /// What was answered on the shape: whether the rate took the cheapest shape back.
    pub open spec fn shape_asked(&self, v: ShapesView, shape: ShapeView) -> Seq<(usize, bool)> {
        if self.c.shape_rd && candidates(v).len() > 1 {
            seq![(census::SHAPE_RD_FLIP, pslice::picked(v).mode != shape.mode)]
        } else {
            Seq::empty()
        }
    }

    /// What was answered on intra: whether the verdict is other than distortion says, where
    /// the cheapest inter shape has this cost.
    pub open spec fn intra_asked(
        &self,
        a: FrameEncoder,
        mb_x: int,
        mb_y: int,
        cost: int,
        intra: bool,
    ) -> Seq<(usize, bool)> {
        if self.c.intra_rd && !a.fast {
            let says = pslice::intra_cost(*self.e.k, a, self.e.sy@, mb_x, mb_y) < cost;
            seq![(census::INTRA_RD_FLIP, intra != says)]
        } else {
            Seq::empty()
        }
    }

    /// Note what the gates of the quarters answered.
    fn ask_quarters(
        &self,
        d: &Option<[u8; 4]>,
        u: &Option<[u8; 4]>,
        gates: &mut Vec<(usize, bool)>,
        Ghost(dv): Ghost<Option<Seq<u8>>>,
        Ghost(uv): Ghost<Option<Seq<u8>>>,
    )
        requires
            d is Some == dv is Some,
            d matches Some(t) ==> dv == Some(t@),
            u is Some == uv is Some,
            u matches Some(t) ==> uv == Some(t@),
        ensures
            final(gates)@ == old(gates)@ + (self.grain_asked() + self.division_asked(dv, uv)),
    {
        let ghost g0 = gates@;
        if self.c.arms && self.e.refs.len() == 1 {
            gates.push((census::SUB8_GRAIN, self.c.grain));
        }
        if let Some(t) = d {
            gates.push((census::SUB8_SPLIT, t[0] != 0));
            gates.push((census::SUB8_SPLIT, t[1] != 0));
            gates.push((census::SUB8_SPLIT, t[2] != 0));
            gates.push((census::SUB8_SPLIT, t[3] != 0));
            if self.c.arms_rd && !are_whole(t) {
                let back: bool = match u {
                    Some(o) => are_whole(o),
                    None => false,
                };
                gates.push((census::SUB8_RD_REVERT, back));
            }
        }
        assert(gates@ =~= g0 + (self.grain_asked() + self.division_asked(dv, uv)));
    }

    /// Weigh the quarters that were searched in parts.
    fn keep_quarters(
        &self,
        fe: &mut FrameEncoder,
        mb_x: usize,
        mb_y: usize,
        flat: &Shape,
        parted: Shape,
    ) -> (r: (Shape, Option<Gain>))
        requires
            pslice::frame_ok(*old(fe)),
            self.wf(*old(fe)),
            self.e.refs@.len() >= 1,
            old(fe).has_mb(mb_x as int, mb_y as int),
            flat.wf(self.e.refs@.len() as int),
            parted.wf(self.e.refs@.len() as int),
        ensures
            self.quarters_kept(
                *old(fe),
                *final(fe),
                mb_x as int,
                mb_y as int,
                flat@,
                parted@,
                r.0@,
                r.1,
            ),
            r.0@ == flat@ || r.0 == parted,
            pslice::frame_ok(*final(fe)),
            self.wf(*final(fe)),
            trial::undone(*old(fe), *final(fe)),
    {
        if !(self.c.arms_rd && !are_whole(&parted.subs)) {
            return (parted, None);
        }
        let qp: u8 = if self.c.rd_by_mb {
            fe.qp
        } else {
            self.e.p.qp
        };
        let mut cands: Vec<Shape> = Vec::new();
        cands.push(parted.copy());
        cands.push(flat.copy());
        assert(views(cands@) =~= pair(parted@, flat@));
        let rds: Vec<Rd> = self.e.try_shapes(fe, mb_x, mb_y, &cands);
        if rd_at_most(self.e.k, qp, rds[1], rds[0]) {
            (flat.copy(), None)
        } else {
            (parted, Some(Gain { qp, parts: rds[0], whole: rds[1] }))
        }
    }

    proof fn lemma_settled(
        &self,
        a: FrameEncoder,
        b: FrameEncoder,
        mb_x: int,
        mb_y: int,
        v: ShapesView,
        u: ShapesView,
        p: PayView,
        q: PayView,
        out: ShapeView,
        gain: Option<Gain>,
    )
        requires
            both_quarters(v) matches Some((flat, parted)) && self.quarters_kept(
                a,
                b,
                mb_x,
                mb_y,
                flat,
                parted,
                out,
                gain,
            ),
            u == with_quarters(v, out),
            q == paid(*self.e.k, *self.c, p, gain),
        ensures
            self.quarters_settled(a, b, mb_x, mb_y, v, u, p, q),
    {
    }

    /// Weigh the quarters, if they were searched in parts.
    fn settle_quarters(
        &self,
        fe: &mut FrameEncoder,
        mb_x: usize,
        mb_y: usize,
        v: Shapes,
        p: &mut Pay,
    ) -> (r: Shapes)
        requires
            pslice::frame_ok(*old(fe)),
            self.wf(*old(fe)),
            self.e.refs@.len() >= 1,
            old(fe).has_mb(mb_x as int, mb_y as int),
            v.wf(self.e.refs@.len() as int),
            old(p).seen < usize::MAX,
        ensures
            self.quarters_settled(
                *old(fe),
                *final(fe),
                mb_x as int,
                mb_y as int,
                v@,
                r@,
                old(p)@,
                final(p)@,
            ),
            r.wf(self.e.refs@.len() as int),
            pslice::frame_ok(*final(fe)),
            self.wf(*final(fe)),
            trial::undone(*old(fe), *final(fe)),
            final(p).seen <= old(p).seen + 1,
    {
        let ghost v0 = v@;
        let ghost a = *fe;
        match v.splits {
            Some(Splits { rows, cols, quarters: Some((flat, Some(parted))) }) => {
                let ghost (fv, pv) = (flat@, parted@);
                assert(both_quarters(v0) == Some((fv, pv)));
                let (out, gain): (Shape, Option<Gain>) = self.keep_quarters(
                    fe,
                    mb_x,
                    mb_y,
                    &flat,
                    parted,
                );
                pay(self.e.k, self.c, p, gain);
                let ghost ov = out@;
                let r: Shapes = Shapes {
                    whole: v.whole,
                    splits: Some(Splits { rows, cols, quarters: Some((flat, Some(out))) }),
                };
                assert(r@ =~= with_quarters(v0, ov));
                proof {
                    let (gx, gy) = (mb_x as int, mb_y as int);
                    self.lemma_settled(a, *fe, gx, gy, v0, r@, old(p)@, p@, ov, gain);
                }
                r
            },
            _ => v,
        }
    }

    /// Pick a shape. Beside it stand the verdict on intra and the cost of the cheapest shape.
    fn rank_shapes(
        &self,
        fe: &mut FrameEncoder,
        mb_x: usize,
        mb_y: usize,
        v: Shapes,
        gates: &mut Vec<(usize, bool)>,
    ) -> (r: (Shape, Option<bool>, i64))
        requires
            pslice::frame_ok(*old(fe)),
            self.wf(*old(fe)),
            self.e.refs@.len() >= 1,
            old(fe).has_mb(mb_x as int, mb_y as int),
            v.wf(self.e.refs@.len() as int),
        ensures
            self.shape_ranked(
                *old(fe),
                *final(fe),
                mb_x as int,
                mb_y as int,
                v@,
                r.0@,
                r.1,
            ),
            r.2 == pslice::picked(v@).cost,
            final(gates)@ == old(gates)@ + self.shape_asked(v@, r.0@),
            r.0.wf(self.e.refs@.len() as int),
            pslice::frame_ok(*final(fe)),
            self.wf(*final(fe)),
            trial::undone(*old(fe), *final(fe)),
    {
        let ghost g0 = gates@;
        let ghost v0 = v@;
        let ghost a = *fe;
        let ghost nr = self.e.refs@.len() as int;
        if !(self.c.shape_rd && v.splits.is_some()) {
            let shape: Shape = pick_shape(v, Ghost(nr));
            let cost: i64 = shape.cost;
            assert(gates@ =~= g0 + self.shape_asked(v0, shape@));
            return (shape, None, cost);
        }
        let qp: u8 = if self.c.rd_by_mb {
            fe.qp
        } else {
            self.e.p.qp
        };
        let cands: Vec<Shape> = list_candidates(&v, Ghost(nr));
        let rds: Vec<Rd> = self.e.try_shapes(fe, mb_x, mb_y, &cands);
        let i: usize = cheapest_of(self.e.k, qp, &rds);
        let ghost mid = *fe;
        let ghost f = choose|f: Seq<FrameEncoder>|
            {
                &&& #[trigger] shapes_tried(
                    self.e,
                    f,
                    mb_x as int,
                    mb_y as int,
                    views(cands@),
                    rds@,
                )
                &&& f[0] == a
                &&& f.last() == mid
            };
        let (ssd, n): (i64, usize) = fe.trial_intra(
            self.e.k,
            self.e.sy,
            self.e.su,
            self.e.sv,
            mb_x,
            mb_y,
            true,
        );
        proof {
            lemma_undone_ok(mid, *fe);
            lemma_undone_twice(a, mid, *fe);
        }
        let intra: bool = rd_less(self.e.k, qp, Rd { ssd, rate: n as i64 }, rds[i]);
        let shape: Shape = cands[i].copy();
        assert(views(cands@)[i as int] == cands@[i as int]@);
        let first: Shape = pick_shape(v, Ghost(nr));
        gates.push((census::SHAPE_RD_FLIP, first.mode != shape.mode));
        assert(gates@ =~= g0 + self.shape_asked(v0, shape@));
        (shape, Some(intra), first.cost)
    }

    /// Weigh intra against a shape.
    fn weigh_intra(&self, fe: &mut FrameEncoder, mb_x: usize, mb_y: usize, shape: &Shape) -> (r: bool)
        requires
            pslice::frame_ok(*old(fe)),
            self.wf(*old(fe)),
            self.e.refs@.len() >= 1,
            old(fe).has_mb(mb_x as int, mb_y as int),
            shape.wf(self.e.refs@.len() as int),
        ensures
            self.intra_weighed(*old(fe), *final(fe), mb_x as int, mb_y as int, shape@, r),
            pslice::frame_ok(*final(fe)),
            self.wf(*final(fe)),
            trial::undone(*old(fe), *final(fe)),
    {
        let ghost a = *fe;
        let (ssd, n): (i64, usize) = fe.trial_intra(
            self.e.k,
            self.e.sy,
            self.e.su,
            self.e.sv,
            mb_x,
            mb_y,
            true,
        );
        let ghost c = *fe;
        proof {
            lemma_undone_ok(a, c);
        }
        let rd: Rd = self.e.try_shape(fe, mb_x, mb_y, shape);
        proof {
            lemma_undone_twice(a, c, *fe);
        }
        let r: bool = rd_less(self.e.k, self.e.p.qp, Rd { ssd, rate: n as i64 }, rd);
        proof {
            let sd = ssd as int;
            assert(trial::intra_tried(
                *self.e.k,
                a,
                self.e.sy@,
                self.e.su@,
                self.e.sv@,
                mb_x as int,
                mb_y as int,
                true,
                sd,
                n,
            ));
            assert(trial::plan_tried(
                *self.e.k,
                c,
                self.e.refs@[0],
                self.e.sy@,
                self.e.su@,
                self.e.sv@,
                mb_x as int,
                mb_y as int,
                shape@.mode,
                shape@.parts,
                shape@.subs,
                rd,
            ));
            assert(r == kernels::rd_less_of(
                *self.e.k,
                self.e.p.qp,
                Rd { ssd: sd as i64, rate: n as i64 },
                rd,
            ));
        }
        r
    }

    /// Judge whether intra is taken.
    fn judge_intra(
        &self,
        fe: &mut FrameEncoder,
        mb_x: usize,
        mb_y: usize,
        shape: &Shape,
        verdict: Option<bool>,
    ) -> (r: bool)
        requires
            pslice::frame_ok(*old(fe)),
            self.wf(*old(fe)),
            self.e.refs@.len() >= 1,
            old(fe).has_mb(mb_x as int, mb_y as int),
            shape.wf(self.e.refs@.len() as int),
        ensures
            self.intra_judged(
                *old(fe),
                *final(fe),
                mb_x as int,
                mb_y as int,
                shape@,
                verdict,
                r,
            ),
            pslice::frame_ok(*final(fe)),
            self.wf(*final(fe)),
            trial::undone(*old(fe), *final(fe)),
    {
        let ghost a = *fe;
        match verdict {
            Some(b) => b,
            None => {
                if self.c.intra_rd && !fe.fast {
                    self.weigh_intra(fe, mb_x, mb_y, shape)
                } else {
                    intra_cost_of(self.e.k, fe, self.e.sy, mb_x, mb_y) < shape.cost
                }
            },
        }
    }
}

proof fn lemma_count_le(s: Seq<i32>, n: int)
    requires
        0 <= n,
    ensures
        residual::count_nz(s, n) <= n,
    decreases n,
{
    if n > 0 {
        lemma_count_le(s, n - 1);
    }
}

proof fn lemma_put_luma_small(
    g: Seq<u8>,
    mb_w: int,
    mb_h: int,
    mb_x: int,
    mb_y: int,
    n: int,
    t: spec_fn(int) -> u8,
)
    requires
        0 <= mb_x < mb_w,
        0 <= mb_y < mb_h,
        0 <= n <= 16,
        g.len() == (4 * mb_w) * (4 * mb_h),
        cavlc::small_counts(g),
        forall|z: int| 0 <= z < 16 ==> #[trigger] t(z) <= 64,
    ensures
        cavlc::small_counts(grid::put_luma(g, mb_w, mb_x, mb_y, n, t)),
        grid::put_luma(g, mb_w, mb_x, mb_y, n, t).len() == g.len(),
    decreases n,
{
    if n > 0 {
        lemma_put_luma_small(g, mb_w, mb_h, mb_x, mb_y, n - 1, t);
        grid::lemma_luma_cell(mb_w, mb_h, mb_x, mb_y, n - 1);
        assert(t(n - 1) <= 64);
    }
}

proof fn lemma_put_chroma_small(
    g: Seq<u8>,
    mb_w: int,
    mb_h: int,
    mb_x: int,
    mb_y: int,
    n: int,
    t: spec_fn(int) -> u8,
)
    requires
        0 <= mb_x < mb_w,
        0 <= mb_y < mb_h,
        0 <= n <= 4,
        g.len() == (2 * mb_w) * (2 * mb_h),
        cavlc::small_counts(g),
        forall|z: int| 0 <= z < 4 ==> #[trigger] t(z) <= 64,
    ensures
        cavlc::small_counts(grid::put_chroma(g, mb_w, mb_x, mb_y, n, t)),
        grid::put_chroma(g, mb_w, mb_x, mb_y, n, t).len() == g.len(),
    decreases n,
{
    if n > 0 {
        lemma_put_chroma_small(g, mb_w, mb_h, mb_x, mb_y, n - 1, t);
        grid::lemma_chroma_cell(mb_w, mb_h, mb_x, mb_y, n - 1);
        assert(t(n - 1) <= 64);
    }
}

proof fn lemma_luma_total(q: Seq<[i32; 16]>, cbp: int, ac: bool, z: int)
    ensures
        mbcabac::luma_blocks(q, cbp, ac).total(z) <= 64,
{
    let b = mbcabac::luma_blocks(q, cbp, ac);
    lemma_count_le((b.co)(z), 15);
    lemma_count_le((b.co)(z), 16);
}

proof fn lemma_eight_total(q: Seq<[i32; 64]>, cbp: int, b: int)
    ensures
        mbcabac::eight_total(q, cbp, b) <= 64,
{
    lemma_count_le(crate::scan::zigzag8(q[b]@), 64);
}

proof fn lemma_chroma_small(
    fe: FrameEncoder,
    mb_x: int,
    mb_y: int,
    cbp_chroma: int,
    q: Seq<[[i32; 16]; 4]>,
    i: int,
)
    requires
        fe.wf(),
        fe.counts_ok(),
        fe.has_mb(mb_x, mb_y),
        i == 0 || i == 1,
    ensures
        cavlc::small_counts(
            mbcabac::chroma_counts(
                fe.nnz_c@[i]@,
                fe.mb_w as int,
                mb_x,
                mb_y,
                cbp_chroma,
                q,
                i,
            ),
        ),
{
    let t = |z: int| mbcabac::chroma_blocks(q).total(16 + 4 * i + z);
    assert forall|z: int| 0 <= z < 4 implies #[trigger] t(z) <= 64 by {
        let b = mbcabac::chroma_blocks(q);
        let iz = 16 + 4 * i + z;
        assert((b.rp)(iz) == 9 + i);
        lemma_count_le((b.co)(iz), 15);
    }
    lemma_put_chroma_small(
        fe.nnz_c@[i]@,
        fe.mb_w as int,
        fe.mb_h as int,
        mb_x,
        mb_y,
        4,
        t,
    );
}

/// Coding an inter macroblock leaves small counts.
pub proof fn lemma_inter_counts(
    fe0: FrameEncoder,
    fe1: FrameEncoder,
    cs0: CabacState,
    cs1: CabacState,
    p: InterPlan,
    allow8: bool,
    mb_x: int,
    mb_y: int,
)
    requires
        fe0.wf(),
        fe0.counts_ok(),
        fe0.has_mb(mb_x, mb_y),
        mbinter::inter_code(fe0, cs0, p, allow8, mb_x, mb_y).committed(
            p.c_q@,
            fe0,
            fe1,
            cs0,
            cs1,
            mb_x,
            mb_y,
        ),
    ensures
        fe1.counts_ok(),
{
    let c = mbinter::inter_code(fe0, cs0, p, allow8, mb_x, mb_y);
    assert forall|z: int| 0 <= z < 16 implies #[trigger] (c.totals)(z) <= 64 by {
        lemma_luma_total(p.q_blocks@, p.cbp as int % 16, false, z);
        lemma_eight_total(p.q8@, p.cbp as int % 16, z / 4);
    }
    lemma_put_luma_small(
        fe0.nnz_y@,
        fe0.mb_w as int,
        fe0.mb_h as int,
        mb_x,
        mb_y,
        16,
        c.totals,
    );
    lemma_chroma_small(fe0, mb_x, mb_y, c.cbp / 16, p.c_q@, 0);
    lemma_chroma_small(fe0, mb_x, mb_y, c.cbp / 16, p.c_q@, 1);
}

/// Coding an intra macroblock leaves small counts.
pub proof fn lemma_intra_counts(
    fe0: FrameEncoder,
    fe1: FrameEncoder,
    cs0: CabacState,
    cs1: CabacState,
    p: MbPlan,
    mb_x: int,
    mb_y: int,
)
    requires
        fe0.wf(),
        fe0.counts_ok(),
        fe0.has_mb(mb_x, mb_y),
        mbcabac::intra_code(fe0, cs0, p, mb_x, mb_y).committed(
            p.c_q_blocks@,
            fe0,
            fe1,
            cs0,
            cs1,
            mb_x,
            mb_y,
        ),
    ensures
        fe1.counts_ok(),
{
    let c = mbcabac::intra_code(fe0, cs0, p, mb_x, mb_y);
    assert forall|z: int| 0 <= z < 16 implies #[trigger] (c.totals)(z) <= 64 by {
        lemma_luma_total(p.i16_q@, 0, true, z);
        lemma_luma_total(p.i16_q@, 15, true, z);
        if p.i8 is Some {
            lemma_eight_total(p.i8->0.q@, p.i8->0.cbp_luma as int, z / 4);
        } else {
            lemma_luma_total(p.i4->0.q@, p.i4->0.cbp_luma as int, false, z);
        }
    }
    lemma_put_luma_small(
        fe0.nnz_y@,
        fe0.mb_w as int,
        fe0.mb_h as int,
        mb_x,
        mb_y,
        16,
        c.totals,
    );
    lemma_chroma_small(fe0, mb_x, mb_y, c.cbp / 16, p.c_q_blocks@, 0);
    lemma_chroma_small(fe0, mb_x, mb_y, c.cbp / 16, p.c_q_blocks@, 1);
}

impl<'a, K: Kernels> CEnv<'a, K> {
    /// How a macroblock is searched.
    pub open spec fn shape_options(&self, fe: FrameEncoder, p: PayView) -> ShapeOptions {
        ShapeOptions {
            do_splits: self.e.p.do_splits && !fe.fast,
            sub8x8: self.e.p.sub8x8,
            arms: self.c.arms && !self.c.grain && self.e.refs@.len() == 1 && p.paying,
        }
    }

    /// The decision from the shape that was picked on.
    pub open spec fn finished(
        &self,
        a: &'a FrameEncoder,
        st: MeState,
        nb: Seq<MvNeighbor>,
        mb_x: int,
        mb_y: int,
        shape: ShapeView,
        verdict: Option<bool>,
        cost: int,
        gates: Seq<(usize, bool)>,
        b: FrameEncoder,
        st1: MeState,
        gates1: Seq<(usize, bool)>,
        choice: Option<ShapeView>,
    ) -> bool {
        let defer = self.e.o.sp_defer && !a.fast;
        let (sh, me) = pslice::settled(
            self.e.searcher(a),
            st,
            nb,
            self.e.refs@.len() as int,
            16 * mb_x,
            16 * mb_y,
            shape,
            defer,
        );
        &&& st1 == me
        &&& self.intra_judged(*a, b, mb_x, mb_y, sh, verdict, choice is None)
        &&& choice matches Some(x) ==> x == sh
        &&& gates1 == gates + self.intra_asked(
            *a,
            mb_x,
            mb_y,
            if defer {
                sh.cost
            } else {
                cost
            },
            choice is None,
        )
    }

    /// What is decided of a macroblock that is not skipped, what the frame has learned then, and
    /// what the parts of quarters have saved: intra, or a shape. What the gates answered on the way
    /// stands behind what they answered before.
    pub open spec fn decided(
        &self,
        a: &'a FrameEncoder,
        st: MeState,
        p: PayView,
        gates: Seq<(usize, bool)>,
        mb_x: int,
        mb_y: int,
        b: FrameEncoder,
        st1: MeState,
        q: PayView,
        gates1: Seq<(usize, bool)>,
        choice: Option<ShapeView>,
    ) -> bool {
        let t = motion::part_neighbours(a.motion(), false, 4 * mb_x, 4 * mb_y, 4);
        let nb = seq![t.0, t.1, t.2];
        let (v, me) = shapes::shapes_of(
            self.e.searcher(a),
            st,
            nb,
            self.e.refs@.len() as int,
            16 * mb_x,
            16 * mb_y,
            self.shape_options(*a, p),
        );
        exists|m: FrameEncoder, u: ShapesView, c: FrameEncoder, shape: ShapeView, verdict: Option<bool>|
            {
                &&& #[trigger] self.quarters_settled(*a, m, mb_x, mb_y, v, u, p, q)
                &&& #[trigger] self.shape_ranked(m, c, mb_x, mb_y, u, shape, verdict)
                &&& self.finished(
                    &c,
                    me,
                    nb,
                    mb_x,
                    mb_y,
                    shape,
                    verdict,
                    pslice::picked(u).cost,
                    gates + self.quarters_asked(v, u) + self.shape_asked(u, shape),
                    b,
                    st1,
                    gates1,
                    choice,
                )
            }
    }

    /// Settle and judge the shape that was picked.
    fn finish(
        &self,
        fe: &mut FrameEncoder,
        st: &mut MeState,
        nb: &[MvNeighbor; 3],
        mb_x: usize,
        mb_y: usize,
        shape: Shape,
        verdict: Option<bool>,
        cost: i64,
        gates: &mut Vec<(usize, bool)>,
    ) -> (r: Option<Shape>)
        requires
            pslice::frame_ok(*old(fe)),
            self.wf(*old(fe)),
            self.e.refs@.len() >= 1,
            old(st).wf(),
            old(fe).has_mb(mb_x as int, mb_y as int),
            shape.wf(self.e.refs@.len() as int),
        ensures
            self.finished(
                old(fe),
                *old(st),
                nb@,
                mb_x as int,
                mb_y as int,
                shape@,
                verdict,
                cost as int,
                old(gates)@,
                *final(fe),
                *final(st),
                final(gates)@,
                choice_view(r),
            ),
            final(st).wf(),
            pslice::frame_ok(*final(fe)),
            self.wf(*final(fe)),
            trial::undone(*old(fe), *final(fe)),
            r matches Some(f) ==> f.wf(self.e.refs@.len() as int),
    {
        let nr: usize = self.e.refs.len();
        let ghost a = *fe;
        let ghost g0 = gates@;
        let sh: Shape = {
            let s: Searcher<'_, K> = Searcher {
                fe: &*fe,
                k: self.e.k,
                rate: self.e.rate,
                refs: self.e.refs,
                sy: self.e.sy,
                o: self.e.o,
                list: 0,
            };
            settle(&s, st, nb, nr, mb_x, mb_y, shape, self.e.o.sp_defer && !fe.fast)
        };
        let least: i64 = if self.e.o.sp_defer && !fe.fast {
            sh.cost
        } else {
            cost
        };
        let asks: bool = self.c.intra_rd && !fe.fast;
        let says: bool = asks && intra_cost_of(self.e.k, fe, self.e.sy, mb_x, mb_y) < least;
        let intra: bool = self.judge_intra(fe, mb_x, mb_y, &sh, verdict);
        if asks {
            gates.push((census::INTRA_RD_FLIP, intra != says));
        }
        assert(gates@ =~= g0 + self.intra_asked(a, mb_x as int, mb_y as int, least as int, intra));
        if intra {
            None
        } else {
            Some(sh)
        }
    }

    /// Decide a macroblock that is not skipped.
    #[verifier::spinoff_prover]
    #[verifier::rlimit(80)]
    fn decide(
        &self,
        fe: &mut FrameEncoder,
        st: &mut MeState,
        p: &mut Pay,
        gates: &mut Vec<(usize, bool)>,
        mb_x: usize,
        mb_y: usize,
    ) -> (r: Option<Shape>)
        requires
            pslice::frame_ok(*old(fe)),
            self.wf(*old(fe)),
            self.e.refs@.len() >= 1,
            old(fe).qp <= 51,
            old(st).wf(),
            old(p).seen < usize::MAX,
            old(fe).has_mb(mb_x as int, mb_y as int),
        ensures
            self.decided(
                old(fe),
                *old(st),
                old(p)@,
                old(gates)@,
                mb_x as int,
                mb_y as int,
                *final(fe),
                *final(st),
                final(p)@,
                final(gates)@,
                choice_view(r),
            ),
            final(st).wf(),
            final(p).seen <= old(p).seen + 1,
            pslice::frame_ok(*final(fe)),
            self.wf(*final(fe)),
            trial::undone(*old(fe), *final(fe)),
            r matches Some(f) ==> f.wf(self.e.refs@.len() as int),
    {
        let ghost a = *fe;
        let nr: usize = self.e.refs.len();
        let nb: [MvNeighbor; 3] = fe.mv_neighbors_block(4 * mb_x, 4 * mb_y, 4);
        let ghost t = motion::part_neighbours(fe.motion(), false, 4 * mb_x, 4 * mb_y, 4);
        assert(nb@ =~= seq![t.0, t.1, t.2]);
        let v: Shapes = {
            let s: Searcher<'_, K> = Searcher {
                fe: &*fe,
                k: self.e.k,
                rate: self.e.rate,
                refs: self.e.refs,
                sy: self.e.sy,
                o: self.e.o,
                list: 0,
            };
            let o: ShapeOptions = ShapeOptions {
                do_splits: self.e.p.do_splits && !fe.fast,
                sub8x8: self.e.p.sub8x8,
                arms: self.c.arms && !self.c.grain && nr == 1 && p.paying,
            };
            search_shapes(&s, st, &nb, nr, 16 * mb_x, 16 * mb_y, o)
        };
        let ghost v0 = v@;
        let split: bool = v.splits.is_some();
        let d: Option<[u8; 4]> = divided_of(&v);
        let u: Shapes = self.settle_quarters(fe, mb_x, mb_y, v, p);
        let ghost g0 = gates@;
        if split {
            let e: Option<[u8; 4]> = divided_of(&u);
            self.ask_quarters(&d, &e, gates, Ghost(divided(v0)), Ghost(divided(u@)));
        }
        assert(gates@ =~= g0 + self.quarters_asked(v0, u@));
        let ghost m = *fe;
        let ghost (u0, q0) = (u@, p@);
        let (shape, verdict, cost): (Shape, Option<bool>, i64) = self.rank_shapes(
            fe,
            mb_x,
            mb_y,
            u,
            gates,
        );
        let ghost c = *fe;
        let ghost s0 = shape@;
        proof {
            lemma_undone_twice(a, m, c);
        }
        let r: Option<Shape> = self.finish(
            fe,
            st,
            &nb,
            mb_x,
            mb_y,
            shape,
            verdict,
            cost,
            gates,
        );
        proof {
            lemma_undone_twice(a, c, *fe);
            let (gx, gy) = (mb_x as int, mb_y as int);
            assert(self.quarters_settled(a, m, gx, gy, v0, u0, old(p)@, q0));
            assert(self.shape_ranked(m, c, gx, gy, u0, s0, verdict));
        }
        r
    }
}

/// A decision with its shape as a view.
pub open spec fn choice_view(d: Option<Shape>) -> Option<ShapeView> {
    match d {
        None => None,
        Some(s) => Some(s@),
    }
}

/// A frame that is being coded into bins.
pub struct CState {
    pub fe: FrameEncoder,
    pub me: MeState,
    pub census: SkipCensus,
    pub pay: Pay,
    /// What the gates of macroblocks answered, in the order in which they were asked.
    pub gates: Vec<(usize, bool)>,
    /// How many answers there were when each macroblock was over.
    pub ends: Vec<usize>,
    /// The QP that each macroblock was coded with.
    pub qpy: Vec<u8>,
    pub cab: CabacEncoder,
    pub cs: CabacState,
}

impl CState {
    pub open spec fn wf(self) -> bool {
        &&& pslice::frame_ok(self.fe)
        &&& self.me.wf()
        &&& self.census.free <= self.census.seen
        &&& self.qpy@.len() == self.fe.mb_w * self.fe.mb_h
        &&& self.cs.wf(self.fe.mb_w * self.fe.mb_h)
    }
}

/// The neighbour state with a macroblock noted as not skipped.
pub open spec fn not_skipped(a: CabacState, b: CabacState, i: int) -> bool {
    &&& b.mb_skip@ == a.mb_skip@.update(i, false)
    &&& b == (CabacState { mb_skip: b.mb_skip, ..a })
}

/// A macroblock is over: its QP and the number of answers are noted, and the end of the slice is
/// signalled or not.
pub open spec fn closed(s: CState, t: CState, i: int, bins: Seq<Bin>) -> bool {
    &&& t.qpy@ == s.qpy@.update(i, t.fe.cur_qp)
    &&& t.ends@ == s.ends@.push(t.gates@.len() as usize)
    &&& t.cab@ == bins.push(Bin::term(i + 1 == s.fe.mb_w * s.fe.mb_h))
}

impl<'a, K: Kernels> CEnv<'a, K> {
    /// The frame when macroblock `(mb_x, mb_y)` is begun.
    pub open spec fn at_mb(&self, fe: FrameEncoder, mb_x: int, mb_y: int) -> FrameEncoder {
        let i = grid::cell(fe.mb_w as int, mb_x, mb_y);
        FrameEncoder { mb_loud: self.loud@[i], ..pslice::begun(fe, self.e.qps@[i]) }
    }

    /// A macroblock is skipped.
    pub open spec fn skip_step(
        &self,
        a: FrameEncoder,
        s: CState,
        t: CState,
        mb_x: int,
        mb_y: int,
        mv: (i32, i32),
        sad: u32,
    ) -> bool {
        exists|bins: Seq<Bin>|
            {
                &&& self.e.skips(a, t.fe, mb_x, mb_y, mv, sad)
                &&& #[trigger] mbinter::p_skip_coded(
                    s.cab@,
                    bins,
                    s.cs,
                    t.cs,
                    a.mb_w as int,
                    mb_x,
                    mb_y,
                )
                &&& closed(s, t, grid::cell(a.mb_w as int, mb_x, mb_y), bins)
            }
    }

    /// The bins behind the flag that a macroblock is not skipped.
    pub open spec fn flagged(&self, s: CState, mb_x: int, mb_y: int) -> Seq<Bin> {
        s.cab@.push(Bin::dec(11 + mbinter::skip_ctx(s.cs, s.fe.mb_w as int, mb_x, mb_y), 0))
    }

    /// A macroblock is coded as intra.
    pub open spec fn intra_step(
        &self,
        a: FrameEncoder,
        s: CState,
        t: CState,
        mb_x: int,
        mb_y: int,
    ) -> bool {
        let i = grid::cell(a.mb_w as int, mb_x, mb_y);
        exists|cs: CabacState, m: FrameEncoder, p: MbPlan, bins: Seq<Bin>|
            {
                &&& not_skipped(s.cs, cs, i)
                &&& #[trigger] mbcavlc::intra_planned(
                    *self.e.k,
                    a,
                    m,
                    self.e.sy@,
                    self.e.su@,
                    self.e.sv@,
                    mb_x,
                    mb_y,
                    p,
                )
                &&& #[trigger] mbcabac::p_intra_coded(
                    m,
                    t.fe,
                    self.flagged(s, mb_x, mb_y),
                    bins,
                    cs,
                    t.cs,
                    p,
                    mb_x,
                    mb_y,
                )
                &&& closed(s, t, i, bins)
            }
    }

    /// A shape is coded.
    pub open spec fn shape_step(
        &self,
        a: FrameEncoder,
        s: CState,
        t: CState,
        mb_x: int,
        mb_y: int,
        shape: ShapeView,
    ) -> bool {
        let i = grid::cell(a.mb_w as int, mb_x, mb_y);
        exists|cs: CabacState, m: FrameEncoder, p: InterPlan, bins: Seq<Bin>|
            {
                &&& not_skipped(s.cs, cs, i)
                &&& #[trigger] interplan::inter_planned(
                    *self.e.k,
                    a,
                    m,
                    self.e.refs@[0],
                    self.e.sy@,
                    self.e.su@,
                    self.e.sv@,
                    mb_x,
                    mb_y,
                    shape.mode,
                    shape.parts,
                    None,
                    shape.subs,
                    p,
                )
                &&& #[trigger] mbinter::p_inter_coded(
                    m,
                    t.fe,
                    self.flagged(s, mb_x, mb_y),
                    bins,
                    cs,
                    t.cs,
                    shape.mode,
                    p,
                    mb_x,
                    mb_y,
                    self.e.refs@.len() as usize,
                )
                &&& closed(s, t, i, bins)
            }
    }

    /// A macroblock with a decision: a shape that a skip leaves little of is skipped after all
    /// where the frame has a share of free skips.
    pub open spec fn choice_step(
        &self,
        a: FrameEncoder,
        s: CState,
        t: CState,
        mb_x: int,
        mb_y: int,
        mv: (i32, i32),
        sad: u32,
        choice: Option<ShapeView>,
    ) -> bool {
        match choice {
            None => self.intra_step(a, s, t, mb_x, mb_y),
            Some(shape) => if self.e.p.rd_skip && t.census.reaches(self.e.p.rd_skip_min_free)
                && (self.e.p.skip_ssd matches Some(v) && self.e.skip_ssd(a, mb_x, mb_y, mv) <= v) {
                self.skip_step(a, s, t, mb_x, mb_y, mv, sad)
            } else {
                self.shape_step(a, s, t, mb_x, mb_y, shape)
            },
        }
    }

    /// A macroblock that was decided. Deciding it leaves the frame as it was.
    pub open spec fn decided_step(
        &self,
        a: FrameEncoder,
        s: CState,
        t: CState,
        mb_x: int,
        mb_y: int,
        mv: (i32, i32),
        sad: u32,
    ) -> bool {
        let i = grid::cell(a.mb_w as int, mb_x, mb_y);
        exists|b: FrameEncoder, c: FrameEncoder, choice: Option<ShapeView>|
            {
                &&& #[trigger] self.decided(
                    &a,
                    s.me,
                    s.pay@,
                    s.gates@,
                    mb_x,
                    mb_y,
                    b,
                    t.me,
                    t.pay@,
                    t.gates@,
                    choice,
                )
                &&& trial::undone(a, b)
                &&& #[trigger] pslice::noted(b, c, i, false, sad)
                &&& self.choice_step(c, s, t, mb_x, mb_y, mv, sad, choice)
            }
    }

    /// A macroblock of a slice with references, after its skip was probed.
    pub open spec fn probed_step(
        &self,
        s: CState,
        t: CState,
        mb_x: int,
        mb_y: int,
        mv: (i32, i32),
        free: bool,
        sad: u32,
    ) -> bool {
        let a = self.at_mb(s.fe, mb_x, mb_y);
        let census = pslice::looked(s.census);
        if free {
            &&& self.skip_step(a, s, t, mb_x, mb_y, mv, sad)
            &&& t.census == pslice::freed(census)
            &&& t.me == s.me
            &&& t.pay == s.pay
            &&& t.gates == s.gates
        } else if pslice::greedy(*self.e.p, a, census, sad, mb_x, mb_y) {
            &&& self.skip_step(a, s, t, mb_x, mb_y, mv, sad)
            &&& t.census == census
            &&& t.me == s.me
            &&& t.pay == s.pay
            &&& t.gates == s.gates
        } else {
            let b = pslice::measured(a, self.e.p.satd_var, self.e.sy@, mb_x, mb_y);
            &&& t.census == census
            &&& self.decided_step(b, s, t, mb_x, mb_y, mv, sad)
        }
    }

    /// Macroblock `(mb_x, mb_y)` is coded or skipped.
    #[verifier::opaque]
    pub open spec fn step(&self, s: CState, t: CState, mb_x: int, mb_y: int) -> bool {
        let a = self.at_mb(s.fe, mb_x, mb_y);
        if self.e.refs@.len() > 0 {
            exists|pr: Probe|
                #[trigger] pr.tells(*self.e.k, a, self.e.sy@, self.e.su@, self.e.sv@, mb_x, mb_y)
                    && self.probed_step(s, t, mb_x, mb_y, pr.mv, pr.free, pr.sad)
        } else {
            &&& self.intra_step(a, s, t, mb_x, mb_y)
            &&& t.me == s.me
            &&& t.census == s.census
            &&& t.pay == s.pay
            &&& t.gates == s.gates
        }
    }

}

fn close(s: &mut CState, mb_x: usize, mb_y: usize)
    requires
        old(s).fe.wf(),
        old(s).fe.has_mb(mb_x as int, mb_y as int),
        old(s).qpy@.len() == old(s).fe.mb_w * old(s).fe.mb_h,
    ensures
        closed(
            *old(s),
            *final(s),
            grid::cell(old(s).fe.mb_w as int, mb_x as int, mb_y as int),
            old(s).cab@,
        ),
        *final(s) == (CState {
            qpy: final(s).qpy,
            cab: final(s).cab,
            ends: final(s).ends,
            ..*old(s)
        }),
        final(s).qpy@.len() == old(s).qpy@.len(),
{
    proof {
        grid::lemma_cell(s.fe.mb_w as int, s.fe.mb_h as int, mb_x as int, mb_y as int);
    }
    let n: usize = s.qpy.len();
    let i: usize = grid::cell_at(s.fe.mb_w, mb_x, mb_y, n);
    let q: u8 = s.fe.cur_qp;
    s.qpy.set(i, q);
    let k: usize = s.gates.len();
    s.ends.push(k);
    s.cab.encode_terminate(i + 1 == n);
}

fn clear_skip(s: &mut CState, mb_x: usize, mb_y: usize)
    requires
        old(s).fe.wf(),
        old(s).fe.has_mb(mb_x as int, mb_y as int),
        old(s).cs.wf(old(s).fe.mb_w * old(s).fe.mb_h),
    ensures
        not_skipped(
            old(s).cs,
            final(s).cs,
            grid::cell(old(s).fe.mb_w as int, mb_x as int, mb_y as int),
        ),
        final(s).cs.wf(old(s).fe.mb_w * old(s).fe.mb_h),
        final(s).cab@ == old(s).cab@.push(
            Bin::dec(
                11 + mbinter::skip_ctx(
                    old(s).cs,
                    old(s).fe.mb_w as int,
                    mb_x as int,
                    mb_y as int,
                ),
                0,
            ),
        ),
        *final(s) == (CState { cs: final(s).cs, cab: final(s).cab, ..*old(s) }),
{
    proof {
        grid::lemma_cell(s.fe.mb_w as int, s.fe.mb_h as int, mb_x as int, mb_y as int);
    }
    let (w, h): (usize, usize) = (s.fe.mb_w, s.fe.mb_h);
    emit_no_skip_cabac(&mut s.cab, &s.cs, 11, w, h, mb_x, mb_y);
    let i: usize = grid::cell_at(w, mb_x, mb_y, s.cs.mb_skip.len());
    s.cs.mb_skip.set(i, false);
}

impl<'a, K: Kernels> CEnv<'a, K> {
    proof fn lemma_same_size(&self, a: FrameEncoder, b: FrameEncoder)
        requires
            self.wf(a),
            a.wf(),
            b.wf(),
            b.mb_w == a.mb_w,
            b.mb_h == a.mb_h,
        ensures
            self.wf(b),
    {
    }

    /// Skip a macroblock.
    fn skip_now(
        &self,
        s: &mut CState,
        mb_x: usize,
        mb_y: usize,
        pr: &Probe,
        c: &[[u8; 64]; 2],
    )
        requires
            old(s).wf(),
            old(s).fe.has_mb(mb_x as int, mb_y as int),
            pr.y@ == skip::skip_luma(*self.e.k, mb_x as int, mb_y as int, pr.mv),
            c@[0]@ == skip::skip_chroma(*self.e.k, mb_x as int, mb_y as int, pr.mv, 0),
            c@[1]@ == skip::skip_chroma(*self.e.k, mb_x as int, mb_y as int, pr.mv, 1),
        ensures
            self.skip_step(
                old(s).fe,
                *old(s),
                *final(s),
                mb_x as int,
                mb_y as int,
                pr.mv,
                pr.sad,
            ),
            final(s).wf(),
            final(s).me == old(s).me,
            final(s).census == old(s).census,
            final(s).pay == old(s).pay,
            final(s).gates == old(s).gates,
            final(s).fe.mb_w == old(s).fe.mb_w && final(s).fe.mb_h == old(s).fe.mb_h,
    {
        let ghost s0 = *s;
        take_skip(&mut s.fe, mb_x, mb_y, pr.mv, &pr.y, c, pr.sad);
        let ghost b = s.fe;
        assert(b.mb_w * b.mb_h == s0.fe.mb_w * s0.fe.mb_h);
        let (w, h): (usize, usize) = (s.fe.mb_w, s.fe.mb_h);
        emit_p_skip_cabac(&mut s.cab, &mut s.cs, w, h, mb_x, mb_y);
        let ghost bins = s.cab@;
        close(s, mb_x, mb_y);
        assert(s.fe == b);
        assert(mbinter::p_skip_coded(
            s0.cab@,
            bins,
            s0.cs,
            s.cs,
            s0.fe.mb_w as int,
            mb_x as int,
            mb_y as int,
        ));
    }

    /// Code a macroblock as intra.
    fn code_intra(&self, s: &mut CState, mb_x: usize, mb_y: usize)
        requires
            old(s).wf(),
            self.wf(old(s).fe),
            old(s).fe.has_mb(mb_x as int, mb_y as int),
        ensures
            self.intra_step(old(s).fe, *old(s), *final(s), mb_x as int, mb_y as int),
            final(s).wf(),
            final(s).me == old(s).me,
            final(s).census == old(s).census,
            final(s).pay == old(s).pay,
            final(s).gates == old(s).gates,
            final(s).fe.mb_w == old(s).fe.mb_w && final(s).fe.mb_h == old(s).fe.mb_h,
    {
        let ghost s0 = *s;
        let ghost (gx, gy) = (mb_x as int, mb_y as int);
        clear_skip(s, mb_x, mb_y);
        let ghost cs = s.cs;
        let p: MbPlan = plan_mb(self.e.k, &mut s.fe, mb_x, mb_y, self.e.sy, self.e.su, self.e.sv);
        let ghost m = s.fe;
        assert(mbcavlc::intra_planned(
            *self.e.k,
            s0.fe,
            m,
            self.e.sy@,
            self.e.su@,
            self.e.sv@,
            gx,
            gy,
            p,
        ));
        emit_mb_cabac_p_intra(&mut s.fe, &mut s.cab, &mut s.cs, &p, mb_x, mb_y);
        let ghost bins = s.cab@;
        let ghost b = s.fe;
        proof {
            assert(m.counts_ok());
            lemma_intra_counts(m, b, cs, s.cs, p, gx, gy);
            assert(pslice::frame_ok(b));
        }
        close(s, mb_x, mb_y);
        assert(mbcabac::p_intra_coded(
            m,
            s.fe,
            self.flagged(s0, gx, gy),
            bins,
            cs,
            s.cs,
            p,
            gx,
            gy,
        ));
    }

    /// Code a shape.
    #[verifier::rlimit(50)]
    fn code_shape(&self, s: &mut CState, mb_x: usize, mb_y: usize, shape: &Shape)
        requires
            old(s).wf(),
            self.wf(old(s).fe),
            self.e.refs@.len() >= 1,
            old(s).fe.has_mb(mb_x as int, mb_y as int),
            shape.wf(self.e.refs@.len() as int),
        ensures
            self.shape_step(old(s).fe, *old(s), *final(s), mb_x as int, mb_y as int, shape@),
            final(s).wf(),
            final(s).me == old(s).me,
            final(s).census == old(s).census,
            final(s).pay == old(s).pay,
            final(s).gates == old(s).gates,
            final(s).fe.mb_w == old(s).fe.mb_w && final(s).fe.mb_h == old(s).fe.mb_h,
    {
        let ghost s0 = *s;
        let ghost (gx, gy) = (mb_x as int, mb_y as int);
        let nr: usize = self.e.refs.len();
        clear_skip(s, mb_x, mb_y);
        let ghost cs = s.cs;
        assert(self.e.refs@[0].mv@.len() == self.e.refs@[0].ref_idx@.len());
        proof {
            pslice::lemma_shape_ok(s0.fe, self.e.refs@[0], *shape, nr as int);
        }
        let p: InterPlan = s.fe.plan_inter_mb(
            self.e.k,
            &self.e.refs[0],
            self.e.sy,
            self.e.su,
            self.e.sv,
            mb_x,
            mb_y,
            shape.mode,
            &shape.parts,
            None,
            shape.subs,
        );
        let ghost m = s.fe;
        proof {
            trial::law_inter_plan_stays_inside(
                *self.e.k,
                s0.fe,
                m,
                self.e.refs@[0],
                self.e.sy@,
                self.e.su@,
                self.e.sv@,
                gx,
                gy,
                shape.mode,
                shape.parts@,
                shape.subs@,
                p,
            );
            assert(m.counts_ok());
        }
        emit_mb_cabac_p_inter(
            &mut s.fe,
            &mut s.cab,
            &mut s.cs,
            shape.mode,
            &p,
            mb_x,
            mb_y,
            nr,
        );
        let ghost bins = s.cab@;
        let ghost b = s.fe;
        proof {
            lemma_inter_counts(m, b, cs, s.cs, p, !mbinter::has_sub(p.sub_types@), gx, gy);
            assert(pslice::frame_ok(b));
        }
        close(s, mb_x, mb_y);
        assert(mbinter::p_inter_coded(
            m,
            s.fe,
            self.flagged(s0, gx, gy),
            bins,
            cs,
            s.cs,
            shape@.mode,
            p,
            gx,
            gy,
            self.e.refs@.len() as usize,
        ));
        assert(interplan::inter_planned(
            *self.e.k,
            s0.fe,
            m,
            self.e.refs@[0],
            self.e.sy@,
            self.e.su@,
            self.e.sv@,
            gx,
            gy,
            shape@.mode,
            shape@.parts,
            None,
            shape@.subs,
            p,
        ));
        assert(not_skipped(s0.cs, cs, grid::cell(s0.fe.mb_w as int, gx, gy)));
        assert(closed(s0, *s, grid::cell(s0.fe.mb_w as int, gx, gy), bins));
    }
}

impl<'a, K: Kernels> CEnv<'a, K> {
    /// Set the QPs and the loudness of a macroblock.
    fn begin(&self, fe: &mut FrameEncoder, mb_x: usize, mb_y: usize)
        requires
            pslice::frame_ok(*old(fe)),
            self.wf(*old(fe)),
            old(fe).has_mb(mb_x as int, mb_y as int),
        ensures
            *final(fe) == self.at_mb(*old(fe), mb_x as int, mb_y as int),
            pslice::frame_ok(*final(fe)),
            self.wf(*final(fe)),
            final(fe).qp <= 51,
    {
        let w: usize = fe.mb_w;
        proof {
            grid::lemma_cell(fe.mb_w as int, fe.mb_h as int, mb_x as int, mb_y as int);
        }
        let i: usize = grid::cell_at(w, mb_x, mb_y, self.e.qps.len());
        let q: u8 = self.e.qps[i];
        fe.qp = q;
        fe.qpc = chroma_qp(q);
        fe.mb_loud = self.loud[i];
    }

    /// Code a macroblock as was decided.
    fn code_choice(
        &self,
        s: &mut CState,
        mb_x: usize,
        mb_y: usize,
        pr: &Probe,
        choice: Option<Shape>,
    )
        requires
            old(s).wf(),
            self.wf(old(s).fe),
            self.e.refs@.len() >= 1,
            old(s).fe.has_mb(mb_x as int, mb_y as int),
            pr.y@ == skip::skip_luma(*self.e.k, mb_x as int, mb_y as int, pr.mv),
            choice matches Some(f) ==> f.wf(self.e.refs@.len() as int),
        ensures
            self.choice_step(
                old(s).fe,
                *old(s),
                *final(s),
                mb_x as int,
                mb_y as int,
                pr.mv,
                pr.sad,
                match choice {
                    None => None,
                    Some(f) => Some(f@),
                },
            ),
            final(s).wf(),
            final(s).me == old(s).me,
            final(s).census == old(s).census,
            final(s).pay == old(s).pay,
            final(s).gates == old(s).gates,
            final(s).fe.mb_w == old(s).fe.mb_w && final(s).fe.mb_h == old(s).fe.mb_h,
    {
        match choice {
            None => self.code_intra(s, mb_x, mb_y),
            Some(shape) => {
                if let Some(v) = self.e.p.skip_ssd {
                    if self.e.p.rd_skip && s.census.passes(self.e.p.rd_skip_min_free) {
                        let cp: [[u8; 64]; 2] = s.fe.skip_predict_chroma(
                            self.e.k,
                            mb_x,
                            mb_y,
                            pr.mv,
                        );
                        let ssd: i64 = s.fe.pred_ssd(
                            self.e.sy,
                            self.e.su,
                            self.e.sv,
                            mb_x,
                            mb_y,
                            &pr.y,
                            &cp,
                        );
                        if ssd <= v {
                            self.skip_now(s, mb_x, mb_y, pr, &cp);
                            return;
                        }
                    }
                }
                self.code_shape(s, mb_x, mb_y, &shape);
            },
        }
    }

    /// Decide a macroblock that is not skipped, and code it.
    fn decide_and_code(&self, s: &mut CState, mb_x: usize, mb_y: usize, pr: &Probe)
        requires
            old(s).wf(),
            self.wf(old(s).fe),
            self.e.refs@.len() >= 1,
            old(s).fe.has_mb(mb_x as int, mb_y as int),
            old(s).fe.qp <= 51,
            old(s).pay.seen < usize::MAX,
            pr.y@ == skip::skip_luma(*self.e.k, mb_x as int, mb_y as int, pr.mv),
        ensures
            self.decided_step(
                old(s).fe,
                *old(s),
                *final(s),
                mb_x as int,
                mb_y as int,
                pr.mv,
                pr.sad,
            ),
            final(s).wf(),
            final(s).census == old(s).census,
            final(s).pay.seen <= old(s).pay.seen + 1,
            final(s).fe.mb_w == old(s).fe.mb_w && final(s).fe.mb_h == old(s).fe.mb_h,
    {
        let ghost s0 = *s;
        let ghost (gx, gy) = (mb_x as int, mb_y as int);
        let choice: Option<Shape> = self.decide(
            &mut s.fe,
            &mut s.me,
            &mut s.pay,
            &mut s.gates,
            mb_x,
            mb_y,
        );
        let ghost b = s.fe;
        let ghost cv = choice_view(choice);
        pslice::note(&mut s.fe, mb_x, mb_y, false, pr.sad);
        let ghost c = s.fe;
        proof {
            self.lemma_same_size(b, c);
            assert(pslice::frame_ok(c));
            assert(c.mb_w * c.mb_h == s0.fe.mb_w * s0.fe.mb_h);
        }
        let ghost s1 = *s;
        self.code_choice(s, mb_x, mb_y, pr, choice);
        assert(self.decided(
            &s0.fe,
            s0.me,
            s0.pay@,
            s0.gates@,
            gx,
            gy,
            b,
            s.me,
            s.pay@,
            s.gates@,
            cv,
        ));
        assert(pslice::noted(b, c, grid::cell(s0.fe.mb_w as int, gx, gy), false, pr.sad));
        proof {
            self.lemma_choice_same(c, s1, s0, *s, gx, gy, pr.mv, pr.sad, cv);
        }
    }

    /// A skip does not depend on the counts.
    proof fn lemma_skip_same(
        &self,
        a: FrameEncoder,
        s: CState,
        s0: CState,
        t: CState,
        t0: CState,
        mb_x: int,
        mb_y: int,
        mv: (i32, i32),
        sad: u32,
    )
        requires
            self.skip_step(a, s, t, mb_x, mb_y, mv, sad),
            s.cab == s0.cab,
            s.cs == s0.cs,
            s.qpy == s0.qpy,
            s.ends == s0.ends,
            s.fe.mb_w == s0.fe.mb_w,
            s.fe.mb_h == s0.fe.mb_h,
            t.fe == t0.fe,
            t.cab == t0.cab,
            t.cs == t0.cs,
            t.qpy == t0.qpy,
            t.gates == t0.gates,
            t.ends == t0.ends,
        ensures
            self.skip_step(a, s0, t0, mb_x, mb_y, mv, sad),
    {
        let i = grid::cell(a.mb_w as int, mb_x, mb_y);
        let bins = choose|bins: Seq<Bin>|
            {
                &&& self.e.skips(a, t.fe, mb_x, mb_y, mv, sad)
                &&& #[trigger] mbinter::p_skip_coded(
                    s.cab@,
                    bins,
                    s.cs,
                    t.cs,
                    a.mb_w as int,
                    mb_x,
                    mb_y,
                )
                &&& closed(s, t, i, bins)
            };
        assert(mbinter::p_skip_coded(
            s0.cab@,
            bins,
            s0.cs,
            t0.cs,
            a.mb_w as int,
            mb_x,
            mb_y,
        ));
        assert(closed(s0, t0, i, bins));
    }

    /// A step does not depend on what the decision has changed.
    proof fn lemma_choice_same(
        &self,
        a: FrameEncoder,
        s: CState,
        s0: CState,
        t: CState,
        mb_x: int,
        mb_y: int,
        mv: (i32, i32),
        sad: u32,
        choice: Option<ShapeView>,
    )
        requires
            self.choice_step(a, s, t, mb_x, mb_y, mv, sad, choice),
            s.cab == s0.cab,
            s.cs == s0.cs,
            s.qpy == s0.qpy,
            s.ends == s0.ends,
            s.fe.mb_w == s0.fe.mb_w,
            s.fe.mb_h == s0.fe.mb_h,
        ensures
            self.choice_step(a, s0, t, mb_x, mb_y, mv, sad, choice),
    {
        let i = grid::cell(a.mb_w as int, mb_x, mb_y);
        assert(forall|bins: Seq<Bin>| closed(s, t, i, bins) ==> #[trigger] closed(s0, t, i, bins));
        assert(self.flagged(s, mb_x, mb_y) == self.flagged(s0, mb_x, mb_y));
    }

    /// Code or skip a macroblock of a slice with references.
    #[verifier::spinoff_prover]
    #[verifier::rlimit(100)]
    fn p_mb(&self, s: &mut CState, mb_x: usize, mb_y: usize, Ghost(n): Ghost<int>)
        requires
            old(s).wf(),
            self.wf(old(s).fe),
            self.e.refs@.len() >= 1,
            old(s).fe.has_mb(mb_x as int, mb_y as int),
            old(s).census.seen <= n,
            old(s).pay.seen <= n,
            n < 0xffff_ffff,
        ensures
            self.step(*old(s), *final(s), mb_x as int, mb_y as int),
            final(s).wf(),
            self.wf(final(s).fe),
            final(s).census.seen <= n + 1,
            final(s).pay.seen <= n + 1,
            final(s).fe.mb_w == old(s).fe.mb_w && final(s).fe.mb_h == old(s).fe.mb_h,
    {
        reveal(CEnv::step);
        let ghost s0 = *s;
        let ghost (gx, gy) = (mb_x as int, mb_y as int);
        self.begin(&mut s.fe, mb_x, mb_y);
        let ghost a = s.fe;
        s.census = SkipCensus { free: s.census.free, seen: s.census.seen + 1, learn: s.census.learn };
        let pr: Probe = probe_skip(self.e.k, &s.fe, self.e.sy, self.e.su, self.e.sv, mb_x, mb_y);
        assert(pr.tells(*self.e.k, a, self.e.sy@, self.e.su@, self.e.sv@, gx, gy));
        let greedy: bool = !pr.free && !s.fe.fast && self.e.p.greedy_skip && (
        self.e.p.greedy_min_free == 0 || s.census.passes(self.e.p.greedy_min_free)) && pr.sad
            < s.fe.pred_skip_sad(mb_x, mb_y);
        let ghost s1 = *s;
        if pr.free || greedy {
            self.skip_now(s, mb_x, mb_y, &pr, &pr.c);
            let ghost t1 = *s;
            if pr.free {
                s.census = SkipCensus {
                    free: s.census.free + 1,
                    seen: s.census.seen,
                    learn: s.census.learn,
                };
            }
            proof {
                self.lemma_skip_same(a, s1, s0, t1, *s, gx, gy, pr.mv, pr.sad);
                assert(self.probed_step(s0, *s, gx, gy, pr.mv, pr.free, pr.sad));
                self.lemma_same_size(s0.fe, s.fe);
            }
            return;
        }
        if s.fe.fast {
            proof {
                interplan::lemma_source(s.fe, self.e.sy@, 16, mb_x, mb_y);
            }
            let v: bool = match self.e.p.satd_var {
                Some(t) => mb_variance(&s.fe, self.e.sy, mb_x, mb_y) >= t,
                None => false,
            };
            s.fe.mb_use_satd = v;
        }
        let ghost b = s.fe;
        proof {
            assert(b == pslice::measured(a, self.e.p.satd_var, self.e.sy@, gx, gy));
            self.lemma_same_size(a, b);
        }
        let ghost s2 = *s;
        self.decide_and_code(s, mb_x, mb_y, &pr);
        proof {
            self.lemma_decided_same(b, s2, s0, *s, gx, gy, pr.mv, pr.sad);
            assert(self.probed_step(s0, *s, gx, gy, pr.mv, pr.free, pr.sad));
            self.lemma_same_size(s0.fe, s.fe);
        }
    }

    /// Code or skip a macroblock.
    #[verifier::spinoff_prover]
    #[verifier::rlimit(60)]
    fn one_mb(&self, s: &mut CState, mb_x: usize, mb_y: usize, Ghost(n): Ghost<int>)
        requires
            old(s).wf(),
            self.wf(old(s).fe),
            old(s).fe.has_mb(mb_x as int, mb_y as int),
            old(s).census.seen <= n,
            old(s).pay.seen <= n,
            n < 0xffff_ffff,
        ensures
            self.step(*old(s), *final(s), mb_x as int, mb_y as int),
            final(s).wf(),
            self.wf(final(s).fe),
            final(s).census.seen <= n + 1,
            final(s).pay.seen <= n + 1,
            final(s).fe.mb_w == old(s).fe.mb_w && final(s).fe.mb_h == old(s).fe.mb_h,
    {
        if self.e.refs.len() > 0 {
            self.p_mb(s, mb_x, mb_y, Ghost(n));
            return;
        }
        reveal(CEnv::step);
        let ghost before = *s;
        self.begin(&mut s.fe, mb_x, mb_y);
        let ghost s1 = *s;
        self.code_intra(s, mb_x, mb_y);
        proof {
            self.lemma_same_size(s1.fe, s.fe);
            self.lemma_choice_same(
                s1.fe,
                s1,
                before,
                *s,
                mb_x as int,
                mb_y as int,
                (0, 0),
                0,
                None,
            );
        }
    }

    proof fn lemma_decided_same(
        &self,
        a: FrameEncoder,
        s: CState,
        s0: CState,
        t: CState,
        mb_x: int,
        mb_y: int,
        mv: (i32, i32),
        sad: u32,
    )
        requires
            self.decided_step(a, s, t, mb_x, mb_y, mv, sad),
            s.cab == s0.cab,
            s.cs == s0.cs,
            s.qpy == s0.qpy,
            s.ends == s0.ends,
            s.me == s0.me,
            s.pay == s0.pay,
            s.gates == s0.gates,
            s.fe.mb_w == s0.fe.mb_w,
            s.fe.mb_h == s0.fe.mb_h,
        ensures
            self.decided_step(a, s0, t, mb_x, mb_y, mv, sad),
    {
        let i = grid::cell(a.mb_w as int, mb_x, mb_y);
        let (b, c, choice) = choose|b: FrameEncoder, c: FrameEncoder, choice: Option<ShapeView>|
            {
                &&& #[trigger] self.decided(
                    &a,
                    s.me,
                    s.pay@,
                    s.gates@,
                    mb_x,
                    mb_y,
                    b,
                    t.me,
                    t.pay@,
                    t.gates@,
                    choice,
                )
                &&& trial::undone(a, b)
                &&& #[trigger] pslice::noted(b, c, i, false, sad)
                &&& self.choice_step(c, s, t, mb_x, mb_y, mv, sad, choice)
            };
        self.lemma_choice_same(c, s, s0, t, mb_x, mb_y, mv, sad, choice);
    }
}

impl CState {
    /// The answers are those of gates that are counted, and those of each macroblock stand behind
    /// those of the macroblocks before it.
    pub open spec fn countable(self) -> bool {
        &&& forall|i: int| 0 <= i < self.gates@.len() ==> (#[trigger] self.gates@[i]).0 < census::N
        &&& forall|i: int, j: int|
            0 <= i <= j < self.ends@.len() ==> self.ends@[i] <= self.ends@[j]
        &&& self.ends@.len() > 0 ==> self.ends@.last() <= self.gates@.len()
    }
}

impl<'a, K: Kernels> CEnv<'a, K> {
    /// A decision adds answers of gates that are counted, and takes none back.
    proof fn lemma_decided_counts(
        &self,
        a: FrameEncoder,
        s: CState,
        t: CState,
        mb_x: int,
        mb_y: int,
        b: FrameEncoder,
        choice: Option<ShapeView>,
    )
        requires
            self.decided(
                &a,
                s.me,
                s.pay@,
                s.gates@,
                mb_x,
                mb_y,
                b,
                t.me,
                t.pay@,
                t.gates@,
                choice,
            ),
            forall|i: int| 0 <= i < s.gates@.len() ==> (#[trigger] s.gates@[i]).0 < census::N,
        ensures
            t.gates@.len() >= s.gates@.len(),
            forall|i: int| 0 <= i < t.gates@.len() ==> (#[trigger] t.gates@[i]).0 < census::N,
    {
        let n = motion::part_neighbours(a.motion(), false, 4 * mb_x, 4 * mb_y, 4);
        let nb = seq![n.0, n.1, n.2];
        let (v, me) = shapes::shapes_of(
            self.e.searcher(&a),
            s.me,
            nb,
            self.e.refs@.len() as int,
            16 * mb_x,
            16 * mb_y,
            self.shape_options(a, s.pay@),
        );
        let (m, u, c, shape, verdict) = choose|
            m: FrameEncoder,
            u: ShapesView,
            c: FrameEncoder,
            shape: ShapeView,
            verdict: Option<bool>,
        |
            {
                &&& #[trigger] self.quarters_settled(a, m, mb_x, mb_y, v, u, s.pay@, t.pay@)
                &&& #[trigger] self.shape_ranked(m, c, mb_x, mb_y, u, shape, verdict)
                &&& self.finished(
                    &c,
                    me,
                    nb,
                    mb_x,
                    mb_y,
                    shape,
                    verdict,
                    pslice::picked(u).cost,
                    s.gates@ + self.quarters_asked(v, u) + self.shape_asked(u, shape),
                    b,
                    t.me,
                    t.gates@,
                    choice,
                )
            };
        let q = self.quarters_asked(v, u);
        let r = self.shape_asked(u, shape);
        let more = s.gates@ + q + r;
        let last = t.gates@.skip(more.len() as int);
        assert(t.gates@ =~= more + last);
        assert(forall|i: int| 0 <= i < q.len() ==> (#[trigger] q[i]).0 < census::N);
        assert(forall|i: int| 0 <= i < r.len() ==> (#[trigger] r[i]).0 < census::N);
        assert(forall|i: int| 0 <= i < last.len() ==> (#[trigger] last[i]).0 < census::N);
    }

    /// A macroblock leaves answers that can be counted, and notes where its own end.
    pub proof fn law_answers_can_be_counted(&self, s: CState, t: CState, mb_x: int, mb_y: int)
        requires
            self.step(s, t, mb_x, mb_y),
            s.countable(),
        ensures
            t.countable(),
            t.ends@ == s.ends@.push(t.gates@.len() as usize),
    {
        reveal(CEnv::step);
        let a = self.at_mb(s.fe, mb_x, mb_y);
        if self.e.refs@.len() > 0 {
            let pr = choose|pr: Probe|
                #[trigger] pr.tells(*self.e.k, a, self.e.sy@, self.e.su@, self.e.sv@, mb_x, mb_y)
                    && self.probed_step(s, t, mb_x, mb_y, pr.mv, pr.free, pr.sad);
            if !(pr.free || pslice::greedy(
                *self.e.p,
                a,
                pslice::looked(s.census),
                pr.sad,
                mb_x,
                mb_y,
            )) {
                let b = pslice::measured(a, self.e.p.satd_var, self.e.sy@, mb_x, mb_y);
                let i = grid::cell(b.mb_w as int, mb_x, mb_y);
                let (f, c, choice) = choose|
                    f: FrameEncoder,
                    c: FrameEncoder,
                    choice: Option<ShapeView>,
                |
                    {
                        &&& #[trigger] self.decided(
                            &b,
                            s.me,
                            s.pay@,
                            s.gates@,
                            mb_x,
                            mb_y,
                            f,
                            t.me,
                            t.pay@,
                            t.gates@,
                            choice,
                        )
                        &&& trial::undone(b, f)
                        &&& #[trigger] pslice::noted(f, c, i, false, pr.sad)
                        &&& self.choice_step(c, s, t, mb_x, mb_y, pr.mv, pr.sad, choice)
                    };
                self.lemma_decided_counts(b, s, t, mb_x, mb_y, f, choice);
            }
        }
        assert(t.ends@ == s.ends@.push(t.gates@.len() as usize));
        assert(t.gates.len() == t.gates@.len());
    }

    /// Behind every macroblock stands the bin that ends the slice or does not, and only that of the
    /// last macroblock ends it.
    pub proof fn law_only_the_last_macroblock_ends_the_slice(
        &self,
        s: CState,
        t: CState,
        mb_x: int,
        mb_y: int,
    )
        requires
            self.step(s, t, mb_x, mb_y),
        ensures
            t.cab@.len() > 0,
            t.cab@.last() == Bin::term(
                grid::cell(s.fe.mb_w as int, mb_x, mb_y) + 1 == s.fe.mb_w * s.fe.mb_h,
            ),
    {
        reveal(CEnv::step);
        let a = self.at_mb(s.fe, mb_x, mb_y);
        let i = grid::cell(s.fe.mb_w as int, mb_x, mb_y);
        if self.e.refs@.len() > 0 {
            let pr = choose|pr: Probe|
                #[trigger] pr.tells(*self.e.k, a, self.e.sy@, self.e.su@, self.e.sv@, mb_x, mb_y)
                    && self.probed_step(s, t, mb_x, mb_y, pr.mv, pr.free, pr.sad);
            assert(exists|bins: Seq<Bin>| #[trigger] closed(s, t, i, bins));
        } else {
            assert(exists|bins: Seq<Bin>| #[trigger] closed(s, t, i, bins));
        }
        let bins = choose|bins: Seq<Bin>| #[trigger] closed(s, t, i, bins);
        assert(t.cab@.len() == bins.len() + 1);
    }
}

/// The macroblocks of a slice one after the other, each from the state before it.
pub open spec fn slice_traced<'a, K: Kernels>(
    env: CEnv<'a, K>,
    trace: Seq<CState>,
    n: int,
) -> bool {
    &&& trace.len() == n + 1
    &&& forall|i: int| 0 <= i < n ==> #[trigger] traced_at(env, trace, i)
}

/// Macroblock `i` goes from one state of the trace to the next.
pub open spec fn traced_at<'a, K: Kernels>(env: CEnv<'a, K>, trace: Seq<CState>, i: int) -> bool {
    let w = trace[i].fe.mb_w as int;
    env.step(trace[i], trace[i + 1], i % w, i / w)
}

/// Code all macroblocks of a P slice in raster order.
#[verifier::rlimit(50)]
pub fn encode_slice_data_cabac_p<'a, K: Kernels>(env: &CEnv<'a, K>, s: &mut CState)
    requires
        old(s).wf(),
        old(s).census.seen == 0,
        old(s).pay.seen == 0,
        env.wf(old(s).fe),
    ensures
        exists|trace: Seq<CState>|
            {
                &&& #[trigger] slice_traced(*env, trace, old(s).fe.mb_w * old(s).fe.mb_h)
                &&& trace[0] == *old(s)
                &&& trace.last() == *final(s)
            },
        final(s).wf(),
        old(s).countable() ==> final(s).countable() && final(s).ends@.len() == old(
            s,
        ).ends@.len() + old(s).fe.mb_w * old(s).fe.mb_h,
{
    let ghost s0 = *s;
    let (w, h): (usize, usize) = (s.fe.mb_w, s.fe.mb_h);
    let ghost mut trace: Seq<CState> = seq![*s];
    let n: usize = s.qpy.len();
    let mut i: usize = 0;
    let (mut x, mut y): (usize, usize) = (0, 0);
    while i < n
        invariant
            s0 == *old(s),
            w == s.fe.mb_w && h == s.fe.mb_h,
            w == s0.fe.mb_w && h == s0.fe.mb_h,
            w >= 1 && h >= 1,
            n == w * h,
            n <= 0xffff_ffff,
            i <= n,
            x < w,
            y <= h,
            i == grid::cell(w as int, x as int, y as int),
            i < n ==> y < h,
            s.wf(),
            s.census.seen <= i,
            s.pay.seen <= i,
            env.wf(s.fe),
            slice_traced(*env, trace, i as int),
            trace[0] == s0,
            trace.last() == *s,
            s0.countable() ==> s.countable() && s.ends@.len() == s0.ends@.len() + i,
        decreases n - i,
    {
        proof {
            grid::lemma_cell(w as int, h as int, x as int, y as int);
        }
        let ghost before = *s;
        env.one_mb(s, x, y, Ghost(i as int));
        proof {
            let old_trace = trace;
            trace = trace.push(*s);
            assert forall|j: int| 0 <= j < i + 1 implies #[trigger] traced_at(*env, trace, j) by {
                if j < i {
                    assert(traced_at(*env, old_trace, j));
                    assert(trace[j] == old_trace[j] && trace[j + 1] == old_trace[j + 1]);
                } else {
                    assert(trace[j] == before && trace[j + 1] == *s);
                }
            }
            if before.countable() {
                env.law_answers_can_be_counted(before, *s, x as int, y as int);
            }
        }
        i = i + 1;
        if x + 1 < w {
            x = x + 1;
        } else {
            x = 0;
            y = y + 1;
            assert(y * w == (y - 1) * w + w) by (nonlinear_arith);
        }
        proof {
            assert(i < n ==> y < h) by {
                if y >= h {
                    assert(y * w >= h * w) by (nonlinear_arith)
                        requires
                            y >= h,
                            w >= 1,
                    ;
                    assert(w * h == h * w) by (nonlinear_arith);
                }
            }
        }
    }
}

} // verus!
