//! The macroblocks of P and I slices: what is decided of each, and the syntax that comes of it.
use vstd::prelude::*;
use crate::cavlc::{ElemView, Syntax};
use crate::distortion;
use crate::extmv;
use crate::extmv::MvScore;
use crate::frame::FrameEncoder;
use crate::grid;
use crate::interplan;
use crate::intraplan;
use crate::intraplan::{best_i16_sad, best_i16_satd};
use crate::kernels;
use crate::kernels::{price, rd_at_most, rd_less, Kernels, Phase, Price, Rd};
use crate::mbcavlc::encode_mb;
use crate::mbstate;
use crate::mbstate::{MbState, RefFrame};
use crate::motion;
use crate::motion::MvNeighbor;
use crate::partition;
use crate::parts;
use crate::parts::{Searcher, Shape, ShapeView};
use crate::pixels;
use crate::search::{MeOptions, MeState, MvRate};
use crate::setup;
use crate::setup::{chroma_qp, mb_variance};
use crate::shapes;
use crate::shapes::{list_shape_rects, search_shapes, ShapeOptions, Shapes, ShapesView};
use crate::skip;
use crate::trial;

verus! {

/// How many macroblocks of the frame were looked at, and how many of them a skip lost nothing
/// for. Nothing is made of the counts before a number has been looked at.
#[derive(Clone, Copy)]
pub struct SkipCensus {
    pub free: u64,
    pub seen: u64,
    pub learn: u64,
}

impl SkipCensus {
    /// A frame of `n` macroblocks, of which an eighth is looked at first, and no less than 64.
    pub fn new(n: u64) -> (r: Self)
        ensures
            r.free == 0,
            r.seen == 0,
            r.learn == (if n / 8 > 64 {
                n / 8
            } else {
                64
            }),
    {
        SkipCensus {
            free: 0,
            seen: 0,
            learn: if n / 8 > 64 {
                n / 8
            } else {
                64
            },
        }
    }

    /// Enough was looked at, and no less than a share was free.
    pub open spec fn reaches(self, percent: u32) -> bool {
        self.seen >= self.learn && self.free * 100 >= self.seen * percent
    }

    /// Whether enough was looked at, and no less than a share was free.
    pub fn passes(&self, percent: u32) -> (r: bool)
        ensures
            r == self.reaches(percent),
    {
        let f: u128 = self.free as u128;
        let n: u128 = self.seen as u128;
        let p: u128 = percent as u128;
        assert(n * p <= 0xffff_ffff_ffff_ffff * 0xffff_ffff) by (nonlinear_arith)
            requires
                0 <= n <= 0xffff_ffff_ffff_ffff,
                0 <= p <= 0xffff_ffff,
        ;
        self.seen >= self.learn && f * 100 >= n * p
    }
}

/// How the macroblocks of a P slice are decided.
#[derive(Clone, Copy)]
pub struct POptions {
    /// The QP of the slice.
    pub qp: u8,
    /// In a fast frame, the variance from which a macroblock is measured by SATD.
    pub satd_var: Option<i64>,
    pub do_splits: bool,
    pub sub8x8: bool,
    /// Skip where the difference is below that of skipped neighbours, if the frame has a share
    /// of free skips.
    pub greedy_skip: bool,
    pub greedy_min_free: u32,
    /// Skip where coding is not worth its bits, if the frame has a share of free skips.
    pub rd_skip: bool,
    pub rd_skip_min_free: u32,
    /// The squared difference up to which such a skip is taken without coding.
    pub skip_ssd: Option<i64>,
}

/// What the macroblocks of a slice are decided and coded with.
pub struct PEnv<'a, K: Kernels> {
    pub k: &'a K,
    pub rate: &'a MvRate,
    pub refs: &'a [RefFrame],
    pub sy: &'a [u8],
    pub su: &'a [u8],
    pub sv: &'a [u8],
    pub o: &'a MeOptions,
    pub p: &'a POptions,
    /// The QP of each macroblock.
    pub qps: &'a [u8],
    pub is_p: bool,
    /// The vectors that another encoder has for the 4x4 blocks of the frame, if they are to take
    /// the place of the own in a slice of variable-length codes.
    pub ext: Option<&'a [(i32, i32)]>,
    /// The motion of another encoder, which is coded on trial beside the own.
    pub rival: Option<&'a [(i32, i32)]>,
}

/// The frame can be coded with these references and planes.
pub open spec fn frame_ok(fe: FrameEncoder) -> bool {
    &&& fe.wf()
    &&& fe.cw <= 0x3fff_ffff
    &&& 16 * fe.mb_h <= 0x3fff_ffff
    &&& fe.mb_w * fe.mb_h <= 0xffff_ffff
    &&& fe.counts_ok()
    &&& distortion::weights_ok(fe.bi_w)
    &&& fe.inter8_pen <= 0x7fff_0000_0000_0000
}

impl<'a, K: Kernels> PEnv<'a, K> {
    pub open spec fn wf(&self, fe: FrameEncoder) -> bool {
        &&& kernels::steady(*self.k)
        &&& kernels::modest(*self.k)
        &&& self.rate.wf()
        &&& interplan::source_ok(fe, self.sy@, self.su@, self.sv@)
        &&& self.refs@.len() <= 127
        &&& forall|r: int|
            0 <= r < self.refs@.len() ==> {
                let f = #[trigger] self.refs@[r];
                &&& f.y@.len() == fe.rec_y@.len()
                &&& f.mv@.len() == f.ref_idx@.len()
                &&& f.w4 == 0 || f.w4 == 4 * fe.mb_w
            }
        &&& self.qps@.len() == fe.mb_w * fe.mb_h
        &&& forall|i: int| 0 <= i < self.qps@.len() ==> #[trigger] self.qps@[i] <= 51
    }
}

/// A skip on trial: its vector and prediction, whether it loses nothing, and in a frame that is
/// not fast the difference of its luma. Chroma is only predicted where it is needed.
pub struct Probe {
    pub mv: (i32, i32),
    pub y: [u8; 256],
    pub c: [[u8; 64]; 2],
    pub free: bool,
    pub sad: u32,
}

impl Probe {
    pub open spec fn luma_free<K: Kernels>(
        self,
        k: K,
        fe: FrameEncoder,
        sy: Seq<u8>,
        mb_x: int,
        mb_y: int,
    ) -> bool {
        skip::luma_free(
            k,
            fe.qp,
            sy,
            fe.cw,
            (16 * mb_x) as usize,
            (16 * mb_y) as usize,
            self.y@,
        )
    }

    /// The probe of macroblock `(mb_x, mb_y)`.
    pub open spec fn tells<K: Kernels>(
        self,
        k: K,
        fe: FrameEncoder,
        sy: Seq<u8>,
        su: Seq<u8>,
        sv: Seq<u8>,
        mb_x: int,
        mb_y: int,
    ) -> bool {
        let (cx, cy) = ((8 * mb_x) as usize, (8 * mb_y) as usize);
        let lf = self.luma_free(k, fe, sy, mb_x, mb_y);
        &&& self.mv == motion::p_skip_mv(fe.motion(), mb_x, mb_y)
        &&& self.y@ == skip::skip_luma(k, mb_x, mb_y, self.mv)
        &&& lf || !fe.fast ==> {
            &&& self.c@[0]@ == skip::skip_chroma(k, mb_x, mb_y, self.mv, 0)
            &&& self.c@[1]@ == skip::skip_chroma(k, mb_x, mb_y, self.mv, 1)
        }
        &&& self.free == (lf && skip::chroma_free(k, fe.qpc, su, fe.ccw, cx, cy, self.c@[0]@)
            && skip::chroma_free(k, fe.qpc, sv, fe.ccw, cx, cy, self.c@[1]@))
        &&& self.sad == (if fe.fast {
            0
        } else {
            pixels::sad(
                sy,
                pixels::placed(fe.cw, (16 * mb_x) as usize, (16 * mb_y) as usize),
                self.y@,
                pixels::dense(16),
                16,
                256,
            )
        })
    }
}

/// Probe a skip.
pub fn probe_skip<K: Kernels>(
    k: &K,
    fe: &FrameEncoder,
    sy: &[u8],
    su: &[u8],
    sv: &[u8],
    mb_x: usize,
    mb_y: usize,
) -> (r: Probe)
    requires
        kernels::steady(*k),
        fe.wf(),
        fe.has_mb(mb_x as int, mb_y as int),
        interplan::source_ok(*fe, sy@, su@, sv@),
    ensures
        r.tells(*k, *fe, sy@, su@, sv@, mb_x as int, mb_y as int),
{
    let mv: (i32, i32) = fe.skip_mv(mb_x, mb_y);
    let y: [u8; 256] = fe.skip_predict_luma(k, mb_x, mb_y, mv);
    let luma: bool = fe.skip_luma_is_free(k, sy, mb_x, mb_y, &y);
    let c: [[u8; 64]; 2] = if luma || !fe.fast {
        fe.skip_predict_chroma(k, mb_x, mb_y, mv)
    } else {
        [[0; 64]; 2]
    };
    let free: bool = luma && fe.skip_chroma_is_free(k, su, sv, mb_x, mb_y, &c);
    let sad: u32 = if fe.fast {
        0
    } else {
        fe.skip_difference(sy, mb_x, mb_y, &y)
    };
    Probe { mv, y, c, free, sad }
}

/// The frame `b` is `a` with macroblock `(mb_x, mb_y)` skipped, and noted as such in a frame that
/// is not fast.
pub open spec fn skip_taken(
    a: FrameEncoder,
    b: FrameEncoder,
    mb_x: int,
    mb_y: int,
    mv: (i32, i32),
    py: Seq<u8>,
    pu: Seq<u8>,
    pv: Seq<u8>,
    sad: u32,
) -> bool {
    exists|c: FrameEncoder|
        {
            &&& #[trigger] mbstate::skip_committed(a, c, mb_x, mb_y, mv, py, pu, pv)
            &&& noted(c, b, grid::cell(a.mb_w as int, mb_x, mb_y), true, sad)
        }
}

/// The frame `b` is `a` with a note on a macroblock, in a frame that is not fast: whether it was
/// skipped, and the difference that a skip has.
pub open spec fn noted(a: FrameEncoder, b: FrameEncoder, i: int, skipped: bool, sad: u32) -> bool {
    if a.fast {
        b == a
    } else {
        &&& b.mb_was_skip@ == a.mb_was_skip@.update(i, skipped)
        &&& b.mb_skip_sad@ == a.mb_skip_sad@.update(i, sad)
        &&& b == (FrameEncoder {
            mb_was_skip: b.mb_was_skip,
            mb_skip_sad: b.mb_skip_sad,
            ..a
        })
    }
}

/// Note whether a macroblock was skipped, and the difference that a skip has.
pub fn note(fe: &mut FrameEncoder, mb_x: usize, mb_y: usize, skipped: bool, sad: u32)
    requires
        old(fe).wf(),
        old(fe).has_mb(mb_x as int, mb_y as int),
    ensures
        noted(
            *old(fe),
            *final(fe),
            grid::cell(old(fe).mb_w as int, mb_x as int, mb_y as int),
            skipped,
            sad,
        ),
        final(fe).wf(),
        final(fe).motion() == old(fe).motion(),
{
    let w: usize = fe.mb_w;
    proof {
        grid::lemma_cell(fe.mb_w as int, fe.mb_h as int, mb_x as int, mb_y as int);
    }
    if !fe.fast {
        let i: usize = grid::cell_at(w, mb_x, mb_y, fe.mb_was_skip.len());
        fe.mb_was_skip.set(i, skipped);
        fe.mb_skip_sad.set(i, sad);
    }
}

/// Skip a macroblock.
pub fn take_skip(
    fe: &mut FrameEncoder,
    mb_x: usize,
    mb_y: usize,
    mv: (i32, i32),
    y: &[u8; 256],
    c: &[[u8; 64]; 2],
    sad: u32,
)
    requires
        frame_ok(*old(fe)),
        old(fe).has_mb(mb_x as int, mb_y as int),
    ensures
        skip_taken(
            *old(fe),
            *final(fe),
            mb_x as int,
            mb_y as int,
            mv,
            y@,
            c@[0]@,
            c@[1]@,
            sad,
        ),
        frame_ok(*final(fe)),
        final(fe).cur_qp == old(fe).cur_qp,
        final(fe).mb_w == old(fe).mb_w && final(fe).mb_h == old(fe).mb_h,
        final(fe).fast == old(fe).fast,
{
    fe.commit_skip(mb_x, mb_y, mv, y, c);
    note(fe, mb_x, mb_y, true, sad);
}

/// The cheaper one of two shapes, the first if they cost the same.
pub open spec fn cheaper(a: ShapeView, b: ShapeView) -> ShapeView {
    if b.cost < a.cost {
        b
    } else {
        a
    }
}

fn pick_cheaper(a: Shape, b: Shape) -> (r: Shape)
    ensures
        r@ == cheaper(a@, b@),
        r == a || r == b,
{
    if b.cost < a.cost {
        b
    } else {
        a
    }
}

/// The cheapest of the shapes that were searched.
pub open spec fn picked(v: ShapesView) -> ShapeView {
    match v.splits {
        None => v.whole,
        Some(s) => {
            let b = cheaper(cheaper(v.whole, s.rows), s.cols);
            match s.quarters {
                None => b,
                Some((f, None)) => cheaper(b, f),
                Some((f, Some(d))) => cheaper(b, d),
            }
        },
    }
}

/// No shape that was up for choice costs less than the one picked: not the whole macroblock, its
/// rows or columns, nor its quarters, in the division they were last searched in.
pub proof fn law_pick_is_cheapest(v: ShapesView)
    ensures
        picked(v).cost <= v.whole.cost,
        v.splits matches Some(s) ==> {
            &&& picked(v).cost <= s.rows.cost
            &&& picked(v).cost <= s.cols.cost
            &&& s.quarters matches Some((f, d)) ==> picked(v).cost <= (match d {
                None => f.cost,
                Some(q) => q.cost,
            })
        },
{
}

/// The cheapest of the shapes that were searched.
pub(crate) fn pick_shape(v: Shapes, Ghost(num_refs): Ghost<int>) -> (r: Shape)
    requires
        v.wf(num_refs),
    ensures
        r@ == picked(v@),
        r.wf(num_refs),
{
    match v.splits {
        None => v.whole,
        Some(s) => {
            let b: Shape = pick_cheaper(pick_cheaper(v.whole, s.rows), s.cols);
            match s.quarters {
                None => b,
                Some((f, None)) => pick_cheaper(b, f),
                Some((_, Some(d))) => pick_cheaper(b, d),
            }
        },
    }
}

/// What the types of the quarters of a shape are charged.
pub open spec fn types_price<'a, K: Kernels>(s: Searcher<'a, K>, shape: ShapeView) -> int {
    if shape.mode != 3 {
        0
    } else if shape.subs == trial::whole_quarters() {
        s.plain(4)
    } else {
        s.plain(trial::sub_bins(shape.subs[0])) + s.plain(trial::sub_bins(shape.subs[1]))
            + s.plain(trial::sub_bins(shape.subs[2])) + s.plain(trial::sub_bins(shape.subs[3]))
    }
}

/// The shape that was picked, refined if that was left for now.
#[verifier::opaque]
pub open spec fn settled<'a, K: Kernels>(
    s: Searcher<'a, K>,
    st: MeState,
    nb: Seq<MvNeighbor>,
    num_refs: int,
    x: int,
    y: int,
    shape: ShapeView,
    defer: bool,
) -> (ShapeView, MeState) {
    if !defer {
        (shape, st)
    } else {
        let (ps, c, st1) = s.refined_from(
            st,
            nb,
            num_refs,
            x,
            y,
            parts::shape_rects(shape.mode, shape.subs),
            0,
            shape.parts,
            types_price(s, shape),
        );
        (ShapeView { parts: ps, cost: c, ..shape }, st1)
    }
}

fn bins_of(st: u8) -> (r: u32)
    ensures
        r == trial::sub_bins(st),
{
    if st == 0 {
        1
    } else if st == 1 {
        2
    } else {
        3
    }
}

fn types_price_of<'a, K: Kernels>(s: &Searcher<'a, K>, shape: &Shape) -> (r: i64)
    requires
        s.wf(),
    ensures
        r == types_price(*s, shape@),
        0 <= r <= 0x400_0000_0000,
{
    let t: [u8; 4] = shape.subs;
    if shape.mode != 3 {
        return 0;
    }
    if t[0] == 0 && t[1] == 0 && t[2] == 0 && t[3] == 0 {
        assert(t@ =~= trial::whole_quarters());
        return s.plain_price(4);
    }
    s.plain_price(bins_of(t[0])) + s.plain_price(bins_of(t[1])) + s.plain_price(bins_of(t[2]))
        + s.plain_price(bins_of(t[3]))
}

/// Refine the shape that was picked, if that was left for now.
pub fn settle<'a, K: Kernels>(
    s: &Searcher<'a, K>,
    st: &mut MeState,
    nb: &[MvNeighbor; 3],
    num_refs: usize,
    mb_x: usize,
    mb_y: usize,
    shape: Shape,
    defer: bool,
) -> (r: Shape)
    requires
        s.wf(),
        old(st).wf(),
        1 <= num_refs <= s.refs@.len(),
        s.fe.has_mb(mb_x as int, mb_y as int),
        shape.wf(num_refs as int),
    ensures
        (r@, *final(st)) == settled(
            *s,
            *old(st),
            nb@,
            num_refs as int,
            16 * mb_x,
            16 * mb_y,
            shape@,
            defer,
        ),
        final(st).wf(),
        r.wf(num_refs as int),
        r.mode == shape.mode,
        r.subs == shape.subs,
{
    reveal(settled);
    if !defer {
        return shape;
    }
    proof {
        shapes::lemma_shape_rects(shape.mode, shape.subs@);
        shapes::lemma_regions(*s, mb_x as int, mb_y as int, shape.rects());
    }
    let rs: Vec<(usize, usize, usize, usize)> = list_shape_rects(shape.mode, shape.subs);
    let base: i64 = types_price_of(s, &shape);
    let mut shape: Shape = shape;
    let c: i64 = s.refine_parts(
        st,
        nb,
        num_refs,
        16 * mb_x,
        16 * mb_y,
        &rs,
        &mut shape.parts,
        base,
    );
    Shape { mode: shape.mode, parts: shape.parts, subs: shape.subs, cost: c }
}

/// What intra coding is taken to cost: the least distortion of a whole-block prediction, and a
/// charge.
pub open spec fn intra_cost<K: Kernels>(
    k: K,
    fe: FrameEncoder,
    sy: Seq<u8>,
    mb_x: int,
    mb_y: int,
) -> int {
    (if fe.by_sad() {
        intraplan::i16_least_sad(k, fe, sy, mb_x, mb_y)
    } else {
        intraplan::i16_least_satd(k, fe, sy, mb_x, mb_y)
    }) + kernels::price_of(k, Price { phase: Phase::Intra, bits: 0, loud: fe.mb_loud })
}

/// What intra coding is taken to cost.
pub fn intra_cost_of<K: Kernels>(k: &K, fe: &FrameEncoder, sy: &[u8], mb_x: usize, mb_y: usize) -> (r:
    i64)
    requires
        kernels::steady(*k),
        kernels::modest(*k),
        fe.wf(),
        fe.has_mb(mb_x as int, mb_y as int),
        sy@.len() == fe.rec_y@.len(),
    ensures
        r == intra_cost(*k, *fe, sy@, mb_x as int, mb_y as int),
        0 <= r <= 0x400_0000_0000,
{
    let d: i64 = if fe.fast && !fe.mb_use_satd {
        best_i16_sad(k, fe, sy, mb_x, mb_y)
    } else {
        best_i16_satd(k, fe, sy, mb_x, mb_y)
    };
    let w: i64 = price(k, Price { phase: Phase::Intra, bits: 0, loud: fe.mb_loud });
    d + w
}

impl<'a, K: Kernels> PEnv<'a, K> {
    /// The searches of a frame.
    pub open spec fn searcher(&self, fe: &'a FrameEncoder) -> Searcher<'a, K> {
        Searcher {
            fe,
            k: self.k,
            rate: self.rate,
            refs: self.refs,
            sy: self.sy,
            o: self.o,
            list: 0,
        }
    }

    /// How the macroblocks of a frame are searched.
    pub open spec fn shape_options(&self, fe: FrameEncoder) -> ShapeOptions {
        ShapeOptions {
            do_splits: self.p.do_splits && !fe.fast,
            sub8x8: self.p.sub8x8,
            arms: false,
        }
    }

    /// What is decided of a macroblock that is not skipped, and what the frame has learned
    /// then: intra, or a shape.
    pub open spec fn decided(&self, fe: &'a FrameEncoder, st: MeState, mb_x: int, mb_y: int) -> (
        Option<ShapeView>,
        MeState,
    ) {
        let s = self.searcher(fe);
        let t = motion::part_neighbours(fe.motion(), false, 4 * mb_x, 4 * mb_y, 4);
        let nb = seq![t.0, t.1, t.2];
        let nr = self.refs@.len() as int;
        let (x, y) = (16 * mb_x, 16 * mb_y);
        let (v, st1) = shapes::shapes_of(s, st, nb, nr, x, y, self.shape_options(*fe));
        let defer = self.o.sp_defer && !fe.fast;
        let (shape, st2) = settled(s, st1, nb, nr, x, y, picked(v), defer);
        if intra_cost(*self.k, *fe, self.sy@, mb_x, mb_y) < shape.cost {
            (None, st2)
        } else {
            (Some(shape), st2)
        }
    }

    /// Decide a macroblock that is not skipped.
    pub fn decide(&self, fe: &FrameEncoder, st: &mut MeState, mb_x: usize, mb_y: usize) -> (r: Option<
        Shape,
    >)
        requires
            frame_ok(*fe),
            self.wf(*fe),
            self.refs@.len() >= 1,
            fe.qp <= 51,
            old(st).wf(),
            fe.has_mb(mb_x as int, mb_y as int),
        ensures
            ({
                let (v, st1) = self.decided(fe, *old(st), mb_x as int, mb_y as int);
                &&& *final(st) == st1
                &&& match r {
                    None => v is None,
                    Some(f) => v == Some(f@),
                }
            }),
            final(st).wf(),
            r matches Some(f) ==> f.wf(self.refs@.len() as int) && f.subs@
                == trial::whole_quarters(),
    {
        let nr: usize = self.refs.len();
        let s: Searcher<'_, K> = Searcher {
            fe,
            k: self.k,
            rate: self.rate,
            refs: self.refs,
            sy: self.sy,
            o: self.o,
            list: 0,
        };
        assert(s == self.searcher(fe));
        let nb: [MvNeighbor; 3] = fe.mv_neighbors_block(4 * mb_x, 4 * mb_y, 4);
        let ghost t = motion::part_neighbours(fe.motion(), false, 4 * mb_x, 4 * mb_y, 4);
        assert(nb@ =~= seq![t.0, t.1, t.2]);
        let o: ShapeOptions = ShapeOptions {
            do_splits: self.p.do_splits && !fe.fast,
            sub8x8: self.p.sub8x8,
            arms: false,
        };
        let v: Shapes = search_shapes(&s, st, &nb, nr, 16 * mb_x, 16 * mb_y, o);
        let pick: Shape = pick_shape(v, Ghost(nr as int));
        assert(pick.subs@ == trial::whole_quarters());
        let defer: bool = self.o.sp_defer && !fe.fast;
        let shape: Shape = settle(&s, st, &nb, nr, mb_x, mb_y, pick, defer);
        if intra_cost_of(self.k, fe, self.sy, mb_x, mb_y) < shape.cost {
            None
        } else {
            Some(shape)
        }
    }
}

/// A divided macroblock has as many parts as rectangles.
proof fn lemma_rect_count(subs: Seq<u8>, q: int)
    requires
        0 <= q,
    ensures
        parts::quarter_rects(subs, q).len() == partition::quarter_start(subs, q),
    decreases q,
{
    if q > 0 {
        lemma_rect_count(subs, q - 1);
    }
}

/// A shape that was found can be planned.
pub proof fn lemma_shape_ok(fe: FrameEncoder, l1: RefFrame, shape: Shape, num_refs: int)
    requires
        frame_ok(fe),
        l1.mv@.len() == l1.ref_idx@.len(),
        l1.w4 == 0 || l1.w4 == 4 * fe.mb_w,
        shape.wf(num_refs),
        num_refs <= 127,
    ensures
        interplan::inter_ok(fe, l1, shape.mode, shape.parts@, None, shape.subs@),
        interplan::no_sub_types(shape.subs@) == (shape.subs@ == trial::whole_quarters()),
{
    lemma_rect_count(shape.subs@, 4);
    if interplan::no_sub_types(shape.subs@) {
        assert(shape.subs@ =~= trial::whole_quarters());
    }
}

/// A frame that is being coded into syntax elements.
pub struct PState {
    pub fe: FrameEncoder,
    pub me: MeState,
    pub census: SkipCensus,
    /// How many macroblocks have been skipped since the last one that was coded.
    pub run: u32,
    /// The QP that each macroblock was coded with.
    pub qpy: Vec<u8>,
    /// How the own motion compares with that of another encoder.
    pub score: MvScore,
    pub out: Syntax,
}

impl PState {
    /// The state after `n` macroblocks.
    pub open spec fn wf(self, n: int) -> bool {
        &&& frame_ok(self.fe)
        &&& self.me.wf()
        &&& self.census.free <= self.census.seen
        &&& self.run <= n
        &&& self.qpy@.len() == self.fe.mb_w * self.fe.mb_h
    }
}

/// A distortion and bits as they are weighed.
pub open spec fn weight(found: (i64, usize)) -> Rd {
    Rd { ssd: found.0, rate: found.1 as i64 }
}

/// A macroblock has been skipped.
pub open spec fn skip_counted(s: PState, t: PState, i: int) -> bool {
    &&& t.run == s.run + 1
    &&& t.score == s.score
    &&& t.out@ == s.out@
    &&& t.qpy@ == s.qpy@.update(i, t.fe.cur_qp)
}

/// A macroblock has been coded as `w`, behind the number of those skipped before it in a P slice.
pub open spec fn emitted(s: PState, t: PState, i: int, is_p: bool, w: Seq<ElemView>) -> bool {
    &&& t.run == (if is_p {
        0
    } else {
        s.run
    })
    &&& t.out@ == s.out@ + (if is_p {
        seq![ElemView::Ue(s.run)]
    } else {
        Seq::empty()
    }) + w
    &&& t.qpy@ == s.qpy@.update(i, t.fe.cur_qp)
}

/// The frame at a macroblock with this QP.
pub open spec fn begun(fe: FrameEncoder, qp: u8) -> FrameEncoder {
    FrameEncoder { qp, qpc: setup::chroma_of(qp), ..fe }
}

/// The frame with the measure of the macroblock chosen: in a fast frame, SATD for much variance.
pub open spec fn measured(
    fe: FrameEncoder,
    satd_var: Option<i64>,
    sy: Seq<u8>,
    mb_x: int,
    mb_y: int,
) -> FrameEncoder {
    if fe.fast {
        FrameEncoder {
            mb_use_satd: satd_var matches Some(v) && setup::mb_spread(sy, fe.cw, mb_x, mb_y) >= v,
            ..fe
        }
    } else {
        fe
    }
}

/// A skip is taken for being no worse than those around it.
pub open spec fn greedy(
    p: POptions,
    fe: FrameEncoder,
    census: SkipCensus,
    sad: u32,
    mb_x: int,
    mb_y: int,
) -> bool {
    &&& !fe.fast
    &&& p.greedy_skip
    &&& p.greedy_min_free == 0 || census.reaches(p.greedy_min_free)
    &&& sad < mbstate::skip_threshold(fe, mb_x, mb_y)
}

impl<'a, K: Kernels> PEnv<'a, K> {
    /// The squared difference that a skip leaves.
    pub open spec fn skip_ssd(&self, fe: FrameEncoder, mb_x: int, mb_y: int, mv: (i32, i32)) -> int {
        let k = *self.k;
        skip::pred_distance(self.sy@, fe.cw, 16, mb_x, mb_y, skip::skip_luma(k, mb_x, mb_y, mv))
            + skip::pred_distance(
            self.su@,
            fe.ccw,
            8,
            mb_x,
            mb_y,
            skip::skip_chroma(k, mb_x, mb_y, mv, 0),
        ) + skip::pred_distance(
            self.sv@,
            fe.ccw,
            8,
            mb_x,
            mb_y,
            skip::skip_chroma(k, mb_x, mb_y, mv, 1),
        )
    }

    /// The frame `b` is `a` with the macroblock skipped by its own prediction.
    pub open spec fn skips(
        &self,
        a: FrameEncoder,
        b: FrameEncoder,
        mb_x: int,
        mb_y: int,
        mv: (i32, i32),
        sad: u32,
    ) -> bool {
        let k = *self.k;
        skip_taken(
            a,
            b,
            mb_x,
            mb_y,
            mv,
            skip::skip_luma(k, mb_x, mb_y, mv),
            skip::skip_chroma(k, mb_x, mb_y, mv, 0),
            skip::skip_chroma(k, mb_x, mb_y, mv, 1),
            sad,
        )
    }

    /// A shape is coded from the frame `a` into `b` and the elements `w`.
    pub open spec fn codes_shape(
        &self,
        a: FrameEncoder,
        b: FrameEncoder,
        mb_x: int,
        mb_y: int,
        shape: ShapeView,
        w: Seq<ElemView>,
    ) -> bool {
        trial::inter_encoded(
            *self.k,
            a,
            b,
            self.refs@[0],
            self.refs@.len() as usize,
            self.sy@,
            self.su@,
            self.sv@,
            mb_x,
            mb_y,
            shape.mode,
            shape.parts,
            None,
            Seq::empty(),
            w,
        )
    }

    /// A shape is coded, and undone for a skip if that does not cost more.
    pub open spec fn weighed(
        &self,
        a: FrameEncoder,
        s: PState,
        t: PState,
        mb_x: int,
        mb_y: int,
        mv: (i32, i32),
        sad: u32,
        ssd: i64,
        shape: ShapeView,
    ) -> bool {
        let i = grid::cell(a.mb_w as int, mb_x, mb_y);
        exists|b: FrameEncoder, w: Seq<ElemView>|
            {
                &&& #[trigger] self.codes_shape(a, b, mb_x, mb_y, shape, w)
                &&& if kernels::rd_at_most_of(
                    *self.k,
                    self.p.qp,
                    Rd { ssd, rate: 1 },
                    Rd {
                        ssd: skip::mb_distortion(
                            *self.k,
                            b,
                            self.sy@,
                            self.su@,
                            self.sv@,
                            mb_x,
                            mb_y,
                        ) as i64,
                        rate: kernels::bits_of(*self.k, w) as i64,
                    },
                ) {
                    &&& exists|c: FrameEncoder|
                        #[trigger] trial::undone(a, c) && self.skips(
                            c,
                            t.fe,
                            mb_x,
                            mb_y,
                            mv,
                            sad,
                        )
                    &&& skip_counted(s, t, i)
                } else {
                    &&& self.priced(
                        b,
                        t.fe,
                        mb_x,
                        mb_y,
                        self.transplanted(a, mb_x, mb_y, shape),
                        s.score.placed(self.places(a, mb_x, mb_y)),
                        t.score,
                    )
                    &&& emitted(s, t, i, self.is_p, w)
                }
            }
    }

    /// The vector of another encoder takes the place of the own shape.
    pub open spec fn places(&self, fe: FrameEncoder, mb_x: int, mb_y: int) -> bool {
        self.ext matches Some(f) && extmv::uniform(f@, 4 * fe.mb_w as int, mb_x, mb_y) is Some
    }

    /// A shape is coded on trial, and then the vector of another encoder, where there is one. Both
    /// trials are undone.
    pub open spec fn priced(
        &self,
        a: FrameEncoder,
        b: FrameEncoder,
        mb_x: int,
        mb_y: int,
        shape: ShapeView,
        score: MvScore,
        score1: MvScore,
    ) -> bool {
        match self.rival {
            None => b == a && score1 == score,
            Some(f) => match extmv::corner(f@, 4 * a.mb_w as int, mb_x, mb_y) {
                None => b == a && score1 == score,
                Some(mv) => exists|m: FrameEncoder, own: (i64, usize), other: (i64, usize)|
                    {
                        &&& #[trigger] self.tries(a, m, mb_x, mb_y, shape.mode, shape.parts, own)
                        &&& #[trigger] self.tries(m, b, mb_x, mb_y, 0, seq![(0i32, mv)], other)
                        &&& score1 == score.with(
                            own,
                            other,
                            kernels::rd_less_of(*self.k, self.p.qp, weight(other), weight(own)),
                            shape.parts[0].1 != mv,
                        )
                    },
            },
        }
    }

    /// Coding on trial finds a distortion and a rate, and leaves all as it was.
    pub open spec fn tries(
        &self,
        a: FrameEncoder,
        b: FrameEncoder,
        mb_x: int,
        mb_y: int,
        mode: u8,
        parts: Seq<(i32, (i32, i32))>,
        found: (i64, usize),
    ) -> bool {
        &&& trial::inter_tried(
            *self.k,
            a,
            self.refs@[0],
            self.refs@.len() as usize,
            self.sy@,
            self.su@,
            self.sv@,
            mb_x,
            mb_y,
            mode,
            parts,
            found.0 as int,
            found.1,
        )
        &&& trial::undone(a, b)
    }

    /// The shape that is coded: the vector of another encoder for the whole macroblock, where
    /// there is one, and else the own shape.
    pub open spec fn transplanted(
        &self,
        fe: FrameEncoder,
        mb_x: int,
        mb_y: int,
        shape: ShapeView,
    ) -> ShapeView {
        match self.ext {
            None => shape,
            Some(f) => match extmv::uniform(f@, 4 * fe.mb_w as int, mb_x, mb_y) {
                None => shape,
                Some(mv) => ShapeView {
                    mode: 0,
                    parts: seq![(0i32, mv)],
                    subs: trial::whole_quarters(),
                    cost: shape.cost,
                },
            },
        }
    }

    /// A shape is coded, or skipped after all where that is worth it: at once if it leaves
    /// little, else if coding does not cost less. What was coded to find that out stays as it is;
    /// otherwise the vector of another encoder may take its place.
    pub open spec fn shape_step(
        &self,
        a: FrameEncoder,
        s: PState,
        t: PState,
        mb_x: int,
        mb_y: int,
        mv: (i32, i32),
        sad: u32,
        shape: ShapeView,
    ) -> bool {
        let i = grid::cell(a.mb_w as int, mb_x, mb_y);
        let ssd = self.skip_ssd(a, mb_x, mb_y, mv);
        if !(self.p.rd_skip && t.census.reaches(self.p.rd_skip_min_free)) {
            let goal = self.transplanted(a, mb_x, mb_y, shape);
            exists|b: FrameEncoder, w: Seq<ElemView>|
                {
                    &&& self.priced(
                        a,
                        b,
                        mb_x,
                        mb_y,
                        goal,
                        s.score.placed(self.places(a, mb_x, mb_y)),
                        t.score,
                    )
                    &&& #[trigger] self.codes_shape(b, t.fe, mb_x, mb_y, goal, w)
                    &&& emitted(s, t, i, self.is_p, w)
                }
        } else if self.p.skip_ssd matches Some(v) && ssd <= v {
            self.skips(a, t.fe, mb_x, mb_y, mv, sad) && skip_counted(s, t, i)
        } else {
            self.weighed(a, s, t, mb_x, mb_y, mv, sad, ssd as i64, shape)
        }
    }

    /// A macroblock is coded as intra.
    pub open spec fn intra_step(
        &self,
        a: FrameEncoder,
        s: PState,
        t: PState,
        mb_x: int,
        mb_y: int,
    ) -> bool {
        exists|w: Seq<ElemView>|
            {
                &&& #[trigger] trial::intra_encoded(
                    *self.k,
                    a,
                    t.fe,
                    self.sy@,
                    self.su@,
                    self.sv@,
                    mb_x,
                    mb_y,
                    self.is_p,
                    Seq::empty(),
                    w,
                )
                &&& emitted(s, t, grid::cell(a.mb_w as int, mb_x, mb_y), self.is_p, w)
                &&& t.score == s.score
            }
    }
}

fn count_skip(s: &mut PState, mb_x: usize, mb_y: usize)
    requires
        old(s).fe.wf(),
        old(s).fe.has_mb(mb_x as int, mb_y as int),
        old(s).qpy@.len() == old(s).fe.mb_w * old(s).fe.mb_h,
        old(s).run < u32::MAX,
    ensures
        final(s).run == old(s).run + 1,
        final(s).out == old(s).out,
        final(s).qpy@ == old(s).qpy@.update(
            grid::cell(old(s).fe.mb_w as int, mb_x as int, mb_y as int),
            old(s).fe.cur_qp,
        ),
        final(s).qpy@.len() == old(s).qpy@.len(),
        *final(s) == (PState { run: final(s).run, qpy: final(s).qpy, ..*old(s) }),
{
    proof {
        grid::lemma_cell(s.fe.mb_w as int, s.fe.mb_h as int, mb_x as int, mb_y as int);
    }
    let i: usize = grid::cell_at(s.fe.mb_w, mb_x, mb_y, s.qpy.len());
    let q: u8 = s.fe.cur_qp;
    s.qpy.set(i, q);
    s.run = s.run + 1;
}

fn emit(s: &mut PState, mb_x: usize, mb_y: usize, is_p: bool, w: Syntax)
    requires
        old(s).fe.wf(),
        old(s).fe.has_mb(mb_x as int, mb_y as int),
        old(s).qpy@.len() == old(s).fe.mb_w * old(s).fe.mb_h,
    ensures
        emitted(
            *old(s),
            *final(s),
            grid::cell(old(s).fe.mb_w as int, mb_x as int, mb_y as int),
            is_p,
            w@,
        ),
        *final(s) == (PState {
            run: final(s).run,
            out: final(s).out,
            qpy: final(s).qpy,
            ..*old(s)
        }),
        final(s).run <= old(s).run,
        final(s).qpy@.len() == old(s).qpy@.len(),
{
    proof {
        grid::lemma_cell(s.fe.mb_w as int, s.fe.mb_h as int, mb_x as int, mb_y as int);
    }
    let ghost before = s.out@;
    let i: usize = grid::cell_at(s.fe.mb_w, mb_x, mb_y, s.qpy.len());
    if is_p {
        let r: u32 = s.run;
        s.out.ue(r);
        s.run = 0;
    } else {
        assert(before + Seq::empty() =~= before);
    }
    s.out.append(w);
    let q: u8 = s.fe.cur_qp;
    s.qpy.set(i, q);
}

impl<'a, K: Kernels> PEnv<'a, K> {
    /// The frame has the size that the planes and references have.
    proof fn lemma_same_size(&self, a: FrameEncoder, b: FrameEncoder)
        requires
            self.wf(a),
            a.wf(),
            b.wf(),
            b.mb_w == a.mb_w,
            b.mb_h == a.mb_h,
        ensures
            self.wf(b),
    {
    }

    /// Code a macroblock as intra.
    fn code_intra(&self, s: &mut PState, mb_x: usize, mb_y: usize, Ghost(n): Ghost<int>)
        requires
            old(s).wf(n),
            self.wf(old(s).fe),
            old(s).fe.has_mb(mb_x as int, mb_y as int),
        ensures
            self.intra_step(old(s).fe, *old(s), *final(s), mb_x as int, mb_y as int),
            final(s).wf(n),
            final(s).me == old(s).me,
            final(s).census == old(s).census,
            final(s).fe.mb_w == old(s).fe.mb_w && final(s).fe.mb_h == old(s).fe.mb_h,
    {
        let ghost a = s.fe;
        let mut w: Syntax = Syntax::new();
        encode_mb(self.k, &mut s.fe, &mut w, mb_x, mb_y, self.sy, self.su, self.sv, self.is_p);
        let ghost b = s.fe;
        assert(trial::intra_encoded(
            *self.k,
            a,
            b,
            self.sy@,
            self.su@,
            self.sv@,
            mb_x as int,
            mb_y as int,
            self.is_p,
            Seq::empty(),
            w@,
        ));
        proof {
            trial::law_intra_coding_stays_inside(
                *self.k,
                a,
                b,
                self.sy@,
                self.su@,
                self.sv@,
                mb_x as int,
                mb_y as int,
                self.is_p,
                Seq::empty(),
                w@,
            );
        }
        emit(s, mb_x, mb_y, self.is_p, w);
    }

    /// Code a shape into a list of its own.
    fn encode_shape(&self, fe: &mut FrameEncoder, mb_x: usize, mb_y: usize, shape: &Shape) -> (w: Syntax)
        requires
            frame_ok(*old(fe)),
            self.wf(*old(fe)),
            self.refs@.len() >= 1,
            old(fe).has_mb(mb_x as int, mb_y as int),
            shape.wf(self.refs@.len() as int),
            shape.subs@ == trial::whole_quarters(),
        ensures
            self.codes_shape(*old(fe), *final(fe), mb_x as int, mb_y as int, shape@, w@),
            frame_ok(*final(fe)),
            trial::stays_inside(*old(fe), *final(fe), mb_x as int, mb_y as int),
            final(fe).mb_w == old(fe).mb_w && final(fe).mb_h == old(fe).mb_h,
    {
        let ghost a = *fe;
        let nr: usize = self.refs.len();
        assert(self.refs@[0].mv@.len() == self.refs@[0].ref_idx@.len());
        proof {
            lemma_shape_ok(a, self.refs@[0], *shape, nr as int);
        }
        let mut w: Syntax = Syntax::new();
        fe.encode_inter_mb_v1(
            self.k,
            &mut w,
            &self.refs[0],
            nr,
            self.sy,
            self.su,
            self.sv,
            mb_x,
            mb_y,
            shape.mode,
            &shape.parts,
        );
        proof {
            trial::law_inter_coding_stays_inside(
                *self.k,
                a,
                *fe,
                self.refs@[0],
                nr,
                self.sy@,
                self.su@,
                self.sv@,
                mb_x as int,
                mb_y as int,
                shape.mode,
                shape.parts@,
                Seq::empty(),
                w@,
            );
        }
        w
    }

    /// Skip a macroblock by its own prediction.
    fn skip_now(
        &self,
        s: &mut PState,
        mb_x: usize,
        mb_y: usize,
        pr: &Probe,
        c: &[[u8; 64]; 2],
        Ghost(n): Ghost<int>,
    )
        requires
            old(s).wf(n),
            n < 0xffff_ffff,
            old(s).fe.has_mb(mb_x as int, mb_y as int),
            pr.y@ == skip::skip_luma(*self.k, mb_x as int, mb_y as int, pr.mv),
            c@[0]@ == skip::skip_chroma(*self.k, mb_x as int, mb_y as int, pr.mv, 0),
            c@[1]@ == skip::skip_chroma(*self.k, mb_x as int, mb_y as int, pr.mv, 1),
        ensures
            self.skips(old(s).fe, final(s).fe, mb_x as int, mb_y as int, pr.mv, pr.sad),
            skip_counted(
                *old(s),
                *final(s),
                grid::cell(old(s).fe.mb_w as int, mb_x as int, mb_y as int),
            ),
            final(s).wf(n + 1),
            final(s).me == old(s).me,
            final(s).census == old(s).census,
            final(s).fe.mb_w == old(s).fe.mb_w && final(s).fe.mb_h == old(s).fe.mb_h,
    {
        let ghost s0 = *s;
        take_skip(&mut s.fe, mb_x, mb_y, pr.mv, &pr.y, c, pr.sad);
        let ghost b = s.fe;
        assert(frame_ok(b));
        assert(b.mb_w * b.mb_h == s0.fe.mb_w * s0.fe.mb_h);
        count_skip(s, mb_x, mb_y);
        assert(s.fe == b);
        assert(s.run <= n + 1);
        assert(s.me.wf());
        assert(s.census == s0.census);
        assert(s.qpy@.len() == s.fe.mb_w * s.fe.mb_h);
    }

    /// Code a shape.
    fn code_now(&self, s: &mut PState, mb_x: usize, mb_y: usize, shape: &Shape, Ghost(n): Ghost<int>)
        requires
            old(s).wf(n),
            self.wf(old(s).fe),
            self.refs@.len() >= 1,
            old(s).fe.has_mb(mb_x as int, mb_y as int),
            shape.wf(self.refs@.len() as int),
            shape.subs@ == trial::whole_quarters(),
        ensures
            exists|w: Seq<ElemView>|
                #[trigger] self.codes_shape(
                    old(s).fe,
                    final(s).fe,
                    mb_x as int,
                    mb_y as int,
                    shape@,
                    w,
                ) && emitted(
                    *old(s),
                    *final(s),
                    grid::cell(old(s).fe.mb_w as int, mb_x as int, mb_y as int),
                    self.is_p,
                    w,
                ),
            final(s).wf(n),
            final(s).me == old(s).me,
            final(s).census == old(s).census,
            final(s).score == old(s).score,
            final(s).fe.mb_w == old(s).fe.mb_w && final(s).fe.mb_h == old(s).fe.mb_h,
    {
        let ghost a = s.fe;
        let w: Syntax = self.encode_shape(&mut s.fe, mb_x, mb_y, shape);
        let ghost v = w@;
        emit(s, mb_x, mb_y, self.is_p, w);
        assert(self.codes_shape(a, s.fe, mb_x as int, mb_y as int, shape@, v));
    }

    /// The shape that is coded, and whether it is that of another encoder.
    fn transplant(&self, fe: &FrameEncoder, mb_x: usize, mb_y: usize, shape: &Shape) -> (r: (
        Shape,
        bool,
    ))
        requires
            fe.wf(),
            self.wf(*fe),
            self.refs@.len() >= 1,
            fe.has_mb(mb_x as int, mb_y as int),
            shape.wf(self.refs@.len() as int),
            shape.subs@ == trial::whole_quarters(),
        ensures
            r.0@ == self.transplanted(*fe, mb_x as int, mb_y as int, shape@),
            r.1 == self.places(*fe, mb_x as int, mb_y as int),
            r.0.wf(self.refs@.len() as int),
            r.0.subs@ == trial::whole_quarters(),
    {
        let ghost goal = self.transplanted(*fe, mb_x as int, mb_y as int, shape@);
        match self.foreign(fe, mb_x, mb_y) {
            None => {
                assert(goal == shape@);
                (shape.copy(), false)
            },
            Some(mv) => {
                let mut parts: Vec<(i32, (i32, i32))> = Vec::new();
                parts.push((0, mv));
                let other: Shape = Shape { mode: 0, parts, subs: [0; 4], cost: shape.cost };
                proof {
                    assert(other.parts@ =~= seq![(0i32, mv)]);
                    assert(other.subs@ =~= trial::whole_quarters());
                    assert(other@ =~= goal);
                }
                (other, true)
            },
        }
    }

    /// Code a shape on trial.
    fn try_code(&self, fe: &mut FrameEncoder, mb_x: usize, mb_y: usize, shape: &Shape) -> (r: (
        i64,
        usize,
    ))
        requires
            frame_ok(*old(fe)),
            self.wf(*old(fe)),
            self.refs@.len() >= 1,
            old(fe).has_mb(mb_x as int, mb_y as int),
            shape.wf(self.refs@.len() as int),
            shape.subs@ == trial::whole_quarters(),
        ensures
            self.tries(
                *old(fe),
                *final(fe),
                mb_x as int,
                mb_y as int,
                shape.mode,
                shape.parts@,
                r,
            ),
            frame_ok(*final(fe)),
            self.wf(*final(fe)),
            final(fe).mb_w == old(fe).mb_w && final(fe).mb_h == old(fe).mb_h,
    {
        let ghost a = *fe;
        let nr: usize = self.refs.len();
        assert(self.refs@[0].mv@.len() == self.refs@[0].ref_idx@.len());
        proof {
            lemma_shape_ok(a, self.refs@[0], *shape, nr as int);
        }
        let r: (i64, usize) = fe.trial_inter(
            self.k,
            &self.refs[0],
            nr,
            self.sy,
            self.su,
            self.sv,
            mb_x,
            mb_y,
            shape.mode,
            &shape.parts,
        );
        proof {
            crate::pcabac::lemma_undone_ok(a, *fe);
            self.lemma_same_size(a, *fe);
        }
        r
    }

    /// Code a shape and the vector of another encoder on trial.
    fn price_rival(&self, s: &mut PState, mb_x: usize, mb_y: usize, shape: &Shape)
        requires
            frame_ok(old(s).fe),
            self.wf(old(s).fe),
            self.refs@.len() >= 1,
            old(s).fe.has_mb(mb_x as int, mb_y as int),
            shape.wf(self.refs@.len() as int),
            shape.subs@ == trial::whole_quarters(),
        ensures
            self.priced(
                old(s).fe,
                final(s).fe,
                mb_x as int,
                mb_y as int,
                shape@,
                old(s).score,
                final(s).score,
            ),
            *final(s) == (PState { fe: final(s).fe, score: final(s).score, ..*old(s) }),
            frame_ok(final(s).fe),
            self.wf(final(s).fe),
            final(s).fe.mb_w == old(s).fe.mb_w && final(s).fe.mb_h == old(s).fe.mb_h,
            final(s).fe.cur_qp == old(s).fe.cur_qp,
    {
        if let Some(f) = self.rival {
            let ghost a = s.fe;
            let ghost (gx, gy) = (mb_x as int, mb_y as int);
            assert(s.fe.nnz_y.len() == s.fe.nnz_y@.len());
            let c: Option<(i32, i32)> = extmv::corner_at(
                f,
                4 * s.fe.mb_w,
                4 * s.fe.mb_h,
                mb_x,
                mb_y,
            );
            if let Some(mv) = c {
                let own: (i64, usize) = self.try_code(&mut s.fe, mb_x, mb_y, shape);
                let ghost m = s.fe;
                let mut parts: Vec<(i32, (i32, i32))> = Vec::new();
                parts.push((0, mv));
                let theirs: Shape = Shape { mode: 0, parts, subs: [0; 4], cost: 0 };
                proof {
                    assert(theirs.parts@ =~= seq![(0i32, mv)]);
                    assert(theirs.subs@ =~= trial::whole_quarters());
                }
                let other: (i64, usize) = self.try_code(&mut s.fe, mb_x, mb_y, &theirs);
                let won: bool = rd_less(
                    self.k,
                    self.p.qp,
                    Rd { ssd: other.0, rate: other.1 as i64 },
                    Rd { ssd: own.0, rate: own.1 as i64 },
                );
                let v: (i32, i32) = shape.parts[0].1;
                let differs: bool = v.0 != mv.0 || v.1 != mv.1;
                s.score.count(own, other, won, differs);
                assert(self.tries(a, m, gx, gy, shape@.mode, shape@.parts, own));
                assert(self.tries(m, s.fe, gx, gy, 0, seq![(0i32, mv)], other));
            }
        }
    }

    /// Code a shape, and undo it for a skip if that does not cost more.
    fn weigh(
        &self,
        s: &mut PState,
        mb_x: usize,
        mb_y: usize,
        pr: &Probe,
        cp: &[[u8; 64]; 2],
        ssd: i64,
        shape: &Shape,
        Ghost(n): Ghost<int>,
    )
        requires
            old(s).wf(n),
            n < 0xffff_ffff,
            self.wf(old(s).fe),
            self.refs@.len() >= 1,
            old(s).fe.has_mb(mb_x as int, mb_y as int),
            pr.y@ == skip::skip_luma(*self.k, mb_x as int, mb_y as int, pr.mv),
            cp@[0]@ == skip::skip_chroma(*self.k, mb_x as int, mb_y as int, pr.mv, 0),
            cp@[1]@ == skip::skip_chroma(*self.k, mb_x as int, mb_y as int, pr.mv, 1),
            shape.wf(self.refs@.len() as int),
            shape.subs@ == trial::whole_quarters(),
        ensures
            self.weighed(
                old(s).fe,
                *old(s),
                *final(s),
                mb_x as int,
                mb_y as int,
                pr.mv,
                pr.sad,
                ssd,
                shape@,
            ),
            final(s).wf(n + 1),
            final(s).me == old(s).me,
            final(s).census == old(s).census,
            final(s).fe.mb_w == old(s).fe.mb_w && final(s).fe.mb_h == old(s).fe.mb_h,
    {
        let ghost a = s.fe;
        let ghost (gx, gy) = (mb_x as int, mb_y as int);
        let snap: MbState = s.fe.save_mb(mb_x, mb_y);
        let w: Syntax = self.encode_shape(&mut s.fe, mb_x, mb_y, shape);
        let ghost b = s.fe;
        proof {
            self.lemma_same_size(a, b);
        }
        let rate: i64 = kernels::bits(self.k, &w) as i64;
        let d: i64 = s.fe.mb_ssd(self.k, self.sy, self.su, self.sv, mb_x, mb_y);
        let won: bool = rd_at_most(self.k, self.p.qp, Rd { ssd, rate: 1 }, Rd { ssd: d, rate });
        assert(self.codes_shape(a, b, gx, gy, shape@, w@));
        if won {
            s.fe.load_mb(mb_x, mb_y, &snap);
            let ghost c = s.fe;
            proof {
                trial::law_copy_undoes_trial(a, b, c, snap, gx, gy);
            }
            assert(trial::undone(a, c));
            assert(frame_ok(c));
            self.skip_now(s, mb_x, mb_y, pr, cp, Ghost(n));
        } else {
            let (goal, forced): (Shape, bool) = self.transplant(&s.fe, mb_x, mb_y, shape);
            s.score.place(forced);
            self.price_rival(s, mb_x, mb_y, &goal);
            emit(s, mb_x, mb_y, self.is_p, w);
        }
    }

    /// The vector of another encoder for a macroblock.
    fn foreign(&self, fe: &FrameEncoder, mb_x: usize, mb_y: usize) -> (r: Option<(i32, i32)>)
        requires
            fe.wf(),
            self.wf(*fe),
            fe.has_mb(mb_x as int, mb_y as int),
        ensures
            r == (match self.ext {
                None => None,
                Some(f) => extmv::uniform(f@, 4 * fe.mb_w as int, mb_x as int, mb_y as int),
            }),
    {
        match self.ext {
            None => None,
            Some(f) => {
                assert(fe.nnz_y.len() == fe.nnz_y@.len());
                extmv::uniform_at(f, 4 * fe.mb_w, 4 * fe.mb_h, mb_x, mb_y)
            },
        }
    }

    /// Code a shape, or skip it after all.
    fn code_shape(
        &self,
        s: &mut PState,
        mb_x: usize,
        mb_y: usize,
        pr: &Probe,
        shape: &Shape,
        Ghost(n): Ghost<int>,
    )
        requires
            old(s).wf(n),
            n < 0xffff_ffff,
            self.wf(old(s).fe),
            self.refs@.len() >= 1,
            old(s).fe.has_mb(mb_x as int, mb_y as int),
            pr.y@ == skip::skip_luma(*self.k, mb_x as int, mb_y as int, pr.mv),
            shape.wf(self.refs@.len() as int),
            shape.subs@ == trial::whole_quarters(),
        ensures
            self.shape_step(
                old(s).fe,
                *old(s),
                *final(s),
                mb_x as int,
                mb_y as int,
                pr.mv,
                pr.sad,
                shape@,
            ),
            final(s).wf(n + 1),
            final(s).me == old(s).me,
            final(s).census == old(s).census,
            final(s).fe.mb_w == old(s).fe.mb_w && final(s).fe.mb_h == old(s).fe.mb_h,
    {
        if !(self.p.rd_skip && s.census.passes(self.p.rd_skip_min_free)) {
            let ghost s0 = *s;
            let ghost (gx, gy) = (mb_x as int, mb_y as int);
            let (goal, forced): (Shape, bool) = self.transplant(&s.fe, mb_x, mb_y, shape);
            s.score.place(forced);
            self.price_rival(s, mb_x, mb_y, &goal);
            let ghost b = s.fe;
            self.code_now(s, mb_x, mb_y, &goal, Ghost(n));
            assert(self.priced(
                s0.fe,
                b,
                gx,
                gy,
                goal@,
                s0.score.placed(self.places(s0.fe, gx, gy)),
                s.score,
            ));
            return;
        }
        let cp: [[u8; 64]; 2] = s.fe.skip_predict_chroma(self.k, mb_x, mb_y, pr.mv);
        let ssd: i64 = s.fe.pred_ssd(self.sy, self.su, self.sv, mb_x, mb_y, &pr.y, &cp);
        let at_once: bool = match self.p.skip_ssd {
            Some(v) => ssd <= v,
            None => false,
        };
        if at_once {
            self.skip_now(s, mb_x, mb_y, pr, &cp, Ghost(n));
        } else {
            self.weigh(s, mb_x, mb_y, pr, &cp, ssd, shape, Ghost(n));
        }
    }
}

/// One macroblock more has been looked at.
pub open spec fn looked(c: SkipCensus) -> SkipCensus {
    SkipCensus { seen: (c.seen + 1) as u64, ..c }
}

/// One skip more lost nothing.
pub open spec fn freed(c: SkipCensus) -> SkipCensus {
    SkipCensus { free: (c.free + 1) as u64, ..c }
}

impl<'a, K: Kernels> PEnv<'a, K> {
    /// The frame when macroblock `(mb_x, mb_y)` is begun.
    pub open spec fn at_mb(&self, fe: FrameEncoder, mb_x: int, mb_y: int) -> FrameEncoder {
        begun(fe, self.qps@[grid::cell(fe.mb_w as int, mb_x, mb_y)])
    }

    /// A macroblock that is not skipped, coded as was decided.
    pub open spec fn coded_step(
        &self,
        a: FrameEncoder,
        s: PState,
        t: PState,
        mb_x: int,
        mb_y: int,
        mv: (i32, i32),
        sad: u32,
        choice: Option<ShapeView>,
    ) -> bool {
        exists|c: FrameEncoder|
            {
                &&& #[trigger] noted(a, c, grid::cell(a.mb_w as int, mb_x, mb_y), false, sad)
                &&& match choice {
                    None => self.intra_step(c, s, t, mb_x, mb_y),
                    Some(shape) => self.shape_step(c, s, t, mb_x, mb_y, mv, sad, shape),
                }
            }
    }

    /// A macroblock of a P slice with references, after its skip was probed.
    pub open spec fn probed_step(
        &self,
        s: PState,
        t: PState,
        mb_x: int,
        mb_y: int,
        mv: (i32, i32),
        free: bool,
        sad: u32,
    ) -> bool {
        let a = self.at_mb(s.fe, mb_x, mb_y);
        let i = grid::cell(a.mb_w as int, mb_x, mb_y);
        let census = looked(s.census);
        if free {
            &&& self.skips(a, t.fe, mb_x, mb_y, mv, sad)
            &&& skip_counted(s, t, i)
            &&& t.census == freed(census)
            &&& t.me == s.me
        } else if greedy(*self.p, a, census, sad, mb_x, mb_y) {
            &&& self.skips(a, t.fe, mb_x, mb_y, mv, sad)
            &&& skip_counted(s, t, i)
            &&& t.census == census
            &&& t.me == s.me
        } else {
            let b = measured(a, self.p.satd_var, self.sy@, mb_x, mb_y);
            let (choice, me) = self.decided(&b, s.me, mb_x, mb_y);
            &&& t.census == census
            &&& t.me == me
            &&& self.coded_step(b, s, t, mb_x, mb_y, mv, sad, choice)
        }
    }

    /// Macroblock `(mb_x, mb_y)` is coded or skipped.
    pub open spec fn step(&self, s: PState, t: PState, mb_x: int, mb_y: int) -> bool {
        let a = self.at_mb(s.fe, mb_x, mb_y);
        if self.is_p && self.refs@.len() > 0 {
            exists|pr: Probe|
                #[trigger] pr.tells(*self.k, a, self.sy@, self.su@, self.sv@, mb_x, mb_y)
                    && self.probed_step(s, t, mb_x, mb_y, pr.mv, pr.free, pr.sad)
        } else {
            self.intra_step(a, s, t, mb_x, mb_y) && t.me == s.me && t.census == s.census
        }
    }

    /// Set the QPs of a macroblock.
    fn begin(&self, fe: &mut FrameEncoder, mb_x: usize, mb_y: usize)
        requires
            frame_ok(*old(fe)),
            self.wf(*old(fe)),
            old(fe).has_mb(mb_x as int, mb_y as int),
        ensures
            *final(fe) == self.at_mb(*old(fe), mb_x as int, mb_y as int),
            frame_ok(*final(fe)),
            self.wf(*final(fe)),
            final(fe).qp <= 51,
    {
        let w: usize = fe.mb_w;
        proof {
            grid::lemma_cell(fe.mb_w as int, fe.mb_h as int, mb_x as int, mb_y as int);
        }
        let q: u8 = self.qps[grid::cell_at(w, mb_x, mb_y, self.qps.len())];
        fe.qp = q;
        fe.qpc = chroma_qp(q);
    }

    /// Choose the measure of a macroblock.
    fn measure(&self, fe: &mut FrameEncoder, mb_x: usize, mb_y: usize)
        requires
            frame_ok(*old(fe)),
            self.wf(*old(fe)),
            old(fe).has_mb(mb_x as int, mb_y as int),
        ensures
            *final(fe) == measured(
                *old(fe),
                self.p.satd_var,
                self.sy@,
                mb_x as int,
                mb_y as int,
            ),
            frame_ok(*final(fe)),
            self.wf(*final(fe)),
    {
        if fe.fast {
            proof {
                interplan::lemma_source(*fe, self.sy@, 16, mb_x, mb_y);
            }
            let v: bool = match self.p.satd_var {
                Some(t) => mb_variance(fe, self.sy, mb_x, mb_y) >= t,
                None => false,
            };
            fe.mb_use_satd = v;
        }
    }

    /// Code a macroblock as was decided.
    fn code_choice(
        &self,
        s: &mut PState,
        mb_x: usize,
        mb_y: usize,
        pr: &Probe,
        choice: Option<Shape>,
        Ghost(n): Ghost<int>,
    )
        requires
            old(s).wf(n),
            n < 0xffff_ffff,
            self.wf(old(s).fe),
            self.refs@.len() >= 1,
            old(s).fe.has_mb(mb_x as int, mb_y as int),
            pr.y@ == skip::skip_luma(*self.k, mb_x as int, mb_y as int, pr.mv),
            choice matches Some(f) ==> f.wf(self.refs@.len() as int) && f.subs@
                == trial::whole_quarters(),
        ensures
            self.coded_step(
                old(s).fe,
                *old(s),
                *final(s),
                mb_x as int,
                mb_y as int,
                pr.mv,
                pr.sad,
                match choice {
                    None => None,
                    Some(f) => Some(f@),
                },
            ),
            final(s).wf(n + 1),
            final(s).me == old(s).me,
            final(s).census == old(s).census,
            final(s).fe.mb_w == old(s).fe.mb_w && final(s).fe.mb_h == old(s).fe.mb_h,
    {
        let ghost s0 = *s;
        note(&mut s.fe, mb_x, mb_y, false, pr.sad);
        let ghost c = s.fe;
        proof {
            self.lemma_same_size(s0.fe, c);
        }
        assert(frame_ok(c));
        assert(noted(
            s0.fe,
            c,
            grid::cell(s0.fe.mb_w as int, mb_x as int, mb_y as int),
            false,
            pr.sad,
        ));
        match choice {
            None => self.code_intra(s, mb_x, mb_y, Ghost(n)),
            Some(shape) => self.code_shape(s, mb_x, mb_y, pr, &shape, Ghost(n)),
        }
    }

    /// Code or skip a macroblock of a P slice with references.
    #[verifier::spinoff_prover]
    #[verifier::rlimit(60)]
    fn p_mb(&self, s: &mut PState, mb_x: usize, mb_y: usize, Ghost(n): Ghost<int>)
        requires
            old(s).wf(n),
            old(s).census.seen <= n,
            n < 0xffff_ffff,
            self.wf(old(s).fe),
            self.is_p,
            self.refs@.len() >= 1,
            old(s).fe.has_mb(mb_x as int, mb_y as int),
        ensures
            final(s).census.seen <= n + 1,
            self.step(*old(s), *final(s), mb_x as int, mb_y as int),
            final(s).wf(n + 1),
            self.wf(final(s).fe),
            final(s).fe.mb_w == old(s).fe.mb_w && final(s).fe.mb_h == old(s).fe.mb_h,
    {
        let ghost s0 = *s;
        let ghost (gx, gy) = (mb_x as int, mb_y as int);
        self.begin(&mut s.fe, mb_x, mb_y);
        let ghost a = s.fe;
        s.census = SkipCensus { free: s.census.free, seen: s.census.seen + 1, learn: s.census.learn };
        let pr: Probe = probe_skip(self.k, &s.fe, self.sy, self.su, self.sv, mb_x, mb_y);
        assert(pr.tells(*self.k, a, self.sy@, self.su@, self.sv@, gx, gy));
        if pr.free {
            self.skip_now(s, mb_x, mb_y, &pr, &pr.c, Ghost(n));
            s.census = SkipCensus {
                free: s.census.free + 1,
                seen: s.census.seen,
                learn: s.census.learn,
            };
            assert(self.probed_step(s0, *s, gx, gy, pr.mv, pr.free, pr.sad));
            proof {
                self.lemma_same_size(s0.fe, s.fe);
            }
            return;
        }
        if !s.fe.fast && self.p.greedy_skip && (self.p.greedy_min_free == 0 || s.census.passes(
            self.p.greedy_min_free,
        )) && pr.sad < s.fe.pred_skip_sad(mb_x, mb_y) {
            self.skip_now(s, mb_x, mb_y, &pr, &pr.c, Ghost(n));
            assert(self.probed_step(s0, *s, gx, gy, pr.mv, pr.free, pr.sad));
            proof {
                self.lemma_same_size(s0.fe, s.fe);
            }
            return;
        }
        self.measure(&mut s.fe, mb_x, mb_y);
        let ghost b = s.fe;
        let choice: Option<Shape> = self.decide(&s.fe, &mut s.me, mb_x, mb_y);
        self.code_choice(s, mb_x, mb_y, &pr, choice, Ghost(n));
        assert(self.probed_step(s0, *s, gx, gy, pr.mv, pr.free, pr.sad));
        proof {
            self.lemma_same_size(s0.fe, s.fe);
        }
    }
}

/// The macroblocks of a slice one after the other, each from the state before it.
pub open spec fn slice_traced<'a, K: Kernels>(
    env: PEnv<'a, K>,
    trace: Seq<PState>,
    n: int,
) -> bool {
    &&& trace.len() == n + 1
    &&& forall|i: int|
        0 <= i < n ==> #[trigger] traced_at(env, trace, i)
}

/// Macroblock `i` goes from one state of the trace to the next.
pub open spec fn traced_at<'a, K: Kernels>(env: PEnv<'a, K>, trace: Seq<PState>, i: int) -> bool {
    let w = trace[i].fe.mb_w as int;
    env.step(trace[i], trace[i + 1], i % w, i / w)
}

/// The end of a slice: in a P slice, the macroblocks skipped last are counted.
pub open spec fn slice_ended(s: PState, t: PState, is_p: bool) -> bool {
    &&& t.out@ == (if is_p && s.run > 0 {
        s.out@ + seq![ElemView::Ue(s.run)]
    } else {
        s.out@
    })
    &&& t == (PState { out: t.out, ..s })
}

/// Code all macroblocks of an I or P slice in raster order.
#[verifier::rlimit(50)]
pub fn encode_slice_data<'a, K: Kernels>(env: &PEnv<'a, K>, s: &mut PState)
    requires
        old(s).wf(0),
        old(s).census.seen == 0,
        env.wf(old(s).fe),
    ensures
        exists|trace: Seq<PState>|
            {
                &&& #[trigger] slice_traced(*env, trace, old(s).fe.mb_w * old(s).fe.mb_h)
                &&& trace[0] == *old(s)
                &&& slice_ended(trace.last(), *final(s), env.is_p)
            },
        frame_ok(final(s).fe),
{
    let ghost s0 = *s;
    let (w, h): (usize, usize) = (s.fe.mb_w, s.fe.mb_h);
    let ghost mut trace: Seq<PState> = seq![*s];
    let n: usize = s.qpy.len();
    let mut i: usize = 0;
    let (mut x, mut y): (usize, usize) = (0, 0);
    while i < n
        invariant
            s0 == *old(s),
            w == s.fe.mb_w && h == s.fe.mb_h,
            w == s0.fe.mb_w && h == s0.fe.mb_h,
            w >= 1 && h >= 1,
            n == w * h,
            n <= 0xffff_ffff,
            i <= n,
            x < w,
            y <= h,
            i == grid::cell(w as int, x as int, y as int),
            i < n ==> y < h,
            s.wf(i as int),
            s.census.seen <= i,
            env.wf(s.fe),
            slice_traced(*env, trace, i as int),
            trace[0] == s0,
            trace.last() == *s,
        decreases n - i,
    {
        proof {
            grid::lemma_cell(w as int, h as int, x as int, y as int);
        }
        let ghost before = *s;
        if env.is_p && env.refs.len() > 0 {
            env.p_mb(s, x, y, Ghost(i as int));
        } else {
            env.begin(&mut s.fe, x, y);
            let ghost a = s.fe;
            env.code_intra(s, x, y, Ghost(i as int));
            proof {
                env.lemma_same_size(a, s.fe);
            }
            assert(env.step(before, *s, x as int, y as int));
        }
        proof {
            let old_trace = trace;
            trace = trace.push(*s);
            assert forall|j: int| 0 <= j < i + 1 implies #[trigger] traced_at(*env, trace, j) by {
                if j < i {
                    assert(traced_at(*env, old_trace, j));
                    assert(trace[j] == old_trace[j] && trace[j + 1] == old_trace[j + 1]);
                } else {
                    assert(trace[j] == before && trace[j + 1] == *s);
                }
            }
        }
        i = i + 1;
        if x + 1 < w {
            x = x + 1;
        } else {
            x = 0;
            y = y + 1;
            assert(y * w == (y - 1) * w + w) by (nonlinear_arith);
        }
        proof {
            assert(i < n ==> y < h) by {
                if y >= h {
                    assert(y * w >= h * w) by (nonlinear_arith)
                        requires
                            y >= h,
                            w >= 1,
                    ;
                    assert(w * h == h * w) by (nonlinear_arith);
                }
            }
        }
    }
    if env.is_p && s.run > 0 {
        let q: u32 = s.run;
        s.out.ue(q);
    }
    assert(slice_ended(trace.last(), *s, env.is_p));
}

} // verus!
