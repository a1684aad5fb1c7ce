//! Planning an inter macroblock: its motion, its prediction, its residual, and what it
//! leaves in the frame.
use vstd::prelude::*;
use crate::distortion;
use crate::frame::FrameEncoder;
use crate::kernels;
use crate::kernels::{rd_less, Kernels, Rd};
use crate::mbstate;
use crate::mbstate::RefFrame;
use crate::motion;
use crate::partition;
use crate::partition::{
    form_prediction,
    list_b_parts,
    list_direct_parts,
    list_p_parts,
    list_sub_parts,
    BInter,
    MotionPart,
};
use crate::pixels;
use crate::plan;
use crate::plan::InterPlan;
use crate::quant;
use crate::quant::{
    chroma_pattern_of, code_chroma, code_luma, luma_bits, luma_pattern_of, luma_samples_of,
    plan_inter8_luma, square_ssd, ChromaCode, ChromaWay, Luma8,
};
use crate::rect;
use crate::rect::{fill_rect, put_rect};

verus! {

/// The residual of an inter macroblock.
pub struct InterResidual {
    pub cbp: u32,
    pub q_blocks: [[i32; 16]; 16],
    pub c_dc_levels: [[i32; 4]; 2],
    pub c_q: [[[i32; 16]; 4]; 2],
    pub t8x8: bool,
    pub q8: [[i32; 64]; 4],
}

/// The source planes have the coded size.
pub open spec fn source_ok(fe: FrameEncoder, sy: Seq<u8>, su: Seq<u8>, sv: Seq<u8>) -> bool {
    &&& sy.len() == fe.rec_y@.len()
    &&& su.len() == fe.rec_u@.len()
    &&& sv.len() == fe.rec_v@.len()
}

/// The squares of a macroblock lie in planes of the coded size.
pub proof fn lemma_source(fe: FrameEncoder, s: Seq<u8>, k: int, mb_x: usize, mb_y: usize)
    requires
        fe.wf(),
        fe.has_mb(mb_x as int, mb_y as int),
        k == 8 || k == 16,
        s.len() == (k * fe.mb_w) * (k * fe.mb_h),
    ensures
        quant::square_fits(
            s,
            (k * fe.mb_w) as usize,
            (k * mb_x) as usize,
            (k * mb_y) as usize,
            k,
        ),
{
    let (w, h, y) = (k * fe.mb_w, k * fe.mb_h, k * mb_y);
    assert(y * w + (k - 1) * w + w <= w * h) by (nonlinear_arith)
        requires
            y + k <= h,
            w >= 0,
    ;
}

/// How the chroma of an inter macroblock is coded.
pub open spec fn inter_way(fe: FrameEncoder) -> ChromaWay {
    ChromaWay { on: fe.rdoq_on, qpc: fe.qpc, dz: 6, intra: false }
}

/// The squared distance of coded samples of macroblock `(lx, ly)` to the source.
pub open spec fn mb_distance(rec: Seq<u8>, sy: Seq<u8>, cw: usize, lx: usize, ly: usize) -> int {
    pixels::ssd(rec, pixels::dense(16), sy, pixels::placed(cw, lx, ly), 16, 256)
}

/// The 8x8 transform may be used: no partition is smaller.
pub open spec fn may_8x8(fe: FrameEncoder, flat: bool) -> bool {
    fe.transform_8x8 && fe.inter8x8 && flat
}

/// The 8x8 transform codes something and costs less than the 4x4 one.
pub open spec fn takes_8x8<K: Kernels>(
    k: K,
    fe: FrameEncoder,
    sy: Seq<u8>,
    mb_x: int,
    mb_y: int,
    pred: Seq<u8>,
    q4: Seq<[i32; 16]>,
    q8: Seq<[i32; 64]>,
) -> bool {
    let (lx, ly) = ((16 * mb_x) as usize, (16 * mb_y) as usize);
    let rec4 = quant::luma_samples(k, q4, fe.qp, pred);
    let rec8 = quant::luma8_samples(k, q8, fe.qp, pred);
    &&& quant::luma8_pattern(q8) > 0
    &&& kernels::rd_less_of(
        k,
        fe.qp,
        Rd {
            ssd: mb_distance(rec8, sy, fe.cw, lx, ly) as i64,
            rate: (quant::luma8_rate(q8, 4) + 16 + fe.inter8_pen) as i64,
        },
        Rd {
            ssd: mb_distance(rec4, sy, fe.cw, lx, ly) as i64,
            rate: (quant::luma_rate(q4, 16) + 16) as i64,
        },
    )
}

impl InterResidual {
    /// This is the residual of macroblock `(mb_x, mb_y)` against a prediction; `flat` tells
    /// that no partition is smaller than 8x8.
    pub open spec fn codes<K: Kernels>(
        self,
        k: K,
        fe: FrameEncoder,
        sy: Seq<u8>,
        su: Seq<u8>,
        sv: Seq<u8>,
        mb_x: int,
        mb_y: int,
        pred: Seq<u8>,
        pu: Seq<u8>,
        pv: Seq<u8>,
        flat: bool,
    ) -> bool {
        let (lx, ly) = ((16 * mb_x) as usize, (16 * mb_y) as usize);
        let (cx, cy) = ((8 * mb_x) as usize, (8 * mb_y) as usize);
        let way = inter_way(fe);
        &&& forall|i: int|
            0 <= i < 16 ==> (#[trigger] self.q_blocks@[i])@ == quant::luma_levels(
                k,
                fe.rdoq_on,
                sy,
                fe.cw,
                lx,
                ly,
                pred,
                fe.qp,
                6,
                i,
            )
        &&& !may_8x8(fe, flat) ==> !self.t8x8
        &&& may_8x8(fe, flat) ==> exists|q8: [[i32; 64]; 4]|
            {
                &&& forall|b: int|
                    0 <= b < 4 ==> (#[trigger] q8@[b])@ == quant::luma8_levels(
                        k,
                        sy,
                        fe.cw,
                        lx,
                        ly,
                        pred,
                        fe.qp,
                        6,
                        b,
                    )
                &&& self.t8x8 == #[trigger] takes_8x8(
                    k,
                    fe,
                    sy,
                    mb_x,
                    mb_y,
                    pred,
                    self.q_blocks@,
                    q8@,
                )
                &&& self.t8x8 ==> self.q8 == q8
            }
        &&& !self.t8x8 ==> forall|b: int, j: int|
            0 <= b < 4 && 0 <= j < 64 ==> #[trigger] self.q8@[b]@[j] == 0
        &&& self.c_dc_levels@[0]@ == quant::chroma_dc(k, way, su, fe.ccw, cx, cy, pu)
        &&& self.c_dc_levels@[1]@ == quant::chroma_dc(k, way, sv, fe.ccw, cx, cy, pv)
        &&& forall|i: int|
            0 <= i < 4 ==> (#[trigger] self.c_q@[0]@[i])@ == quant::chroma_levels(
                k,
                way,
                su,
                fe.ccw,
                cx,
                cy,
                pu,
                i,
            )
        &&& forall|i: int|
            0 <= i < 4 ==> (#[trigger] self.c_q@[1]@[i])@ == quant::chroma_levels(
                k,
                way,
                sv,
                fe.ccw,
                cx,
                cy,
                pv,
                i,
            )
        &&& quant::ac_only(self.c_q@[0]@, 4)
        &&& quant::ac_only(self.c_q@[1]@, 4)
        &&& self.cbp == self.luma_cbp() + 16 * self.chroma_cbp()
    }

    /// The luma pattern, by the transform that is used.
    pub open spec fn luma_cbp(self) -> int {
        if self.t8x8 {
            quant::luma8_pattern(self.q8@)
        } else {
            quant::luma_pattern(self.q_blocks@)
        }
    }

    /// Some AC level of a plane is not zero.
    pub open spec fn any_ac(self, c: int) -> bool {
        let q = self.c_q@[c]@;
        quant::any_level(q[0]@, 1) || quant::any_level(q[1]@, 1) || quant::any_level(q[2]@, 1)
            || quant::any_level(q[3]@, 1)
    }

    /// The chroma pattern.
    pub open spec fn chroma_cbp(self) -> int {
        if self.any_ac(0) || self.any_ac(1) {
            2
        } else if quant::any_level(self.c_dc_levels@[0]@, 0) || quant::any_level(
            self.c_dc_levels@[1]@,
            0,
        ) {
            1
        } else {
            0
        }
    }

    /// The frame after the residual: the samples that the levels stand for, and no intra
    /// modes.
    pub open spec fn leaves<K: Kernels>(
        self,
        k: K,
        a: FrameEncoder,
        b: FrameEncoder,
        mb_x: int,
        mb_y: int,
        pred: Seq<u8>,
        pu: Seq<u8>,
        pv: Seq<u8>,
    ) -> bool {
        let w = a.mb_w as int;
        let luma = if self.t8x8 {
            quant::luma8_samples(k, self.q8@, a.qp, pred)
        } else {
            quant::luma_samples(k, self.q_blocks@, a.qp, pred)
        };
        &&& b.rec_y@ == rect::put_block(a.rec_y@, 16 * w, 16 * mb_x, 16 * mb_y, 16, 16, luma)
        &&& b.rec_u@ == rect::put_block(
            a.rec_u@,
            8 * w,
            8 * mb_x,
            8 * mb_y,
            8,
            8,
            quant::chroma_samples(k, a.qpc, self.c_dc_levels@[0]@, self.c_q@[0]@, pu),
        )
        &&& b.rec_v@ == rect::put_block(
            a.rec_v@,
            8 * w,
            8 * mb_x,
            8 * mb_y,
            8,
            8,
            quant::chroma_samples(k, a.qpc, self.c_dc_levels@[1]@, self.c_q@[1]@, pv),
        )
        &&& b.modes_y@ == rect::fill(a.modes_y@, 4 * w, 4 * mb_x, 4 * mb_y, 4, 4, 2u8)
        &&& b == (FrameEncoder {
            rec_y: b.rec_y,
            rec_u: b.rec_u,
            rec_v: b.rec_v,
            modes_y: b.modes_y,
            ..a
        })
    }
}

impl FrameEncoder {
    /// Code the residual of an inter macroblock and leave its samples in the frame.
    #[verifier::spinoff_prover]
    #[verifier::rlimit(60)]
    pub fn plan_inter_residual<K: Kernels>(
        &mut self,
        k: &K,
        sy: &[u8],
        su: &[u8],
        sv: &[u8],
        mb_x: usize,
        mb_y: usize,
        pred_y: &[u8; 256],
        pred_c: &[[u8; 64]; 2],
        flat: bool,
    ) -> (r: InterResidual)
        requires
            kernels::steady(*k),
            old(self).wf(),
            old(self).has_mb(mb_x as int, mb_y as int),
            source_ok(*old(self), sy@, su@, sv@),
            old(self).inter8_pen <= 0x7fff_0000_0000_0000,
        ensures
            r.codes(
                *k,
                *old(self),
                sy@,
                su@,
                sv@,
                mb_x as int,
                mb_y as int,
                pred_y@,
                pred_c@[0]@,
                pred_c@[1]@,
                flat,
            ),
            r.leaves(
                *k,
                *old(self),
                *final(self),
                mb_x as int,
                mb_y as int,
                pred_y@,
                pred_c@[0]@,
                pred_c@[1]@,
            ),
            r.cbp < 48,
            r.t8x8 ==> plan::marked_blocks_coded(r.q8@, r.cbp as int % 16),
            final(self).wf(),
    {
        let (mw, mh): (usize, usize) = (self.mb_w, self.mb_h);
        let (lx, ly): (usize, usize) = (16 * mb_x, 16 * mb_y);
        let (cx, cy): (usize, usize) = (8 * mb_x, 8 * mb_y);
        proof {
            lemma_source(*self, sy@, 16, mb_x, mb_y);
            lemma_source(*self, su@, 8, mb_x, mb_y);
            lemma_source(*self, sv@, 8, mb_x, mb_y);
        }
        let q_blocks: [[i32; 16]; 16] = code_luma(
            k,
            self.rdoq_on,
            sy,
            self.cw,
            lx,
            ly,
            pred_y,
            self.qp,
            6,
        );
        let rec4: Vec<u8> = luma_samples_of(k, &q_blocks, self.qp, pred_y);
        let ghost mut found: [[i32; 64]; 4] = arbitrary();
        let mut eight: Option<Luma8> = None;
        if self.transform_8x8 && self.inter8x8 && flat {
            let e: Luma8 = plan_inter8_luma(k, sy, self.cw, lx, ly, pred_y, self.qp);
            let ssd4: i64 = square_ssd(&rec4, sy, self.cw, lx, ly);
            let rate4: i64 = luma_bits(&q_blocks);
            let better: bool = e.cbp > 0 && rd_less(
                k,
                self.qp,
                Rd { ssd: e.ssd, rate: e.rate + 16 + self.inter8_pen },
                Rd { ssd: ssd4, rate: rate4 + 16 },
            );
            proof {
                quant::lemma_marked(e.q@);
                found = e.q;
            }
            assert(better == takes_8x8(
                *k,
                *self,
                sy@,
                mb_x as int,
                mb_y as int,
                pred_y@,
                q_blocks@,
                found@,
            ));
            if better {
                eight = Some(e);
            }
        }
        let way: ChromaWay = ChromaWay {
            on: self.rdoq_on,
            qpc: self.qpc,
            dz: 6,
            intra: false,
        };
        let u: ChromaCode = code_chroma(k, way, su, self.ccw, cx, cy, &pred_c[0]);
        let v: ChromaCode = code_chroma(k, way, sv, self.ccw, cx, cy, &pred_c[1]);
        let cbp_chroma: u32 = chroma_pattern_of(&u, &v);
        put_rect(&mut self.rec_u, 8 * mw, 8 * mh, cx, cy, 8, 8, &u.rec);
        put_rect(&mut self.rec_v, 8 * mw, 8 * mh, cx, cy, 8, 8, &v.rec);
        fill_rect(&mut self.modes_y, 4 * mw, 4 * mh, 4 * mb_x, 4 * mb_y, 4, 4, 2);
        let r: InterResidual = match eight {
            Some(e) => {
                put_rect(&mut self.rec_y, 16 * mw, 16 * mh, lx, ly, 16, 16, &e.rec);
                InterResidual {
                    cbp: e.cbp + 16 * cbp_chroma,
                    q_blocks,
                    c_dc_levels: [u.dc, v.dc],
                    c_q: [u.q, v.q],
                    t8x8: true,
                    q8: e.q,
                }
            },
            None => {
                put_rect(&mut self.rec_y, 16 * mw, 16 * mh, lx, ly, 16, 16, &rec4);
                InterResidual {
                    cbp: luma_pattern_of(&q_blocks) + 16 * cbp_chroma,
                    q_blocks,
                    c_dc_levels: [u.dc, v.dc],
                    c_q: [u.q, v.q],
                    t8x8: false,
                    q8: [[0; 64]; 4],
                }
            },
        };
        assert(may_8x8(*old(self), flat) ==> r.t8x8 == takes_8x8(
            *k,
            *old(self),
            sy@,
            mb_x as int,
            mb_y as int,
            pred_y@,
            r.q_blocks@,
            found@,
        ));
        assert(r.any_ac(0) == u.any_ac());
        assert(r.any_ac(1) == v.any_ac());
        assert(r.cbp == r.luma_cbp() + 16 * r.chroma_cbp());
        assert(!r.t8x8 ==> forall|b: int, j: int|
            0 <= b < 4 && 0 <= j < 64 ==> #[trigger] r.q8@[b]@[j] == 0);
        r
    }
}

/// Two frames are coded with the same options.
pub open spec fn same_options(a: FrameEncoder, b: FrameEncoder) -> bool {
    &&& a.mb_w == b.mb_w
    &&& a.mb_h == b.mb_h
    &&& a.cw == b.cw
    &&& a.ccw == b.ccw
    &&& a.qp == b.qp
    &&& a.qpc == b.qpc
    &&& a.bi_w == b.bi_w
    &&& a.rdoq_on == b.rdoq_on
    &&& a.transform_8x8 == b.transform_8x8
    &&& a.inter8x8 == b.inter8x8
    &&& a.inter8_pen == b.inter8_pen
}

/// The residual depends on the frame only by its options.
proof fn lemma_same_codes<K: Kernels>(
    r: InterResidual,
    k: K,
    a: FrameEncoder,
    b: FrameEncoder,
    sy: Seq<u8>,
    su: Seq<u8>,
    sv: Seq<u8>,
    mb_x: int,
    mb_y: int,
    pred: Seq<u8>,
    pu: Seq<u8>,
    pv: Seq<u8>,
    flat: bool,
)
    requires
        same_options(a, b),
        r.codes(k, a, sy, su, sv, mb_x, mb_y, pred, pu, pv, flat),
    ensures
        r.codes(k, b, sy, su, sv, mb_x, mb_y, pred, pu, pv, flat),
{
    assert(inter_way(a) == inter_way(b));
    assert forall|q8: [[i32; 64]; 4]|
        takes_8x8(k, a, sy, mb_x, mb_y, pred, r.q_blocks@, #[trigger] q8@) == takes_8x8(
            k,
            b,
            sy,
            mb_x,
            mb_y,
            pred,
            r.q_blocks@,
            q8@,
        ) by {}
    if may_8x8(a, flat) {
        let (lx, ly) = ((16 * mb_x) as usize, (16 * mb_y) as usize);
        let q8 = choose|q8: [[i32; 64]; 4]|
            {
                &&& forall|b: int|
                    0 <= b < 4 ==> (#[trigger] q8@[b])@ == quant::luma8_levels(
                        k,
                        sy,
                        a.cw,
                        lx,
                        ly,
                        pred,
                        a.qp,
                        6,
                        b,
                    )
                &&& r.t8x8 == #[trigger] takes_8x8(
                    k,
                    a,
                    sy,
                    mb_x,
                    mb_y,
                    pred,
                    r.q_blocks@,
                    q8@,
                )
                &&& r.t8x8 ==> r.q8 == q8
            };
        assert(r.t8x8 == takes_8x8(k, b, sy, mb_x, mb_y, pred, r.q_blocks@, q8@));
    }
}

/// The macroblock takes its motion from its neighbours.
pub open spec fn is_direct(bspec: Option<BInter>) -> bool {
    bspec matches Some(b) && b.mvmode == 0 && b.dir == 0
}

/// The direct motion of the sixteen blocks of a macroblock.
pub open spec fn direct_blocks(
    m: motion::MotionView,
    l1: RefFrame,
    mb_x: int,
    mb_y: int,
) -> Seq<(i32, (i32, i32), i32, (i32, i32))> {
    Seq::new(16, |i: int| mbstate::direct_block(m, l1, mb_x, mb_y, i % 4, i / 4))
}

/// The motion with that of a direct macroblock in it.
pub open spec fn direct_moved(
    m: motion::MotionView,
    mb_x: int,
    mb_y: int,
    d: Seq<(i32, (i32, i32), i32, (i32, i32))>,
) -> motion::MotionView {
    let (w, x, y) = (m.w, 4 * mb_x, 4 * mb_y);
    motion::MotionView {
        inter: rect::fill(m.inter, w, x, y, 4, 4, true),
        coded: rect::fill(m.coded, w, x, y, 4, 4, true),
        ref0: rect::put_block(m.ref0, w, x, y, 4, 4, Seq::new(16, |i: int| d[i].0)),
        mv0: rect::put_block(m.mv0, w, x, y, 4, 4, Seq::new(16, |i: int| d[i].1)),
        ref1: rect::put_block(m.ref1, w, x, y, 4, 4, Seq::new(16, |i: int| d[i].2)),
        mv1: rect::put_block(m.mv1, w, x, y, 4, 4, Seq::new(16, |i: int| d[i].3)),
        ..m
    }
}

/// The quarters of a P macroblock are split further.
pub open spec fn is_split(bspec: Option<BInter>, mode: u8, sub_types: Seq<u8>) -> bool {
    bspec is None && mode == 3 && !no_sub_types(sub_types)
}

/// No quarter is split.
pub open spec fn no_sub_types(s: Seq<u8>) -> bool {
    s[0] == 0 && s[1] == 0 && s[2] == 0 && s[3] == 0
}

/// The partitions from which the prediction is formed.
pub open spec fn used_parts(
    m: motion::MotionView,
    l1: RefFrame,
    mb_x: int,
    mb_y: int,
    mode: u8,
    parts: Seq<(i32, (i32, i32))>,
    bspec: Option<BInter>,
    sub_types: Seq<u8>,
) -> Seq<MotionPart> {
    if is_direct(bspec) {
        partition::direct_parts(direct_blocks(m, l1, mb_x, mb_y))
    } else if let Some(b) = bspec {
        partition::b_parts(b)
    } else if is_split(bspec, mode, sub_types) {
        partition::sub_parts(sub_types, parts, 4)
    } else {
        partition::p_parts(mode, parts)
    }
}

/// The motion after the macroblock.
pub open spec fn motion_after(
    m: motion::MotionView,
    l1: RefFrame,
    mb_x: int,
    mb_y: int,
    mode: u8,
    parts: Seq<(i32, (i32, i32))>,
    bspec: Option<BInter>,
    sub_types: Seq<u8>,
) -> motion::MotionView {
    if is_direct(bspec) {
        direct_moved(m, mb_x, mb_y, direct_blocks(m, l1, mb_x, mb_y))
    } else {
        partition::moved(
            m,
            bspec is Some,
            mb_x,
            mb_y,
            used_parts(m, l1, mb_x, mb_y, mode, parts, bspec, sub_types),
            0,
        )
    }
}

/// The vector differences of the macroblock; a direct one has none.
pub open spec fn differences_of(
    m: motion::MotionView,
    l1: RefFrame,
    mb_x: int,
    mb_y: int,
    mode: u8,
    parts: Seq<(i32, (i32, i32))>,
    bspec: Option<BInter>,
    sub_types: Seq<u8>,
) -> Seq<(int, int)> {
    if is_direct(bspec) {
        Seq::empty()
    } else {
        partition::coded_differences(
            m,
            bspec is Some,
            mb_x,
            mb_y,
            used_parts(m, l1, mb_x, mb_y, mode, parts, bspec, sub_types),
        )
    }
}

/// The reference that is coded for partition or quarter `i`.
pub open spec fn ref_of(
    mode: u8,
    parts: Seq<(i32, (i32, i32))>,
    bspec: Option<BInter>,
    sub_types: Seq<u8>,
    i: int,
) -> i32 {
    if bspec is Some {
        0
    } else if is_split(bspec, mode, sub_types) {
        parts[partition::quarter_start(sub_types, i)].0
    } else if i < motion::rects(mode as int).len() {
        parts[i].0
    } else {
        0
    }
}

/// What is asked of the vectors, references and pictures that an inter macroblock is planned
/// with.
pub open spec fn inter_ok(
    fe: FrameEncoder,
    l1: RefFrame,
    mode: u8,
    parts: Seq<(i32, (i32, i32))>,
    bspec: Option<BInter>,
    sub_types: Seq<u8>,
) -> bool {
    &&& distortion::weights_ok(fe.bi_w)
    &&& l1.mv@.len() == l1.ref_idx@.len()
    &&& l1.w4 == 0 || l1.w4 == 4 * fe.mb_w
    &&& bspec is None ==> parts.len() >= if is_split(bspec, mode, sub_types) {
        partition::quarter_start(sub_types, 4)
    } else {
        motion::rects(mode as int).len() as int
    }
    &&& forall|i: int| 0 <= i < parts.len() ==> 0 <= (#[trigger] parts[i]).0 <= 127
    &&& forall|i: int| 0 <= i < 4 ==> #[trigger] sub_types[i] <= 3
    &&& fe.inter8_pen <= 0x7fff_0000_0000_0000
}

/// The motion of an inter macroblock: its partitions, their differences and references.
pub struct MotionPlan {
    pub used: Vec<MotionPart>,
    pub mvds: [(i32, i32); 16],
    pub n_mvd: usize,
    pub refs: [i32; 4],
}

/// Only the motion of the frame has changed.
pub open spec fn only_motion(a: FrameEncoder, b: FrameEncoder) -> bool {
    b == (FrameEncoder {
        mv_y: b.mv_y,
        ref_idx_y: b.ref_idx_y,
        mv1_y: b.mv1_y,
        ref_idx1_y: b.ref_idx1_y,
        inter_y: b.inter_y,
        coded_y: b.coded_y,
        ..a
    })
}

impl FrameEncoder {
    /// The motion of a direct macroblock.
    fn plan_direct_motion(&mut self, l1: &RefFrame, mb_x: usize, mb_y: usize) -> (r: MotionPlan)
        requires
            old(self).wf(),
            old(self).has_mb(mb_x as int, mb_y as int),
            l1.mv@.len() == l1.ref_idx@.len(),
            l1.w4 == 0 || l1.w4 == 4 * old(self).mb_w,
        ensures
            ({
                let d = direct_blocks(old(self).motion(), *l1, mb_x as int, mb_y as int);
                &&& r.used@ == partition::direct_parts(d)
                &&& final(self).motion() == direct_moved(
                    old(self).motion(),
                    mb_x as int,
                    mb_y as int,
                    d,
                )
            }),
            partition::written(r.mvds@, r.n_mvd as int, Seq::empty()),
            forall|i: int| 0 <= i < 4 ==> #[trigger] r.refs@[i] == 0,
            partition::rects_ok(r.used@),
            only_motion(*old(self), *final(self)),
            final(self).wf(),
    {
        let ghost m = self.motion();
        let motion: [(i32, (i32, i32), i32, (i32, i32)); 16] = self.b_direct_motion(
            l1,
            mb_x,
            mb_y,
        );
        assert(motion@ =~= direct_blocks(m, *l1, mb_x as int, mb_y as int));
        let used: Vec<MotionPart> = list_direct_parts(&motion);
        self.commit_direct_motion(mb_x, mb_y, &motion);
        proof {
            assert(self.motion() =~= direct_moved(m, mb_x as int, mb_y as int, motion@));
        }
        MotionPlan { used, mvds: [(0, 0); 16], n_mvd: 0, refs: [0; 4] }
    }

    /// The partitions of a P macroblock and their references.
    fn list_parts(
        mode: u8,
        parts: &[(i32, (i32, i32))],
        sub_types: [u8; 4],
    ) -> (r: (Vec<MotionPart>, [i32; 4]))
        requires
            parts@.len() >= if is_split(None, mode, sub_types@) {
                partition::quarter_start(sub_types@, 4)
            } else {
                motion::rects(mode as int).len() as int
            },
        ensures
            r.0@ == (if is_split(None, mode, sub_types@) {
                partition::sub_parts(sub_types@, parts@, 4)
            } else {
                partition::p_parts(mode, parts@)
            }),
            partition::parts_ok(r.0@, false),
            forall|i: int|
                0 <= i < 4 ==> #[trigger] r.1@[i] == ref_of(mode, parts@, None, sub_types@, i),
    {
        if mode == 3 && !(sub_types[0] == 0 && sub_types[1] == 0 && sub_types[2] == 0
            && sub_types[3] == 0) {
            list_sub_parts(&sub_types, parts)
        } else {
            let v: Vec<MotionPart> = list_p_parts(mode, parts);
            let mut refs: [i32; 4] = [0; 4];
            let mut i: usize = 0;
            while i < v.len()
                invariant
                    i <= v@.len() <= 4,
                    v@ == partition::p_parts(mode, parts@),
                    parts@.len() >= v@.len(),
                    forall|j: int| 0 <= j < i ==> #[trigger] refs@[j] == parts@[j].0,
                    forall|j: int| i <= j < 4 ==> #[trigger] refs@[j] == 0,
                decreases v.len() - i,
            {
                refs[i] = parts[i].0;
                i = i + 1;
            }
            (v, refs)
        }
    }

    /// The motion of an inter macroblock, left in the frame.
    pub fn plan_inter_motion(
        &mut self,
        l1: &RefFrame,
        mb_x: usize,
        mb_y: usize,
        mode: u8,
        parts: &[(i32, (i32, i32))],
        bspec: Option<BInter>,
        sub_types: [u8; 4],
    ) -> (r: MotionPlan)
        requires
            old(self).wf(),
            old(self).has_mb(mb_x as int, mb_y as int),
            inter_ok(*old(self), *l1, mode, parts@, bspec, sub_types@),
        ensures
            r.used@ == used_parts(
                old(self).motion(),
                *l1,
                mb_x as int,
                mb_y as int,
                mode,
                parts@,
                bspec,
                sub_types@,
            ),
            final(self).motion() == motion_after(
                old(self).motion(),
                *l1,
                mb_x as int,
                mb_y as int,
                mode,
                parts@,
                bspec,
                sub_types@,
            ),
            partition::written(
                r.mvds@,
                r.n_mvd as int,
                differences_of(
                    old(self).motion(),
                    *l1,
                    mb_x as int,
                    mb_y as int,
                    mode,
                    parts@,
                    bspec,
                    sub_types@,
                ),
            ),
            forall|i: int|
                0 <= i < 4 ==> #[trigger] r.refs@[i] == ref_of(mode, parts@, bspec, sub_types@, i),
            partition::rects_ok(r.used@),
            only_motion(*old(self), *final(self)),
            final(self).wf(),
    {
        match bspec {
            Some(b) => {
                if b.mvmode == 0 && b.dir == 0 {
                    self.plan_direct_motion(l1, mb_x, mb_y)
                } else {
                    let used: Vec<MotionPart> = list_b_parts(&b);
                    let (mvds, n_mvd): ([(i32, i32); 16], usize) = self.plan_motion(
                        true,
                        mb_x,
                        mb_y,
                        &used,
                    );
                    MotionPlan { used, mvds, n_mvd, refs: [0; 4] }
                }
            },
            None => {
                let (used, refs): (Vec<MotionPart>, [i32; 4]) = Self::list_parts(
                    mode,
                    parts,
                    sub_types,
                );
                let (mvds, n_mvd): ([(i32, i32); 16], usize) = self.plan_motion(
                    false,
                    mb_x,
                    mb_y,
                    &used,
                );
                MotionPlan { used, mvds, n_mvd, refs }
            },
        }
    }
}

impl FrameEncoder {
    /// The direct prediction of a B macroblock, and the motion that it is formed from.
    pub fn b_direct<K: Kernels>(&self, k: &K, l1: &RefFrame, mb_x: usize, mb_y: usize) -> (r: (
        [u8; 256],
        [[u8; 64]; 2],
        [(i32, (i32, i32), i32, (i32, i32)); 16],
    ))
        requires
            kernels::steady(*k),
            self.wf(),
            self.has_mb(mb_x as int, mb_y as int),
            distortion::weights_ok(self.bi_w),
            l1.mv@.len() == l1.ref_idx@.len(),
            l1.w4 == 0 || l1.w4 == 4 * self.mb_w,
        ensures
            r.2@ == direct_blocks(self.motion(), *l1, mb_x as int, mb_y as int),
            r.0@ == partition::predicted_plane(
                *k,
                self.bi_w,
                0,
                mb_x as int,
                mb_y as int,
                partition::direct_parts(r.2@),
            ),
            r.1@[0]@ == partition::predicted_plane(
                *k,
                self.bi_w,
                1,
                mb_x as int,
                mb_y as int,
                partition::direct_parts(r.2@),
            ),
            r.1@[1]@ == partition::predicted_plane(
                *k,
                self.bi_w,
                2,
                mb_x as int,
                mb_y as int,
                partition::direct_parts(r.2@),
            ),
    {
        let motion: [(i32, (i32, i32), i32, (i32, i32)); 16] = self.b_direct_motion(
            l1,
            mb_x,
            mb_y,
        );
        assert(motion@ =~= direct_blocks(self.motion(), *l1, mb_x as int, mb_y as int));
        let parts: Vec<MotionPart> = list_direct_parts(&motion);
        let (y, c): ([u8; 256], [[u8; 64]; 2]) = form_prediction(k, self.bi_w, mb_x, mb_y, &parts);
        (y, c, motion)
    }

    /// Plan an inter macroblock: a P macroblock of shape `mode` with a reference and a
    /// vector for each of `parts`, or the B macroblock `bspec`. Its motion and its samples
    /// are left in the frame.
    pub fn plan_inter_mb<K: Kernels>(
        &mut self,
        k: &K,
        l1: &RefFrame,
        sy: &[u8],
        su: &[u8],
        sv: &[u8],
        mb_x: usize,
        mb_y: usize,
        mode: u8,
        parts: &[(i32, (i32, i32))],
        bspec: Option<BInter>,
        sub_types: [u8; 4],
    ) -> (r: InterPlan)
        requires
            kernels::steady(*k),
            old(self).wf(),
            old(self).has_mb(mb_x as int, mb_y as int),
            source_ok(*old(self), sy@, su@, sv@),
            inter_ok(*old(self), *l1, mode, parts@, bspec, sub_types@),
        ensures
            inter_planned(
                *k,
                *old(self),
                *final(self),
                *l1,
                sy@,
                su@,
                sv@,
                mb_x as int,
                mb_y as int,
                mode,
                parts@,
                bspec,
                sub_types@,
                r,
            ),
            r.n_mvd <= 16,
            forall|i: int| 0 <= i < 4 ==> (#[trigger] r.c_q@[0]@[i])@[0] == 0,
            forall|i: int| 0 <= i < 4 ==> (#[trigger] r.c_q@[1]@[i])@[0] == 0,
            r.wf(),
            final(self).wf(),
    {
        let ghost a = *self;
        let ghost m = self.motion();
        let ghost (gx, gy) = (mb_x as int, mb_y as int);
        let flat: bool = sub_types[0] == 0 && sub_types[1] == 0 && sub_types[2] == 0 && sub_types[3]
            == 0;
        let p: MotionPlan = self.plan_inter_motion(l1, mb_x, mb_y, mode, parts, bspec, sub_types);
        let ghost c = *self;
        let (pred_y, pred_c): ([u8; 256], [[u8; 64]; 2]) = form_prediction(
            k,
            self.bi_w,
            mb_x,
            mb_y,
            &p.used,
        );
        let e: InterResidual = self.plan_inter_residual(
            k,
            sy,
            su,
            sv,
            mb_x,
            mb_y,
            &pred_y,
            &pred_c,
            flat,
        );
        proof {
            lemma_same_codes(
                e,
                *k,
                c,
                a,
                sy@,
                su@,
                sv@,
                gx,
                gy,
                pred_y@,
                pred_c@[0]@,
                pred_c@[1]@,
                flat,
            );
            partition::lemma_quarter_start(sub_types@, 0, 4);
            reveal_with_fuel(partition::quarter_start, 5);
        }
        let r: InterPlan = InterPlan {
            mvds: p.mvds,
            plan_refs: p.refs,
            sub_types,
            n_mvd: p.n_mvd,
            cbp: e.cbp,
            q_blocks: e.q_blocks,
            c_dc_levels: e.c_dc_levels,
            c_q: e.c_q,
            t8x8: e.t8x8,
            q8: e.q8,
        };
        assert(residual_of(r) == e);
        r
    }
}

/// The frame `b` is what planning an inter macroblock leaves of `a`, and `r` is the plan.
pub open spec fn inter_planned<K: Kernels>(
    k: K,
    a: FrameEncoder,
    b: FrameEncoder,
    l1: RefFrame,
    sy: Seq<u8>,
    su: Seq<u8>,
    sv: Seq<u8>,
    x: int,
    y: int,
    mode: u8,
    parts: Seq<(i32, (i32, i32))>,
    bspec: Option<BInter>,
    sub_types: Seq<u8>,
    r: InterPlan,
) -> bool {
    let m = a.motion();
    let used = used_parts(m, l1, x, y, mode, parts, bspec, sub_types);
    let py = partition::predicted_plane(k, a.bi_w, 0, x, y, used);
    let pu = partition::predicted_plane(k, a.bi_w, 1, x, y, used);
    let pv = partition::predicted_plane(k, a.bi_w, 2, x, y, used);
    let flat = no_sub_types(sub_types);
    &&& partition::written(
        r.mvds@,
        r.n_mvd as int,
        differences_of(m, l1, x, y, mode, parts, bspec, sub_types),
    )
    &&& forall|i: int|
        0 <= i < 4 ==> #[trigger] r.plan_refs@[i] == ref_of(
            mode,
            parts,
            bspec,
            sub_types,
            i,
        )
    &&& r.sub_types@ == sub_types
    &&& residual_of(r).codes(k, a, sy, su, sv, x, y, py, pu, pv, flat)
    &&& exists|c: FrameEncoder|
        {
            &&& #[trigger] c.motion() == motion_after(
                m,
                l1,
                x,
                y,
                mode,
                parts,
                bspec,
                sub_types,
            )
            &&& only_motion(a, c)
            &&& residual_of(r).leaves(k, c, b, x, y, py, pu, pv)
        }
    &&& partition::rects_ok(used)
}

/// The residual of a plan.
pub open spec fn residual_of(p: InterPlan) -> InterResidual {
    InterResidual {
        cbp: p.cbp,
        q_blocks: p.q_blocks,
        c_dc_levels: p.c_dc_levels,
        c_q: p.c_q,
        t8x8: p.t8x8,
        q8: p.q8,
    }
}

/// Two frames have the same samples, modes, motion, counts and QPs, and are of the same kind.
pub open spec fn alike(a: FrameEncoder, b: FrameEncoder) -> bool {
    &&& a.rec_y@ == b.rec_y@
    &&& a.rec_u@ == b.rec_u@
    &&& a.rec_v@ == b.rec_v@
    &&& a.modes_y@ == b.modes_y@
    &&& a.nnz_y@ == b.nnz_y@
    &&& a.nnz_c@[0]@ == b.nnz_c@[0]@
    &&& a.nnz_c@[1]@ == b.nnz_c@[1]@
    &&& a.motion() == b.motion()
    &&& a.mb_w == b.mb_w
    &&& a.mb_h == b.mb_h
    &&& a.qp == b.qp
    &&& a.qpc == b.qpc
    &&& a.cur_qp == b.cur_qp
    &&& a.transform_8x8 == b.transform_8x8
}

proof fn lemma_rows16(a: [[i32; 16]; 16], b: [[i32; 16]; 16])
    requires
        forall|i: int| 0 <= i < 16 ==> (#[trigger] a@[i])@ == b@[i]@,
    ensures
        a == b,
{
    assert forall|i: int| 0 <= i < 16 implies #[trigger] a@[i] == b@[i] by {
        assert(a@[i]@ == b@[i]@);
        assert(a@[i] =~= b@[i]);
    }
    assert(a =~= b);
}

proof fn lemma_rows64(a: [[i32; 64]; 4], b: [[i32; 64]; 4])
    requires
        forall|i: int| 0 <= i < 4 ==> (#[trigger] a@[i])@ == b@[i]@,
    ensures
        a == b,
{
    assert forall|i: int| 0 <= i < 4 implies #[trigger] a@[i] == b@[i] by {
        assert(a@[i]@ == b@[i]@);
        assert(a@[i] =~= b@[i]);
    }
    assert(a =~= b);
}

proof fn lemma_rows4(a: [[i32; 16]; 4], b: [[i32; 16]; 4])
    requires
        forall|i: int| 0 <= i < 4 ==> (#[trigger] a@[i])@ == b@[i]@,
    ensures
        a == b,
{
    assert forall|i: int| 0 <= i < 4 implies #[trigger] a@[i] == b@[i] by {
        assert(a@[i]@ == b@[i]@);
        assert(a@[i] =~= b@[i]);
    }
    assert(a =~= b);
}

/// A macroblock has one residual against a prediction.
#[verifier::spinoff_prover]
#[verifier::rlimit(50)]
proof fn lemma_one_residual<K: Kernels>(
    k: K,
    fe: FrameEncoder,
    sy: Seq<u8>,
    su: Seq<u8>,
    sv: Seq<u8>,
    x: int,
    y: int,
    py: Seq<u8>,
    pu: Seq<u8>,
    pv: Seq<u8>,
    flat: bool,
    r: InterResidual,
    s: InterResidual,
)
    requires
        r.codes(k, fe, sy, su, sv, x, y, py, pu, pv, flat),
        s.codes(k, fe, sy, su, sv, x, y, py, pu, pv, flat),
    ensures
        r == s,
{
    let (lx, ly) = ((16 * x) as usize, (16 * y) as usize);
    assert forall|i: int| 0 <= i < 16 implies (#[trigger] r.q_blocks@[i])@ == s.q_blocks@[i]@ by {
        assert(s.q_blocks@[i]@ == quant::luma_levels(
            k,
            fe.rdoq_on,
            sy,
            fe.cw,
            lx,
            ly,
            py,
            fe.qp,
            6,
            i,
        ));
    }
    lemma_rows16(r.q_blocks, s.q_blocks);
    if may_8x8(fe, flat) {
        let a = choose|q8: [[i32; 64]; 4]|
            {
                &&& forall|b: int|
                    0 <= b < 4 ==> (#[trigger] q8@[b])@ == quant::luma8_levels(
                        k,
                        sy,
                        fe.cw,
                        lx,
                        ly,
                        py,
                        fe.qp,
                        6,
                        b,
                    )
                &&& r.t8x8 == #[trigger] takes_8x8(k, fe, sy, x, y, py, r.q_blocks@, q8@)
                &&& r.t8x8 ==> r.q8 == q8
            };
        let c = choose|q8: [[i32; 64]; 4]|
            {
                &&& forall|b: int|
                    0 <= b < 4 ==> (#[trigger] q8@[b])@ == quant::luma8_levels(
                        k,
                        sy,
                        fe.cw,
                        lx,
                        ly,
                        py,
                        fe.qp,
                        6,
                        b,
                    )
                &&& s.t8x8 == #[trigger] takes_8x8(k, fe, sy, x, y, py, s.q_blocks@, q8@)
                &&& s.t8x8 ==> s.q8 == q8
            };
        assert forall|b: int| 0 <= b < 4 implies (#[trigger] a@[b])@ == c@[b]@ by {
            assert(c@[b]@ == quant::luma8_levels(k, sy, fe.cw, lx, ly, py, fe.qp, 6, b));
        }
        lemma_rows64(a, c);
    }
    if !r.t8x8 {
        assert forall|b: int| 0 <= b < 4 implies (#[trigger] r.q8@[b])@ == s.q8@[b]@ by {
            assert forall|j: int| 0 <= j < 64 implies r.q8@[b]@[j] == s.q8@[b]@[j] by {
                assert(s.q8@[b]@[j] == 0);
            }
            assert(r.q8@[b]@ =~= s.q8@[b]@);
        }
        lemma_rows64(r.q8, s.q8);
    }
    assert(r.c_dc_levels@[0] =~= s.c_dc_levels@[0]);
    assert(r.c_dc_levels@[1] =~= s.c_dc_levels@[1]);
    assert(r.c_dc_levels =~= s.c_dc_levels);
    let way = inter_way(fe);
    let (cx, cy) = ((8 * x) as usize, (8 * y) as usize);
    assert forall|i: int| 0 <= i < 4 implies (#[trigger] r.c_q@[0]@[i])@ == s.c_q@[0]@[i]@ by {
        assert(s.c_q@[0]@[i]@ == quant::chroma_levels(k, way, su, fe.ccw, cx, cy, pu, i));
    }
    lemma_rows4(r.c_q@[0], s.c_q@[0]);
    assert forall|i: int| 0 <= i < 4 implies (#[trigger] r.c_q@[1]@[i])@ == s.c_q@[1]@[i]@ by {
        assert(s.c_q@[1]@[i]@ == quant::chroma_levels(k, way, sv, fe.ccw, cx, cy, pv, i));
    }
    lemma_rows4(r.c_q@[1], s.c_q@[1]);
    assert(r.c_q =~= s.c_q);
}

/// Planning an inter macroblock leaves one plan and one frame.
#[verifier::spinoff_prover]
pub proof fn lemma_one_plan<K: Kernels>(
    k: K,
    a: FrameEncoder,
    b: FrameEncoder,
    c: FrameEncoder,
    l1: RefFrame,
    sy: Seq<u8>,
    su: Seq<u8>,
    sv: Seq<u8>,
    x: int,
    y: int,
    mode: u8,
    parts: Seq<(i32, (i32, i32))>,
    bspec: Option<BInter>,
    sub_types: Seq<u8>,
    p: InterPlan,
    q: InterPlan,
)
    requires
        inter_planned(k, a, b, l1, sy, su, sv, x, y, mode, parts, bspec, sub_types, p),
        inter_planned(k, a, c, l1, sy, su, sv, x, y, mode, parts, bspec, sub_types, q),
    ensures
        p == q,
        alike(b, c),
{
    let m = a.motion();
    let used = used_parts(m, l1, x, y, mode, parts, bspec, sub_types);
    let py = partition::predicted_plane(k, a.bi_w, 0, x, y, used);
    let pu = partition::predicted_plane(k, a.bi_w, 1, x, y, used);
    let pv = partition::predicted_plane(k, a.bi_w, 2, x, y, used);
    let flat = no_sub_types(sub_types);
    lemma_one_residual(
        k,
        a,
        sy,
        su,
        sv,
        x,
        y,
        py,
        pu,
        pv,
        flat,
        residual_of(p),
        residual_of(q),
    );
    let ds = differences_of(m, l1, x, y, mode, parts, bspec, sub_types);
    assert forall|i: int| 0 <= i < 16 implies #[trigger] p.mvds@[i] == q.mvds@[i] by {
        assert(q.mvds@[i] == q.mvds@[i]);
        if i < ds.len() {
            assert(p.mvds@[i].0 == ds[i].0 && q.mvds@[i].0 == ds[i].0);
        }
    }
    assert(p.mvds =~= q.mvds);
    assert forall|i: int| 0 <= i < 4 implies #[trigger] p.plan_refs@[i] == q.plan_refs@[i] by {
        assert(q.plan_refs@[i] == ref_of(mode, parts, bspec, sub_types, i));
    }
    assert(p.plan_refs =~= q.plan_refs);
    assert(p.sub_types =~= q.sub_types);
}

} // verus!
