//! What stands before the coding of a frame: its buffers, its source planes and its QPs.
use vstd::prelude::*;
use crate::arith;
use crate::config::EncoderConfig;
use crate::frame::FrameEncoder;
use crate::pixels;
use crate::pixels::{at_spot, clamp_plane, moments, At};

verus! {

/// The chroma QP of the luma QPs from 30 on.
pub const CHROMA_QP: [u8; 22] = [
    29,
    30,
    31,
    32,
    32,
    33,
    34,
    34,
    35,
    35,
    36,
    36,
    37,
    37,
    37,
    38,
    38,
    38,
    39,
    39,
    39,
    39,
];

/// The chroma QP that belongs to a luma QP.
pub open spec fn chroma_of(qp: u8) -> u8 {
    if qp < 30 {
        qp
    } else {
        CHROMA_QP@[qp - 30]
    }
}

/// The chroma QP that belongs to a luma QP.
pub fn chroma_qp(qp: u8) -> (r: u8)
    requires
        qp <= 51,
    ensures
        r == chroma_of(qp),
        r <= 39,
{
    if qp < 30 {
        qp
    } else {
        CHROMA_QP[(qp - 30) as usize]
    }
}

/// The variance of a macroblock's luma, times 256.
pub open spec fn mb_spread(sy: Seq<u8>, cw: usize, mb_x: int, mb_y: int) -> int {
    let at = pixels::placed(cw, (16 * mb_x) as usize, (16 * mb_y) as usize);
    let s = pixels::sum_of(sy, at, 16, 256);
    pixels::squares_of(sy, at, 16, 256) - (s * s) / 256
}

/// The variance of a macroblock's luma, times 256. Of the frame only the width of its rows matters,
/// and of the plane only the macroblock's own samples.
pub fn mb_variance(fe: &FrameEncoder, sy: &[u8], mb_x: usize, mb_y: usize) -> (r: i64)
    requires
        16 * mb_y <= usize::MAX,
        pixels::block_fits(
            fe.cw as int,
            16 * mb_x as int,
            16 * mb_y as int,
            16,
            16,
            sy@.len() as int,
        ),
    ensures
        r == mb_spread(sy@, fe.cw, mb_x as int, mb_y as int),
        0 <= r,
{
    assert(sy.len() == sy@.len());
    assert(16 * mb_x <= sy@.len()) by {
        let (y, w) = (16 * mb_y as int, fe.cw as int);
        assert(0 <= y * w) by (nonlinear_arith)
            requires
                y >= 0,
                w >= 0,
        ;
    }
    proof {
        pixels::lemma_spot(
            fe.cw,
            (16 * mb_x) as usize,
            (16 * mb_y) as usize,
            16,
            16,
            sy@.len() as int,
        );
    }
    let at: At = at_spot(fe.cw, 16 * mb_x, 16 * mb_y);
    let (s, q): (u64, u64) = moments(sy, at, 16, 16);
    assert(s * s <= 65280 * 65280) by (nonlinear_arith)
        requires
            0 <= s <= 65280,
    ;
    let v: u64 = q - (s * s) / 256;
    v as i64
}

/// The samples of a macroblock's luma, in raster order.
pub open spec fn mb_sample(sy: Seq<u8>, cw: usize, mb_x: int, mb_y: int, k: int) -> int {
    let at = pixels::placed(cw, (16 * mb_x) as usize, (16 * mb_y) as usize);
    sy[at.index(k % 16, k / 16)] as int
}

/// What the first `k` samples of a macroblock differ from `x`, squared and added up.
spec fn apart(sy: Seq<u8>, cw: usize, mb_x: int, mb_y: int, x: int, k: int) -> int
    decreases k,
{
    if k <= 0 {
        0
    } else {
        let d = mb_sample(sy, cw, mb_x, mb_y, k - 1) - x;
        apart(sy, cw, mb_x, mb_y, x, k - 1) + d * d
    }
}

proof fn lemma_apart(sy: Seq<u8>, cw: usize, mb_x: int, mb_y: int, x: int, k: int)
    requires
        0 <= k,
    ensures
        ({
            let at = pixels::placed(cw, (16 * mb_x) as usize, (16 * mb_y) as usize);
            let (s, q) = (pixels::sum_of(sy, at, 16, k), pixels::squares_of(sy, at, 16, k));
            &&& apart(sy, cw, mb_x, mb_y, x, k) == q - 2 * (x * s) + k * (x * x)
            &&& apart(sy, cw, mb_x, mb_y, x, k) >= 0
            &&& apart(sy, cw, mb_x, mb_y, x, k) == 0 <==> forall|i: int|
                0 <= i < k ==> #[trigger] mb_sample(sy, cw, mb_x, mb_y, i) == x
        }),
    decreases k,
{
    if k > 0 {
        lemma_apart(sy, cw, mb_x, mb_y, x, k - 1);
        let at = pixels::placed(cw, (16 * mb_x) as usize, (16 * mb_y) as usize);
        let s = pixels::sum_of(sy, at, 16, k - 1);
        let v = mb_sample(sy, cw, mb_x, mb_y, k - 1);
        assert((v - x) * (v - x) == v * v - 2 * (x * v) + x * x) by (nonlinear_arith);
        assert(x * (s + v) == x * s + x * v) by (nonlinear_arith);
        assert(k * (x * x) == (k - 1) * (x * x) + x * x) by (nonlinear_arith);
        assert((v - x) * (v - x) >= 0) by (nonlinear_arith);
        assert((v - x) * (v - x) == 0 <==> v == x) by (nonlinear_arith);
    }
}

proof fn lemma_spread(sy: Seq<u8>, cw: usize, mb_x: int, mb_y: int, k: int)
    requires
        0 <= k,
    ensures
        ({
            let at = pixels::placed(cw, (16 * mb_x) as usize, (16 * mb_y) as usize);
            let (s, q) = (pixels::sum_of(sy, at, 16, k), pixels::squares_of(sy, at, 16, k));
            &&& s * s <= k * q
            &&& k * q == s * s <==> forall|i: int|
                0 <= i < k ==> #[trigger] mb_sample(sy, cw, mb_x, mb_y, i) == mb_sample(
                    sy,
                    cw,
                    mb_x,
                    mb_y,
                    0,
                )
        }),
    decreases k,
{
    let at = pixels::placed(cw, (16 * mb_x) as usize, (16 * mb_y) as usize);
    let first = mb_sample(sy, cw, mb_x, mb_y, 0);
    if k > 0 {
        lemma_spread(sy, cw, mb_x, mb_y, k - 1);
        let (s, q) = (pixels::sum_of(sy, at, 16, k - 1), pixels::squares_of(sy, at, 16, k - 1));
        let v = mb_sample(sy, cw, mb_x, mb_y, k - 1);
        lemma_apart(sy, cw, mb_x, mb_y, v, k - 1);
        assert(k * (q + v * v) - (s + v) * (s + v) == ((k - 1) * q - s * s) + (q - 2 * (v * s) + (k
            - 1) * (v * v))) by (nonlinear_arith);
        if k == 1 {
            assert(forall|i: int| 0 <= i < 1 ==> #[trigger] mb_sample(sy, cw, mb_x, mb_y, i) == first);
            assert(s == 0 && q == 0);
        } else {
            assert(mb_sample(sy, cw, mb_x, mb_y, 0) == first);
        }
    } else {
        assert(0 * pixels::squares_of(sy, at, 16, k) == 0);
    }
}

/// The variance of a macroblock is 0 exactly where all its samples are equal.
pub proof fn law_spread_is_zero_for_equal_samples(sy: Seq<u8>, cw: usize, mb_x: int, mb_y: int)
    ensures
        mb_spread(sy, cw, mb_x, mb_y) == 0 <==> forall|i: int|
            0 <= i < 256 ==> #[trigger] mb_sample(sy, cw, mb_x, mb_y, i) == mb_sample(
                sy,
                cw,
                mb_x,
                mb_y,
                0,
            ),
        mb_spread(sy, cw, mb_x, mb_y) >= 0,
{
    lemma_spread(sy, cw, mb_x, mb_y, 256);
}

proof fn lemma_raised(
    sy: Seq<u8>,
    ty: Seq<u8>,
    cw: usize,
    mb_x: int,
    mb_y: int,
    c: int,
    k: int,
)
    requires
        0 <= k,
        forall|i: int|
            0 <= i < k ==> #[trigger] mb_sample(ty, cw, mb_x, mb_y, i) == mb_sample(
                sy,
                cw,
                mb_x,
                mb_y,
                i,
            ) + c,
    ensures
        ({
            let at = pixels::placed(cw, (16 * mb_x) as usize, (16 * mb_y) as usize);
            let (s, q) = (pixels::sum_of(sy, at, 16, k), pixels::squares_of(sy, at, 16, k));
            &&& pixels::sum_of(ty, at, 16, k) == s + k * c
            &&& pixels::squares_of(ty, at, 16, k) == q + 2 * (c * s) + k * (c * c)
        }),
    decreases k,
{
    if k > 0 {
        lemma_raised(sy, ty, cw, mb_x, mb_y, c, k - 1);
        let at = pixels::placed(cw, (16 * mb_x) as usize, (16 * mb_y) as usize);
        let s = pixels::sum_of(sy, at, 16, k - 1);
        let v = mb_sample(sy, cw, mb_x, mb_y, k - 1);
        let u = mb_sample(ty, cw, mb_x, mb_y, k - 1);
        assert(u == v + c);
        assert(u * u == v * v + 2 * (c * v) + c * c) by (nonlinear_arith)
            requires
                u == v + c,
        ;
        assert(c * (s + v) == c * s + c * v) by (nonlinear_arith);
        assert(k * (c * c) == (k - 1) * (c * c) + c * c) by (nonlinear_arith);
        assert(k * c == (k - 1) * c + c) by (nonlinear_arith);
    } else {
        assert(k * c == 0 && k * (c * c) == 0 && c * 0 == 0) by (nonlinear_arith)
            requires
                k == 0,
        ;
    }
}

/// A constant added to all samples of a macroblock leaves its variance; so does, with the constant
/// 0, whatever the samples of other macroblocks are.
pub proof fn law_spread_knows_no_level(
    sy: Seq<u8>,
    ty: Seq<u8>,
    cw: usize,
    mb_x: int,
    mb_y: int,
    c: int,
)
    requires
        forall|i: int|
            0 <= i < 256 ==> #[trigger] mb_sample(ty, cw, mb_x, mb_y, i) == mb_sample(
                sy,
                cw,
                mb_x,
                mb_y,
                i,
            ) + c,
    ensures
        mb_spread(ty, cw, mb_x, mb_y) == mb_spread(sy, cw, mb_x, mb_y),
{
    lemma_raised(sy, ty, cw, mb_x, mb_y, c, 256);
    let at = pixels::placed(cw, (16 * mb_x) as usize, (16 * mb_y) as usize);
    let s = pixels::sum_of(sy, at, 16, 256);
    let t = s + 256 * c;
    assert(t * t == s * s + 256 * (2 * (c * s) + 256 * (c * c))) by (nonlinear_arith)
        requires
            t == s + 256 * c,
    ;
}

/// A QP moved by an offset, kept in range.
pub open spec fn moved_qp(q: u8, o: i32) -> u8 {
    arith::min(arith::max(q + o, 0), 51) as u8
}

/// The QPs of a frame's macroblocks moved by offsets, if there is one for each.
pub open spec fn moved_qps(q: Seq<u8>, o: Seq<i32>) -> Seq<u8> {
    if o.len() == q.len() {
        Seq::new(q.len(), |i: int| moved_qp(q[i], o[i]))
    } else {
        q
    }
}

/// Move the QPs of a frame's macroblocks by offsets. Without an offset for each, nothing
/// changes.
pub fn apply_mbtree_qpo(aq_qp: &mut Vec<u8>, qpo: &[i32])
    requires
        qpo@.len() == old(aq_qp)@.len() ==> forall|i: int|
            0 <= i < qpo@.len() ==> old(aq_qp)@[i] + #[trigger] qpo@[i] <= i32::MAX,
    ensures
        final(aq_qp)@ == moved_qps(old(aq_qp)@, qpo@),
{
    let ghost q0 = aq_qp@;
    if qpo.len() == aq_qp.len() {
        let mut i: usize = 0;
        while i < qpo.len()
            invariant
                i <= qpo@.len(),
                qpo@.len() == q0.len(),
                aq_qp@.len() == q0.len(),
                forall|j: int| 0 <= j < qpo@.len() ==> q0[j] + #[trigger] qpo@[j] <= i32::MAX,
                forall|j: int| 0 <= j < i ==> #[trigger] aq_qp@[j] == moved_qp(q0[j], qpo@[j]),
                forall|j: int| i <= j < q0.len() ==> #[trigger] aq_qp@[j] == q0[j],
            decreases qpo@.len() - i,
        {
            let o: i32 = qpo[i];
            let v: i32 = aq_qp[i] as i32 + o;
            let c: u8 = if v < 0 {
                0
            } else if v > 51 {
                51
            } else {
                v as u8
            };
            aq_qp.set(i, c);
            i = i + 1;
        }
        assert(aq_qp@ =~= moved_qps(q0, qpo@));
    }
}

/// Offsets change nothing where there are none, and leave no QP out of range.
pub proof fn law_offsets_keep_qps_in_range(q: Seq<u8>, o: Seq<i32>)
    ensures
        o.len() == 0 ==> moved_qps(q, o) == q,
        moved_qps(q, o).len() == q.len(),
        forall|i: int|
            0 <= i < q.len() && (o.len() == q.len() || q[i] <= 51) ==> #[trigger] moved_qps(
                q,
                o,
            )[i] <= 51,
{
    if o.len() == 0 && q.len() == 0 {
        assert(moved_qps(q, o) =~= q);
    }
}

/// A picture of three planes. Chroma has half the size, rounded up.
pub struct YuvFrame {
    pub width: usize,
    pub height: usize,
    pub y: Vec<u8>,
    pub u: Vec<u8>,
    pub v: Vec<u8>,
}

impl YuvFrame {
    pub open spec fn cw(self) -> int {
        (self.width + 1) / 2
    }

    pub open spec fn ch(self) -> int {
        (self.height + 1) / 2
    }

    pub open spec fn wf(self) -> bool {
        &&& self.width >= 1
        &&& self.height >= 1
        &&& self.width < usize::MAX
        &&& self.height < usize::MAX
        &&& self.y@.len() >= self.width * self.height
        &&& self.u@.len() >= self.cw() * self.ch()
        &&& self.v@.len() >= self.cw() * self.ch()
    }
}

/// The size of coded frames fits.
pub open spec fn coded_size_ok(cfg: EncoderConfig) -> bool {
    &&& cfg.mbs_across() >= 1
    &&& cfg.mbs_down() >= 1
    &&& (16 * cfg.mbs_across()) * (16 * cfg.mbs_down()) <= usize::MAX
}

/// The source of a frame in the coded size, with its edges repeated.
pub fn coded_source(cfg: &EncoderConfig, frame: &YuvFrame) -> (r: (Vec<u8>, Vec<u8>, Vec<u8>))
    requires
        frame.wf(),
        coded_size_ok(*cfg),
    ensures
        ({
            let (w, h) = (16 * cfg.mbs_across(), 16 * cfg.mbs_down());
            let (x, y) = (8 * cfg.mbs_across(), 8 * cfg.mbs_down());
            &&& r.0@ == pixels::extended(
                frame.y@,
                frame.width as int,
                frame.height as int,
                w,
                h,
            )
            &&& r.1@ == pixels::extended(frame.u@, frame.cw(), frame.ch(), x, y)
            &&& r.2@ == pixels::extended(frame.v@, frame.cw(), frame.ch(), x, y)
        }),
{
    let (mw, mh): (usize, usize) = (cfg.mb_width(), cfg.mb_height());
    assert(16 * mw <= (16 * mw) * (16 * mh) && 16 * mh <= (16 * mw) * (16 * mh) && (8 * mw) * (8
        * mh) <= (16 * mw) * (16 * mh)) by (nonlinear_arith)
        requires
            mw >= 1,
            mh >= 1,
    ;
    let (cw, ch): (usize, usize) = ((frame.width + 1) / 2, (frame.height + 1) / 2);
    let y: Vec<u8> = clamp_plane(&frame.y, frame.width, frame.height, 16 * mw, 16 * mh);
    let u: Vec<u8> = clamp_plane(&frame.u, cw, ch, 8 * mw, 8 * mh);
    let v: Vec<u8> = clamp_plane(&frame.v, cw, ch, 8 * mw, 8 * mh);
    (y, u, v)
}

fn filled<T: Copy>(n: usize, v: T) -> (r: Vec<T>)
    ensures
        r@ == Seq::new(n as nat, |i: int| v),
{
    let mut r: Vec<T> = Vec::new();
    let mut i: usize = 0;
    while i < n
        invariant
            i <= n,
            r@ == Seq::new(i as nat, |j: int| v),
        decreases n - i,
    {
        r.push(v);
        i = i + 1;
        assert(r@ =~= Seq::new(i as nat, |j: int| v));
    }
    assert(r@ =~= Seq::new(n as nat, |i: int| v));
    r
}

/// How a frame is coded, beside its size and QP.
#[derive(Clone, Copy)]
pub struct FrameParams {
    /// Every frame stands for itself.
    pub all_intra: bool,
    pub fast: bool,
    pub fast_intra: bool,
    pub inter8x8: bool,
    pub inter8_pen: i64,
}

impl FrameEncoder {
    /// A frame of which nothing has been coded.
    pub fn new(cfg: &EncoderConfig, p: FrameParams) -> (r: Self)
        requires
            coded_size_ok(*cfg),
            cfg.qp <= 51,
        ensures
            r.wf(),
            r.mb_w == cfg.mbs_across(),
            r.mb_h == cfg.mbs_down(),
            r.qp == cfg.qp,
            r.qpc == chroma_of(cfg.qp),
            r.cur_qp == cfg.qp,
            r.bi_w == (32i32, 32i32),
            forall|i: int| 0 <= i < r.rec_y@.len() ==> #[trigger] r.rec_y@[i] == 0,
            forall|i: int| 0 <= i < r.rec_u@.len() ==> #[trigger] r.rec_u@[i] == 0,
            forall|i: int| 0 <= i < r.rec_v@.len() ==> #[trigger] r.rec_v@[i] == 0,
            forall|i: int| 0 <= i < r.nnz_y@.len() ==> #[trigger] r.nnz_y@[i] == 0,
            forall|i: int| 0 <= i < r.nnz_c@[0]@.len() ==> #[trigger] r.nnz_c@[0]@[i] == 0,
            forall|i: int| 0 <= i < r.nnz_c@[1]@.len() ==> #[trigger] r.nnz_c@[1]@[i] == 0,
            forall|i: int| 0 <= i < r.modes_y@.len() ==> #[trigger] r.modes_y@[i] == 2,
            forall|i: int| 0 <= i < r.coded_y@.len() ==> !#[trigger] r.coded_y@[i],
            forall|i: int| 0 <= i < r.inter_y@.len() ==> !#[trigger] r.inter_y@[i],
            forall|i: int| 0 <= i < r.mv_y@.len() ==> #[trigger] r.mv_y@[i] == (0i32, 0i32),
            forall|i: int| 0 <= i < r.mv1_y@.len() ==> #[trigger] r.mv1_y@[i] == (0i32, 0i32),
            forall|i: int| 0 <= i < r.ref_idx_y@.len() ==> #[trigger] r.ref_idx_y@[i] == -1,
            forall|i: int| 0 <= i < r.ref_idx1_y@.len() ==> #[trigger] r.ref_idx1_y@[i] == -1,
            forall|i: int| 0 <= i < r.mb_skip_sad@.len() ==> #[trigger] r.mb_skip_sad@[i] == 0,
            forall|i: int| 0 <= i < r.mb_was_skip@.len() ==> !#[trigger] r.mb_was_skip@[i],
            r.transform_8x8 == cfg.transform_8x8,
            r.fast == p.fast,
            r.fast_intra == p.fast_intra,
            r.inter8x8 == p.inter8x8,
            r.inter8_pen == p.inter8_pen,
            r.idz == (if p.all_intra {
                2u8
            } else {
                3
            }),
            !r.mb_use_satd,
            !r.mb_loud,
            !r.rdoq_on,
    {
        let (mb_w, mb_h): (usize, usize) = (cfg.mb_width(), cfg.mb_height());
        assert(16 * mb_w <= (16 * mb_w) * (16 * mb_h) && 16 * mb_h <= (16 * mb_w) * (16 * mb_h)
            && (8 * mb_w) * (8 * mb_h) <= (16 * mb_w) * (16 * mb_h) && (4 * mb_w) * (4 * mb_h) <= (
        16 * mb_w) * (16 * mb_h) && (2 * mb_w) * (2 * mb_h) <= (16 * mb_w) * (16 * mb_h) && mb_w
            * mb_h <= (16 * mb_w) * (16 * mb_h)) by (nonlinear_arith)
            requires
                mb_w >= 1,
                mb_h >= 1,
        ;
        let (n16, n8): (usize, usize) = ((16 * mb_w) * (16 * mb_h), (8 * mb_w) * (8 * mb_h));
        let (n4, n2): (usize, usize) = ((4 * mb_w) * (4 * mb_h), (2 * mb_w) * (2 * mb_h));
        let n: usize = mb_w * mb_h;
        FrameEncoder {
            mb_w,
            mb_h,
            qp: cfg.qp,
            qpc: chroma_qp(cfg.qp),
            cur_qp: cfg.qp,
            bi_w: (32, 32),
            cw: 16 * mb_w,
            ccw: 8 * mb_w,
            rec_y: filled(n16, 0),
            rec_u: filled(n8, 0),
            rec_v: filled(n8, 0),
            nnz_y: filled(n4, 0),
            nnz_c: [filled(n2, 0), filled(n2, 0)],
            modes_y: filled(n4, 2),
            coded_y: filled(n4, false),
            mv_y: filled(n4, (0, 0)),
            inter_y: filled(n4, false),
            ref_idx_y: filled(n4, -1),
            mv1_y: filled(n4, (0, 0)),
            ref_idx1_y: filled(n4, -1),
            transform_8x8: cfg.transform_8x8,
            nnz_l_cache: [0x80; 25],
            nnz_c_cache: [[0x80; 9]; 2],
            mb_skip_sad: filled(n, 0),
            mb_was_skip: filled(n, false),
            fast: p.fast,
            mb_use_satd: false,
            mb_loud: false,
            rdoq_on: false,
            idz: if p.all_intra {
                2
            } else {
                3
            },
            inter8x8: p.inter8x8,
            inter8_pen: p.inter8_pen,
            fast_intra: p.fast_intra,
        }
    }
}

} // verus!
