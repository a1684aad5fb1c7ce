//! Macroblocks that are left out of the syntax: their prediction is all there is.
use vstd::prelude::*;
use crate::distortion;
use crate::frame::FrameEncoder;
use crate::interplan;
use crate::kernels;
use crate::kernels::{cdc, chroma_share, mc, quant4, Kernels, McJob};
use crate::pixels;
use crate::pixels::{at_spot, sad_strided, ssd_px, At};
use crate::quant;
use crate::quant::{chroma_coefs_of, has_level, luma_coefs_of, ChromaWay};

verus! {

/// The prediction of a skipped macroblock: reference 0 at one vector.
pub open spec fn skip_luma<K: Kernels>(k: K, mb_x: int, mb_y: int, mv: (i32, i32)) -> Seq<u8> {
    kernels::mc_of(
        k,
        distortion::luma_job(0, 0, (16 * mb_x) as usize, (16 * mb_y) as usize, 16, 16, mv),
    )
}

/// The same for chroma plane `c`.
pub open spec fn skip_chroma<K: Kernels>(
    k: K,
    mb_x: int,
    mb_y: int,
    mv: (i32, i32),
    c: int,
) -> Seq<u8> {
    kernels::mc_of(
        k,
        McJob {
            list: 0,
            refi: 0,
            plane: (1 + c) as u8,
            x: (8 * mb_x) as usize,
            y: (8 * mb_y) as usize,
            w: 8,
            h: 8,
            mv,
        },
    ).take(64)
}

/// Every level of the luma residual is zero.
pub open spec fn luma_free<K: Kernels>(
    k: K,
    qp: u8,
    sy: Seq<u8>,
    cw: usize,
    lx: usize,
    ly: usize,
    pred: Seq<u8>,
) -> bool {
    forall|i: int|
        0 <= i < 16 ==> !quant::any_level(
            kernels::quant4_of(k, #[trigger] quant::luma_coefs(k, sy, cw, lx, ly, pred, i), qp, 6),
            0,
        )
}

/// Every level of the residual of a chroma plane is zero, those of DC among them.
pub open spec fn chroma_free<K: Kernels>(
    k: K,
    qpc: u8,
    src: Seq<u8>,
    ccw: usize,
    cx: usize,
    cy: usize,
    pred: Seq<u8>,
) -> bool {
    &&& forall|i: int|
        0 <= i < 4 ==> !quant::any_level(
            kernels::quant4_of(
                k,
                #[trigger] quant::chroma_coefs(k, src, ccw, cx, cy, pred, i),
                qpc,
                6,
            ),
            1,
        )
    &&& !quant::any_level(
        kernels::cdc_of(
            k,
            Seq::new(4, |i: int| quant::chroma_coefs(k, src, ccw, cx, cy, pred, i)[0]),
            qpc,
            false,
        ),
        0,
    )
}

/// The squared difference of a plane of a macroblock, with sides of `side`, from a prediction.
pub open spec fn pred_distance(
    src: Seq<u8>,
    stride: usize,
    side: int,
    mb_x: int,
    mb_y: int,
    pred: Seq<u8>,
) -> int {
    pixels::ssd(
        src,
        pixels::placed(stride, (side * mb_x) as usize, (side * mb_y) as usize),
        pred,
        pixels::dense(side as usize),
        side,
        side * side,
    )
}

/// The squared difference of a plane of a macroblock from its reconstruction.
pub open spec fn rec_distance(
    src: Seq<u8>,
    rec: Seq<u8>,
    stride: usize,
    side: int,
    mb_x: int,
    mb_y: int,
) -> int {
    let at = pixels::placed(stride, (side * mb_x) as usize, (side * mb_y) as usize);
    pixels::ssd(src, at, rec, at, side, side * side)
}

/// The distortion of a reconstructed macroblock: that of luma, and the share of chroma.
pub open spec fn mb_distortion<K: Kernels>(
    k: K,
    fe: FrameEncoder,
    sy: Seq<u8>,
    su: Seq<u8>,
    sv: Seq<u8>,
    mb_x: int,
    mb_y: int,
) -> int {
    rec_distance(sy, fe.rec_y@, fe.cw, 16, mb_x, mb_y) + kernels::chroma_share_of(
        k,
        (rec_distance(su, fe.rec_u@, fe.ccw, 8, mb_x, mb_y) + rec_distance(
            sv,
            fe.rec_v@,
            fe.ccw,
            8,
            mb_x,
            mb_y,
        )) as i64,
    )
}

fn front(p: &[u8; 256]) -> (r: [u8; 64])
    ensures
        r@ == p@.take(64),
{
    let mut r: [u8; 64] = [0; 64];
    let mut i: usize = 0;
    while i < 64
        invariant
            i <= 64,
            forall|j: int| 0 <= j < i ==> #[trigger] r@[j] == p@[j],
        decreases 64 - i,
    {
        r[i] = p[i];
        i = i + 1;
    }
    assert(r@ =~= p@.take(64));
    r
}

impl FrameEncoder {
    /// The luma of a skipped macroblock.
    pub fn skip_predict_luma<K: Kernels>(
        &self,
        k: &K,
        mb_x: usize,
        mb_y: usize,
        mv: (i32, i32),
    ) -> (r: [u8; 256])
        requires
            kernels::steady(*k),
            self.wf(),
            self.has_mb(mb_x as int, mb_y as int),
        ensures
            r@ == skip_luma(*k, mb_x as int, mb_y as int, mv),
    {
        mc(
            k,
            McJob { list: 0, refi: 0, plane: 0, x: 16 * mb_x, y: 16 * mb_y, w: 16, h: 16, mv },
        )
    }

    /// The chroma of a skipped macroblock.
    pub fn skip_predict_chroma<K: Kernels>(
        &self,
        k: &K,
        mb_x: usize,
        mb_y: usize,
        mv: (i32, i32),
    ) -> (r: [[u8; 64]; 2])
        requires
            kernels::steady(*k),
            self.wf(),
            self.has_mb(mb_x as int, mb_y as int),
        ensures
            r@[0]@ == skip_chroma(*k, mb_x as int, mb_y as int, mv, 0),
            r@[1]@ == skip_chroma(*k, mb_x as int, mb_y as int, mv, 1),
    {
        let (x, y): (usize, usize) = (8 * mb_x, 8 * mb_y);
        let u: [u8; 256] = mc(k, McJob { list: 0, refi: 0, plane: 1, x, y, w: 8, h: 8, mv });
        let v: [u8; 256] = mc(k, McJob { list: 0, refi: 0, plane: 2, x, y, w: 8, h: 8, mv });
        [front(&u), front(&v)]
    }

    /// Whether the luma of a skipped macroblock loses nothing: its whole residual is
    /// quantised to zero.
    pub fn skip_luma_is_free<K: Kernels>(
        &self,
        k: &K,
        sy: &[u8],
        mb_x: usize,
        mb_y: usize,
        pred_y: &[u8; 256],
    ) -> (r: bool)
        requires
            kernels::steady(*k),
            self.wf(),
            self.has_mb(mb_x as int, mb_y as int),
            sy@.len() == self.rec_y@.len(),
        ensures
            r == luma_free(
                *k,
                self.qp,
                sy@,
                self.cw,
                (16 * mb_x) as usize,
                (16 * mb_y) as usize,
                pred_y@,
            ),
    {
        proof {
            interplan::lemma_source(*self, sy@, 16, mb_x, mb_y);
        }
        let (lx, ly): (usize, usize) = (16 * mb_x, 16 * mb_y);
        let mut i: usize = 0;
        while i < 16
            invariant
                i <= 16,
                kernels::steady(*k),
                lx == 16 * mb_x && ly == 16 * mb_y,
                quant::square_fits(sy@, self.cw, lx, ly, 16),
                forall|j: int|
                    0 <= j < i ==> !quant::any_level(
                        kernels::quant4_of(
                            *k,
                            #[trigger] quant::luma_coefs(*k, sy@, self.cw, lx, ly, pred_y@, j),
                            self.qp,
                            6,
                        ),
                        0,
                    ),
            decreases 16 - i,
        {
            let c: [i32; 16] = luma_coefs_of(k, sy, self.cw, lx, ly, pred_y, i);
            let q: [i32; 16] = quant4(k, &c, self.qp, 6);
            if has_level(&q, 0) {
                assert(quant::luma_coefs(*k, sy@, self.cw, lx, ly, pred_y@, i as int) == c@);
                return false;
            }
            i = i + 1;
        }
        true
    }

    /// The same for one chroma plane.
    fn plane_is_free<K: Kernels>(
        &self,
        k: &K,
        src: &[u8],
        mb_x: usize,
        mb_y: usize,
        pred: &[u8; 64],
    ) -> (r: bool)
        requires
            kernels::steady(*k),
            self.wf(),
            self.has_mb(mb_x as int, mb_y as int),
            src@.len() == self.rec_u@.len(),
        ensures
            r == chroma_free(
                *k,
                self.qpc,
                src@,
                self.ccw,
                (8 * mb_x) as usize,
                (8 * mb_y) as usize,
                pred@,
            ),
    {
        proof {
            interplan::lemma_source(*self, src@, 8, mb_x, mb_y);
        }
        let (cx, cy): (usize, usize) = (8 * mb_x, 8 * mb_y);
        let mut dcs: [i32; 4] = [0; 4];
        let mut i: usize = 0;
        while i < 4
            invariant
                i <= 4,
                kernels::steady(*k),
                cx == 8 * mb_x && cy == 8 * mb_y,
                quant::square_fits(src@, self.ccw, cx, cy, 8),
                forall|j: int|
                    0 <= j < i ==> !quant::any_level(
                        kernels::quant4_of(
                            *k,
                            #[trigger] quant::chroma_coefs(*k, src@, self.ccw, cx, cy, pred@, j),
                            self.qpc,
                            6,
                        ),
                        1,
                    ),
                forall|j: int|
                    0 <= j < i ==> #[trigger] dcs@[j] == quant::chroma_coefs(
                        *k,
                        src@,
                        self.ccw,
                        cx,
                        cy,
                        pred@,
                        j,
                    )[0],
            decreases 4 - i,
        {
            let c: [i32; 16] = chroma_coefs_of(k, src, self.ccw, cx, cy, pred, i);
            dcs[i] = c[0];
            let q: [i32; 16] = quant4(k, &c, self.qpc, 6);
            if has_level(&q, 1) {
                assert(quant::chroma_coefs(*k, src@, self.ccw, cx, cy, pred@, i as int) == c@);
                return false;
            }
            i = i + 1;
        }
        assert(dcs@ =~= Seq::new(
            4,
            |j: int| quant::chroma_coefs(*k, src@, self.ccw, cx, cy, pred@, j)[0],
        ));
        let l: [i32; 4] = cdc(k, &dcs, self.qpc, false);
        !has_level(&l, 0)
    }

    /// Whether the chroma of a skipped macroblock loses nothing.
    pub fn skip_chroma_is_free<K: Kernels>(
        &self,
        k: &K,
        su: &[u8],
        sv: &[u8],
        mb_x: usize,
        mb_y: usize,
        pred_c: &[[u8; 64]; 2],
    ) -> (r: bool)
        requires
            kernels::steady(*k),
            self.wf(),
            self.has_mb(mb_x as int, mb_y as int),
            su@.len() == self.rec_u@.len(),
            sv@.len() == self.rec_v@.len(),
        ensures
            ({
                let (cx, cy) = ((8 * mb_x) as usize, (8 * mb_y) as usize);
                r == (chroma_free(*k, self.qpc, su@, self.ccw, cx, cy, pred_c@[0]@) && chroma_free(
                    *k,
                    self.qpc,
                    sv@,
                    self.ccw,
                    cx,
                    cy,
                    pred_c@[1]@,
                ))
            }),
    {
        self.plane_is_free(k, su, mb_x, mb_y, &pred_c[0]) && self.plane_is_free(
            k,
            sv,
            mb_x,
            mb_y,
            &pred_c[1],
        )
    }

    /// The squared difference of a macroblock from a prediction, over all three planes.
    pub fn pred_ssd(
        &self,
        sy: &[u8],
        su: &[u8],
        sv: &[u8],
        mb_x: usize,
        mb_y: usize,
        pred_y: &[u8; 256],
        pred_c: &[[u8; 64]; 2],
    ) -> (r: i64)
        requires
            self.wf(),
            self.has_mb(mb_x as int, mb_y as int),
            interplan::source_ok(*self, sy@, su@, sv@),
        ensures
            r == pred_distance(sy@, self.cw, 16, mb_x as int, mb_y as int, pred_y@)
                + pred_distance(su@, self.ccw, 8, mb_x as int, mb_y as int, pred_c@[0]@)
                + pred_distance(sv@, self.ccw, 8, mb_x as int, mb_y as int, pred_c@[1]@),
            0 <= r <= 3 * 65025 * 256,
    {
        proof {
            interplan::lemma_source(*self, sy@, 16, mb_x, mb_y);
            interplan::lemma_source(*self, su@, 8, mb_x, mb_y);
            interplan::lemma_source(*self, sv@, 8, mb_x, mb_y);
            pixels::lemma_spot(self.cw, (16 * mb_x) as usize, (16 * mb_y) as usize, 16, 16, sy@.len() as int);
            pixels::lemma_spot(self.ccw, (8 * mb_x) as usize, (8 * mb_y) as usize, 8, 8, su@.len() as int);
            pixels::lemma_spot(self.ccw, (8 * mb_x) as usize, (8 * mb_y) as usize, 8, 8, sv@.len() as int);
        }
        assert(sy.len() == sy@.len() && su.len() == su@.len() && sv.len() == sv@.len());
        let la: At = at_spot(self.cw, 16 * mb_x, 16 * mb_y);
        let ca: At = at_spot(self.ccw, 8 * mb_x, 8 * mb_y);
        let d: i64 = ssd_px(sy, la, pred_y, At { base: 0, stride: 16 }, 16, 16);
        let du: i64 = ssd_px(su, ca, &pred_c[0], At { base: 0, stride: 8 }, 8, 8);
        let dv: i64 = ssd_px(sv, ca, &pred_c[1], At { base: 0, stride: 8 }, 8, 8);
        d + du + dv
    }

    /// The distortion of a macroblock as it stands in the frame.
    pub fn mb_ssd<K: Kernels>(
        &self,
        k: &K,
        sy: &[u8],
        su: &[u8],
        sv: &[u8],
        mb_x: usize,
        mb_y: usize,
    ) -> (r: i64)
        requires
            kernels::steady(*k),
            kernels::modest(*k),
            self.wf(),
            self.has_mb(mb_x as int, mb_y as int),
            interplan::source_ok(*self, sy@, su@, sv@),
        ensures
            r == mb_distortion(*k, *self, sy@, su@, sv@, mb_x as int, mb_y as int),
            0 <= r <= 0x2000_0000_0000,
    {
        proof {
            interplan::lemma_source(*self, sy@, 16, mb_x, mb_y);
            interplan::lemma_source(*self, su@, 8, mb_x, mb_y);
            interplan::lemma_source(*self, sv@, 8, mb_x, mb_y);
            pixels::lemma_spot(self.cw, (16 * mb_x) as usize, (16 * mb_y) as usize, 16, 16, sy@.len() as int);
            pixels::lemma_spot(self.ccw, (8 * mb_x) as usize, (8 * mb_y) as usize, 8, 8, su@.len() as int);
            pixels::lemma_spot(self.ccw, (8 * mb_x) as usize, (8 * mb_y) as usize, 8, 8, sv@.len() as int);
        }
        assert(sy.len() == sy@.len() && su.len() == su@.len() && sv.len() == sv@.len());
        let la: At = at_spot(self.cw, 16 * mb_x, 16 * mb_y);
        let ca: At = at_spot(self.ccw, 8 * mb_x, 8 * mb_y);
        let d: i64 = ssd_px(sy, la, &self.rec_y, la, 16, 16);
        let du: i64 = ssd_px(su, ca, &self.rec_u, ca, 8, 8);
        let dv: i64 = ssd_px(sv, ca, &self.rec_v, ca, 8, 8);
        d + chroma_share(k, du + dv)
    }

    /// The difference of a macroblock's luma from the prediction of a skip.
    pub fn skip_difference(&self, sy: &[u8], mb_x: usize, mb_y: usize, pred: &[u8; 256]) -> (r: u32)
        requires
            self.wf(),
            self.has_mb(mb_x as int, mb_y as int),
            sy@.len() == self.rec_y@.len(),
        ensures
            r == pixels::sad(
                sy@,
                pixels::placed(self.cw, (16 * mb_x) as usize, (16 * mb_y) as usize),
                pred@,
                pixels::dense(16),
                16,
                256,
            ),
    {
        proof {
            interplan::lemma_source(*self, sy@, 16, mb_x, mb_y);
            pixels::lemma_spot(self.cw, (16 * mb_x) as usize, (16 * mb_y) as usize, 16, 16, sy@.len() as int);
        }
        assert(sy.len() == sy@.len());
        let la: At = at_spot(self.cw, 16 * mb_x, 16 * mb_y);
        sad_strided(sy, la, pred, At { base: 0, stride: 16 }, 16, 16) as u32
    }
}

proof fn lemma_put_distance(
    src: Seq<u8>,
    rec: Seq<u8>,
    w: int,
    h: int,
    side: int,
    mb_x: int,
    mb_y: int,
    pred: Seq<u8>,
    k: int,
)
    requires
        side == 8 || side == 16,
        0 <= mb_x < w,
        0 <= mb_y < h,
        rec.len() == (side * w) * (side * h),
        rec.len() <= usize::MAX,
        pred.len() == side * side,
        0 <= k <= side * side,
    ensures
        ({
            let (s, x, y) = (side * w, side * mb_x, side * mb_y);
            let at = pixels::placed(s as usize, x as usize, y as usize);
            pixels::ssd(
                src,
                at,
                crate::rect::put_block(rec, s, x, y, side, side, pred),
                at,
                side,
                k,
            ) == pixels::ssd(src, at, pred, pixels::dense(side as usize), side, k)
        }),
    decreases k,
{
    if k > 0 {
        lemma_put_distance(src, rec, w, h, side, mb_x, mb_y, pred, k - 1);
        let (s, x, y) = (side * w, side * mb_x, side * mb_y);
        let (dx, dy) = ((k - 1) % side, (k - 1) / side);
        assert(0 <= dx < side && 0 <= dy < side && dy * side + dx == k - 1) by {
            if side == 8 {
                assert((k - 1) / 8 * 8 + (k - 1) % 8 == k - 1);
            } else {
                assert((k - 1) / 16 * 16 + (k - 1) % 16 == k - 1);
            }
        }
        assert(x + dx < s && y + dy < side * h) by (nonlinear_arith)
            requires
                x == side * mb_x,
                y == side * mb_y,
                s == side * w,
                mb_x + 1 <= w,
                mb_y + 1 <= h,
                0 <= dx < side,
                0 <= dy < side,
        ;
        assert(0 <= x && 0 <= y) by (nonlinear_arith)
            requires
                x == side * mb_x,
                y == side * mb_y,
                mb_x >= 0,
                mb_y >= 0,
                side > 0,
        ;
        crate::grid::lemma_cell(s, side * h, x, y);
        crate::grid::lemma_cell(s, side * h, x + dx, y + dy);
        assert((y + dy) * s == y * s + dy * s) by (nonlinear_arith);
        assert(s <= rec.len() && y <= rec.len()) by (nonlinear_arith)
            requires
                rec.len() == s * (side * h),
                1 <= s,
                0 <= y < side * h,
        ;
    }
}

/// A skip that is committed leaves the distortion of its prediction in the frame.
pub proof fn law_skip_distortion_is_that_of_its_prediction(
    src: Seq<u8>,
    rec: Seq<u8>,
    w: int,
    h: int,
    side: int,
    mb_x: int,
    mb_y: int,
    pred: Seq<u8>,
)
    requires
        side == 8 || side == 16,
        0 <= mb_x < w,
        0 <= mb_y < h,
        rec.len() == (side * w) * (side * h),
        rec.len() <= usize::MAX,
        pred.len() == side * side,
    ensures
        rec_distance(
            src,
            crate::rect::put_block(rec, side * w, side * mb_x, side * mb_y, side, side, pred),
            (side * w) as usize,
            side,
            mb_x,
            mb_y,
        ) == pred_distance(src, (side * w) as usize, side, mb_x, mb_y, pred),
{
    lemma_put_distance(src, rec, w, h, side, mb_x, mb_y, pred, side * side);
}

/// A skip whose luma is free drops no level: coding the same prediction would leave every block
/// of it without one, refined or not.
pub proof fn law_free_luma_drops_nothing<K: Kernels>(
    k: K,
    on: bool,
    qp: u8,
    sy: Seq<u8>,
    cw: usize,
    lx: usize,
    ly: usize,
    pred: Seq<u8>,
    i: int,
)
    requires
        luma_free(k, qp, sy, cw, lx, ly, pred),
        0 <= i < 16,
        kernels::quant4_of(k, quant::luma_coefs(k, sy, cw, lx, ly, pred, i), qp, 6).len() == 16,
    ensures
        !quant::any_level(quant::luma_levels(k, on, sy, cw, lx, ly, pred, qp, 6, i), 0),
{
    let c = quant::luma_coefs(k, sy, cw, lx, ly, pred, i);
    let hard = kernels::quant4_of(k, c, qp, 6);
    let l = quant::levels(k, on, c, qp, 6, 0);
    quant::law_refining_only_lowers(k, on, c, qp, 6, 0, 0);
    assert forall|p: int| 0 <= p < l.len() implies #[trigger] l[p] == 0 by {
        quant::law_refining_only_lowers(k, on, c, qp, 6, 0, p);
        assert(!quant::any_level(hard, 0));
        assert(hard[p] == 0);
    }
}

/// The same for chroma, DC and AC.
pub proof fn law_free_chroma_drops_nothing<K: Kernels>(
    k: K,
    on: bool,
    qpc: u8,
    src: Seq<u8>,
    ccw: usize,
    cx: usize,
    cy: usize,
    pred: Seq<u8>,
    i: int,
)
    requires
        chroma_free(k, qpc, src, ccw, cx, cy, pred),
        0 <= i < 4,
        kernels::quant4_of(k, quant::chroma_coefs(k, src, ccw, cx, cy, pred, i), qpc, 6).len() == 16,
    ensures
        ({
            let way = ChromaWay { on, qpc, dz: 6, intra: false };
            &&& !quant::any_level(quant::chroma_levels(k, way, src, ccw, cx, cy, pred, i), 0)
            &&& !quant::any_level(quant::chroma_dc(k, way, src, ccw, cx, cy, pred), 0)
        }),
{
    let way = ChromaWay { on, qpc, dz: 6, intra: false };
    let c = quant::chroma_coefs(k, src, ccw, cx, cy, pred, i);
    let hard = kernels::quant4_of(k, c, qpc, 6);
    let l = quant::chroma_levels(k, way, src, ccw, cx, cy, pred, i);
    quant::law_refining_only_lowers(k, on, c, qpc, 6, 1, 0);
    assert forall|p: int| 0 <= p < l.len() implies #[trigger] l[p] == 0 by {
        if p > 0 {
            quant::law_refining_only_lowers(k, on, c, qpc, 6, 1, p);
            assert(!quant::any_level(hard, 1));
            assert(hard[p] == 0);
        }
    }
}

} // verus!
