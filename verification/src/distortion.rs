//! Distortions: how well a prediction or a motion vector fits the source.
use vstd::prelude::*;
use crate::frame::FrameEncoder;
use crate::mbstate::RefFrame;
use crate::kernels;
use crate::kernels::{mc, Kernels, McJob};
use crate::pixels;
use crate::pixels::{at_spot, bi_blend, sad_strided, satd_px, At};

verus! {

/// The integer part of a quarter-sample displacement.
pub open spec fn whole(v: int) -> int {
    v / 4
}

/// The vector points to whole samples, and the displaced block lies in the picture.
pub open spec fn interior(
    cw: int,
    ch: int,
    lx: int,
    ly: int,
    rw: int,
    rh: int,
    mv: (i32, i32),
) -> bool {
    let (x, y) = (lx + whole(mv.0 as int), ly + whole(mv.1 as int));
    &&& mv.0 as int % 4 == 0
    &&& mv.1 as int % 4 == 0
    &&& 0 <= x
    &&& 0 <= y
    &&& x + rw <= cw
    &&& y + rh <= ch
}

/// The place of an interior displaced block.
fn interior_at(
    cw: usize,
    ch: usize,
    lx: usize,
    ly: usize,
    rw: usize,
    rh: usize,
    mv: (i32, i32),
) -> (r: Option<(usize, usize)>)
    requires
        cw <= 0x3fff_ffff,
        ch <= 0x3fff_ffff,
        lx + rw <= cw,
        ly + rh <= ch,
    ensures
        r is Some == interior(cw as int, ch as int, lx as int, ly as int, rw as int, rh as int, mv),
        r matches Some((x, y)) ==> x == lx + whole(mv.0 as int) && y == ly + whole(mv.1 as int)
            && x + rw <= cw && y + rh <= ch,
{
    match (shifted(lx, mv.0), shifted(ly, mv.1)) {
        (Some(x), Some(y)) => if x + rw <= cw && y + rh <= ch {
            Some((x, y))
        } else {
            None
        },
        _ => None,
    }
}

/// `p` moved by a whole number of samples, unless it leaves the picture at the low end.
fn shifted(p: usize, v: i32) -> (r: Option<usize>)
    requires
        p <= 0x3fff_ffff,
    ensures
        r is Some == (v as int % 4 == 0 && p + whole(v as int) >= 0),
        r matches Some(x) ==> x == p + whole(v as int) && x <= 0x7fff_ffff,
{
    let n: i64 = v as i64;
    let m: i64 = n + 0x8000_0000;
    if m % 4 != 0 {
        return None;
    }
    let q: i64 = m / 4 - 0x2000_0000;
    let x: i64 = p as i64 + q;
    if x < 0 {
        None
    } else {
        Some(x as usize)
    }
}

/// A block of the source and its prediction in a dense buffer.
pub open spec fn region_ok(sy: Seq<u8>, cw: usize, lx: usize, ly: usize, rw: usize, rh: usize) -> bool {
    &&& rw == 4 || rw == 8 || rw == 16
    &&& rh == 4 || rh == 8 || rh == 16
    &&& pixels::block_fits(cw as int, lx as int, ly as int, rw as int, rh as int, sy.len() as int)
}

/// The SAD of a source block and a dense prediction.
pub open spec fn region_sad(
    sy: Seq<u8>,
    cw: usize,
    lx: usize,
    ly: usize,
    rw: usize,
    rh: usize,
    pred: Seq<u8>,
) -> int {
    pixels::sad(sy, pixels::placed(cw, lx, ly), pred, pixels::dense(rw), rw as int, rw * rh)
}

/// The SATD of a source block and a dense prediction.
pub open spec fn region_satd(
    sy: Seq<u8>,
    cw: usize,
    lx: usize,
    ly: usize,
    rw: usize,
    rh: usize,
    pred: Seq<u8>,
) -> int {
    pixels::satd(
        sy,
        pixels::placed(cw, lx, ly),
        pred,
        pixels::dense(rw),
        rw as int / 4,
        (rw / 4) * (rh / 4),
    )
}

/// The distortion of a prediction in the measure that the frame uses for this macroblock.
pub open spec fn region_dist(
    by_sad: bool,
    sy: Seq<u8>,
    cw: usize,
    lx: usize,
    ly: usize,
    rw: usize,
    rh: usize,
    pred: Seq<u8>,
) -> int {
    if by_sad {
        region_sad(sy, cw, lx, ly, rw, rh, pred)
    } else {
        region_satd(sy, cw, lx, ly, rw, rh, pred)
    }
}

/// The distortion of a dense prediction of a source block.
pub fn rect_dist(
    by_sad: bool,
    sy: &[u8],
    cw: usize,
    lx: usize,
    ly: usize,
    rw: usize,
    rh: usize,
    pred: &[u8; 256],
) -> (r: i64)
    requires
        region_ok(sy@, cw, lx, ly, rw, rh),
    ensures
        r == region_dist(by_sad, sy@, cw, lx, ly, rw, rh, pred@),
        0 <= r <= 0x1f_ffff,
{
    proof {
        pixels::lemma_spot(cw, lx, ly, rw as int, rh as int, sy@.len() as int);
        assert((rh - 1) * rw + rw <= 256 && 0 <= rw * rh <= 256) by (nonlinear_arith)
            requires
                4 <= rw <= 16,
                4 <= rh <= 16,
        ;
    }
    assert(sy.len() == sy@.len());
    let sa: At = at_spot(cw, lx, ly);
    let pa: At = At { base: 0, stride: rw };
    if by_sad {
        sad_strided(sy, sa, pred, pa, rw, rh)
    } else {
        satd_px(sy, sa, pred, pa, rw, rh)
    }
}

/// The distortion of a source block and the block of the reference at `(x, y)`.
pub open spec fn direct_dist(
    by_sad: bool,
    sy: Seq<u8>,
    cw: usize,
    lx: usize,
    ly: usize,
    rw: usize,
    rh: usize,
    refy: Seq<u8>,
    x: usize,
    y: usize,
) -> int {
    let (sa, ra) = (pixels::placed(cw, lx, ly), pixels::placed(cw, x, y));
    if by_sad {
        pixels::sad(sy, sa, refy, ra, rw as int, rw * rh)
    } else {
        pixels::satd(sy, sa, refy, ra, rw as int / 4, (rw / 4) * (rh / 4))
    }
}

/// The distortion of a motion vector for a luma block: an interior block of whole samples is
/// read in place, any other one is predicted by the kernel.
pub open spec fn mv_dist<K: Kernels>(
    by_sad: bool,
    k: K,
    refy: Seq<u8>,
    sy: Seq<u8>,
    cw: usize,
    ch: usize,
    lx: usize,
    ly: usize,
    rw: usize,
    rh: usize,
    job: McJob,
) -> int {
    if interior(cw as int, ch as int, lx as int, ly as int, rw as int, rh as int, job.mv) {
        let x = (lx + whole(job.mv.0 as int)) as usize;
        let y = (ly + whole(job.mv.1 as int)) as usize;
        direct_dist(by_sad, sy, cw, lx, ly, rw, rh, refy, x, y)
    } else {
        region_dist(by_sad, sy, cw, lx, ly, rw, rh, kernels::mc_of(k, job))
    }
}

/// The weighted blend of two predictions.
pub open spec fn blended(a: Seq<u8>, b: Seq<u8>, w: (i32, i32)) -> Seq<u8> {
    Seq::new(
        a.len(),
        |i: int| pixels::blend(a[i] as int, b[i] as int, w.0 as int, w.1 as int) as u8,
    )
}

/// The weights are ones that bi-prediction can have.
pub open spec fn weights_ok(w: (i32, i32)) -> bool {
    -128 <= w.0 <= 128 && -128 <= w.1 <= 128
}

/// The weighted blend of two predictions.
pub fn blend_blocks(a: &[u8; 256], b: &[u8; 256], w: (i32, i32)) -> (r: [u8; 256])
    requires
        weights_ok(w),
    ensures
        r@ == blended(a@, b@, w),
{
    let mut r: [u8; 256] = [0; 256];
    let mut i: usize = 0;
    while i < 256
        invariant
            i <= 256,
            weights_ok(w),
            forall|j: int|
                0 <= j < i ==> #[trigger] r@[j] == pixels::blend(
                    a@[j] as int,
                    b@[j] as int,
                    w.0 as int,
                    w.1 as int,
                ),
        decreases 256 - i,
    {
        r[i] = bi_blend(a[i], b[i], w);
        i = i + 1;
    }
    assert(r@ =~= blended(a@, b@, w));
    r
}

/// A vector as the job of predicting a luma block.
pub open spec fn luma_job(
    list: u8,
    refi: i32,
    lx: usize,
    ly: usize,
    rw: usize,
    rh: usize,
    mv: (i32, i32),
) -> McJob {
    McJob { list, refi, plane: 0, x: lx, y: ly, w: rw, h: rh, mv }
}

impl FrameEncoder {
    /// The frame measures this macroblock by SAD.
    pub open spec fn by_sad(&self) -> bool {
        self.fast && !self.mb_use_satd
    }

    /// The distortion of a motion vector for a luma block.
    pub fn mc_dist<K: Kernels>(
        &self,
        by_sad: bool,
        k: &K,
        reference: &RefFrame,
        sy: &[u8],
        lx: usize,
        ly: usize,
        rw: usize,
        rh: usize,
        job: McJob,
    ) -> (r: i64)
        requires
            self.wf(),
            self.cw <= 0x3fff_ffff,
            16 * self.mb_h <= 0x3fff_ffff,
            kernels::steady(*k),
            region_ok(sy@, self.cw, lx, ly, rw, rh),
            lx + rw <= self.cw,
            ly + rh <= 16 * self.mb_h,
            reference.y@.len() == self.cw * (16 * self.mb_h),
        ensures
            r == mv_dist(
                by_sad,
                *k,
                reference.y@,
                sy@,
                self.cw,
                (16 * self.mb_h) as usize,
                lx,
                ly,
                rw,
                rh,
                job,
            ),
            0 <= r <= 0x1f_ffff,
    {
        let cw: usize = self.cw;
        let ch: usize = self.mb_h * 16;
        match interior_at(cw, ch, lx, ly, rw, rh, job.mv) {
            Some((x, y)) => {
                proof {
                    pixels::lemma_spot(cw, lx, ly, rw as int, rh as int, sy@.len() as int);
                    lemma_inside(cw, ch, x, y, rw, rh);
                    pixels::lemma_spot(cw, x, y, rw as int, rh as int, reference.y@.len() as int);
                    assert(0 <= rw * rh <= 256) by (nonlinear_arith)
                        requires
                            4 <= rw <= 16,
                            4 <= rh <= 16,
                    ;
                }
                assert(sy.len() == sy@.len());
                assert(reference.y.len() == reference.y@.len());
                let sa: At = at_spot(cw, lx, ly);
                let ra: At = at_spot(cw, x, y);
                if by_sad {
                    sad_strided(sy, sa, &reference.y, ra, rw, rh)
                } else {
                    satd_px(sy, sa, &reference.y, ra, rw, rh)
                }
            },
            None => {
                let pred: [u8; 256] = mc(k, job);
                rect_dist(by_sad, sy, cw, lx, ly, rw, rh, &pred)
            },
        }
    }

    /// The distortion of the blend of two motion vectors, one of each list, for a luma block.
    pub fn bi_dist_rect<K: Kernels>(
        &self,
        k: &K,
        sy: &[u8],
        lx: usize,
        ly: usize,
        rw: usize,
        rh: usize,
        mv0: (i32, i32),
        mv1: (i32, i32),
    ) -> (r: i64)
        requires
            kernels::steady(*k),
            weights_ok(self.bi_w),
            region_ok(sy@, self.cw, lx, ly, rw, rh),
        ensures
            r == region_dist(
                self.by_sad(),
                sy@,
                self.cw,
                lx,
                ly,
                rw,
                rh,
                blended(
                    kernels::mc_of(*k, luma_job(0, 0, lx, ly, rw, rh, mv0)),
                    kernels::mc_of(*k, luma_job(1, 0, lx, ly, rw, rh, mv1)),
                    self.bi_w,
                ),
            ),
            0 <= r <= 0x1f_ffff,
    {
        let a: [u8; 256] = mc(
            k,
            McJob { list: 0, refi: 0, plane: 0, x: lx, y: ly, w: rw, h: rh, mv: mv0 },
        );
        let b: [u8; 256] = mc(
            k,
            McJob { list: 1, refi: 0, plane: 0, x: lx, y: ly, w: rw, h: rh, mv: mv1 },
        );
        let avg: [u8; 256] = blend_blocks(&a, &b, self.bi_w);
        rect_dist(self.fast && !self.mb_use_satd, sy, self.cw, lx, ly, rw, rh, &avg)
    }

    /// The distortion of the blend of two motion vectors for a macroblock.
    pub fn bi_dist<K: Kernels>(
        &self,
        k: &K,
        sy: &[u8],
        lx: usize,
        ly: usize,
        mv0: (i32, i32),
        mv1: (i32, i32),
    ) -> (r: i64)
        requires
            kernels::steady(*k),
            weights_ok(self.bi_w),
            region_ok(sy@, self.cw, lx, ly, 16, 16),
        ensures
            r == region_dist(
                self.by_sad(),
                sy@,
                self.cw,
                lx,
                ly,
                16,
                16,
                blended(
                    kernels::mc_of(*k, luma_job(0, 0, lx, ly, 16, 16, mv0)),
                    kernels::mc_of(*k, luma_job(1, 0, lx, ly, 16, 16, mv1)),
                    self.bi_w,
                ),
            ),
            0 <= r <= 0x1f_ffff,
    {
        self.bi_dist_rect(k, sy, lx, ly, 16, 16, mv0, mv1)
    }

    /// The distortion of a prediction of the whole macroblock.
    pub fn pred_dist(&self, sy: &[u8], lx: usize, ly: usize, pred: &[u8; 256]) -> (r: i64)
        requires
            region_ok(sy@, self.cw, lx, ly, 16, 16),
        ensures
            r == region_dist(self.by_sad(), sy@, self.cw, lx, ly, 16, 16, pred@),
            0 <= r <= 0x1f_ffff,
    {
        rect_dist(self.fast && !self.mb_use_satd, sy, self.cw, lx, ly, 16, 16, pred)
    }
}

proof fn lemma_inside(cw: usize, ch: usize, x: usize, y: usize, rw: usize, rh: usize)
    requires
        x + rw <= cw,
        y + rh <= ch,
        rw >= 1,
        rh >= 1,
    ensures
        pixels::block_fits(cw as int, x as int, y as int, rw as int, rh as int, cw * ch),
{
    assert(y * cw + (rh - 1) * cw + cw <= cw * ch) by (nonlinear_arith)
        requires
            y + rh <= ch,
            cw >= 0,
    ;
}

} // verus!
