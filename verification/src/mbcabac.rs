//! Whole macroblocks in CABAC: the neighbour state of a slice and the macroblock layer.
use vstd::prelude::*;
use crate::arith;
use crate::binarize;
use crate::binarize::{
    cb_cbp, cb_chroma_pred_mode, cb_intra4x4_pred_mode, cb_mb_qp_delta, cb_mb_type_i,
    cb_mb_type_p_intra, IntraType,
};
use crate::cabac;
use crate::cabac::{Bin, CabacEncoder};
use crate::frame::{predict_i4_mode, FrameEncoder};
use crate::grid;
use crate::grid::cell_at;
use crate::plan;
use crate::plan::{has_cbp_bit, I4Plan, I8Plan, MbPlan};
use crate::residual;
use crate::residual::{
    cb_residual, CB_NZC_CACHE, CB_RES_MAXPOS, CB_RP_CHROMA_AC, CB_RP_CHROMA_DC, CB_RP_I16_AC,
    CB_RP_I16_DC, CB_RP_LUMA_4X4, CB_RP_LUMA_8X8,
};
use crate::scan;
use crate::scan::{
    scan_4x4_ac, scan_4x4_dcac, scan_8x8_fwd, CHROMA_4X4_SCAN_XY, LUMA_4X4_SCAN_XY,
};

verus! {

/// What CABAC has to know about the macroblocks of a slice that are already coded.
pub struct CabacState {
    /// 2 for `I_16x16`, 0 for `I_NxN`, 100 for inter.
    pub cat: Vec<u8>,
    /// The chroma prediction mode.
    pub cmode: Vec<i32>,
    /// The coded-block pattern.
    pub mb_cbp: Vec<u8>,
    /// The mask of coded DC blocks.
    pub cbf_dc: Vec<u16>,
    /// The coefficient counts: luma in raster order, then chroma.
    pub mb_nzc: Vec<[u8; 24]>,
    /// The list-0 motion-vector differences of the 4x4 blocks, in raster order.
    pub mb_mvd: Vec<[[i16; 2]; 16]>,
    /// The list-0 references of the 4x4 blocks, in raster order; -1 for none.
    pub mb_ref: Vec<[i8; 16]>,
    pub mb_mvd1: Vec<[[i16; 2]; 16]>,
    pub mb_ref1: Vec<[i8; 16]>,
    pub mb_skip: Vec<bool>,
    /// Whether the macroblock is a direct or skipped one of a B slice.
    pub mb_direct: Vec<bool>,
    pub mb_t8x8: Vec<bool>,
    pub last_delta_qp: i32,
}

impl CabacState {
    /// There is one entry for each of `n` macroblocks.
    pub open spec fn wf(&self, n: int) -> bool {
        &&& self.cat@.len() == n
        &&& self.cmode@.len() == n
        &&& self.mb_cbp@.len() == n
        &&& self.cbf_dc@.len() == n
        &&& self.mb_nzc@.len() == n
        &&& self.mb_mvd@.len() == n
        &&& self.mb_ref@.len() == n
        &&& self.mb_mvd1@.len() == n
        &&& self.mb_ref1@.len() == n
        &&& self.mb_skip@.len() == n
        &&& self.mb_direct@.len() == n
        &&& self.mb_t8x8@.len() == n
    }

    /// The state before the first macroblock of a slice with `n` macroblocks.
    pub fn new(n: usize) -> (r: Self)
        ensures
            r.wf(n as int),
            r.last_delta_qp == 0,
            forall|i: int|
                0 <= i < n ==> {
                    &&& #[trigger] r.cat@[i] == 0
                    &&& r.cmode@[i] == 0
                    &&& r.mb_cbp@[i] == 0
                    &&& r.cbf_dc@[i] == 0
                    &&& !r.mb_skip@[i]
                    &&& !r.mb_direct@[i]
                    &&& !r.mb_t8x8@[i]
                },
            forall|i: int, k: int| 0 <= i < n && 0 <= k < 24 ==> #[trigger] r.mb_nzc@[i]@[k] == 0,
            forall|i: int, k: int|
                0 <= i < n && 0 <= k < 16 ==> {
                    &&& #[trigger] r.mb_ref@[i]@[k] == -1
                    &&& r.mb_ref1@[i]@[k] == -1
                    &&& r.mb_mvd@[i]@[k] == [0i16, 0i16]
                    &&& r.mb_mvd1@[i]@[k] == [0i16, 0i16]
                },
    {
        CabacState {
            cat: vec![0; n],
            cmode: vec![0; n],
            mb_cbp: vec![0; n],
            cbf_dc: vec![0; n],
            mb_nzc: vec![[0u8; 24]; n],
            mb_mvd: vec![[[0i16; 2]; 16]; n],
            mb_ref: vec![[-1i8; 16]; n],
            mb_mvd1: vec![[[0i16; 2]; 16]; n],
            mb_ref1: vec![[-1i8; 16]; n],
            mb_skip: vec![false; n],
            mb_direct: vec![false; n],
            mb_t8x8: vec![false; n],
            last_delta_qp: 0,
        }
    }
}

/// A run of residual blocks: the kind, whether it is coded, and the coefficients in scan
/// order of each, by its number in the count cache.
pub struct Blocks {
    pub rp: spec_fn(int) -> int,
    pub on: spec_fn(int) -> bool,
    pub co: spec_fn(int) -> Seq<i32>,
}

impl Blocks {
    /// How many coefficients of block `iz` are coded.
    pub open spec fn total(self, iz: int) -> u8 {
        if (self.on)(iz) {
            residual::count_nz((self.co)(iz), CB_RES_MAXPOS[(self.rp)(iz)] + 1) as u8
        } else {
            0
        }
    }

    /// The count cache with the blocks `from .. n` put in.
    pub open spec fn put(self, nzc: Seq<u8>, from: int, n: int) -> Seq<u8>
        decreases n - from,
    {
        if n <= from {
            nzc
        } else {
            self.put(nzc, from, n - 1).update(CB_NZC_CACHE[n - 1] as int, self.total(n - 1))
        }
    }

    /// The bins of the blocks `from .. n`.
    pub open spec fn bins(
        self,
        nzc: Seq<u8>,
        from: int,
        n: int,
        intra: bool,
        ndc: (Option<u16>, Option<u16>),
    ) -> Seq<Bin>
        decreases n - from,
    {
        if n <= from {
            Seq::empty()
        } else {
            self.bins(nzc, from, n - 1, intra, ndc) + (if (self.on)(n - 1) {
                let rp = (self.rp)(n - 1);
                residual::residual_bins(
                    (self.co)(n - 1),
                    rp,
                    residual::cbf_inc(self.put(nzc, from, n - 1), n - 1, rp, intra, ndc),
                )
            } else {
                Seq::empty()
            })
        }
    }
}

/// The place of luma block `z` among the blocks in raster order.
pub open spec fn luma_raster(z: int) -> int {
    LUMA_4X4_SCAN_XY[z].1 * 4 + LUMA_4X4_SCAN_XY[z].0
}

/// The sixteen luma blocks of a macroblock, coded by 8x8 quarters. With `ac` their first
/// coefficient is left out.
pub open spec fn luma_blocks(q: Seq<[i32; 16]>, cbp: int, ac: bool) -> Blocks {
    Blocks {
        rp: |iz: int| if ac {
            2
        } else {
            3
        },
        on: |iz: int| plan::cbp_bit(cbp, iz / 4),
        co: |iz: int| if ac {
            scan::zigzag4_ac(q[luma_raster(iz)]@)
        } else {
            scan::zigzag4(q[luma_raster(iz)]@)
        },
    }
}

/// The AC blocks of both chroma planes, numbers 16 ..= 23.
pub open spec fn chroma_blocks(q: Seq<[[i32; 16]; 4]>) -> Blocks {
    Blocks {
        rp: |iz: int| 9 + (iz - 16) / 4,
        on: |iz: int| true,
        co: |iz: int| scan::zigzag4_ac(q[(iz - 16) / 4]@[(iz - 16) % 4]@),
    }
}

/// Code luma block `iz`, if its quarter is coded, and put its count into the cache.
fn cb_luma_block(
    cab: &mut CabacEncoder,
    nzc: &mut [u8; 48],
    cbf_dc: &mut u16,
    ndc: (Option<u16>, Option<u16>),
    is_intra: bool,
    q: &[[i32; 16]; 16],
    cbp: u32,
    ac: bool,
    iz: usize,
) -> (total: u8)
    requires
        iz < 16,
    ensures
        ({
            let b = luma_blocks(q@, cbp as int, ac);
            let rp = (b.rp)(iz as int);
            &&& total == b.total(iz as int)
            &&& final(cab)@ == old(cab)@ + (if (b.on)(iz as int) {
                residual::residual_bins(
                    (b.co)(iz as int),
                    rp,
                    residual::cbf_inc(old(nzc)@, iz as int, rp, is_intra, ndc),
                )
            } else {
                Seq::empty()
            })
            &&& final(nzc)@ == old(nzc)@.update(CB_NZC_CACHE[iz as int] as int, total)
        }),
        *final(cbf_dc) == *old(cbf_dc),
{
    if !has_cbp_bit(cbp, iz / 4) {
        nzc[CB_NZC_CACHE[iz]] = 0;
        assert(cab@ =~= old(cab)@ + Seq::<Bin>::empty());
        return 0;
    }
    let (lbx, lby): (usize, usize) = LUMA_4X4_SCAN_XY[iz];
    assert(lbx < 4 && lby < 4);
    if ac {
        let sc: [i32; 15] = scan_4x4_ac(&q[lby * 4 + lbx]);
        cb_residual(cab, nzc, cbf_dc, iz, CB_RP_I16_AC, is_intra, ndc, &sc) as u8
    } else {
        let sc: [i32; 16] = scan_4x4_dcac(&q[lby * 4 + lbx]);
        cb_residual(cab, nzc, cbf_dc, iz, CB_RP_LUMA_4X4, is_intra, ndc, &sc) as u8
    }
}

/// Code the luma blocks of a macroblock and put their counts into the frame.
pub(crate) fn cb_luma_blocks(
    fe: &mut FrameEncoder,
    cab: &mut CabacEncoder,
    nzc: &mut [u8; 48],
    cbf_dc: &mut u16,
    ndc: (Option<u16>, Option<u16>),
    is_intra: bool,
    q: &[[i32; 16]; 16],
    cbp: u32,
    ac: bool,
    mb_x: usize,
    mb_y: usize,
)
    requires
        old(fe).wf(),
        old(fe).has_mb(mb_x as int, mb_y as int),
    ensures
        ({
            let b = luma_blocks(q@, cbp as int, ac);
            &&& final(cab)@ == old(cab)@ + b.bins(old(nzc)@, 0, 16, is_intra, ndc)
            &&& final(nzc)@ == b.put(old(nzc)@, 0, 16)
            &&& final(fe).nnz_y@ == grid::put_luma(
                old(fe).nnz_y@,
                old(fe).mb_w as int,
                mb_x as int,
                mb_y as int,
                16,
                |z: int| b.total(z),
            )
        }),
        *final(cbf_dc) == *old(cbf_dc),
        *final(fe) == (FrameEncoder { nnz_y: final(fe).nnz_y, ..*old(fe) }),
        final(fe).wf(),
{
    let w4: usize = fe.mb_w * 4;
    let ghost b = luma_blocks(q@, cbp as int, ac);
    let ghost t = |z: int| b.total(z);
    let mut iz: usize = 0;
    assert(cab@ =~= old(cab)@ + b.bins(old(nzc)@, 0, 0, is_intra, ndc));
    while iz < 16
        invariant
            iz <= 16,
            w4 == 4 * fe.mb_w,
            b == luma_blocks(q@, cbp as int, ac),
            t == (|z: int| b.total(z)),
            old(fe).wf(),
            fe.wf(),
            fe.has_mb(mb_x as int, mb_y as int),
            *cbf_dc == *old(cbf_dc),
            *fe == (FrameEncoder { nnz_y: fe.nnz_y, ..*old(fe) }),
            cab@ == old(cab)@ + b.bins(old(nzc)@, 0, iz as int, is_intra, ndc),
            nzc@ == b.put(old(nzc)@, 0, iz as int),
            fe.nnz_y@ == grid::put_luma(
                old(fe).nnz_y@,
                old(fe).mb_w as int,
                mb_x as int,
                mb_y as int,
                iz as int,
                t,
            ),
        decreases 16 - iz,
    {
        let (lbx, lby): (usize, usize) = LUMA_4X4_SCAN_XY[iz];
        proof {
            grid::lemma_luma_cell(
                fe.mb_w as int,
                fe.mb_h as int,
                mb_x as int,
                mb_y as int,
                iz as int,
            );
        }
        let total: u8 = cb_luma_block(cab, nzc, cbf_dc, ndc, is_intra, q, cbp, ac, iz);
        assert(cab@ =~= old(cab)@ + b.bins(old(nzc)@, 0, iz + 1, is_intra, ndc));
        let k: usize = cell_at(w4, mb_x * 4 + lbx, mb_y * 4 + lby, fe.nnz_y.len());
        fe.nnz_y[k] = total;
        iz = iz + 1;
    }
}

/// The bins of the first `n` 8x8 blocks.
pub open spec fn eight_bins(q: Seq<[i32; 64]>, cbp: int, n: int) -> Seq<Bin>
    decreases n,
{
    if n <= 0 {
        Seq::empty()
    } else {
        eight_bins(q, cbp, n - 1) + (if plan::cbp_bit(cbp, n - 1) {
            residual::residual_bins(scan::zigzag8(q[n - 1]@), 6, 0)
        } else {
            Seq::empty()
        })
    }
}

/// How many coefficients of the 8x8 block `b` are coded.
pub open spec fn eight_total(q: Seq<[i32; 64]>, cbp: int, b: int) -> u8 {
    if plan::cbp_bit(cbp, b) {
        residual::count_nz(scan::zigzag8(q[b]@), 64) as u8
    } else {
        0
    }
}

/// The count cache with the first `n` 8x8 blocks put in, each into its four cells.
pub open spec fn eight_put(nzc: Seq<u8>, q: Seq<[i32; 64]>, cbp: int, n: int) -> Seq<u8>
    decreases n,
{
    if n <= 0 {
        nzc
    } else {
        residual::nzc_after(
            eight_put(nzc, q, cbp, n - 1),
            4 * (n - 1),
            6,
            eight_total(q, cbp, n - 1),
        )
    }
}

/// Code the four 8x8 luma blocks of a macroblock and put their counts into the frame.
#[verifier::rlimit(50)]
pub(crate) fn cb_luma_eight(
    fe: &mut FrameEncoder,
    cab: &mut CabacEncoder,
    nzc: &mut [u8; 48],
    cbf_dc: &mut u16,
    ndc: (Option<u16>, Option<u16>),
    is_intra: bool,
    q: &[[i32; 64]; 4],
    cbp: u32,
    mb_x: usize,
    mb_y: usize,
)
    requires
        old(fe).wf(),
        old(fe).has_mb(mb_x as int, mb_y as int),
        plan::marked_blocks_coded(q@, cbp as int),
    ensures
        final(cab)@ == old(cab)@ + eight_bins(q@, cbp as int, 4),
        final(nzc)@ == eight_put(old(nzc)@, q@, cbp as int, 4),
        final(fe).nnz_y@ == grid::put_luma(
            old(fe).nnz_y@,
            old(fe).mb_w as int,
            mb_x as int,
            mb_y as int,
            16,
            |z: int| eight_total(q@, cbp as int, z / 4),
        ),
        *final(cbf_dc) == *old(cbf_dc),
        *final(fe) == (FrameEncoder { nnz_y: final(fe).nnz_y, ..*old(fe) }),
        final(fe).wf(),
{
    let w4: usize = fe.mb_w * 4;
    let ghost t = |z: int| eight_total(q@, cbp as int, z / 4);
    let mut b8: usize = 0;
    assert(cab@ =~= old(cab)@ + eight_bins(q@, cbp as int, 0));
    while b8 < 4
        invariant
            b8 <= 4,
            w4 == 4 * fe.mb_w,
            t == (|z: int| eight_total(q@, cbp as int, z / 4)),
            plan::marked_blocks_coded(q@, cbp as int),
            old(fe).wf(),
            fe.wf(),
            fe.has_mb(mb_x as int, mb_y as int),
            *cbf_dc == *old(cbf_dc),
            *fe == (FrameEncoder { nnz_y: fe.nnz_y, ..*old(fe) }),
            cab@ == old(cab)@ + eight_bins(q@, cbp as int, b8 as int),
            nzc@ == eight_put(old(nzc)@, q@, cbp as int, b8 as int),
            fe.nnz_y@ == grid::put_luma(
                old(fe).nnz_y@,
                old(fe).mb_w as int,
                mb_x as int,
                mb_y as int,
                4 * b8 as int,
                t,
            ),
        decreases 4 - b8,
    {
        let total: u32 = if has_cbp_bit(cbp, b8) {
            let sc: [i32; 64] = scan_8x8_fwd(&q[b8]);
            cb_residual(cab, nzc, cbf_dc, b8 * 4, CB_RP_LUMA_8X8, is_intra, ndc, &sc)
        } else {
            nzc[CB_NZC_CACHE[b8 * 4]] = 0;
            nzc[CB_NZC_CACHE[b8 * 4 + 1]] = 0;
            nzc[CB_NZC_CACHE[b8 * 4 + 2]] = 0;
            nzc[CB_NZC_CACHE[b8 * 4 + 3]] = 0;
            0
        };
        assert(total as u8 == eight_total(q@, cbp as int, b8 as int));
        assert(cab@ =~= old(cab)@ + eight_bins(q@, cbp as int, b8 + 1));
        assert(nzc@ =~= eight_put(old(nzc)@, q@, cbp as int, b8 + 1));
        let mut k: usize = 0;
        while k < 4
            invariant
                k <= 4,
                b8 < 4,
                w4 == 4 * fe.mb_w,
                t == (|z: int| eight_total(q@, cbp as int, z / 4)),
                total as u8 == eight_total(q@, cbp as int, b8 as int),
                fe.wf(),
                old(fe).wf(),
                fe.has_mb(mb_x as int, mb_y as int),
                *fe == (FrameEncoder { nnz_y: fe.nnz_y, ..*old(fe) }),
                fe.nnz_y@ == grid::put_luma(
                    old(fe).nnz_y@,
                    old(fe).mb_w as int,
                    mb_x as int,
                    mb_y as int,
                    4 * b8 + k,
                    t,
                ),
            decreases 4 - k,
        {
            let z: usize = b8 * 4 + k;
            let (lbx, lby): (usize, usize) = LUMA_4X4_SCAN_XY[z];
            proof {
                grid::lemma_luma_cell(
                    fe.mb_w as int,
                    fe.mb_h as int,
                    mb_x as int,
                    mb_y as int,
                    z as int,
                );
                assert(z / 4 == b8);
            }
            let c: usize = cell_at(w4, mb_x * 4 + lbx, mb_y * 4 + lby, fe.nnz_y.len());
            fe.nnz_y[c] = total as u8;
            k = k + 1;
        }
        b8 = b8 + 1;
    }
}

/// Set the counts of all luma blocks of a macroblock to zero.
pub(crate) fn clear_luma_counts(fe: &mut FrameEncoder, mb_x: usize, mb_y: usize)
    requires
        old(fe).wf(),
        old(fe).has_mb(mb_x as int, mb_y as int),
    ensures
        final(fe).nnz_y@ == grid::put_luma(
            old(fe).nnz_y@,
            old(fe).mb_w as int,
            mb_x as int,
            mb_y as int,
            16,
            |z: int| 0u8,
        ),
        *final(fe) == (FrameEncoder { nnz_y: final(fe).nnz_y, ..*old(fe) }),
        final(fe).wf(),
{
    let w4: usize = fe.mb_w * 4;
    let ghost t = |z: int| 0u8;
    let mut z: usize = 0;
    while z < 16
        invariant
            z <= 16,
            w4 == 4 * fe.mb_w,
            t == (|z: int| 0u8),
            old(fe).wf(),
            fe.wf(),
            fe.has_mb(mb_x as int, mb_y as int),
            *fe == (FrameEncoder { nnz_y: fe.nnz_y, ..*old(fe) }),
            fe.nnz_y@ == grid::put_luma(
                old(fe).nnz_y@,
                old(fe).mb_w as int,
                mb_x as int,
                mb_y as int,
                z as int,
                t,
            ),
        decreases 16 - z,
    {
        let (lbx, lby): (usize, usize) = LUMA_4X4_SCAN_XY[z];
        proof {
            grid::lemma_luma_cell(
                fe.mb_w as int,
                fe.mb_h as int,
                mb_x as int,
                mb_y as int,
                z as int,
            );
        }
        let c: usize = cell_at(w4, mb_x * 4 + lbx, mb_y * 4 + lby, fe.nnz_y.len());
        fe.nnz_y[c] = 0;
        z = z + 1;
    }
}

/// The bins of the chroma residual: DC of both planes if anything is coded, AC of both
/// planes if the pattern is 2.
pub open spec fn chroma_res_bins(
    nzc: Seq<u8>,
    ndc: (Option<u16>, Option<u16>),
    intra: bool,
    cbp_chroma: int,
    dc: Seq<[i32; 4]>,
    q: Seq<[[i32; 16]; 4]>,
) -> Seq<Bin> {
    (if cbp_chroma >= 1 {
        residual::residual_bins(dc[0]@, 7, residual::cbf_inc(nzc, 16, 7, intra, ndc))
            + residual::residual_bins(dc[1]@, 8, residual::cbf_inc(nzc, 20, 8, intra, ndc))
    } else {
        Seq::empty()
    }) + (if cbp_chroma == 2 {
        chroma_blocks(q).bins(nzc, 16, 24, intra, ndc)
    } else {
        Seq::empty()
    })
}

/// The DC mask behind the chroma residual.
pub open spec fn chroma_dc_mask(mask: u16, cbp_chroma: int, dc: Seq<[i32; 4]>) -> u16 {
    if cbp_chroma >= 1 {
        residual::dc_mask_after(
            residual::dc_mask_after(mask, 7, residual::count_nz(dc[0]@, 4) > 0),
            8,
            residual::count_nz(dc[1]@, 4) > 0,
        )
    } else {
        mask
    }
}

/// The count cache behind the chroma residual.
pub open spec fn chroma_nzc(nzc: Seq<u8>, cbp_chroma: int, q: Seq<[[i32; 16]; 4]>) -> Seq<u8> {
    if cbp_chroma == 2 {
        chroma_blocks(q).put(nzc, 16, 24)
    } else {
        nzc
    }
}

/// The count grid of chroma plane `i` behind the chroma residual.
pub open spec fn chroma_counts(
    g: Seq<u8>,
    mb_w: int,
    mb_x: int,
    mb_y: int,
    cbp_chroma: int,
    q: Seq<[[i32; 16]; 4]>,
    i: int,
) -> Seq<u8> {
    if cbp_chroma == 2 {
        grid::put_chroma(
            g,
            mb_w,
            mb_x,
            mb_y,
            4,
            |z: int| chroma_blocks(q).total(16 + 4 * i + z),
        )
    } else {
        g
    }
}

/// Code the chroma residual of a macroblock and put the AC counts into the frame.
#[verifier::rlimit(50)]
pub fn cb_emit_chroma_residual(
    cab: &mut CabacEncoder,
    fe: &mut FrameEncoder,
    nzc: &mut [u8; 48],
    cbfdc: &mut u16,
    ndc: (Option<u16>, Option<u16>),
    is_intra: bool,
    cbp_chroma: u32,
    c_dc_levels: &[[i32; 4]; 2],
    c_q: &[[[i32; 16]; 4]; 2],
    mb_x: usize,
    mb_y: usize,
)
    requires
        old(fe).wf(),
        old(fe).has_mb(mb_x as int, mb_y as int),
    ensures
        final(cab)@ == old(cab)@ + chroma_res_bins(
            old(nzc)@,
            ndc,
            is_intra,
            cbp_chroma as int,
            c_dc_levels@,
            c_q@,
        ),
        final(nzc)@ == chroma_nzc(old(nzc)@, cbp_chroma as int, c_q@),
        *final(cbfdc) == chroma_dc_mask(*old(cbfdc), cbp_chroma as int, c_dc_levels@),
        final(fe).nnz_c@[0]@ == chroma_counts(
            old(fe).nnz_c@[0]@,
            old(fe).mb_w as int,
            mb_x as int,
            mb_y as int,
            cbp_chroma as int,
            c_q@,
            0,
        ),
        final(fe).nnz_c@[1]@ == chroma_counts(
            old(fe).nnz_c@[1]@,
            old(fe).mb_w as int,
            mb_x as int,
            mb_y as int,
            cbp_chroma as int,
            c_q@,
            1,
        ),
        *final(fe) == (FrameEncoder { nnz_c: final(fe).nnz_c, ..*old(fe) }),
        final(fe).wf(),
{
    let w2: usize = fe.mb_w * 2;
    if cbp_chroma >= 1 {
        cb_residual(cab, nzc, cbfdc, 16, CB_RP_CHROMA_DC, is_intra, ndc, &c_dc_levels[0]);
        cb_residual(cab, nzc, cbfdc, 20, CB_RP_CHROMA_DC + 1, is_intra, ndc, &c_dc_levels[1]);
    }
    let ghost b = chroma_blocks(c_q@);
    let ghost mid = cab@;
    let ghost nzc0 = nzc@;
    let ghost mask = *cbfdc;
    let ghost t0 = |z: int| b.total(16 + 4 * 0 + z);
    let ghost t1 = |z: int| b.total(16 + 4 * 1 + z);
    if cbp_chroma == 2 {
        let mut j: usize = 0;
        assert(cab@ =~= mid + b.bins(nzc0, 16, 16, is_intra, ndc));
        while j < 8
            invariant
                j <= 8,
                w2 == 2 * fe.mb_w,
                b == chroma_blocks(c_q@),
                t0 == (|z: int| b.total(16 + 4 * 0 + z)),
                t1 == (|z: int| b.total(16 + 4 * 1 + z)),
                old(fe).wf(),
                fe.wf(),
                fe.has_mb(mb_x as int, mb_y as int),
                *cbfdc == mask,
                *fe == (FrameEncoder { nnz_c: fe.nnz_c, ..*old(fe) }),
                cab@ == mid + b.bins(nzc0, 16, 16 + j, is_intra, ndc),
                nzc@ == b.put(nzc0, 16, 16 + j),
                fe.nnz_c@[0]@ == grid::put_chroma(
                    old(fe).nnz_c@[0]@,
                    fe.mb_w as int,
                    mb_x as int,
                    mb_y as int,
                    arith::min(j as int, 4),
                    t0,
                ),
                fe.nnz_c@[1]@ == grid::put_chroma(
                    old(fe).nnz_c@[1]@,
                    fe.mb_w as int,
                    mb_x as int,
                    mb_y as int,
                    arith::max(j - 4, 0),
                    t1,
                ),
            decreases 8 - j,
        {
            let i: usize = j / 4;
            let id4: usize = j % 4;
            let (bx, by): (usize, usize) = CHROMA_4X4_SCAN_XY[id4];
            proof {
                grid::lemma_chroma_cell(
                    fe.mb_w as int,
                    fe.mb_h as int,
                    mb_x as int,
                    mb_y as int,
                    id4 as int,
                );
                assert(by * 2 + bx == id4);
            }
            let ac: [i32; 15] = scan_4x4_ac(&c_q[i][by * 2 + bx]);
            assert(ac@ == (b.co)(16 + j));
            assert((b.rp)(16 + j) == 9 + i);
            assert((b.on)(16 + j));
            let total: u32 = cb_residual(
                cab,
                nzc,
                cbfdc,
                16 + j,
                CB_RP_CHROMA_AC + i,
                is_intra,
                ndc,
                &ac,
            );
            proof {
                assert(total as u8 == b.total(16 + j));
                assert(cab@ =~= mid + b.bins(nzc0, 16, 16 + j + 1, is_intra, ndc));
                assert(nzc@ =~= b.put(nzc0, 16, 16 + j + 1));
            }
            let c: usize = cell_at(w2, mb_x * 2 + bx, mb_y * 2 + by, fe.nnz_c[i].len());
            fe.nnz_c[i][c] = total as u8;
            j = j + 1;
        }
    }
    assert(cab@ =~= old(cab)@ + chroma_res_bins(
        old(nzc)@,
        ndc,
        is_intra,
        cbp_chroma as int,
        c_dc_levels@,
        c_q@,
    ));
}

/// The address of a macroblock.
pub open spec fn addr_of(mb_w: int, mb_x: int, mb_y: int) -> int {
    mb_y * mb_w + mb_x
}

/// The macroblock above `(mb_x, mb_y)`.
pub open spec fn top_of(mb_w: int, mb_x: int, mb_y: int) -> Option<int> {
    if mb_y > 0 {
        Some(addr_of(mb_w, mb_x, mb_y) - mb_w)
    } else {
        None
    }
}

/// The macroblock left of `(mb_x, mb_y)`.
pub open spec fn left_of(mb_w: int, mb_x: int, mb_y: int) -> Option<int> {
    if mb_x > 0 {
        Some(addr_of(mb_w, mb_x, mb_y) - 1)
    } else {
        None
    }
}

/// What the grid `v` holds of a neighbour that may be missing.
pub open spec fn of<T>(v: Seq<T>, a: Option<int>) -> Option<T> {
    match a {
        Some(i) => Some(v[i]),
        None => None,
    }
}

/// An optional macroblock address as a mathematical value.
pub open spec fn oi(a: Option<usize>) -> Option<int> {
    match a {
        Some(i) => Some(i as int),
        None => None,
    }
}

/// The address of a macroblock and those of its upper and left neighbours.
pub fn neighbours(mb_w: usize, mb_h: usize, mb_x: usize, mb_y: usize) -> (r: (
    usize,
    Option<usize>,
    Option<usize>,
))
    requires
        mb_x < mb_w,
        mb_y < mb_h,
        mb_w * mb_h <= usize::MAX,
    ensures
        r.0 == addr_of(mb_w as int, mb_x as int, mb_y as int),
        r.0 < mb_w * mb_h,
        oi(r.1) == top_of(mb_w as int, mb_x as int, mb_y as int),
        oi(r.2) == left_of(mb_w as int, mb_x as int, mb_y as int),
        r.1 is Some ==> r.1->0 < r.0,
        r.2 is Some ==> r.2->0 < r.0,
{
    proof {
        grid::lemma_cell(mb_w as int, mb_h as int, mb_x as int, mb_y as int);
        if mb_y > 0 {
            grid::lemma_cell(mb_w as int, mb_h as int, mb_x as int, mb_y - 1);
            assert((mb_y - 1) * mb_w == mb_y * mb_w - mb_w) by (nonlinear_arith);
        }
    }
    let addr: usize = mb_y * mb_w + mb_x;
    let top: Option<usize> = if mb_y > 0 {
        Some(addr - mb_w)
    } else {
        None
    };
    let left: Option<usize> = if mb_x > 0 {
        Some(addr - 1)
    } else {
        None
    };
    (addr, top, left)
}

/// The count cache before a macroblock: the cells of its own blocks hold 0xff, the cells
/// above and left of them what the neighbours export, or 0xff.
pub open spec fn nzc_built(mb_nzc: Seq<[u8; 24]>, top: Option<int>, left: Option<int>) -> Seq<u8> {
    Seq::new(
        48,
        |c: int|
            if (c == 0 || c == 5 || c == 29) && top is Some {
                0u8
            } else if 1 <= c <= 4 && top is Some {
                mb_nzc[top->0]@[11 + c]
            } else if 6 <= c <= 7 && top is Some {
                mb_nzc[top->0]@[14 + c]
            } else if 30 <= c <= 31 && top is Some {
                mb_nzc[top->0]@[c - 8]
            } else if (c == 8 || c == 16 || c == 24 || c == 32) && left is Some {
                mb_nzc[left->0]@[c / 2 - 1]
            } else if c == 13 && left is Some {
                mb_nzc[left->0]@[17]
            } else if c == 21 && left is Some {
                mb_nzc[left->0]@[21]
            } else if c == 37 && left is Some {
                mb_nzc[left->0]@[19]
            } else if c == 45 && left is Some {
                mb_nzc[left->0]@[23]
            } else {
                0xffu8
            },
    )
}

/// Build the count cache of a macroblock from what its neighbours export.
pub fn cb_build_nzc(mb_nzc: &Vec<[u8; 24]>, top: Option<usize>, left: Option<usize>) -> (r: [u8; 48])
    requires
        top is Some ==> top->0 < mb_nzc@.len(),
        left is Some ==> left->0 < mb_nzc@.len(),
    ensures
        r@ == nzc_built(mb_nzc@, oi(top), oi(left)),
{
    let mut nzc: [u8; 48] = [0xffu8; 48];
    if let Some(t) = top {
        let tn: [u8; 24] = mb_nzc[t];
        nzc[1] = tn[12];
        nzc[2] = tn[13];
        nzc[3] = tn[14];
        nzc[4] = tn[15];
        nzc[0] = 0;
        nzc[5] = 0;
        nzc[29] = 0;
        nzc[6] = tn[20];
        nzc[7] = tn[21];
        nzc[30] = tn[22];
        nzc[31] = tn[23];
    }
    if let Some(l) = left {
        let ln: [u8; 24] = mb_nzc[l];
        nzc[8] = ln[3];
        nzc[16] = ln[7];
        nzc[24] = ln[11];
        nzc[32] = ln[15];
        nzc[13] = ln[17];
        nzc[21] = ln[21];
        nzc[37] = ln[19];
        nzc[45] = ln[23];
    }
    assert(nzc@ =~= nzc_built(mb_nzc@, oi(top), oi(left)));
    nzc
}

/// The cache cell of export entry `k`: luma in raster order, then the rows of the chroma
/// planes, Cb before Cr.
pub open spec fn export_cell(k: int) -> int {
    if k < 16 {
        9 + k % 4 + 8 * (k / 4)
    } else if k < 18 {
        14 + (k - 16)
    } else if k < 20 {
        38 + (k - 18)
    } else if k < 22 {
        22 + (k - 20)
    } else {
        46 + (k - 22)
    }
}

/// What a macroblock exports: the counts of its blocks, zero where nothing was coded.
pub open spec fn nzc_exported(nzc: Seq<u8>) -> Seq<u8> {
    Seq::new(
        24,
        |k: int|
            if nzc[export_cell(k)] == 0xff {
                0u8
            } else {
                nzc[export_cell(k)]
            },
    )
}

/// Take the counts of a macroblock out of its cache.
pub fn cb_export_nzc(nzc: &[u8; 48]) -> (r: [u8; 24])
    ensures
        r@ == nzc_exported(nzc@),
{
    let mut mn: [u8; 24] = [0u8; 24];
    let mut k: usize = 0;
    while k < 24
        invariant
            k <= 24,
            forall|j: int| 0 <= j < k ==> #[trigger] mn@[j] == nzc_exported(nzc@)[j],
        decreases 24 - k,
    {
        let c: usize = if k < 16 {
            9 + k % 4 + 8 * (k / 4)
        } else if k < 18 {
            14 + (k - 16)
        } else if k < 20 {
            38 + (k - 18)
        } else if k < 22 {
            22 + (k - 20)
        } else {
            46 + (k - 22)
        };
        mn[k] = if nzc[c] == 0xff {
            0
        } else {
            nzc[c]
        };
        k = k + 1;
    }
    assert(mn@ =~= nzc_exported(nzc@));
    mn
}

/// What a macroblock exports is what its right and lower neighbours see beside and above
/// their own blocks.
pub proof fn law_exported_counts_reach_the_neighbours(
    mb_nzc: Seq<[u8; 24]>,
    above: int,
    left: int,
    na: Seq<u8>,
    nl: Seq<u8>,
    i: int,
)
    requires
        0 <= above < mb_nzc.len(),
        0 <= left < mb_nzc.len(),
        mb_nzc[above]@ == nzc_exported(na),
        mb_nzc[left]@ == nzc_exported(nl),
        0 <= i < 4,
        na[33 + i] != 0xff,
        nl[12 + 8 * i] != 0xff,
    ensures
        nzc_built(mb_nzc, Some(above), Some(left))[1 + i] == na[33 + i],
        nzc_built(mb_nzc, Some(above), Some(left))[8 + 8 * i] == nl[12 + 8 * i],
{
    assert(export_cell(12 + i) == 33 + i);
    assert(export_cell(3 + 4 * i) == 12 + 8 * i);
}

/// How many of the two neighbours have the flag set.
pub open spec fn flag_ctx(v: Seq<bool>, top: Option<int>, left: Option<int>) -> int {
    cabac::bit(of(v, left) == Some(true)) + cabac::bit(of(v, top) == Some(true))
}

/// How many of the two neighbours are there and have the flag clear.
pub open spec fn clear_ctx(v: Seq<bool>, top: Option<int>, left: Option<int>) -> int {
    cabac::bit(of(v, left) == Some(false)) + cabac::bit(of(v, top) == Some(false))
}

pub(crate) fn count_flag(v: &Vec<bool>, top: Option<usize>, left: Option<usize>, want: bool) -> (r: usize)
    requires
        top is Some ==> top->0 < v@.len(),
        left is Some ==> left->0 < v@.len(),
    ensures
        want ==> r == flag_ctx(v@, oi(top), oi(left)),
        !want ==> r == clear_ctx(v@, oi(top), oi(left)),
        r <= 2,
{
    let l: usize = match left {
        Some(a) => if v[a] == want {
            1
        } else {
            0
        },
        None => 0,
    };
    let t: usize = match top {
        Some(a) => if v[a] == want {
            1
        } else {
            0
        },
        None => 0,
    };
    l + t
}

/// How many of the two neighbours have a chroma mode other than DC.
pub open spec fn cmode_ctx(v: Seq<i32>, top: Option<int>, left: Option<int>) -> int {
    cabac::bit(left is Some && 1 <= v[left->0] <= 3) + cabac::bit(
        top is Some && 1 <= v[top->0] <= 3,
    )
}

/// How many of the two neighbours are not `I_NxN`.
pub open spec fn cat_ctx(v: Seq<u8>, top: Option<int>, left: Option<int>) -> int {
    cabac::bit(left is Some && v[left->0] >= 2) + cabac::bit(top is Some && v[top->0] >= 2)
}

fn count_cmode(v: &Vec<i32>, top: Option<usize>, left: Option<usize>) -> (r: usize)
    requires
        top is Some ==> top->0 < v@.len(),
        left is Some ==> left->0 < v@.len(),
    ensures
        r == cmode_ctx(v@, oi(top), oi(left)),
        r <= 2,
{
    let l: usize = match left {
        Some(a) => if 1 <= v[a] && v[a] <= 3 {
            1
        } else {
            0
        },
        None => 0,
    };
    let t: usize = match top {
        Some(a) => if 1 <= v[a] && v[a] <= 3 {
            1
        } else {
            0
        },
        None => 0,
    };
    l + t
}

fn count_cat(v: &Vec<u8>, top: Option<usize>, left: Option<usize>) -> (r: usize)
    requires
        top is Some ==> top->0 < v@.len(),
        left is Some ==> left->0 < v@.len(),
    ensures
        r == cat_ctx(v@, oi(top), oi(left)),
        r <= 2,
{
    let l: usize = match left {
        Some(a) => if v[a] >= 2 {
            1
        } else {
            0
        },
        None => 0,
    };
    let t: usize = match top {
        Some(a) => if v[a] >= 2 {
            1
        } else {
            0
        },
        None => 0,
    };
    l + t
}

pub(crate) fn get_u8(v: &Vec<u8>, a: Option<usize>) -> (r: Option<u8>)
    requires
        a is Some ==> a->0 < v@.len(),
    ensures
        r == of(v@, oi(a)),
{
    match a {
        Some(i) => Some(v[i]),
        None => None,
    }
}

pub(crate) fn get_u16(v: &Vec<u16>, a: Option<usize>) -> (r: Option<u16>)
    requires
        a is Some ==> a->0 < v@.len(),
    ensures
        r == of(v@, oi(a)),
{
    match a {
        Some(i) => Some(v[i]),
        None => None,
    }
}

/// How one macroblock is coded behind its type and motion: the bins, and what the
/// neighbour state and the frame become.
pub struct MbCode {
    pub bins: Seq<Bin>,
    /// The count cache behind the macroblock.
    pub nzc: Seq<u8>,
    /// The mask of coded DC blocks.
    pub mask: u16,
    pub cbp: int,
    pub t8: bool,
    /// The coded QP step, if one is coded.
    pub delta: Option<int>,
    /// The count of each luma block, by its number in coding order.
    pub totals: spec_fn(int) -> u8,
}

impl MbCode {
    /// The neighbour state and the frame have become what this code says, and nothing of
    /// the residual state else has changed. `q` holds the chroma AC levels.
    pub open spec fn committed(
        self,
        q: Seq<[[i32; 16]; 4]>,
        fe0: FrameEncoder,
        fe1: FrameEncoder,
        cs0: CabacState,
        cs1: CabacState,
        mb_x: int,
        mb_y: int,
    ) -> bool {
        let w = fe0.mb_w as int;
        let addr = addr_of(w, mb_x, mb_y);
        &&& cs1.mb_cbp@ == cs0.mb_cbp@.update(addr, self.cbp as u8)
        &&& cs1.cbf_dc@ == cs0.cbf_dc@.update(addr, self.mask)
        &&& cs1.mb_nzc@ == cs0.mb_nzc@.update(addr, cs1.mb_nzc@[addr])
        &&& cs1.mb_nzc@[addr]@ == nzc_exported(self.nzc)
        &&& cs1.mb_t8x8@ == cs0.mb_t8x8@.update(addr, self.t8)
        &&& cs1.last_delta_qp == (match self.delta {
            Some(d) => d,
            None => 0,
        })
        &&& fe1.nnz_y@ == grid::put_luma(fe0.nnz_y@, w, mb_x, mb_y, 16, self.totals)
        &&& fe1.nnz_c@[0]@ == chroma_counts(
            fe0.nnz_c@[0]@,
            w,
            mb_x,
            mb_y,
            self.cbp / 16,
            q,
            0,
        )
        &&& fe1.nnz_c@[1]@ == chroma_counts(
            fe0.nnz_c@[1]@,
            w,
            mb_x,
            mb_y,
            self.cbp / 16,
            q,
            1,
        )
        &&& fe1 == (FrameEncoder {
            nnz_y: fe1.nnz_y,
            nnz_c: fe1.nnz_c,
            cur_qp: (if self.delta is Some {
                fe0.qp
            } else {
                fe0.cur_qp
            }),
            ..fe0
        })
    }
}

/// The count cache before a macroblock of the frame.
pub open spec fn cache0(cs: CabacState, w: int, mb_x: int, mb_y: int) -> Seq<u8> {
    nzc_built(cs.mb_nzc@, top_of(w, mb_x, mb_y), left_of(w, mb_x, mb_y))
}

/// The DC masks of the upper and the left neighbour.
pub open spec fn dc_masks(cs: CabacState, w: int, mb_x: int, mb_y: int) -> (
    Option<u16>,
    Option<u16>,
) {
    (of(cs.cbf_dc@, top_of(w, mb_x, mb_y)), of(cs.cbf_dc@, left_of(w, mb_x, mb_y)))
}

/// The step of `transform_size_8x8_flag`.
pub open spec fn t8_ctx(cs: CabacState, w: int, mb_x: int, mb_y: int) -> int {
    flag_ctx(cs.mb_t8x8@, top_of(w, mb_x, mb_y), left_of(w, mb_x, mb_y))
}

/// The bins of the chroma prediction mode.
pub open spec fn cmode_bins(cs: CabacState, w: int, mb_x: int, mb_y: int, mode: int) -> Seq<Bin> {
    binarize::chroma_mode_bins(
        cmode_ctx(cs.cmode@, top_of(w, mb_x, mb_y), left_of(w, mb_x, mb_y)),
        mode,
    )
}

/// The bins of the coded-block pattern.
pub open spec fn mb_cbp_bins(cs: CabacState, w: int, mb_x: int, mb_y: int, cbp: int) -> Seq<Bin> {
    binarize::cbp_bins(
        of(cs.mb_cbp@, top_of(w, mb_x, mb_y)),
        of(cs.mb_cbp@, left_of(w, mb_x, mb_y)),
        cbp,
    )
}

/// The body of an `I_16x16` macroblock: chroma mode, QP step, luma DC, luma AC, chroma.
pub open spec fn i16_code(
    fe: FrameEncoder,
    cs: CabacState,
    p: MbPlan,
    mb_x: int,
    mb_y: int,
) -> MbCode {
    let w = fe.mb_w as int;
    let nzc0 = cache0(cs, w, mb_x, mb_y);
    let ndc = dc_masks(cs, w, mb_x, mb_y);
    let luma15 = if p.i16_cbp15 {
        15int
    } else {
        0
    };
    let dc = scan::zigzag4(p.i16_dc_levels@);
    let luma = luma_blocks(p.i16_q@, luma15, true);
    let nzc1 = luma.put(nzc0, 0, 16);
    let delta = fe.qp - fe.cur_qp;
    MbCode {
        bins: cmode_bins(cs, w, mb_x, mb_y, p.chroma_mode as int) + binarize::qp_delta_bins(
            cs.last_delta_qp as int,
            delta,
        ) + residual::residual_bins(dc, 1, residual::cbf_inc(nzc0, 0, 1, true, ndc)) + luma.bins(
            nzc0,
            0,
            16,
            true,
            ndc,
        ) + chroma_res_bins(
            nzc1,
            ndc,
            true,
            p.cbp_chroma as int,
            p.c_dc_levels@,
            p.c_q_blocks@,
        ),
        nzc: chroma_nzc(nzc1, p.cbp_chroma as int, p.c_q_blocks@),
        mask: chroma_dc_mask(
            residual::dc_mask_after(0, 1, residual::count_nz(dc, 16) > 0),
            p.cbp_chroma as int,
            p.c_dc_levels@,
        ),
        cbp: 16 * p.cbp_chroma + luma15,
        t8: cs.mb_t8x8@[addr_of(w, mb_x, mb_y)],
        delta: Some(delta),
        totals: |z: int| luma.total(z),
    }
}

/// The first `n` luma modes of an `I_8x8` macroblock, one for each quarter.
pub open spec fn i8_mode_bins(
    fe: FrameEncoder,
    modes: Seq<u8>,
    mb_x: int,
    mb_y: int,
    n: int,
) -> Seq<Bin>
    decreases n,
{
    if n <= 0 {
        Seq::empty()
    } else {
        let b = n - 1;
        i8_mode_bins(fe, modes, mb_x, mb_y, b) + binarize::i4_mode_bins(
            fe.i4_predicted(4 * mb_x + 2 * (b % 2), 4 * mb_y + 2 * (b / 2)),
            modes[b] as int,
        )
    }
}

/// The first `n` luma modes of an `I_4x4` macroblock, in coding order.
pub open spec fn i4_modes_bins(
    fe: FrameEncoder,
    modes: Seq<u8>,
    mb_x: int,
    mb_y: int,
    n: int,
) -> Seq<Bin>
    decreases n,
{
    if n <= 0 {
        Seq::empty()
    } else {
        let z = n - 1;
        i4_modes_bins(fe, modes, mb_x, mb_y, z) + binarize::i4_mode_bins(
            fe.i4_predicted(
                4 * mb_x + LUMA_4X4_SCAN_XY[z].0,
                4 * mb_y + LUMA_4X4_SCAN_XY[z].1,
            ),
            modes[luma_raster(z)] as int,
        )
    }
}

/// The body of an `I_8x8` macroblock: transform flag, luma modes, chroma mode, pattern and,
/// if the pattern is not zero, QP step, luma and chroma.
pub open spec fn i8_code(
    fe: FrameEncoder,
    cs: CabacState,
    p: MbPlan,
    i8: I8Plan,
    mb_x: int,
    mb_y: int,
) -> MbCode {
    let w = fe.mb_w as int;
    let nzc0 = cache0(cs, w, mb_x, mb_y);
    let ndc = dc_masks(cs, w, mb_x, mb_y);
    let luma = i8.cbp_luma as int;
    let cbp = luma + 16 * p.cbp_chroma;
    let nzc1 = eight_put(nzc0, i8.q@, luma, 4);
    let delta = fe.qp - fe.cur_qp;
    let head = seq![Bin::dec(399 + t8_ctx(cs, w, mb_x, mb_y), 1)] + i8_mode_bins(
        fe,
        i8.modes@,
        mb_x,
        mb_y,
        4,
    ) + cmode_bins(cs, w, mb_x, mb_y, p.chroma_mode as int) + mb_cbp_bins(cs, w, mb_x, mb_y, cbp);
    if cbp == 0 {
        MbCode {
            bins: head,
            nzc: nzc0,
            mask: 0,
            cbp,
            t8: true,
            delta: None,
            totals: |z: int| 0u8,
        }
    } else {
        MbCode {
            bins: head + binarize::qp_delta_bins(cs.last_delta_qp as int, delta) + eight_bins(
                i8.q@,
                luma,
                4,
            ) + chroma_res_bins(
                nzc1,
                ndc,
                true,
                p.cbp_chroma as int,
                p.c_dc_levels@,
                p.c_q_blocks@,
            ),
            nzc: chroma_nzc(nzc1, p.cbp_chroma as int, p.c_q_blocks@),
            mask: chroma_dc_mask(0, p.cbp_chroma as int, p.c_dc_levels@),
            cbp,
            t8: true,
            delta: Some(delta),
            totals: |z: int| eight_total(i8.q@, luma, z / 4),
        }
    }
}

/// The body of an `I_4x4` macroblock. The transform flag is there only where the stream
/// allows the 8x8 transform.
pub open spec fn i4_code(
    fe: FrameEncoder,
    cs: CabacState,
    p: MbPlan,
    i4: I4Plan,
    mb_x: int,
    mb_y: int,
) -> MbCode {
    let w = fe.mb_w as int;
    let nzc0 = cache0(cs, w, mb_x, mb_y);
    let ndc = dc_masks(cs, w, mb_x, mb_y);
    let cbp = i4.cbp_luma + 16 * p.cbp_chroma;
    let luma = luma_blocks(i4.q@, i4.cbp_luma as int, false);
    let nzc1 = luma.put(nzc0, 0, 16);
    let delta = fe.qp - fe.cur_qp;
    let head = (if fe.transform_8x8 {
        seq![Bin::dec(399 + t8_ctx(cs, w, mb_x, mb_y), 0)]
    } else {
        Seq::empty()
    }) + i4_modes_bins(fe, i4.modes@, mb_x, mb_y, 16) + cmode_bins(
        cs,
        w,
        mb_x,
        mb_y,
        p.chroma_mode as int,
    ) + mb_cbp_bins(cs, w, mb_x, mb_y, cbp);
    let t8 = cs.mb_t8x8@[addr_of(w, mb_x, mb_y)];
    if cbp == 0 {
        MbCode { bins: head, nzc: nzc0, mask: 0, cbp, t8, delta: None, totals: |z: int| 0u8 }
    } else {
        MbCode {
            bins: head + binarize::qp_delta_bins(cs.last_delta_qp as int, delta) + luma.bins(
                nzc0,
                0,
                16,
                true,
                ndc,
            ) + chroma_res_bins(
                nzc1,
                ndc,
                true,
                p.cbp_chroma as int,
                p.c_dc_levels@,
                p.c_q_blocks@,
            ),
            nzc: chroma_nzc(nzc1, p.cbp_chroma as int, p.c_q_blocks@),
            mask: chroma_dc_mask(0, p.cbp_chroma as int, p.c_dc_levels@),
            cbp,
            t8,
            delta: Some(delta),
            totals: |z: int| luma.total(z),
        }
    }
}

/// The body of an intra macroblock.
pub open spec fn intra_code(
    fe: FrameEncoder,
    cs: CabacState,
    p: MbPlan,
    mb_x: int,
    mb_y: int,
) -> MbCode {
    if !p.use_i4 {
        i16_code(fe, cs, p, mb_x, mb_y)
    } else if p.i8 is Some {
        i8_code(fe, cs, p, p.i8->0, mb_x, mb_y)
    } else {
        i4_code(fe, cs, p, p.i4->0, mb_x, mb_y)
    }
}

/// What else an intra macroblock leaves in the neighbour state: its chroma mode and its
/// category. The motion state stays.
pub open spec fn intra_marked(
    cs0: CabacState,
    cs1: CabacState,
    addr: int,
    p: MbPlan,
) -> bool {
    &&& cs1.cmode@ == cs0.cmode@.update(addr, p.chroma_mode as i32)
    &&& cs1.cat@ == cs0.cat@.update(
        addr,
        if p.use_i4 {
            0u8
        } else {
            2u8
        },
    )
    &&& cs1.mb_mvd == cs0.mb_mvd
    &&& cs1.mb_ref == cs0.mb_ref
    &&& cs1.mb_mvd1 == cs0.mb_mvd1
    &&& cs1.mb_ref1 == cs0.mb_ref1
    &&& cs1.mb_skip == cs0.mb_skip
    &&& cs1.mb_direct == cs0.mb_direct
}

#[verifier::rlimit(100)]
#[verifier::spinoff_prover]
fn emit_i16_body(
    fe: &mut FrameEncoder,
    cab: &mut CabacEncoder,
    cs: &mut CabacState,
    p: &MbPlan,
    mb_x: usize,
    mb_y: usize,
    addr: usize,
    top: Option<usize>,
    left: Option<usize>,
)
    requires
        old(fe).wf(),
        old(fe).has_mb(mb_x as int, mb_y as int),
        old(cs).wf(old(fe).mb_w * old(fe).mb_h),
        p.wf(),
        !p.use_i4,
        addr == addr_of(old(fe).mb_w as int, mb_x as int, mb_y as int),
        addr < old(fe).mb_w * old(fe).mb_h,
        oi(top) == top_of(old(fe).mb_w as int, mb_x as int, mb_y as int),
        oi(left) == left_of(old(fe).mb_w as int, mb_x as int, mb_y as int),
        top is Some ==> top->0 < addr,
        left is Some ==> left->0 < addr,
    ensures
        ({
            let c = i16_code(*old(fe), *old(cs), *p, mb_x as int, mb_y as int);
            &&& final(cab)@ == old(cab)@ + c.bins
            &&& c.committed(
                p.c_q_blocks@,
                *old(fe),
                *final(fe),
                *old(cs),
                *final(cs),
                mb_x as int,
                mb_y as int,
            )
        }),
        intra_marked(*old(cs), *final(cs), addr as int, *p),
        final(fe).wf(),
        final(cs).wf(old(fe).mb_w * old(fe).mb_h),
{
    let ghost c = i16_code(*old(fe), *old(cs), *p, mb_x as int, mb_y as int);
    let cci: usize = count_cmode(&cs.cmode, top, left);
    let ndc: (Option<u16>, Option<u16>) = (get_u16(&cs.cbf_dc, top), get_u16(&cs.cbf_dc, left));
    let mut cbfdc: u16 = 0;
    let luma15: u32 = if p.i16_cbp15 {
        15
    } else {
        0
    };
    cb_chroma_pred_mode(cab, cci, p.chroma_mode);
    cs.cmode[addr] = p.chroma_mode as i32;
    cs.cat[addr] = 2;
    cs.mb_cbp[addr] = (16 * p.cbp_chroma + luma15) as u8;
    let mut nzc: [u8; 48] = cb_build_nzc(&cs.mb_nzc, top, left);
    let delta: i32 = fe.qp_delta();
    cb_mb_qp_delta(cab, &mut cs.last_delta_qp, delta);
    let dc: [i32; 16] = scan_4x4_dcac(&p.i16_dc_levels);
    cb_residual(cab, &mut nzc, &mut cbfdc, 0, CB_RP_I16_DC, true, ndc, &dc);
    cb_luma_blocks(
        fe,
        cab,
        &mut nzc,
        &mut cbfdc,
        ndc,
        true,
        &p.i16_q,
        luma15,
        true,
        mb_x,
        mb_y,
    );
    cb_emit_chroma_residual(
        cab,
        fe,
        &mut nzc,
        &mut cbfdc,
        ndc,
        true,
        p.cbp_chroma,
        &p.c_dc_levels,
        &p.c_q_blocks,
        mb_x,
        mb_y,
    );
    assert(cab@ =~= old(cab)@ + c.bins);
    cs.cbf_dc[addr] = cbfdc;
    cs.mb_nzc[addr] = cb_export_nzc(&nzc);
    assert(cs.mb_t8x8@ =~= old(cs).mb_t8x8@.update(addr as int, c.t8));
}

/// Code the four luma modes of an `I_8x8` macroblock.
fn cb_i8_modes(
    fe: &FrameEncoder,
    cab: &mut CabacEncoder,
    modes: &[u8; 4],
    mb_x: usize,
    mb_y: usize,
)
    requires
        fe.wf(),
        fe.has_mb(mb_x as int, mb_y as int),
    ensures
        final(cab)@ == old(cab)@ + i8_mode_bins(*fe, modes@, mb_x as int, mb_y as int, 4),
{
    let mut b8: usize = 0;
    assert(cab@ =~= old(cab)@ + i8_mode_bins(*fe, modes@, mb_x as int, mb_y as int, 0));
    while b8 < 4
        invariant
            b8 <= 4,
            fe.wf(),
            fe.has_mb(mb_x as int, mb_y as int),
            cab@ == old(cab)@ + i8_mode_bins(*fe, modes@, mb_x as int, mb_y as int, b8 as int),
        decreases 4 - b8,
    {
        let bx: usize = mb_x * 4 + (b8 % 2) * 2;
        let by: usize = mb_y * 4 + (b8 / 2) * 2;
        let predicted: u8 = predict_i4_mode(fe, bx, by);
        cb_intra4x4_pred_mode(cab, predicted, modes[b8]);
        assert(cab@ =~= old(cab)@ + i8_mode_bins(*fe, modes@, mb_x as int, mb_y as int, b8 + 1));
        b8 = b8 + 1;
    }
}

/// Code the sixteen luma modes of an `I_4x4` macroblock.
fn cb_i4_modes(
    fe: &FrameEncoder,
    cab: &mut CabacEncoder,
    modes: &[u8; 16],
    mb_x: usize,
    mb_y: usize,
)
    requires
        fe.wf(),
        fe.has_mb(mb_x as int, mb_y as int),
    ensures
        final(cab)@ == old(cab)@ + i4_modes_bins(*fe, modes@, mb_x as int, mb_y as int, 16),
{
    let mut z: usize = 0;
    assert(cab@ =~= old(cab)@ + i4_modes_bins(*fe, modes@, mb_x as int, mb_y as int, 0));
    while z < 16
        invariant
            z <= 16,
            fe.wf(),
            fe.has_mb(mb_x as int, mb_y as int),
            cab@ == old(cab)@ + i4_modes_bins(*fe, modes@, mb_x as int, mb_y as int, z as int),
        decreases 16 - z,
    {
        let (lbx, lby): (usize, usize) = LUMA_4X4_SCAN_XY[z];
        assert(lbx < 4 && lby < 4);
        let predicted: u8 = predict_i4_mode(fe, mb_x * 4 + lbx, mb_y * 4 + lby);
        cb_intra4x4_pred_mode(cab, predicted, modes[lby * 4 + lbx]);
        assert(cab@ =~= old(cab)@ + i4_modes_bins(*fe, modes@, mb_x as int, mb_y as int, z + 1));
        z = z + 1;
    }
}

#[verifier::rlimit(40)]
fn emit_i8_body(
    fe: &mut FrameEncoder,
    cab: &mut CabacEncoder,
    cs: &mut CabacState,
    p: &MbPlan,
    i8: &I8Plan,
    mb_x: usize,
    mb_y: usize,
    addr: usize,
    top: Option<usize>,
    left: Option<usize>,
)
    requires
        old(fe).wf(),
        old(fe).has_mb(mb_x as int, mb_y as int),
        old(cs).wf(old(fe).mb_w * old(fe).mb_h),
        p.wf(),
        p.use_i4,
        i8.wf(),
        addr == addr_of(old(fe).mb_w as int, mb_x as int, mb_y as int),
        addr < old(fe).mb_w * old(fe).mb_h,
        oi(top) == top_of(old(fe).mb_w as int, mb_x as int, mb_y as int),
        oi(left) == left_of(old(fe).mb_w as int, mb_x as int, mb_y as int),
        top is Some ==> top->0 < addr,
        left is Some ==> left->0 < addr,
    ensures
        ({
            let c = i8_code(*old(fe), *old(cs), *p, *i8, mb_x as int, mb_y as int);
            &&& final(cab)@ == old(cab)@ + c.bins
            &&& c.committed(
                p.c_q_blocks@,
                *old(fe),
                *final(fe),
                *old(cs),
                *final(cs),
                mb_x as int,
                mb_y as int,
            )
        }),
        intra_marked(*old(cs), *final(cs), addr as int, *p),
        final(fe).wf(),
        final(cs).wf(old(fe).mb_w * old(fe).mb_h),
{
    let ghost c = i8_code(*old(fe), *old(cs), *p, *i8, mb_x as int, mb_y as int);
    let cci: usize = count_cmode(&cs.cmode, top, left);
    let ndc: (Option<u16>, Option<u16>) = (get_u16(&cs.cbf_dc, top), get_u16(&cs.cbf_dc, left));
    let mut cbfdc: u16 = 0;
    let t8: usize = count_flag(&cs.mb_t8x8, top, left, true);
    cab.encode_decision(399 + t8, 1);
    cs.mb_t8x8[addr] = true;
    cb_i8_modes(fe, cab, &i8.modes, mb_x, mb_y);
    cb_chroma_pred_mode(cab, cci, p.chroma_mode);
    cs.cmode[addr] = p.chroma_mode as i32;
    cs.cat[addr] = 0;
    let cbp: u32 = i8.cbp_luma + 16 * p.cbp_chroma;
    cb_cbp(cab, get_u8(&cs.mb_cbp, top), get_u8(&cs.mb_cbp, left), cbp);
    cs.mb_cbp[addr] = cbp as u8;
    let ghost w = old(fe).mb_w as int;
    let ghost head = seq![Bin::dec(399 + t8_ctx(*old(cs), w, mb_x as int, mb_y as int), 1)] + i8_mode_bins(*old(fe), i8.modes@, mb_x as int, mb_y as int, 4) + cmode_bins(*old(cs), w, mb_x as int, mb_y as int, p.chroma_mode as int) + mb_cbp_bins(*old(cs), w, mb_x as int, mb_y as int, cbp as int);
    assert(cab@ =~= old(cab)@ + head);
    let mut nzc: [u8; 48] = cb_build_nzc(&cs.mb_nzc, top, left);
    if cbp == 0 {
        cs.last_delta_qp = 0;
        clear_luma_counts(fe, mb_x, mb_y);
        assert(c.bins == head);
    } else {
        let delta: i32 = fe.qp_delta();
        cb_mb_qp_delta(cab, &mut cs.last_delta_qp, delta);
        cb_luma_eight(
            fe,
            cab,
            &mut nzc,
            &mut cbfdc,
            ndc,
            true,
            &i8.q,
            i8.cbp_luma,
            mb_x,
            mb_y,
        );
        cb_emit_chroma_residual(
            cab,
            fe,
            &mut nzc,
            &mut cbfdc,
            ndc,
            true,
            p.cbp_chroma,
            &p.c_dc_levels,
            &p.c_q_blocks,
            mb_x,
            mb_y,
        );
        assert(cab@ =~= old(cab)@ + c.bins);
    }
    cs.cbf_dc[addr] = cbfdc;
    cs.mb_nzc[addr] = cb_export_nzc(&nzc);
}

proof fn lemma_append4(a: Seq<Bin>, x: Seq<Bin>, y: Seq<Bin>, z: Seq<Bin>, u: Seq<Bin>)
    ensures
        a + x + y + z + u == a + (x + y + z + u),
{
    assert(a + x + y + z + u =~= a + (x + y + z + u));
}

#[verifier::rlimit(100)]
#[verifier::spinoff_prover]
fn emit_i4_body(
    fe: &mut FrameEncoder,
    cab: &mut CabacEncoder,
    cs: &mut CabacState,
    p: &MbPlan,
    i4: &I4Plan,
    mb_x: usize,
    mb_y: usize,
    addr: usize,
    top: Option<usize>,
    left: Option<usize>,
)
    requires
        old(fe).wf(),
        old(fe).has_mb(mb_x as int, mb_y as int),
        old(cs).wf(old(fe).mb_w * old(fe).mb_h),
        p.wf(),
        p.use_i4,
        i4.cbp_luma < 16,
        addr == addr_of(old(fe).mb_w as int, mb_x as int, mb_y as int),
        addr < old(fe).mb_w * old(fe).mb_h,
        oi(top) == top_of(old(fe).mb_w as int, mb_x as int, mb_y as int),
        oi(left) == left_of(old(fe).mb_w as int, mb_x as int, mb_y as int),
        top is Some ==> top->0 < addr,
        left is Some ==> left->0 < addr,
    ensures
        ({
            let c = i4_code(*old(fe), *old(cs), *p, *i4, mb_x as int, mb_y as int);
            &&& final(cab)@ == old(cab)@ + c.bins
            &&& c.committed(
                p.c_q_blocks@,
                *old(fe),
                *final(fe),
                *old(cs),
                *final(cs),
                mb_x as int,
                mb_y as int,
            )
        }),
        intra_marked(*old(cs), *final(cs), addr as int, *p),
        final(fe).wf(),
        final(cs).wf(old(fe).mb_w * old(fe).mb_h),
{
    let ghost c = i4_code(*old(fe), *old(cs), *p, *i4, mb_x as int, mb_y as int);
    let cci: usize = count_cmode(&cs.cmode, top, left);
    let ndc: (Option<u16>, Option<u16>) = (get_u16(&cs.cbf_dc, top), get_u16(&cs.cbf_dc, left));
    let mut cbfdc: u16 = 0;
    if fe.transform_8x8 {
        let t8: usize = count_flag(&cs.mb_t8x8, top, left, true);
        cab.encode_decision(399 + t8, 0);
    }
    let ghost w = old(fe).mb_w as int;
    let ghost (x, y) = (mb_x as int, mb_y as int);
    let ghost tb = if old(fe).transform_8x8 {
        seq![Bin::dec(399 + t8_ctx(*old(cs), w, x, y), 0)]
    } else {
        Seq::empty()
    };
    assert(cab@ =~= old(cab)@ + tb);
    cb_i4_modes(fe, cab, &i4.modes, mb_x, mb_y);
    cb_chroma_pred_mode(cab, cci, p.chroma_mode);
    cs.cmode[addr] = p.chroma_mode as i32;
    cs.cat[addr] = 0;
    let cbp: u32 = i4.cbp_luma + 16 * p.cbp_chroma;
    cb_cbp(cab, get_u8(&cs.mb_cbp, top), get_u8(&cs.mb_cbp, left), cbp);
    cs.mb_cbp[addr] = cbp as u8;
    let ghost modes = i4_modes_bins(*old(fe), i4.modes@, x, y, 16);
    let ghost cm = cmode_bins(*old(cs), w, x, y, p.chroma_mode as int);
    let ghost pattern = mb_cbp_bins(*old(cs), w, x, y, cbp as int);
    let ghost head = tb + modes + cm + pattern;
    proof {
        lemma_append4(old(cab)@, tb, modes, cm, pattern);
    }
    assert(cab@ == old(cab)@ + head);
    let mut nzc: [u8; 48] = cb_build_nzc(&cs.mb_nzc, top, left);
    if cbp == 0 {
        cs.last_delta_qp = 0;
        clear_luma_counts(fe, mb_x, mb_y);
        assert(c.bins == head);
    } else {
        let delta: i32 = fe.qp_delta();
        let ghost b1 = cab@;
        cb_mb_qp_delta(cab, &mut cs.last_delta_qp, delta);
        let ghost dq = binarize::qp_delta_bins(old(cs).last_delta_qp as int, delta as int);
        let ghost b2 = cab@;
        let ghost nzc0 = nzc@;
        let ghost luma = luma_blocks(i4.q@, i4.cbp_luma as int, false);
        cb_luma_blocks(
            fe,
            cab,
            &mut nzc,
            &mut cbfdc,
            ndc,
            true,
            &i4.q,
            i4.cbp_luma,
            false,
            mb_x,
            mb_y,
        );
        cb_emit_chroma_residual(
            cab,
            fe,
            &mut nzc,
            &mut cbfdc,
            ndc,
            true,
            p.cbp_chroma,
            &p.c_dc_levels,
            &p.c_q_blocks,
            mb_x,
            mb_y,
        );
        proof {
            let lb = luma.bins(nzc0, 0, 16, true, ndc);
            let chroma = chroma_res_bins(
                luma.put(nzc0, 0, 16),
                ndc,
                true,
                p.cbp_chroma as int,
                p.c_dc_levels@,
                p.c_q_blocks@,
            );
            assert(b2 == b1 + dq);
            assert(cab@ == old(cab)@ + head + dq + lb + chroma);
            lemma_append4(old(cab)@, head, dq, lb, chroma);
            assert(c.bins == head + dq + lb + chroma);
        }
    }
    cs.cbf_dc[addr] = cbfdc;
    cs.mb_nzc[addr] = cb_export_nzc(&nzc);
    assert(cs.mb_t8x8@ =~= old(cs).mb_t8x8@.update(addr as int, c.t8));
}

/// Code everything of an intra macroblock behind its type. The type already carries the
/// prediction mode and the pattern of an `I_16x16` macroblock.
pub fn emit_intra_body_cabac(
    fe: &mut FrameEncoder,
    cab: &mut CabacEncoder,
    cs: &mut CabacState,
    p: &MbPlan,
    mb_x: usize,
    mb_y: usize,
    addr: usize,
    top: Option<usize>,
    left: Option<usize>,
)
    requires
        old(fe).wf(),
        old(fe).has_mb(mb_x as int, mb_y as int),
        old(cs).wf(old(fe).mb_w * old(fe).mb_h),
        p.wf(),
        addr == addr_of(old(fe).mb_w as int, mb_x as int, mb_y as int),
        addr < old(fe).mb_w * old(fe).mb_h,
        oi(top) == top_of(old(fe).mb_w as int, mb_x as int, mb_y as int),
        oi(left) == left_of(old(fe).mb_w as int, mb_x as int, mb_y as int),
        top is Some ==> top->0 < addr,
        left is Some ==> left->0 < addr,
    ensures
        ({
            let c = intra_code(*old(fe), *old(cs), *p, mb_x as int, mb_y as int);
            &&& final(cab)@ == old(cab)@ + c.bins
            &&& c.committed(
                p.c_q_blocks@,
                *old(fe),
                *final(fe),
                *old(cs),
                *final(cs),
                mb_x as int,
                mb_y as int,
            )
        }),
        intra_marked(*old(cs), *final(cs), addr as int, *p),
        final(fe).wf(),
        final(cs).wf(old(fe).mb_w * old(fe).mb_h),
{
    if !p.use_i4 {
        emit_i16_body(fe, cab, cs, p, mb_x, mb_y, addr, top, left);
    } else {
        match &p.i8 {
            Some(i8) => emit_i8_body(fe, cab, cs, p, i8, mb_x, mb_y, addr, top, left),
            None => match &p.i4 {
                Some(i4) => emit_i4_body(fe, cab, cs, p, i4, mb_x, mb_y, addr, top, left),
                None => (),
            },
        }
    }
}

/// What the type of an intra macroblock carries.
pub open spec fn type_of(p: MbPlan) -> IntraType {
    if p.use_i4 {
        IntraType { nxn: true, i16_mode: 0, cbp_chroma: 0, cbp_luma15: false }
    } else {
        IntraType {
            nxn: false,
            i16_mode: p.i16_mode.number(),
            cbp_chroma: p.cbp_chroma as int,
            cbp_luma15: p.i16_cbp15,
        }
    }
}

/// An intra macroblock of an I slice is coded: the bins, the frame and the neighbour state.
pub open spec fn i_coded(
    fe0: FrameEncoder,
    fe1: FrameEncoder,
    b0: Seq<Bin>,
    b1: Seq<Bin>,
    cs0: CabacState,
    cs1: CabacState,
    p: MbPlan,
    mb_x: int,
    mb_y: int,
) -> bool {
    &&& ({
        let w = fe0.mb_w as int;
        let c = intra_code(fe0, cs0, p, mb_x, mb_y);
        &&& b1 == b0 + binarize::mb_type_i_bins(
            cat_ctx(
                cs0.cat@,
                top_of(w, mb_x, mb_y),
                left_of(w, mb_x, mb_y),
            ),
            type_of(p),
        ) + c.bins
        &&& c.committed(
            p.c_q_blocks@,
            fe0,
            fe1,
            cs0,
            cs1,
            mb_x,
            mb_y,
        )
        &&& intra_marked(
            cs0,
            cs1,
            addr_of(w, mb_x, mb_y),
            p,
        )
    })
}

/// Code an intra macroblock of an I slice.
pub fn emit_mb_cabac_i(
    fe: &mut FrameEncoder,
    cab: &mut CabacEncoder,
    cs: &mut CabacState,
    p: &MbPlan,
    mb_x: usize,
    mb_y: usize,
)
    requires
        old(fe).wf(),
        old(fe).has_mb(mb_x as int, mb_y as int),
        old(cs).wf(old(fe).mb_w * old(fe).mb_h),
        p.wf(),
    ensures
        i_coded(
            *old(fe),
            *final(fe),
            old(cab)@,
            final(cab)@,
            *old(cs),
            *final(cs),
            *p,
            mb_x as int,
            mb_y as int,
        ),
        final(fe).wf(),
        final(cs).wf(old(fe).mb_w * old(fe).mb_h),
{
    assert(fe.mb_skip_sad.len() == fe.mb_w * fe.mb_h);
    let (addr, top, left): (usize, Option<usize>, Option<usize>) = neighbours(
        fe.mb_w,
        fe.mb_h,
        mb_x,
        mb_y,
    );
    let ctx: usize = count_cat(&cs.cat, top, left);
    if p.use_i4 {
        cb_mb_type_i(cab, ctx, true, 0, 0, false);
    } else {
        cb_mb_type_i(cab, ctx, false, p.i16_mode.index(), p.cbp_chroma, p.i16_cbp15);
    }
    emit_intra_body_cabac(fe, cab, cs, p, mb_x, mb_y, addr, top, left);
}

/// An intra macroblock of a P slice is coded.
pub open spec fn p_intra_coded(
    fe0: FrameEncoder,
    fe1: FrameEncoder,
    b0: Seq<Bin>,
    b1: Seq<Bin>,
    cs0: CabacState,
    cs1: CabacState,
    p: MbPlan,
    mb_x: int,
    mb_y: int,
) -> bool {
    &&& ({
        let w = fe0.mb_w as int;
        let c = intra_code(fe0, cs0, p, mb_x, mb_y);
        &&& b1 == b0 + binarize::mb_type_p_intra_bins(type_of(p)) + c.bins
        &&& c.committed(
            p.c_q_blocks@,
            fe0,
            fe1,
            cs0,
            cs1,
            mb_x,
            mb_y,
        )
        &&& intra_marked(
            cs0,
            cs1,
            addr_of(w, mb_x, mb_y),
            p,
        )
    })
}

/// Code an intra macroblock of a P slice, behind its skip flag.
pub fn emit_mb_cabac_p_intra(
    fe: &mut FrameEncoder,
    cab: &mut CabacEncoder,
    cs: &mut CabacState,
    p: &MbPlan,
    mb_x: usize,
    mb_y: usize,
)
    requires
        old(fe).wf(),
        old(fe).has_mb(mb_x as int, mb_y as int),
        old(cs).wf(old(fe).mb_w * old(fe).mb_h),
        p.wf(),
    ensures
        p_intra_coded(
            *old(fe),
            *final(fe),
            old(cab)@,
            final(cab)@,
            *old(cs),
            *final(cs),
            *p,
            mb_x as int,
            mb_y as int,
        ),
        final(fe).wf(),
        final(cs).wf(old(fe).mb_w * old(fe).mb_h),
{
    assert(fe.mb_skip_sad.len() == fe.mb_w * fe.mb_h);
    let (addr, top, left): (usize, Option<usize>, Option<usize>) = neighbours(
        fe.mb_w,
        fe.mb_h,
        mb_x,
        mb_y,
    );
    if p.use_i4 {
        cb_mb_type_p_intra(cab, true, 0, 0, false);
    } else {
        cb_mb_type_p_intra(cab, false, p.i16_mode.index(), p.cbp_chroma, p.i16_cbp15);
    }
    emit_intra_body_cabac(fe, cab, cs, p, mb_x, mb_y, addr, top, left);
}

} // verus!
