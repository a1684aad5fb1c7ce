//! The state of a frame while it is coded.
use vstd::prelude::*;
use crate::arith;
use crate::grid;
use crate::grid::cell_at;

verus! {

/// Reconstruction, block grids and running values of one frame.
pub struct FrameEncoder {
    pub mb_w: usize,
    pub mb_h: usize,
    /// The target QP of the current macroblock.
    pub qp: u8,
    /// The chroma QP that belongs to `qp`.
    pub qpc: u8,
    /// The QP of the last macroblock that coded a delta.
    pub cur_qp: u8,
    /// The weights of bi-prediction.
    pub bi_w: (i32, i32),
    /// The coded luma width.
    pub cw: usize,
    /// The coded chroma width.
    pub ccw: usize,
    pub rec_y: Vec<u8>,
    pub rec_u: Vec<u8>,
    pub rec_v: Vec<u8>,
    /// How many coefficients of each 4x4 luma block are not zero.
    pub nnz_y: Vec<u8>,
    /// The same for the two chroma planes.
    pub nnz_c: [Vec<u8>; 2],
    /// The intra mode of each 4x4 luma block; 2 where there is none.
    pub modes_y: Vec<u8>,
    /// Whether each 4x4 luma block has been coded.
    pub coded_y: Vec<bool>,
    pub mv_y: Vec<(i32, i32)>,
    pub inter_y: Vec<bool>,
    /// The list-0 reference of each 4x4 luma block; -1 where there is none.
    pub ref_idx_y: Vec<i32>,
    pub mv1_y: Vec<(i32, i32)>,
    pub ref_idx1_y: Vec<i32>,
    pub transform_8x8: bool,
    /// Padded counts of the current macroblock's luma blocks, five cells in a row.
    pub nnz_l_cache: [u8; 25],
    /// Padded counts of the current macroblock's chroma blocks, three cells in a row.
    pub nnz_c_cache: [[u8; 9]; 2],
    pub mb_skip_sad: Vec<u32>,
    pub mb_was_skip: Vec<bool>,
    /// The frame is coded for speed: distortions are plain sums of differences.
    pub fast: bool,
    /// This macroblock is measured by transformed differences even so.
    pub mb_use_satd: bool,
    /// This macroblock has much texture, and its vectors are charged less.
    pub mb_loud: bool,
    /// Quantised levels are refined by their rate.
    pub rdoq_on: bool,
    /// The divisor of the dead zone of intra blocks.
    pub idz: u8,
    /// Inter macroblocks may choose the 8x8 transform, at this extra rate.
    pub inter8x8: bool,
    pub inter8_pen: i64,
    /// Fast frames try only a few modes for each 4x4 block.
    pub fast_intra: bool,
}

impl FrameEncoder {
    /// Every grid has the size that the frame has.
    pub open spec fn wf(&self) -> bool {
        let n4 = (4 * self.mb_w) * (4 * self.mb_h);
        let n2 = (2 * self.mb_w) * (2 * self.mb_h);
        &&& self.mb_w >= 1
        &&& self.mb_h >= 1
        &&& self.cw == 16 * self.mb_w
        &&& self.ccw == 8 * self.mb_w
        &&& 16 * self.mb_h <= usize::MAX
        &&& self.rec_y@.len() == (16 * self.mb_w) * (16 * self.mb_h)
        &&& self.rec_u@.len() == (8 * self.mb_w) * (8 * self.mb_h)
        &&& self.rec_v@.len() == (8 * self.mb_w) * (8 * self.mb_h)
        &&& self.nnz_y@.len() == n4
        &&& self.nnz_c@[0]@.len() == n2
        &&& self.nnz_c@[1]@.len() == n2
        &&& self.modes_y@.len() == n4
        &&& self.coded_y@.len() == n4
        &&& self.mv_y@.len() == n4
        &&& self.inter_y@.len() == n4
        &&& self.ref_idx_y@.len() == n4
        &&& self.mv1_y@.len() == n4
        &&& self.ref_idx1_y@.len() == n4
        &&& self.mb_skip_sad@.len() == self.mb_w * self.mb_h
        &&& self.mb_was_skip@.len() == self.mb_w * self.mb_h
    }

    /// `(mb_x, mb_y)` is a macroblock of the frame.
    pub open spec fn has_mb(&self, mb_x: int, mb_y: int) -> bool {
        0 <= mb_x < self.mb_w && 0 <= mb_y < self.mb_h
    }

    /// The QP step of the current macroblock, which becomes the running QP. Called only
    /// where the syntax codes a delta, so a macroblock without one inherits the running QP.
    pub fn qp_delta(&mut self) -> (d: i32)
        ensures
            d == old(self).qp - old(self).cur_qp,
            *final(self) == (FrameEncoder { cur_qp: old(self).qp, ..*old(self) }),
    {
        let d: i32 = self.qp as i32 - self.cur_qp as i32;
        self.cur_qp = self.qp;
        d
    }

    /// The predicted mode of the intra block at `(bx, by)`: the smaller one of the modes
    /// left of and above it, or DC (2) at the frame's edge.
    pub open spec fn i4_predicted(&self, bx: int, by: int) -> int {
        let w = 4 * self.mb_w;
        if bx == 0 || by == 0 {
            2
        } else {
            arith::min(
                self.modes_y@[grid::cell(w, bx - 1, by)] as int,
                self.modes_y@[grid::cell(w, bx, by - 1)] as int,
            )
        }
    }
}

/// The predicted mode of the intra block at `(bx, by)`.
pub fn predict_i4_mode(fe: &FrameEncoder, bx: usize, by: usize) -> (r: u8)
    requires
        fe.wf(),
        bx < 4 * fe.mb_w,
        by < 4 * fe.mb_h,
    ensures
        r == fe.i4_predicted(bx as int, by as int),
{
    if bx == 0 || by == 0 {
        return 2;
    }
    let w4: usize = fe.mb_w * 4;
    proof {
        grid::lemma_cell(4 * fe.mb_w, 4 * fe.mb_h, bx - 1, by as int);
        grid::lemma_cell(4 * fe.mb_w, 4 * fe.mb_h, bx as int, by - 1);
    }
    let a: u8 = fe.modes_y[cell_at(w4, bx - 1, by, fe.modes_y.len())];
    let b: u8 = fe.modes_y[cell_at(w4, bx, by - 1, fe.modes_y.len())];
    if a < b {
        a
    } else {
        b
    }
}

} // verus!
