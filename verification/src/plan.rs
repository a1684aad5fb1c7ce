//! What has been decided about a macroblock, ready for either entropy coder.
use vstd::prelude::*;
use crate::residual;

verus! {

/// The `I_16x16` prediction modes.
#[derive(Clone, Copy, Debug, PartialEq, Eq, Structural)]
pub enum I16Mode {
    Vertical,
    Horizontal,
    Dc,
    Plane,
}

impl I16Mode {
    /// The number that the syntax codes.
    pub open spec fn number(self) -> int {
        match self {
            I16Mode::Vertical => 0,
            I16Mode::Horizontal => 1,
            I16Mode::Dc => 2,
            I16Mode::Plane => 3,
        }
    }

    /// The number that the syntax codes.
    pub fn index(self) -> (r: u32)
        ensures
            r == self.number(),
            r <= 3,
    {
        match self {
            I16Mode::Vertical => 0,
            I16Mode::Horizontal => 1,
            I16Mode::Dc => 2,
            I16Mode::Plane => 3,
        }
    }

    /// The mode needs no neighbour that is missing.
    pub open spec fn usable(self, top: bool, left: bool) -> bool {
        match self {
            I16Mode::Vertical => top,
            I16Mode::Horizontal => left,
            I16Mode::Dc => true,
            I16Mode::Plane => top && left,
        }
    }

    /// Whether the mode can be used with the neighbours that are there.
    pub fn available(self, top: bool, left: bool) -> (r: bool)
        ensures
            r == self.usable(top, left),
    {
        match self {
            I16Mode::Vertical => top,
            I16Mode::Horizontal => left,
            I16Mode::Dc => true,
            I16Mode::Plane => top && left,
        }
    }
}

/// The luma of an `I_4x4` macroblock.
pub struct I4Plan {
    /// The mode of each block, in raster order.
    pub modes: [u8; 16],
    /// The quantised coefficients of each block, blocks and coefficients in raster order.
    pub q: [[i32; 16]; 16],
    /// One bit for each 8x8 quarter.
    pub cbp_luma: u32,
    /// How many coefficients are not zero.
    pub nonzero: i64,
}

/// The luma of an `I_8x8` macroblock.
pub struct I8Plan {
    pub modes: [u8; 4],
    pub q: [[i32; 64]; 4],
    pub cbp_luma: u32,
    pub nonzero: i64,
}

/// A decided intra macroblock. With `use_i4` it is `I_NxN`: 8x8 if `i8` is there, else 4x4
/// by `i4`. Without it, it is `I_16x16`.
pub struct MbPlan {
    pub use_i4: bool,
    pub i16_mode: I16Mode,
    pub i16_cbp15: bool,
    pub i16_dc_levels: [i32; 16],
    pub i16_q: [[i32; 16]; 16],
    pub i4: Option<I4Plan>,
    pub i8: Option<I8Plan>,
    pub chroma_mode: u8,
    /// 0 for no chroma, 1 for DC only, 2 for DC and AC.
    pub cbp_chroma: u32,
    pub c_dc_levels: [[i32; 4]; 2],
    pub c_q_blocks: [[[i32; 16]; 4]; 2],
}

/// A decided inter macroblock.
pub struct InterPlan {
    /// One difference for each coded motion vector, in coding order.
    pub mvds: [(i32, i32); 16],
    pub plan_refs: [i32; 4],
    /// The sub-partition type of each 8x8 quarter (8x8 macroblocks of P slices only).
    pub sub_types: [u8; 4],
    pub n_mvd: usize,
    /// Luma in the low four bits, chroma above them.
    pub cbp: u32,
    pub q_blocks: [[i32; 16]; 16],
    pub c_dc_levels: [[i32; 4]; 2],
    pub c_q: [[[i32; 16]; 4]; 2],
    pub t8x8: bool,
    pub q8: [[i32; 64]; 4],
}

/// The bit of the 8x8 quarter `b` in a luma pattern.
pub open spec fn cbp_bit(cbp: int, b: int) -> bool {
    if b == 0 {
        cbp % 2 == 1
    } else if b == 1 {
        (cbp / 2) % 2 == 1
    } else if b == 2 {
        (cbp / 4) % 2 == 1
    } else {
        (cbp / 8) % 2 == 1
    }
}

/// Whether the bit of the 8x8 quarter `b` is set.
pub fn has_cbp_bit(cbp: u32, b: usize) -> (r: bool)
    requires
        b < 4,
    ensures
        r == cbp_bit(cbp as int, b as int),
{
    if b == 0 {
        cbp % 2 == 1
    } else if b == 1 {
        (cbp / 2) % 2 == 1
    } else if b == 2 {
        (cbp / 4) % 2 == 1
    } else {
        (cbp / 8) % 2 == 1
    }
}

/// Every 8x8 quarter that the pattern marks as coded has a coefficient that is not zero.
pub open spec fn marked_blocks_coded(q: Seq<[i32; 64]>, cbp: int) -> bool {
    forall|b: int|
        0 <= b < 4 && #[trigger] cbp_bit(cbp, b) ==> residual::last_nz(
            crate::scan::zigzag8(q[b]@),
            64,
        ) >= 0
}

impl I8Plan {
    pub open spec fn wf(&self) -> bool {
        &&& self.cbp_luma < 16
        &&& marked_blocks_coded(self.q@, self.cbp_luma as int)
    }
}

impl MbPlan {
    pub open spec fn wf(&self) -> bool {
        &&& self.cbp_chroma <= 2
        &&& self.use_i4 ==> self.i8 is Some || self.i4 is Some
        &&& self.i8 is Some ==> self.i8->0.wf()
        &&& self.i4 is Some ==> self.i4->0.cbp_luma < 16
    }
}

impl InterPlan {
    pub open spec fn wf(&self) -> bool {
        &&& self.cbp < 48
        &&& self.t8x8 ==> marked_blocks_coded(self.q8@, self.cbp as int % 16)
        &&& forall|i: int| 0 <= i < 4 ==> #[trigger] self.sub_types[i] <= 3
        &&& forall|i: int| 0 <= i < 4 ==> 0 <= #[trigger] self.plan_refs[i] <= 127
    }
}

} // verus!
