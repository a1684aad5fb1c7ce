//! What a stream is set up with.
use vstd::prelude::*;

verus! {

/// The profiles that can be signalled.
#[derive(Clone, Copy, Debug, PartialEq, Eq, Structural)]
pub enum Profile {
    ConstrainedBaseline,
    Main,
    High,
}

impl Profile {
    /// The number that the stream carries.
    pub open spec fn idc(self) -> u8 {
        match self {
            Profile::ConstrainedBaseline => 66,
            Profile::Main => 77,
            Profile::High => 100,
        }
    }

    /// The number that the stream carries.
    pub fn profile_idc(self) -> (r: u8)
        ensures
            r == self.idc(),
    {
        match self {
            Profile::ConstrainedBaseline => 66,
            Profile::Main => 77,
            Profile::High => 100,
        }
    }
}

/// The settings that the parameter sets and slice headers are made from.
#[derive(Clone, Copy, Debug)]
pub struct EncoderConfig {
    pub width: usize,
    pub height: usize,
    pub profile: Profile,
    pub level_idc: u8,
    /// The QP of the picture parameter set.
    pub qp: u8,
    pub num_ref_frames: u32,
    pub bframes: u32,
    pub weightp: bool,
    pub cabac: bool,
    pub transform_8x8: bool,
}

impl EncoderConfig {
    /// The defaults for a picture size: High profile, CABAC, the 8x8 transform, three
    /// references, weighted prediction, no B frames, level 3.0, QP 26.
    pub fn new(width: usize, height: usize) -> (r: Self)
        ensures
            r.width == width,
            r.height == height,
            r.profile == Profile::High,
            r.level_idc == 30,
            r.qp == 26,
            r.num_ref_frames == 3,
            r.bframes == 0,
            r.weightp,
            r.cabac,
            r.transform_8x8,
    {
        EncoderConfig {
            width,
            height,
            profile: Profile::High,
            level_idc: 30,
            qp: 26,
            num_ref_frames: 3,
            bframes: 0,
            weightp: true,
            cabac: true,
            transform_8x8: true,
        }
    }

    /// How many macroblocks cover the width.
    pub open spec fn mbs_across(self) -> int {
        (self.width + 15) / 16
    }

    /// How many macroblocks cover the height.
    pub open spec fn mbs_down(self) -> int {
        (self.height + 15) / 16
    }

    /// How many macroblocks cover the width.
    pub fn mb_width(&self) -> (r: usize)
        ensures
            r == self.mbs_across(),
    {
        let q: usize = self.width / 16;
        if self.width % 16 == 0 {
            q
        } else {
            q + 1
        }
    }

    /// How many macroblocks cover the height.
    pub fn mb_height(&self) -> (r: usize)
        ensures
            r == self.mbs_down(),
    {
        let q: usize = self.height / 16;
        if self.height % 16 == 0 {
            q
        } else {
            q + 1
        }
    }
}

} // verus!
