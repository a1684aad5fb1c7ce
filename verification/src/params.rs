//! Sequence and picture parameter sets.
use vstd::prelude::*;
use crate::arith;
use crate::bits;
use crate::bits::{write_table, BitWriter, Syn};
use crate::config::EncoderConfig;

verus! {

/// What a unit of the stream carries.
#[derive(Clone, Copy, Debug, PartialEq, Eq, Structural)]
pub enum NalUnitType {
    Sps,
    Pps,
}

/// A unit of the stream, its payload without emulation prevention.
#[derive(Debug)]
pub struct NalUnit {
    pub nal_ref_idc: u8,
    pub nal_unit_type: NalUnitType,
    pub rbsp: Vec<u8>,
}

/// A sequence parameter set.
#[derive(Clone, Copy, Debug)]
pub struct Sps {
    pub profile_idc: u8,
    pub constraint_set1_flag: bool,
    pub level_idc: u8,
    pub seq_parameter_set_id: u32,
    pub log2_max_frame_num_minus4: u32,
    pub pic_order_cnt_type: u32,
    pub log2_max_pic_order_cnt_lsb_minus4: u32,
    pub max_num_ref_frames: u32,
    pub pic_width_in_mbs_minus1: u32,
    pub pic_height_in_map_units_minus1: u32,
    /// Cropping at the right, in units of two luma samples.
    pub frame_crop_right: u32,
    /// Cropping at the bottom, in units of two luma samples.
    pub frame_crop_bottom: u32,
}

/// The levels with the largest frame and the largest picture buffer each allows, both in
/// macroblocks.
pub const LEVEL_CAPS: [(u8, u32, u32); 16] = [
    (10, 99, 396),
    (11, 396, 900),
    (12, 396, 2376),
    (13, 396, 2376),
    (20, 396, 2376),
    (21, 792, 4752),
    (22, 1620, 8100),
    (30, 1620, 8100),
    (31, 3600, 18000),
    (32, 5120, 20480),
    (40, 8192, 32768),
    (41, 8192, 32768),
    (42, 8704, 34816),
    (50, 22080, 110400),
    (51, 36864, 184320),
    (52, 36864, 184320),
];

/// Level entry `i` allows frames of `frame` and a buffer of `dpb` macroblocks.
pub open spec fn level_fits(i: int, frame: int, dpb: int) -> bool {
    LEVEL_CAPS[i].1 >= frame && LEVEL_CAPS[i].2 >= dpb
}

/// The first level from entry `i` on that fits, or 5.2 if none does.
pub open spec fn level_from(i: int, frame: int, dpb: int) -> u8
    decreases 16 - i,
{
    if i >= 16 {
        52
    } else if level_fits(i, frame, dpb) {
        LEVEL_CAPS[i].0
    } else {
        level_from(i + 1, frame, dpb)
    }
}

/// The lowest level for frames of `frame` macroblocks and a buffer of `dpb` macroblocks.
pub fn level_floor(frame: u32, dpb: u32) -> (r: u8)
    ensures
        r == level_from(0, frame as int, dpb as int),
{
    let mut i: usize = 0;
    while i < 16
        invariant
            i <= 16,
            level_from(i as int, frame as int, dpb as int) == level_from(
                0,
                frame as int,
                dpb as int,
            ),
        decreases 16 - i,
    {
        let (level, fs, buf): (u8, u32, u32) = LEVEL_CAPS[i];
        if fs >= frame && buf >= dpb {
            return level;
        }
        i = i + 1;
    }
    52
}

/// Where any level allows the frame and the buffer, the floor is a level that does, and no
/// level before it in the table does.
pub proof fn law_level_floor_fits(frame: int, dpb: int, k: int)
    requires
        0 <= k < 16,
        level_fits(k, frame, dpb),
    ensures
        exists|i: int|
            0 <= i <= k && LEVEL_CAPS[i].0 == level_from(0, frame, dpb) && #[trigger] level_fits(
                i,
                frame,
                dpb,
            ) && forall|j: int| 0 <= j < i ==> !#[trigger] level_fits(j, frame, dpb),
{
    lemma_level_from(0, frame, dpb, k);
}

proof fn lemma_level_from(a: int, frame: int, dpb: int, k: int)
    requires
        0 <= a <= k < 16,
        level_fits(k, frame, dpb),
        forall|j: int| 0 <= j < a ==> !#[trigger] level_fits(j, frame, dpb),
    ensures
        exists|i: int|
            a <= i <= k && LEVEL_CAPS[i].0 == level_from(a, frame, dpb) && #[trigger] level_fits(
                i,
                frame,
                dpb,
            ) && forall|j: int| 0 <= j < i ==> !#[trigger] level_fits(j, frame, dpb),
    decreases k - a,
{
    if !level_fits(a, frame, dpb) {
        lemma_level_from(a + 1, frame, dpb, k);
    }
}

/// The macroblocks of a frame.
pub open spec fn frame_mbs(cfg: EncoderConfig) -> int {
    cfg.mbs_across() * cfg.mbs_down()
}

/// The references that are signalled: at least one.
pub open spec fn refs_of(cfg: EncoderConfig) -> int {
    arith::max(cfg.num_ref_frames as int, 1)
}

/// The picture has a size, and its macroblocks and those of its buffer can be counted.
pub open spec fn countable(cfg: EncoderConfig) -> bool {
    &&& cfg.width >= 1
    &&& cfg.height >= 1
    &&& frame_mbs(cfg) <= u32::MAX
    &&& frame_mbs(cfg) * refs_of(cfg) <= u32::MAX
}

/// The sequence parameter set of a configuration.
pub open spec fn sps_of(cfg: EncoderConfig) -> Sps {
    Sps {
        profile_idc: cfg.profile.idc(),
        constraint_set1_flag: true,
        level_idc: arith::max(
            cfg.level_idc as int,
            level_from(0, frame_mbs(cfg), frame_mbs(cfg) * refs_of(cfg)) as int,
        ) as u8,
        seq_parameter_set_id: 0,
        log2_max_frame_num_minus4: 0,
        pic_order_cnt_type: 0,
        log2_max_pic_order_cnt_lsb_minus4: 4,
        max_num_ref_frames: refs_of(cfg) as u32,
        pic_width_in_mbs_minus1: (cfg.mbs_across() - 1) as u32,
        pic_height_in_map_units_minus1: (cfg.mbs_down() - 1) as u32,
        frame_crop_right: ((16 * cfg.mbs_across() - cfg.width) / 2) as u32,
        frame_crop_bottom: ((16 * cfg.mbs_down() - cfg.height) / 2) as u32,
    }
}

impl Sps {
    /// The sequence parameter set of a configuration. Its level is the configured one,
    /// raised where the frame or the references would not fit it.
    pub fn from_config(cfg: &EncoderConfig) -> (r: Self)
        requires
            countable(*cfg),
        ensures
            r == sps_of(*cfg),
    {
        let mb_w: usize = cfg.mb_width();
        let mb_h: usize = cfg.mb_height();
        let crop_right: usize = if cfg.width % 16 == 0 {
            0
        } else {
            (16 - cfg.width % 16) / 2
        };
        let crop_bottom: usize = if cfg.height % 16 == 0 {
            0
        } else {
            (16 - cfg.height % 16) / 2
        };
        proof {
            let (a, b) = (mb_w as int, mb_h as int);
            assert(a <= a * b && b <= a * b && 0 <= a * b) by (nonlinear_arith)
                requires
                    a >= 1,
                    b >= 1,
            ;
        }
        let frame: u32 = (mb_w as u32) * (mb_h as u32);
        let refs: u32 = if cfg.num_ref_frames > 1 {
            cfg.num_ref_frames
        } else {
            1
        };
        let dpb: u32 = frame * refs;
        let floor: u8 = level_floor(frame, dpb);
        Sps {
            profile_idc: cfg.profile.profile_idc(),
            constraint_set1_flag: true,
            level_idc: if cfg.level_idc > floor {
                cfg.level_idc
            } else {
                floor
            },
            seq_parameter_set_id: 0,
            log2_max_frame_num_minus4: 0,
            pic_order_cnt_type: 0,
            log2_max_pic_order_cnt_lsb_minus4: 4,
            max_num_ref_frames: refs,
            pic_width_in_mbs_minus1: (mb_w - 1) as u32,
            pic_height_in_map_units_minus1: (mb_h - 1) as u32,
            frame_crop_right: crop_right as u32,
            frame_crop_bottom: crop_bottom as u32,
        }
    }

    /// Every field can be coded.
    pub open spec fn ok(&self) -> bool {
        &&& self.seq_parameter_set_id < u32::MAX
        &&& self.log2_max_frame_num_minus4 < u32::MAX
        &&& self.pic_order_cnt_type < u32::MAX
        &&& self.log2_max_pic_order_cnt_lsb_minus4 < u32::MAX
        &&& self.max_num_ref_frames < u32::MAX
        &&& self.pic_width_in_mbs_minus1 < u32::MAX
        &&& self.pic_height_in_map_units_minus1 < u32::MAX
        &&& self.frame_crop_right < u32::MAX
        &&& self.frame_crop_bottom < u32::MAX
    }

    /// Whether the picture is cropped.
    pub open spec fn cropped(&self) -> bool {
        self.frame_crop_right != 0 || self.frame_crop_bottom != 0
    }

    /// The syntax table of the set: the High-profile part stands there from profile 100 on,
    /// the order-count width for order-count type 0, the offsets for a cropped picture.
    pub open spec fn table(&self) -> Seq<Syn> {
        seq![
            Syn::U { v: self.profile_idc as u32, n: 8 },
            Syn::U { v: if self.constraint_set1_flag { 64u32 } else { 0u32 }, n: 8 },
            Syn::U { v: self.level_idc as u32, n: 8 },
            Syn::Ue(self.seq_parameter_set_id),
        ] + (if self.profile_idc >= 100 {
            seq![Syn::Ue(1), Syn::Ue(0), Syn::Ue(0), Syn::Flag(false), Syn::Flag(false)]
        } else {
            Seq::empty()
        }) + seq![Syn::Ue(self.log2_max_frame_num_minus4), Syn::Ue(self.pic_order_cnt_type)] + (
        if self.pic_order_cnt_type == 0 {
            seq![Syn::Ue(self.log2_max_pic_order_cnt_lsb_minus4)]
        } else {
            Seq::empty()
        }) + seq![
            Syn::Ue(self.max_num_ref_frames),
            Syn::Flag(false),
            Syn::Ue(self.pic_width_in_mbs_minus1),
            Syn::Ue(self.pic_height_in_map_units_minus1),
            Syn::Flag(true),
            Syn::Flag(true),
            Syn::Flag(self.cropped()),
        ] + (if self.cropped() {
            seq![
                Syn::Ue(0),
                Syn::Ue(self.frame_crop_right),
                Syn::Ue(0),
                Syn::Ue(self.frame_crop_bottom),
            ]
        } else {
            Seq::empty()
        }) + seq![Syn::Flag(false)]
    }

    #[verifier::spinoff_prover]
    #[verifier::rlimit(60)]
    fn syntax(&self) -> (l: Vec<Syn>)
        requires
            self.ok(),
        ensures
            l@ == self.table(),
            forall|i: int| 0 <= i < l@.len() ==> (#[trigger] l@[i]).ok(),
    {
        proof {
            vstd::arithmetic::power2::lemma2_to64();
        }
        let mut l: Vec<Syn> = Vec::new();
        l.push(Syn::U { v: self.profile_idc as u32, n: 8 });
        l.push(Syn::U { v: if self.constraint_set1_flag { 64 } else { 0 }, n: 8 });
        l.push(Syn::U { v: self.level_idc as u32, n: 8 });
        l.push(Syn::Ue(self.seq_parameter_set_id));
        if self.profile_idc >= 100 {
            l.push(Syn::Ue(1));
            l.push(Syn::Ue(0));
            l.push(Syn::Ue(0));
            l.push(Syn::Flag(false));
            l.push(Syn::Flag(false));
        }
        l.push(Syn::Ue(self.log2_max_frame_num_minus4));
        l.push(Syn::Ue(self.pic_order_cnt_type));
        if self.pic_order_cnt_type == 0 {
            l.push(Syn::Ue(self.log2_max_pic_order_cnt_lsb_minus4));
        }
        l.push(Syn::Ue(self.max_num_ref_frames));
        l.push(Syn::Flag(false));
        l.push(Syn::Ue(self.pic_width_in_mbs_minus1));
        l.push(Syn::Ue(self.pic_height_in_map_units_minus1));
        l.push(Syn::Flag(true));
        l.push(Syn::Flag(true));
        let cropping: bool = self.frame_crop_right != 0 || self.frame_crop_bottom != 0;
        l.push(Syn::Flag(cropping));
        if cropping {
            l.push(Syn::Ue(0));
            l.push(Syn::Ue(self.frame_crop_right));
            l.push(Syn::Ue(0));
            l.push(Syn::Ue(self.frame_crop_bottom));
        }
        l.push(Syn::Flag(false));
        assert(l@ =~= self.table());
        l
    }

    /// Write the payload, trailing bits included.
    pub fn write_rbsp(&self, w: &mut BitWriter)
        requires
            self.ok(),
            old(w).wf(),
        ensures
            final(w).wf(),
            final(w)@ == old(w)@ + bits::table_bits(self.table()) + bits::trailing(
                (old(w)@ + bits::table_bits(self.table())).len() as int,
            ),
            final(w)@.len() % 8 == 0,
    {
        let l: Vec<Syn> = self.syntax();
        write_table(w, &l);
        w.rbsp_trailing_bits();
    }

    /// The set as a unit of the stream.
    pub fn to_nal(&self) -> (r: NalUnit)
        requires
            self.ok(),
        ensures
            r.nal_ref_idc == 3,
            r.nal_unit_type == NalUnitType::Sps,
            bits::byte_bits(r.rbsp@) == bits::table_bits(self.table()) + bits::trailing(
                bits::table_bits(self.table()).len() as int,
            ),
    {
        let mut w: BitWriter = BitWriter::new();
        self.write_rbsp(&mut w);
        assert(Seq::<bool>::empty() + bits::table_bits(self.table()) =~= bits::table_bits(
            self.table(),
        ));
        NalUnit { nal_ref_idc: 3, nal_unit_type: NalUnitType::Sps, rbsp: w.into_bytes() }
    }
}

/// The value of an Exp-Golomb code at `p` and the position behind it.
#[verifier::opaque]
pub open spec fn ue_at(s: Seq<bool>, p: int) -> (u32, int) {
    match bits::read_ue(s, p) {
        Some((v, q)) => (v as u32, q),
        None => (0, p),
    }
}

/// The reader of a sequence parameter set at `p`: the set and the position behind its table.
pub open spec fn read_sps(s: Seq<bool>, p: int) -> (Sps, int) {
    let profile = bits::read_fixed(s, p, 8);
    let constraints = bits::read_fixed(s, p + 8, 8);
    let level = bits::read_fixed(s, p + 16, 8);
    let (id, q0) = ue_at(s, p + 24);
    let q1 = if profile >= 100 {
        ue_at(s, ue_at(s, ue_at(s, q0).1).1).1 + 2
    } else {
        q0
    };
    let (frame_num, q2) = ue_at(s, q1);
    let (poc_type, q3) = ue_at(s, q2);
    let (poc_lsb, q4) = if poc_type == 0 {
        ue_at(s, q3)
    } else {
        (0, q3)
    };
    let (refs, q5) = ue_at(s, q4);
    let (w, q6) = ue_at(s, q5 + 1);
    let (h, q7) = ue_at(s, q6);
    let crop = s[q7 + 2];
    let (_l, q8) = ue_at(s, q7 + 3);
    let (right, q9) = ue_at(s, q8);
    let (_t, q10) = ue_at(s, q9);
    let (bottom, q11) = ue_at(s, q10);
    (
        Sps {
            profile_idc: profile as u8,
            constraint_set1_flag: (constraints / 64) % 2 == 1,
            level_idc: level as u8,
            seq_parameter_set_id: id,
            log2_max_frame_num_minus4: frame_num,
            pic_order_cnt_type: poc_type,
            log2_max_pic_order_cnt_lsb_minus4: poc_lsb,
            max_num_ref_frames: refs,
            pic_width_in_mbs_minus1: w,
            pic_height_in_map_units_minus1: h,
            frame_crop_right: if crop {
                right
            } else {
                0
            },
            frame_crop_bottom: if crop {
                bottom
            } else {
                0
            },
        },
        if crop {
            q11 + 1
        } else {
            q7 + 4
        },
    )
}

/// The signed Exp-Golomb code at `p`, and where it ends.
#[verifier::opaque]
pub open spec fn se_at(s: Seq<bool>, p: int) -> (i32, int) {
    match bits::read_se(s, p) {
        Some((c, q)) => (c as i32, q),
        None => (0, p),
    }
}

/// Element `i` of the table, an Exp-Golomb code of `v`, reads back where it stands.
pub proof fn lemma_ue_at(s: Seq<bool>, p: int, t: Seq<Syn>, i: int, v: u32)
    requires
        bits::stands_at(s, p, bits::table_bits(t)),
        0 <= i < t.len(),
        t[i] == Syn::Ue(v),
        v < u32::MAX,
    ensures
        ue_at(s, bits::offset(t, p, i)) == (v, bits::offset(t, p, i + 1)),
{
    reveal(ue_at);
    bits::law_table(s, p, t, i);
}

/// Element `i` of the table, a signed Exp-Golomb code of `v`, reads back where it stands.
pub proof fn lemma_se_at(s: Seq<bool>, p: int, t: Seq<Syn>, i: int, v: i32)
    requires
        bits::stands_at(s, p, bits::table_bits(t)),
        0 <= i < t.len(),
        t[i] == Syn::Se(v),
        v != i32::MIN,
    ensures
        se_at(s, bits::offset(t, p, i)) == (v, bits::offset(t, p, i + 1)),
{
    reveal(se_at);
    bits::law_table(s, p, t, i);
}

/// Element `i` of the table, a flag, reads back where it stands.
pub proof fn lemma_flag_at(s: Seq<bool>, p: int, t: Seq<Syn>, i: int, b: bool)
    requires
        bits::stands_at(s, p, bits::table_bits(t)),
        0 <= i < t.len(),
        t[i] == Syn::Flag(b),
    ensures
        s[bits::offset(t, p, i)] == b,
        bits::offset(t, p, i + 1) == bits::offset(t, p, i) + 1,
{
    bits::law_table(s, p, t, i);
}

/// Element `i` of the table, a byte, reads back where it stands.
proof fn lemma_byte_at(s: Seq<bool>, p: int, t: Seq<Syn>, i: int, v: u32)
    requires
        bits::stands_at(s, p, bits::table_bits(t)),
        0 <= i < t.len(),
        t[i] == (Syn::U { v, n: 8 }),
        v < 256,
    ensures
        bits::read_fixed(s, bits::offset(t, p, i), 8) as u32 == v,
        bits::read_fixed(s, bits::offset(t, p, i), 8) == v,
        bits::offset(t, p, i + 1) == bits::offset(t, p, i) + 8,
{
    vstd::arithmetic::power2::lemma2_to64();
    bits::law_table(s, p, t, i);
    lemma_read_fixed_bound(s, bits::offset(t, p, i), 8);
}

proof fn lemma_read_fixed_bound(s: Seq<bool>, p: int, n: nat)
    ensures
        bits::read_fixed(s, p, n) < vstd::arithmetic::power2::pow2(n),
    decreases n,
{
    vstd::arithmetic::power2::lemma2_to64();
    if n > 0 {
        lemma_read_fixed_bound(s, p, (n - 1) as nat);
        vstd::arithmetic::power2::lemma_pow2_unfold(n);
    }
}

/// The walk of the reader, where `o` tells where each element starts, `a` elements stand
/// before the frame-number width and `b` before the reference count.
proof fn lemma_sps_walk(s: Seq<bool>, p: int, sps: Sps, o: spec_fn(int) -> int, a: int, b: int)
    requires
        sps.pic_order_cnt_type == 0 || sps.log2_max_pic_order_cnt_lsb_minus4 == 0,
        a == (if sps.profile_idc >= 100 {
            9int
        } else {
            4
        }),
        b == (if sps.pic_order_cnt_type == 0 {
            a + 3
        } else {
            a + 2
        }),
        o(3) == p + 24,
        bits::read_fixed(s, p, 8) == sps.profile_idc,
        bits::read_fixed(s, p + 8, 8) == (if sps.constraint_set1_flag {
            64int
        } else {
            0
        }),
        bits::read_fixed(s, p + 16, 8) == sps.level_idc,
        ue_at(s, o(3)) == (sps.seq_parameter_set_id, o(4)),
        sps.profile_idc >= 100 ==> ue_at(s, o(4)).1 == o(5) && ue_at(s, o(5)).1 == o(6) && ue_at(
            s,
            o(6),
        ).1 == o(7) && o(9) == o(7) + 2,
        ue_at(s, o(a)) == (sps.log2_max_frame_num_minus4, o(a + 1)),
        ue_at(s, o(a + 1)) == (sps.pic_order_cnt_type, o(a + 2)),
        sps.pic_order_cnt_type == 0 ==> ue_at(s, o(a + 2)) == (
            sps.log2_max_pic_order_cnt_lsb_minus4,
            o(a + 3),
        ),
        ue_at(s, o(b)) == (sps.max_num_ref_frames, o(b + 1)),
        o(b + 2) == o(b + 1) + 1,
        ue_at(s, o(b + 2)) == (sps.pic_width_in_mbs_minus1, o(b + 3)),
        ue_at(s, o(b + 3)) == (sps.pic_height_in_map_units_minus1, o(b + 4)),
        o(b + 6) == o(b + 4) + 2,
        s[o(b + 6)] == sps.cropped(),
        o(b + 7) == o(b + 4) + 3,
        sps.cropped() ==> {
            &&& ue_at(s, o(b + 7)).1 == o(b + 8)
            &&& ue_at(s, o(b + 8)) == (sps.frame_crop_right, o(b + 9))
            &&& ue_at(s, o(b + 9)).1 == o(b + 10)
            &&& ue_at(s, o(b + 10)) == (sps.frame_crop_bottom, o(b + 11))
        },
    ensures
        read_sps(s, p) == (
            sps,
            if sps.cropped() {
                o(b + 11) + 1
            } else {
                o(b + 4) + 4
            },
        ),
{
}

/// Where the elements of a set stand, the reader finds them.
proof fn lemma_sps_elements(s: Seq<bool>, p: int, sps: Sps, t: Seq<Syn>, a: int, b: int)
    requires
        sps.ok(),
        bits::stands_at(s, p, bits::table_bits(t)),
        a == (if sps.profile_idc >= 100 {
            9int
        } else {
            4
        }),
        b == (if sps.pic_order_cnt_type == 0 {
            a + 3
        } else {
            a + 2
        }),
        t.len() == (if sps.cropped() {
            b + 12
        } else {
            b + 8
        }),
        t[0] == (Syn::U { v: sps.profile_idc as u32, n: 8 }),
        t[1] == (Syn::U { v: if sps.constraint_set1_flag { 64u32 } else { 0u32 }, n: 8 }),
        t[2] == (Syn::U { v: sps.level_idc as u32, n: 8 }),
        t[3] == Syn::Ue(sps.seq_parameter_set_id),
        sps.profile_idc >= 100 ==> t[4] == Syn::Ue(1) && t[5] == Syn::Ue(0) && t[6] == Syn::Ue(0)
            && t[7] == Syn::Flag(false) && t[8] == Syn::Flag(false),
        t[a] == Syn::Ue(sps.log2_max_frame_num_minus4),
        t[a + 1] == Syn::Ue(sps.pic_order_cnt_type),
        sps.pic_order_cnt_type == 0 ==> t[a + 2] == Syn::Ue(sps.log2_max_pic_order_cnt_lsb_minus4),
        t[b] == Syn::Ue(sps.max_num_ref_frames),
        t[b + 1] == Syn::Flag(false),
        t[b + 2] == Syn::Ue(sps.pic_width_in_mbs_minus1),
        t[b + 3] == Syn::Ue(sps.pic_height_in_map_units_minus1),
        t[b + 4] == Syn::Flag(true),
        t[b + 5] == Syn::Flag(true),
        t[b + 6] == Syn::Flag(sps.cropped()),
        sps.cropped() ==> t[b + 7] == Syn::Ue(0) && t[b + 8] == Syn::Ue(sps.frame_crop_right)
            && t[b + 9] == Syn::Ue(0) && t[b + 10] == Syn::Ue(sps.frame_crop_bottom) && t[b + 11]
            == Syn::Flag(false),
        !sps.cropped() ==> t[b + 7] == Syn::Flag(false),
    ensures
        ({
            let o = |i: int| bits::offset(t, p, i);
            &&& o(3) == p + 24
            &&& bits::read_fixed(s, p, 8) == sps.profile_idc
            &&& bits::read_fixed(s, p + 8, 8) == (if sps.constraint_set1_flag {
                64int
            } else {
                0
            })
            &&& bits::read_fixed(s, p + 16, 8) == sps.level_idc
            &&& ue_at(s, o(3)) == (sps.seq_parameter_set_id, o(4))
            &&& sps.profile_idc >= 100 ==> ue_at(s, o(4)).1 == o(5) && ue_at(s, o(5)).1 == o(6)
                && ue_at(s, o(6)).1 == o(7) && o(9) == o(7) + 2
            &&& ue_at(s, o(a)) == (sps.log2_max_frame_num_minus4, o(a + 1))
            &&& ue_at(s, o(a + 1)) == (sps.pic_order_cnt_type, o(a + 2))
            &&& sps.pic_order_cnt_type == 0 ==> ue_at(s, o(a + 2)) == (
                sps.log2_max_pic_order_cnt_lsb_minus4,
                o(a + 3),
            )
            &&& ue_at(s, o(b)) == (sps.max_num_ref_frames, o(b + 1))
            &&& o(b + 2) == o(b + 1) + 1
            &&& ue_at(s, o(b + 2)) == (sps.pic_width_in_mbs_minus1, o(b + 3))
            &&& ue_at(s, o(b + 3)) == (sps.pic_height_in_map_units_minus1, o(b + 4))
            &&& o(b + 6) == o(b + 4) + 2
            &&& s[o(b + 6)] == sps.cropped()
            &&& o(b + 7) == o(b + 4) + 3
            &&& sps.cropped() ==> {
                &&& ue_at(s, o(b + 7)).1 == o(b + 8)
                &&& ue_at(s, o(b + 8)) == (sps.frame_crop_right, o(b + 9))
                &&& ue_at(s, o(b + 9)).1 == o(b + 10)
                &&& ue_at(s, o(b + 10)) == (sps.frame_crop_bottom, o(b + 11))
                &&& o(b + 12) == o(b + 11) + 1
            }
            &&& !sps.cropped() ==> o(b + 8) == o(b + 7) + 1
        }),
{
    lemma_byte_at(s, p, t, 0, sps.profile_idc as u32);
    lemma_byte_at(s, p, t, 1, if sps.constraint_set1_flag { 64u32 } else { 0u32 });
    lemma_byte_at(s, p, t, 2, sps.level_idc as u32);
    assert(bits::offset(t, p, 0) == p);
    lemma_ue_at(s, p, t, 3, sps.seq_parameter_set_id);
    if sps.profile_idc >= 100 {
        lemma_ue_at(s, p, t, 4, 1);
        lemma_ue_at(s, p, t, 5, 0);
        lemma_ue_at(s, p, t, 6, 0);
        lemma_flag_at(s, p, t, 7, false);
        lemma_flag_at(s, p, t, 8, false);
    }
    lemma_ue_at(s, p, t, a, sps.log2_max_frame_num_minus4);
    lemma_ue_at(s, p, t, a + 1, sps.pic_order_cnt_type);
    if sps.pic_order_cnt_type == 0 {
        lemma_ue_at(s, p, t, a + 2, sps.log2_max_pic_order_cnt_lsb_minus4);
    }
    lemma_ue_at(s, p, t, b, sps.max_num_ref_frames);
    lemma_flag_at(s, p, t, b + 1, false);
    lemma_ue_at(s, p, t, b + 2, sps.pic_width_in_mbs_minus1);
    lemma_ue_at(s, p, t, b + 3, sps.pic_height_in_map_units_minus1);
    lemma_flag_at(s, p, t, b + 4, true);
    lemma_flag_at(s, p, t, b + 5, true);
    lemma_flag_at(s, p, t, b + 6, sps.cropped());
    if sps.cropped() {
        lemma_ue_at(s, p, t, b + 7, 0);
        lemma_ue_at(s, p, t, b + 8, sps.frame_crop_right);
        lemma_ue_at(s, p, t, b + 9, 0);
        lemma_ue_at(s, p, t, b + 10, sps.frame_crop_bottom);
        lemma_flag_at(s, p, t, b + 11, false);
    } else {
        lemma_flag_at(s, p, t, b + 7, false);
    }
}

/// A sequence parameter set reads back from its bits, whatever stands before and behind.
#[verifier::spinoff_prover]
#[verifier::rlimit(60)]
pub proof fn law_sps_reads_back(s: Seq<bool>, p: int, sps: Sps)
    requires
        sps.ok(),
        sps.pic_order_cnt_type == 0 || sps.log2_max_pic_order_cnt_lsb_minus4 == 0,
        bits::stands_at(s, p, bits::table_bits(sps.table())),
    ensures
        read_sps(s, p) == (sps, p + bits::table_bits(sps.table()).len()),
{
    let t = sps.table();
    let a = if sps.profile_idc >= 100 {
        9int
    } else {
        4
    };
    let b = if sps.pic_order_cnt_type == 0 {
        a + 3
    } else {
        a + 2
    };
    lemma_sps_elements(s, p, sps, t, a, b);
    lemma_sps_walk(s, p, sps, |i: int| bits::offset(t, p, i), a, b);
    bits::law_table(s, p, t, t.len() - 1);
}

/// The level is never below the configured one.
pub proof fn law_level_is_only_raised(cfg: EncoderConfig)
    ensures
        sps_of(cfg).level_idc >= cfg.level_idc,
{
}

/// Levels rise with their entries, and so does what they allow.
proof fn lemma_caps_rise(i: int, j: int)
    requires
        0 <= i < j < 16,
    ensures
        LEVEL_CAPS[i].0 < LEVEL_CAPS[j].0 <= 52,
        LEVEL_CAPS[i].1 <= LEVEL_CAPS[j].1,
        LEVEL_CAPS[i].2 <= LEVEL_CAPS[j].2,
    decreases j - i,
{
    assert(LEVEL_CAPS[j - 1].0 < LEVEL_CAPS[j].0 <= 52 && LEVEL_CAPS[j - 1].1 <= LEVEL_CAPS[j].1
        && LEVEL_CAPS[j - 1].2 <= LEVEL_CAPS[j].2);
    if i < j - 1 {
        lemma_caps_rise(i, j - 1);
    }
}

proof fn lemma_level_past(a: int, k: int, frame: int, dpb: int)
    requires
        0 <= a <= 16,
        0 <= k < 15,
        !level_fits(k, frame, dpb),
    ensures
        level_from(a, frame, dpb) > LEVEL_CAPS[k].0,
    decreases 16 - a,
{
    lemma_caps_rise(k, 15);
    if a < 16 {
        if a < k {
            lemma_caps_rise(a, k);
        } else if a > k {
            lemma_caps_rise(k, a);
        }
        if !level_fits(a, frame, dpb) {
            lemma_level_past(a + 1, k, frame, dpb);
        }
    }
}

/// A configured level is kept exactly where it allows the frame and the references; only the
/// highest one cannot be raised.
pub proof fn law_level_is_kept_exactly_where_it_fits(cfg: EncoderConfig, k: int)
    requires
        0 <= k < 15,
        cfg.level_idc == LEVEL_CAPS[k].0,
    ensures
        (sps_of(cfg).level_idc == cfg.level_idc) == level_fits(
            k,
            frame_mbs(cfg),
            frame_mbs(cfg) * refs_of(cfg),
        ),
{
    let (frame, dpb) = (frame_mbs(cfg), frame_mbs(cfg) * refs_of(cfg));
    if level_fits(k, frame, dpb) {
        law_level_floor_fits(frame, dpb, k);
        let i = choose|i: int|
            0 <= i <= k && LEVEL_CAPS[i].0 == level_from(0, frame, dpb) && #[trigger] level_fits(
                i,
                frame,
                dpb,
            ) && forall|j: int| 0 <= j < i ==> !#[trigger] level_fits(j, frame, dpb);
        if i < k {
            lemma_caps_rise(i, k);
        }
    } else {
        lemma_level_past(0, k, frame, dpb);
    }
}

/// A picture parameter set.
#[derive(Clone, Copy, Debug)]
pub struct Pps {
    pub pic_parameter_set_id: u32,
    pub seq_parameter_set_id: u32,
    pub num_ref_idx_l0_default_active_minus1: u32,
    pub pic_init_qp_minus26: i32,
    pub deblocking_filter_control_present_flag: bool,
    /// 2 for weights by picture distance, 0 for none.
    pub weighted_bipred_idc: u8,
    pub weighted_pred_flag: bool,
    /// Set for CABAC, clear for CAVLC.
    pub entropy_coding_mode_flag: bool,
    pub transform_8x8_mode_flag: bool,
}

/// The picture parameter set of a configuration.
pub open spec fn pps_of(cfg: EncoderConfig) -> Pps {
    Pps {
        pic_parameter_set_id: 0,
        seq_parameter_set_id: 0,
        num_ref_idx_l0_default_active_minus1: (refs_of(cfg) - 1) as u32,
        pic_init_qp_minus26: (cfg.qp - 26) as i32,
        deblocking_filter_control_present_flag: true,
        weighted_bipred_idc: if cfg.bframes > 0 {
            2
        } else {
            0
        },
        weighted_pred_flag: cfg.weightp,
        entropy_coding_mode_flag: cfg.cabac,
        transform_8x8_mode_flag: cfg.transform_8x8,
    }
}

impl Pps {
    /// The picture parameter set of a configuration.
    pub fn from_config(cfg: &EncoderConfig) -> (r: Self)
        ensures
            r == pps_of(*cfg),
    {
        Pps {
            pic_parameter_set_id: 0,
            seq_parameter_set_id: 0,
            num_ref_idx_l0_default_active_minus1: if cfg.num_ref_frames > 1 {
                cfg.num_ref_frames - 1
            } else {
                0
            },
            pic_init_qp_minus26: cfg.qp as i32 - 26,
            deblocking_filter_control_present_flag: true,
            weighted_bipred_idc: if cfg.bframes > 0 {
                2
            } else {
                0
            },
            weighted_pred_flag: cfg.weightp,
            entropy_coding_mode_flag: cfg.cabac,
            transform_8x8_mode_flag: cfg.transform_8x8,
        }
    }

    /// Every field can be coded.
    pub open spec fn ok(&self) -> bool {
        &&& self.pic_parameter_set_id < u32::MAX
        &&& self.seq_parameter_set_id < u32::MAX
        &&& self.num_ref_idx_l0_default_active_minus1 < u32::MAX
        &&& self.pic_init_qp_minus26 != i32::MIN
        &&& self.weighted_bipred_idc < 4
    }

    /// The syntax table of the set; its last part stands there for the 8x8 transform only.
    pub open spec fn table(&self) -> Seq<Syn> {
        seq![
            Syn::Ue(self.pic_parameter_set_id),
            Syn::Ue(self.seq_parameter_set_id),
            Syn::Flag(self.entropy_coding_mode_flag),
            Syn::Flag(false),
            Syn::Ue(0),
            Syn::Ue(self.num_ref_idx_l0_default_active_minus1),
            Syn::Ue(0),
            Syn::Flag(self.weighted_pred_flag),
            Syn::U { v: self.weighted_bipred_idc as u32, n: 2 },
            Syn::Se(self.pic_init_qp_minus26),
            Syn::Se(0),
            Syn::Se(0),
            Syn::Flag(self.deblocking_filter_control_present_flag),
            Syn::Flag(false),
            Syn::Flag(false),
        ] + (if self.transform_8x8_mode_flag {
            seq![Syn::Flag(true), Syn::Flag(false), Syn::Se(0)]
        } else {
            Seq::empty()
        })
    }

    #[verifier::spinoff_prover]
    #[verifier::rlimit(60)]
    fn syntax(&self) -> (l: Vec<Syn>)
        requires
            self.ok(),
        ensures
            l@ == self.table(),
            forall|i: int| 0 <= i < l@.len() ==> (#[trigger] l@[i]).ok(),
    {
        proof {
            vstd::arithmetic::power2::lemma2_to64();
        }
        let mut l: Vec<Syn> = Vec::new();
        l.push(Syn::Ue(self.pic_parameter_set_id));
        l.push(Syn::Ue(self.seq_parameter_set_id));
        l.push(Syn::Flag(self.entropy_coding_mode_flag));
        l.push(Syn::Flag(false));
        l.push(Syn::Ue(0));
        l.push(Syn::Ue(self.num_ref_idx_l0_default_active_minus1));
        l.push(Syn::Ue(0));
        l.push(Syn::Flag(self.weighted_pred_flag));
        l.push(Syn::U { v: self.weighted_bipred_idc as u32, n: 2 });
        l.push(Syn::Se(self.pic_init_qp_minus26));
        l.push(Syn::Se(0));
        l.push(Syn::Se(0));
        l.push(Syn::Flag(self.deblocking_filter_control_present_flag));
        l.push(Syn::Flag(false));
        l.push(Syn::Flag(false));
        if self.transform_8x8_mode_flag {
            l.push(Syn::Flag(true));
            l.push(Syn::Flag(false));
            l.push(Syn::Se(0));
        }
        assert(l@ =~= self.table());
        l
    }

    /// Write the payload, trailing bits included.
    pub fn write_rbsp(&self, w: &mut BitWriter)
        requires
            self.ok(),
            old(w).wf(),
        ensures
            final(w).wf(),
            final(w)@ == old(w)@ + bits::table_bits(self.table()) + bits::trailing(
                (old(w)@ + bits::table_bits(self.table())).len() as int,
            ),
            final(w)@.len() % 8 == 0,
    {
        let l: Vec<Syn> = self.syntax();
        write_table(w, &l);
        w.rbsp_trailing_bits();
    }

    /// The set as a unit of the stream.
    pub fn to_nal(&self) -> (r: NalUnit)
        requires
            self.ok(),
        ensures
            r.nal_ref_idc == 3,
            r.nal_unit_type == NalUnitType::Pps,
            bits::byte_bits(r.rbsp@) == bits::table_bits(self.table()) + bits::trailing(
                bits::table_bits(self.table()).len() as int,
            ),
    {
        let mut w: BitWriter = BitWriter::new();
        self.write_rbsp(&mut w);
        assert(Seq::<bool>::empty() + bits::table_bits(self.table()) =~= bits::table_bits(
            self.table(),
        ));
        NalUnit { nal_ref_idc: 3, nal_unit_type: NalUnitType::Pps, rbsp: w.into_bytes() }
    }
}

/// The picture parameter set that a reader takes from the bits at `p`, and where it ends. Its last
/// part is read where there are bits left before `end`.
pub open spec fn read_pps(s: Seq<bool>, p: int, end: int) -> (Pps, int) {
    let (id, q0) = ue_at(s, p);
    let (sps, q1) = ue_at(s, q0);
    let (_groups, q2) = ue_at(s, q1 + 2);
    let (l0, q3) = ue_at(s, q2);
    let (_l1, q4) = ue_at(s, q3);
    let (qp, q5) = se_at(s, q4 + 3);
    let (_qs, q6) = se_at(s, q5);
    let (_chroma, q7) = se_at(s, q6);
    let more = q7 + 3 < end;
    (
        Pps {
            pic_parameter_set_id: id,
            seq_parameter_set_id: sps,
            num_ref_idx_l0_default_active_minus1: l0,
            pic_init_qp_minus26: qp,
            deblocking_filter_control_present_flag: s[q7],
            weighted_bipred_idc: bits::read_fixed(s, q4 + 1, 2) as u8,
            weighted_pred_flag: s[q4],
            entropy_coding_mode_flag: s[q1],
            transform_8x8_mode_flag: more && s[q7 + 3],
        },
        if more {
            se_at(s, q7 + 5).1
        } else {
            q7 + 3
        },
    )
}

/// The walk of the reader, where `o` tells where each element starts.
proof fn lemma_pps_walk(s: Seq<bool>, p: int, end: int, pps: Pps, o: spec_fn(int) -> int)
    requires
        ue_at(s, p) == (pps.pic_parameter_set_id, o(1)),
        ue_at(s, o(1)) == (pps.seq_parameter_set_id, o(2)),
        s[o(2)] == pps.entropy_coding_mode_flag,
        o(4) == o(2) + 2,
        ue_at(s, o(4)).1 == o(5),
        ue_at(s, o(5)) == (pps.num_ref_idx_l0_default_active_minus1, o(6)),
        ue_at(s, o(6)).1 == o(7),
        s[o(7)] == pps.weighted_pred_flag,
        bits::read_fixed(s, o(7) + 1, 2) == pps.weighted_bipred_idc,
        o(9) == o(7) + 3,
        se_at(s, o(9)) == (pps.pic_init_qp_minus26, o(10)),
        se_at(s, o(10)).1 == o(11),
        se_at(s, o(11)).1 == o(12),
        s[o(12)] == pps.deblocking_filter_control_present_flag,
        (o(12) + 3 < end) == pps.transform_8x8_mode_flag,
        pps.transform_8x8_mode_flag ==> s[o(12) + 3] && se_at(s, o(12) + 5).1 == end,
        !pps.transform_8x8_mode_flag ==> o(12) + 3 == end,
    ensures
        read_pps(s, p, end) == (pps, end),
{
}

/// A picture parameter set reads back from its bits, whatever stands before and behind.
#[verifier::spinoff_prover]
#[verifier::rlimit(60)]
pub proof fn law_pps_reads_back(s: Seq<bool>, p: int, pps: Pps)
    requires
        pps.ok(),
        bits::stands_at(s, p, bits::table_bits(pps.table())),
    ensures
        ({
            let end = p + bits::table_bits(pps.table()).len();
            read_pps(s, p, end) == (pps, end)
        }),
{
    let t = pps.table();
    vstd::arithmetic::power2::lemma2_to64();
    lemma_ue_at(s, p, t, 0, pps.pic_parameter_set_id);
    lemma_ue_at(s, p, t, 1, pps.seq_parameter_set_id);
    lemma_flag_at(s, p, t, 2, pps.entropy_coding_mode_flag);
    lemma_flag_at(s, p, t, 3, false);
    lemma_ue_at(s, p, t, 4, 0);
    lemma_ue_at(s, p, t, 5, pps.num_ref_idx_l0_default_active_minus1);
    lemma_ue_at(s, p, t, 6, 0);
    lemma_flag_at(s, p, t, 7, pps.weighted_pred_flag);
    bits::law_table(s, p, t, 8);
    lemma_read_fixed_bound(s, bits::offset(t, p, 8), 2);
    lemma_se_at(s, p, t, 9, pps.pic_init_qp_minus26);
    lemma_se_at(s, p, t, 10, 0);
    lemma_se_at(s, p, t, 11, 0);
    lemma_flag_at(s, p, t, 12, pps.deblocking_filter_control_present_flag);
    lemma_flag_at(s, p, t, 13, false);
    lemma_flag_at(s, p, t, 14, false);
    let o = |i: int| bits::offset(t, p, i);
    let end = p + bits::table_bits(t).len();
    if pps.transform_8x8_mode_flag {
        lemma_flag_at(s, p, t, 15, true);
        lemma_flag_at(s, p, t, 16, false);
        lemma_se_at(s, p, t, 17, 0);
        assert(o(18) == end);
        assert(o(18) >= o(17));
    }
    lemma_pps_walk(s, p, end, pps, o);
}

} // verus!
