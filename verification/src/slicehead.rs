//! What a decoder takes from a slice header, and that it is what the header was written for.
use vstd::prelude::*;
use crate::bits;
use crate::bits::Syn;
use crate::config::EncoderConfig;
use crate::params;
use crate::params::{ue_at, se_at, Pps};
use crate::slice;

verus! {

/// The fields of a slice header as a decoder holds them.
pub struct SliceHead {
    pub first_mb: u32,
    pub slice_type: u32,
    pub pps_id: u32,
    pub frame_num: nat,
    pub idr_pic_id: u32,
    pub poc_lsb: nat,
    /// Direct motion is spatial.
    pub spatial: bool,
    /// How many references list 0 and list 1 have.
    pub active0: int,
    pub active1: int,
    /// A list is reordered.
    pub reordered: bool,
    /// Something is said of reference marking beyond the sliding window.
    pub marked: bool,
    pub cabac_init_idc: u32,
    /// The QP that the slice starts with.
    pub qp: int,
    pub filter_off: u32,
    pub alpha: i32,
    pub beta: i32,
}

/// The P slices among the slice types.
pub open spec fn is_p(slice_type: u32) -> bool {
    slice_type % 5 == 0
}

/// The B slices among the slice types.
pub open spec fn is_b(slice_type: u32) -> bool {
    slice_type % 5 == 1
}

/// The reader of a slice header at `p`, and where it ends: `idr` and `kept` tell whether the unit is
/// an IDR one and whether its picture is a reference, `pps` is the picture parameter set. Frame
/// numbers and order counts have four bits, and no prediction weights are sent.
pub open spec fn read_head(
    s: Seq<bool>,
    p: int,
    pps: Pps,
    idr: bool,
    kept: bool,
) -> (SliceHead, int) {
    let (first_mb, q0) = ue_at(s, p);
    let (slice_type, q1) = ue_at(s, q0);
    let (pps_id, q2) = ue_at(s, q1);
    let frame_num = bits::read_fixed(s, q2, 4);
    let (idr_pic_id, q3) = if idr {
        ue_at(s, q2 + 4)
    } else {
        (0, q2 + 4)
    };
    let poc_lsb = bits::read_fixed(s, q3, 4);
    let (spatial, q4) = if is_b(slice_type) {
        (s[q3 + 4], q3 + 5)
    } else {
        (false, q3 + 4)
    };
    let inter = is_p(slice_type) || is_b(slice_type);
    let given = inter && s[q4];
    let q5 = if inter {
        q4 + 1
    } else {
        q4
    };
    let (l0, q6) = if given {
        ue_at(s, q5)
    } else {
        (pps.num_ref_idx_l0_default_active_minus1, q5)
    };
    let (l1, q7) = if given && is_b(slice_type) {
        ue_at(s, q6)
    } else {
        (0, q6)
    };
    let (reordered, q8) = if is_b(slice_type) {
        (s[q7] || s[q7 + 1], q7 + 2)
    } else if is_p(slice_type) {
        (s[q7], q7 + 1)
    } else {
        (false, q7)
    };
    let (marked, q9) = if !kept {
        (false, q8)
    } else if idr {
        (s[q8] || s[q8 + 1], q8 + 2)
    } else {
        (s[q8], q8 + 1)
    };
    let (cabac_init_idc, q10) = if pps.entropy_coding_mode_flag && inter {
        ue_at(s, q9)
    } else {
        (0, q9)
    };
    let (delta, q11) = se_at(s, q10);
    let (filter_off, q12) = if pps.deblocking_filter_control_present_flag {
        ue_at(s, q11)
    } else {
        (0, q11)
    };
    let offsets = pps.deblocking_filter_control_present_flag && filter_off != 1;
    let (alpha, q13) = if offsets {
        se_at(s, q12)
    } else {
        (0, q12)
    };
    let (beta, q14) = if offsets {
        se_at(s, q13)
    } else {
        (0, q13)
    };
    (
        SliceHead {
            first_mb,
            slice_type,
            pps_id,
            frame_num,
            idr_pic_id,
            poc_lsb,
            spatial,
            active0: if inter {
                l0 + 1
            } else {
                0
            },
            active1: if is_b(slice_type) {
                l1 + 1
            } else {
                0
            },
            reordered,
            marked,
            cabac_init_idc,
            qp: 26 + pps.pic_init_qp_minus26 + delta,
            filter_off,
            alpha,
            beta,
        },
        q14,
    )
}

/// Four bits hold a number up to its remainder by 16.
proof fn lemma_four_bits(s: Seq<bool>, p: int, v: nat)
    requires
        bits::stands_at(s, p, bits::fixed(v, 4)),
    ensures
        bits::read_fixed(s, p, 4) == v % 16,
{
    vstd::arithmetic::power2::lemma2_to64();
    reveal_with_fuel(bits::read_fixed, 5);
    let f = bits::fixed(v, 4);
    assert(s[p + 0] == f[0]);
    assert(s[p + 1] == f[1]);
    assert(s[p + 2] == f[2]);
    assert(s[p + 3] == f[3]);
    assert(f[0] == ((v / 8) % 2 == 1));
    assert(f[1] == ((v / 4) % 2 == 1));
    assert(f[2] == ((v / 2) % 2 == 1));
    assert(f[3] == ((v / 1) % 2 == 1));
}

proof fn lemma_nibble_at(s: Seq<bool>, p: int, t: Seq<Syn>, i: int, v: u32)
    requires
        bits::stands_at(s, p, bits::table_bits(t)),
        0 <= i < t.len(),
        t[i] == (Syn::U { v, n: 4 }),
    ensures
        bits::read_fixed(s, bits::offset(t, p, i), 4) == v % 16,
        bits::offset(t, p, i + 1) == bits::offset(t, p, i) + 4,
{
    bits::lemma_table_split(s, p, t);
    assert(bits::stands_at(s, bits::offset(t, p, i), t[i].bits()));
    lemma_four_bits(s, bits::offset(t, p, i), v as nat);
}

/// A decoder that walks the header of a P slice finds the slice type, both counts, the references in
/// use, the filter on without offsets and nothing else said; and the QP that it starts with, by the
/// picture parameter set of the same configuration, is the QP that the slice was given.
#[verifier::spinoff_prover]
#[verifier::rlimit(60)]
pub proof fn law_p_header_reads_back(
    s: Seq<bool>,
    p: int,
    cfg: EncoderConfig,
    qp: u8,
    frame_num: u32,
    poc_lsb: u32,
    active: int,
)
    requires
        active <= u32::MAX,
        bits::stands_at(
            s,
            p,
            bits::table_bits(slice::p_header(cfg, qp, frame_num, poc_lsb, active)),
        ),
    ensures
        ({
            let t = slice::p_header(cfg, qp, frame_num, poc_lsb, active);
            let (h, end) = read_head(s, p, params::pps_of(cfg), false, true);
            &&& end == p + bits::table_bits(t).len()
            &&& h.qp == qp
            &&& is_p(h.slice_type) && h.slice_type >= 5
            &&& h.first_mb == 0 && h.pps_id == 0
            &&& h.frame_num == frame_num % 16
            &&& h.poc_lsb == poc_lsb % 16
            &&& h.active0 == (if cfg.num_ref_frames > 1 && active > 1 {
                active
            } else {
                1
            })
            &&& !h.reordered && !h.marked
            &&& h.cabac_init_idc == 0
            &&& h.filter_off == 0 && h.alpha == 0 && h.beta == 0
        }),
{
    let t = slice::p_header(cfg, qp, frame_num, poc_lsb, active);
    params::lemma_ue_at(s, p, t, 0, 0);
    params::lemma_ue_at(s, p, t, 1, 5);
    params::lemma_ue_at(s, p, t, 2, 0);
    lemma_nibble_at(s, p, t, 3, frame_num);
    lemma_nibble_at(s, p, t, 4, poc_lsb);
    let a: int = if cfg.num_ref_frames > 1 {
        7
    } else {
        6
    };
    if cfg.num_ref_frames > 1 {
        params::lemma_flag_at(s, p, t, 5, true);
        params::lemma_ue_at(s, p, t, 6, if active > 1 {
            (active - 1) as u32
        } else {
            0
        });
    } else {
        params::lemma_flag_at(s, p, t, 5, false);
    }
    params::lemma_flag_at(s, p, t, a, false);
    params::lemma_flag_at(s, p, t, a + 1, false);
    let b: int = if cfg.cabac {
        a + 3
    } else {
        a + 2
    };
    if cfg.cabac {
        params::lemma_ue_at(s, p, t, a + 2, 0);
    }
    params::lemma_se_at(s, p, t, b, (qp - cfg.qp) as i32);
    params::lemma_ue_at(s, p, t, b + 1, 0);
    params::lemma_se_at(s, p, t, b + 2, 0);
    params::lemma_se_at(s, p, t, b + 3, 0);
    assert(t.len() == b + 4);
    bits::lemma_table_split(s, p, t);
}

/// A decoder that walks the header of a B slice, which is no reference, finds its slice type, both
/// counts, spatial direct motion, the references of both lists in use, and the QP of the slice. In
/// CABAC streams a decoder expects one more number than the header has.
#[verifier::spinoff_prover]
#[verifier::rlimit(60)]
pub proof fn law_b_header_reads_back(
    s: Seq<bool>,
    p: int,
    cfg: EncoderConfig,
    qp: u8,
    frame_num: u32,
    poc_lsb: u32,
    num_l0: int,
    num_l1: int,
)
    requires
        num_l0 <= u32::MAX,
        num_l1 <= u32::MAX,
        !cfg.cabac,
        bits::stands_at(
            s,
            p,
            bits::table_bits(slice::b_header(cfg, qp, frame_num, poc_lsb, num_l0, num_l1)),
        ),
    ensures
        ({
            let t = slice::b_header(cfg, qp, frame_num, poc_lsb, num_l0, num_l1);
            let (h, end) = read_head(s, p, params::pps_of(cfg), false, false);
            &&& end == p + bits::table_bits(t).len()
            &&& h.qp == qp
            &&& is_b(h.slice_type) && h.slice_type >= 5
            &&& h.first_mb == 0 && h.pps_id == 0
            &&& h.frame_num == frame_num % 16
            &&& h.poc_lsb == poc_lsb % 16
            &&& h.spatial
            &&& h.active0 == (if num_l0 > 1 {
                num_l0
            } else {
                1
            })
            &&& h.active1 == (if num_l1 > 1 {
                num_l1
            } else {
                1
            })
            &&& !h.reordered && !h.marked
            &&& h.filter_off == 0 && h.alpha == 0 && h.beta == 0
        }),
{
    let t = slice::b_header(cfg, qp, frame_num, poc_lsb, num_l0, num_l1);
    params::lemma_ue_at(s, p, t, 0, 0);
    params::lemma_ue_at(s, p, t, 1, 6);
    params::lemma_ue_at(s, p, t, 2, 0);
    lemma_nibble_at(s, p, t, 3, frame_num);
    lemma_nibble_at(s, p, t, 4, poc_lsb);
    params::lemma_flag_at(s, p, t, 5, true);
    params::lemma_flag_at(s, p, t, 6, true);
    params::lemma_ue_at(s, p, t, 7, if num_l0 > 1 {
        (num_l0 - 1) as u32
    } else {
        0
    });
    params::lemma_ue_at(s, p, t, 8, if num_l1 > 1 {
        (num_l1 - 1) as u32
    } else {
        0
    });
    params::lemma_flag_at(s, p, t, 9, false);
    params::lemma_flag_at(s, p, t, 10, false);
    params::lemma_se_at(s, p, t, 11, (qp - cfg.qp) as i32);
    params::lemma_ue_at(s, p, t, 12, 0);
    params::lemma_se_at(s, p, t, 13, 0);
    params::lemma_se_at(s, p, t, 14, 0);
    bits::lemma_table_split(s, p, t);
}

/// A decoder that walks the header of an IDR slice finds an I slice that starts both counts anew, at
/// the QP of the slice.
#[verifier::spinoff_prover]
#[verifier::rlimit(60)]
pub proof fn law_idr_header_reads_back(s: Seq<bool>, p: int, cfg: EncoderConfig, qp: u8)
    requires
        bits::stands_at(s, p, bits::table_bits(slice::idr_header(cfg, qp))),
    ensures
        ({
            let t = slice::idr_header(cfg, qp);
            let (h, end) = read_head(s, p, params::pps_of(cfg), true, true);
            &&& end == p + bits::table_bits(t).len()
            &&& h.qp == qp
            &&& h.slice_type % 5 == 2 && h.slice_type >= 5
            &&& h.first_mb == 0 && h.pps_id == 0
            &&& h.frame_num == 0 && h.idr_pic_id == 0 && h.poc_lsb == 0
            &&& !h.reordered && !h.marked
            &&& h.filter_off == 0 && h.alpha == 0 && h.beta == 0
        }),
{
    let t = slice::idr_header(cfg, qp);
    params::lemma_ue_at(s, p, t, 0, 0);
    params::lemma_ue_at(s, p, t, 1, 7);
    params::lemma_ue_at(s, p, t, 2, 0);
    lemma_nibble_at(s, p, t, 3, 0);
    params::lemma_ue_at(s, p, t, 4, 0);
    lemma_nibble_at(s, p, t, 5, 0);
    params::lemma_flag_at(s, p, t, 6, false);
    params::lemma_flag_at(s, p, t, 7, false);
    params::lemma_se_at(s, p, t, 8, (qp - cfg.qp) as i32);
    params::lemma_ue_at(s, p, t, 9, 0);
    params::lemma_se_at(s, p, t, 10, 0);
    params::lemma_se_at(s, p, t, 11, 0);
    bits::lemma_table_split(s, p, t);
}

/// The parameter sets say what the configuration asks for: the size of the picture once it is
/// cropped, in steps of two samples; as many references as configured and at least one; the profile
/// by its number; the QP and the tools.
pub proof fn law_sets_carry_the_configuration(cfg: EncoderConfig)
    requires
        params::countable(cfg),
    ensures
        ({
            let sps = params::sps_of(cfg);
            let w = 16 * (sps.pic_width_in_mbs_minus1 + 1) - 2 * sps.frame_crop_right;
            let h = 16 * (sps.pic_height_in_map_units_minus1 + 1) - 2 * sps.frame_crop_bottom;
            &&& cfg.width <= w <= cfg.width + 1 && w % 2 == 0
            &&& cfg.height <= h <= cfg.height + 1 && h % 2 == 0
            &&& sps.frame_crop_right < 8 && sps.frame_crop_bottom < 8
            &&& sps.max_num_ref_frames >= 1
            &&& cfg.num_ref_frames >= 1 ==> sps.max_num_ref_frames == cfg.num_ref_frames
            &&& sps.constraint_set1_flag
            &&& sps.level_idc >= cfg.level_idc
            &&& sps.pic_order_cnt_type == 0
            &&& sps.log2_max_frame_num_minus4 == 0
            &&& sps.log2_max_pic_order_cnt_lsb_minus4 == 4
            &&& sps.profile_idc == (match cfg.profile {
                crate::config::Profile::ConstrainedBaseline => 66int,
                crate::config::Profile::Main => 77,
                crate::config::Profile::High => 100,
            })
        }),
        ({
            let pps = params::pps_of(cfg);
            &&& pps.num_ref_idx_l0_default_active_minus1 + 1
                == params::sps_of(cfg).max_num_ref_frames
            &&& 26 + pps.pic_init_qp_minus26 == cfg.qp
            &&& pps.entropy_coding_mode_flag == cfg.cabac
            &&& pps.transform_8x8_mode_flag == cfg.transform_8x8
            &&& pps.weighted_pred_flag == cfg.weightp
            &&& pps.deblocking_filter_control_present_flag
            &&& (pps.weighted_bipred_idc == 2 <==> cfg.bframes > 0)
            &&& (pps.weighted_bipred_idc == 0 <==> cfg.bframes == 0)
            &&& pps.seq_parameter_set_id == params::sps_of(cfg).seq_parameter_set_id
        }),
{
    let (a, b) = (cfg.mbs_across(), cfg.mbs_down());
    let f = a * b;
    let n = params::refs_of(cfg);
    assert(a <= a * b && b <= a * b) by (nonlinear_arith)
        requires
            a >= 1,
            b >= 1,
    ;
    assert(n <= f * n) by (nonlinear_arith)
        requires
            f >= 1,
            n >= 1,
    ;
}

} // verus!
