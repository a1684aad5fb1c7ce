//! Parameter sets, slice headers and the bit writer.
use rusty_h264_encoder::bits::{mvd_bits, ref_bits, BitWriter};
use rusty_h264_encoder::config::{EncoderConfig, Profile};
use rusty_h264_encoder::finish::{append_coded, filter_refs, NO_REF};
use rusty_h264_encoder::params::{level_floor, Pps, Sps};
use rusty_h264_encoder::slice::{
    write_b_slice_header, write_idr_slice_header, write_p_slice_header,
};

/// Reads what a `BitWriter` wrote.
struct BitReader {
    bytes: Vec<u8>,
    pos: usize,
}

impl BitReader {
    fn new(bytes: &[u8]) -> Self {
        BitReader { bytes: bytes.to_vec(), pos: 0 }
    }

    fn read_bit(&mut self) -> Option<bool> {
        let b = self.bytes.get(self.pos / 8)?;
        let r = (b >> (7 - self.pos % 8)) & 1 == 1;
        self.pos += 1;
        Some(r)
    }

    fn read_bits(&mut self, n: u32) -> Option<u32> {
        let mut v = 0;
        for _ in 0..n {
            v = v * 2 + self.read_bit()? as u32;
        }
        Some(v)
    }

    fn read_ue(&mut self) -> Option<u32> {
        let mut z = 0;
        while !self.read_bit()? {
            z += 1;
        }
        Some((1u32 << z) - 1 + self.read_bits(z)?)
    }

    fn read_se(&mut self) -> Option<i32> {
        let k = self.read_ue()? as i32;
        Some(if k % 2 == 1 { (k + 1) / 2 } else { -(k / 2) })
    }
}

/// Takes out the bytes that keep start codes from occurring.
fn emulation_unprevent(b: &[u8]) -> Vec<u8> {
    let mut out = Vec::new();
    let mut zeros = 0;
    for &x in b {
        if zeros >= 2 && x == 3 {
            zeros = 0;
            continue;
        }
        zeros = if x == 0 { zeros + 1 } else { 0 };
        out.push(x);
    }
    out
}

#[test]
fn default_config_signals_high_profile_cabac_and_8x8() {
    let cfg = EncoderConfig::new(320, 240);
    let sps = Sps::from_config(&cfg);
    let nal = sps.to_nal();
    let rbsp = emulation_unprevent(&nal.rbsp);
    let mut r = BitReader::new(&rbsp);
    assert_eq!(r.read_bits(8).unwrap(), 100, "profile_idc should be High");

    let pps = Pps::from_config(&cfg);
    let nal = pps.to_nal();
    let rbsp = emulation_unprevent(&nal.rbsp);
    let mut r = BitReader::new(&rbsp);
    assert_eq!(r.read_ue().unwrap(), 0); // pic_parameter_set_id
    assert_eq!(r.read_ue().unwrap(), 0); // seq_parameter_set_id
    assert!(r.read_bit().unwrap(), "entropy_coding_mode should be CABAC");
    r.read_bit().unwrap(); // bottom_field_pic_order_in_frame_present_flag
    assert_eq!(r.read_ue().unwrap(), 0, "num_slice_groups_minus1");
    r.read_ue().unwrap(); // num_ref_idx_l0_default_active_minus1
    r.read_ue().unwrap(); // num_ref_idx_l1_default_active_minus1
    r.read_bit().unwrap(); // weighted_pred_flag
    r.read_bits(2).unwrap(); // weighted_bipred_idc
    r.read_se().unwrap(); // pic_init_qp_minus26
    r.read_se().unwrap(); // pic_init_qs_minus26
    r.read_se().unwrap(); // chroma_qp_index_offset
    r.read_bit().unwrap(); // deblocking_filter_control_present_flag
    r.read_bit().unwrap(); // constrained_intra_pred_flag
    r.read_bit().unwrap(); // redundant_pic_cnt_present_flag
    assert!(r.read_bit().unwrap(), "transform_8x8_mode_flag should be set");
}

#[test]
fn sps_roundtrips_through_reader() {
    let mut cfg = EncoderConfig::new(1920, 1080); // 1080 is no multiple of 16: cropping
    cfg.profile = Profile::ConstrainedBaseline;
    cfg.cabac = false;
    cfg.num_ref_frames = 1;
    let sps = Sps::from_config(&cfg);
    let nal = sps.to_nal();

    let rbsp = emulation_unprevent(&nal.rbsp);
    let mut r = BitReader::new(&rbsp);
    assert_eq!(r.read_bits(8).unwrap(), 66); // profile_idc
    let constraints = r.read_bits(8).unwrap();
    assert_eq!((constraints >> 6) & 1, 1); // constraint_set1_flag
    assert_eq!(r.read_bits(8).unwrap(), 40); // level_idc, raised from 30
    assert_eq!(r.read_ue().unwrap(), 0); // sps id
    assert_eq!(r.read_ue().unwrap(), 0); // log2_max_frame_num_minus4
    assert_eq!(r.read_ue().unwrap(), 0); // poc type
    assert_eq!(r.read_ue().unwrap(), 4); // log2_max_poc_lsb_minus4
    assert_eq!(r.read_ue().unwrap(), 1); // max_num_ref_frames
    assert!(!r.read_bit().unwrap()); // gaps
    assert_eq!(r.read_ue().unwrap(), 119); // 1920/16 - 1
    assert_eq!(r.read_ue().unwrap(), 67); // ceil(1080/16) - 1
    assert!(r.read_bit().unwrap()); // frame_mbs_only
    assert!(r.read_bit().unwrap()); // direct_8x8_inference_flag
    assert!(r.read_bit().unwrap()); // cropping present
    assert_eq!(r.read_ue().unwrap(), 0); // crop left
    assert_eq!(r.read_ue().unwrap(), 0); // crop right
    assert_eq!(r.read_ue().unwrap(), 0); // crop top
    assert_eq!(r.read_ue().unwrap(), 4); // crop bottom: (1088-1080)/2
}

#[test]
fn level_floor_tracks_dpb() {
    let lvl = |w: usize, h: usize, refs: u32| {
        let mut cfg = EncoderConfig::new(w, h);
        cfg.num_ref_frames = refs;
        Sps::from_config(&cfg).level_idc
    };
    assert_eq!(lvl(352, 288, 1), 30);
    assert_eq!(lvl(352, 288, 3), 30);
    assert_eq!(lvl(1280, 720, 1), 31);
    assert_eq!(lvl(1280, 720, 3), 31);
    assert_eq!(lvl(1920, 1080, 1), 40);
    assert_eq!(lvl(1920, 1080, 3), 40);
    assert_eq!(lvl(1920, 1080, 16), 51);
}

#[test]
fn pps_roundtrips_through_reader() {
    let mut cfg = EncoderConfig::new(640, 480);
    cfg.profile = Profile::ConstrainedBaseline;
    cfg.cabac = false;
    cfg.num_ref_frames = 1;
    cfg.weightp = false;
    let pps = Pps::from_config(&cfg);
    let nal = pps.to_nal();

    let rbsp = emulation_unprevent(&nal.rbsp);
    let mut r = BitReader::new(&rbsp);
    assert_eq!(r.read_ue().unwrap(), 0); // pps id
    assert_eq!(r.read_ue().unwrap(), 0); // sps id
    assert!(!r.read_bit().unwrap()); // entropy_coding_mode (CAVLC)
    assert!(!r.read_bit().unwrap()); // bottom_field
    assert_eq!(r.read_ue().unwrap(), 0); // num_slice_groups_minus1
    assert_eq!(r.read_ue().unwrap(), 0); // num_ref_idx_l0
    assert_eq!(r.read_ue().unwrap(), 0); // num_ref_idx_l1
    assert!(!r.read_bit().unwrap()); // weighted_pred
    assert_eq!(r.read_bits(2).unwrap(), 0); // weighted_bipred_idc
    assert_eq!(r.read_se().unwrap(), 0); // pic_init_qp_minus26
}

#[test]
fn level_is_raised_only_as_far_as_needed() {
    assert_eq!(level_floor(99, 99), 10);
    assert_eq!(level_floor(396, 2376), 12);
    assert_eq!(level_floor(396, 2377), 21);
    assert_eq!(level_floor(8160, 32768), 40);
    assert_eq!(level_floor(8160, 32769), 42);
    assert_eq!(level_floor(40000, 40000), 52);
    let mut cfg = EncoderConfig::new(352, 288);
    cfg.level_idc = 51;
    assert_eq!(Sps::from_config(&cfg).level_idc, 51);
}

#[test]
fn exp_golomb_codes_read_back() {
    let mut w = BitWriter::new();
    for v in [0u32, 1, 2, 3, 7, 8, 255, 256, 65535] {
        w.write_ue(v);
    }
    for v in [0i32, 1, -1, 2, -2, 17, -300] {
        w.write_se(v);
    }
    w.write_bits(0b1011, 4);
    w.rbsp_trailing_bits();
    assert!(w.is_byte_aligned());
    let bytes = w.into_bytes();
    let mut r = BitReader::new(&bytes);
    for v in [0u32, 1, 2, 3, 7, 8, 255, 256, 65535] {
        assert_eq!(r.read_ue(), Some(v));
    }
    for v in [0i32, 1, -1, 2, -2, 17, -300] {
        assert_eq!(r.read_se(), Some(v));
    }
    assert_eq!(r.read_bits(4), Some(0b1011));
    assert_eq!(r.read_bit(), Some(true));
}

#[test]
fn vector_and_reference_lengths() {
    assert_eq!(mvd_bits(0), 1);
    assert_eq!(mvd_bits(1), 3);
    assert_eq!(mvd_bits(-1), 3);
    assert_eq!(mvd_bits(2), 5);
    assert_eq!(mvd_bits(-4), 7);
    assert_eq!(mvd_bits(0x4000_0000), 63);
    assert_eq!(mvd_bits(i32::MAX), 63);
    assert_eq!(mvd_bits(i32::MIN + 1), 63);
    // The code of this one wraps around to that of zero.
    assert_eq!(mvd_bits(i32::MIN), 1);
    assert_eq!(ref_bits(0, 1), 0);
    assert_eq!(ref_bits(1, 2), 1);
    assert_eq!(ref_bits(0, 3), 1);
    assert_eq!(ref_bits(1, 3), 3);
    assert_eq!(ref_bits(3, 4), 5);
}

#[test]
fn slice_headers_start_with_their_type() {
    let cfg = EncoderConfig::new(64, 48);
    let first = |f: &dyn Fn(&mut BitWriter)| {
        let mut w = BitWriter::new();
        f(&mut w);
        w.rbsp_trailing_bits();
        let b = w.into_bytes();
        let mut r = BitReader::new(&b);
        (r.read_ue().unwrap(), r.read_ue().unwrap(), r.read_ue().unwrap())
    };
    // first_mb_in_slice, slice_type, pic_parameter_set_id
    assert_eq!(first(&|w| write_idr_slice_header(w, &cfg, 26)), (0, 7, 0));
    assert_eq!(first(&|w| write_p_slice_header(w, &cfg, 28, 1, 2, 1)), (0, 5, 0));
    assert_eq!(first(&|w| write_b_slice_header(w, &cfg, 28, 1, 2, 1, 1)), (0, 6, 0));
}

#[test]
fn coded_bytes_start_on_a_whole_byte() {
    let mut w = BitWriter::new();
    w.write_bits(0b101, 3);
    append_coded(&mut w, &[0xa7, 0x00, 0xff]);
    assert_eq!(w.into_bytes(), vec![0b1011_1111, 0xa7, 0x00, 0xff]);
    // Behind whole bytes nothing is filled.
    let mut w = BitWriter::new();
    w.write_bits(0x42, 8);
    append_coded(&mut w, &[1]);
    assert_eq!(w.into_bytes(), vec![0x42, 1]);
}

#[test]
fn blocks_without_a_reference_are_alike() {
    assert_eq!(filter_refs(&[0, -1, 3, -2]), vec![0, NO_REF, 3, NO_REF]);
}
