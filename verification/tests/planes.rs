//! Source planes, blends, weights and blocks of samples.
use rusty_h264_encoder::config::EncoderConfig;
use rusty_h264_encoder::lookcost::{coded_luma, downsample2x};
use rusty_h264_encoder::pixels::{
    at_spot, bi_blend, block_variance, clamp_plane, implicit_bi_weights, pred_block,
    sad_avg_strided, sad_strided, satd_px, ssd_px,
};
use rusty_h264_encoder::rect::{fill_rect, get_rect, put_rect};
use rusty_h264_encoder::scan::{scan_4x4_ac, scan_4x4_dcac, scan_4x4_dcac_i16, scan_8x8_fwd};
use rusty_h264_encoder::setup::{apply_mbtree_qpo, chroma_qp, coded_source, YuvFrame};

fn clamp_plane_per_pixel(plane: &[u8], w: usize, h: usize, ow: usize, oh: usize) -> Vec<u8> {
    let mut out = vec![0u8; ow * oh];
    for y in 0..oh {
        for x in 0..ow {
            out[y * ow + x] = plane[y.min(h - 1) * w + x.min(w - 1)];
        }
    }
    out
}

#[test]
fn clamp_plane_matches_per_pixel_oracle() {
    let mut s: u32 = 0xDEAD_BEEF;
    let mut rnd = || {
        s = s.wrapping_mul(1_664_525).wrapping_add(1_013_904_223);
        (s >> 24) as u8
    };
    let cases = [
        (1920usize, 1080usize, 1920usize, 1088usize),
        (960, 540, 960, 544),
        (352, 288, 352, 288),
        (100, 100, 112, 112),
        (37, 5, 48, 16),
        (16, 1, 16, 16),
        (1, 1, 16, 16),
    ];
    for (w, h, ow, oh) in cases {
        let plane: Vec<u8> = (0..w * h).map(|_| rnd()).collect();
        assert_eq!(
            clamp_plane(&plane, w, h, ow, oh),
            clamp_plane_per_pixel(&plane, w, h, ow, oh),
            "clamp mismatch for {w}x{h} -> {ow}x{oh}"
        );
    }
}

fn synth_frame(w: usize, h: usize) -> YuvFrame {
    let mut y = vec![0u8; w * h];
    for j in 0..h {
        for i in 0..w {
            let mut v = ((i / 4 + j / 4) % 2) as i32 * 60 + (i as i32 * 3 + j as i32 * 2) % 90 + 40;
            if (16..24).contains(&j) {
                v = 30 + ((i * 13) % 200) as i32;
            }
            if (4..20).contains(&i) && (28..44).contains(&j) {
                v = 200 - ((i * 7 + j * 11) % 120) as i32;
            }
            y[j * w + i] = v.clamp(0, 255) as u8;
        }
    }
    let c = ((w + 1) / 2) * ((h + 1) / 2);
    YuvFrame { width: w, height: h, y, u: vec![128; c], v: vec![128; c] }
}

#[test]
fn coded_luma_matches_per_pixel() {
    for (w, h) in [(64usize, 48usize), (20, 13), (33, 17), (16, 16)] {
        let cfg = EncoderConfig::new(w, h);
        let frame = synth_frame(w, h);
        let (cw, ch) = (cfg.mb_width() * 16, cfg.mb_height() * 16);
        let mut want = vec![0u8; cw * ch];
        for j in 0..ch {
            for i in 0..cw {
                want[j * cw + i] = frame.y[j.min(h - 1) * w + i.min(w - 1)];
            }
        }
        assert_eq!(coded_luma(&cfg, &frame), want, "{w}x{h}");
    }
}

#[test]
fn coded_source_extends_all_planes() {
    let cfg = EncoderConfig::new(20, 13);
    let mut f = synth_frame(20, 13);
    for i in 0..f.u.len() {
        f.u[i] = i as u8;
        f.v[i] = 255 - i as u8;
    }
    let (y, u, v) = coded_source(&cfg, &f);
    assert_eq!(y, clamp_plane_per_pixel(&f.y, 20, 13, 32, 16));
    assert_eq!(u, clamp_plane_per_pixel(&f.u, 10, 7, 16, 8));
    assert_eq!(v, clamp_plane_per_pixel(&f.v, 10, 7, 16, 8));
}

#[test]
fn halving_rounds_the_mean() {
    let y = vec![1u8, 2, 10, 10, 3, 4, 10, 11];
    let (h, w, hh) = downsample2x(&y, 4, 2);
    assert_eq!((w, hh), (2, 1));
    assert_eq!(h, vec![3, 10]); // (1+2+3+4+2)/4, (10+10+10+11+2)/4
}

#[test]
fn extension_of_a_full_plane_changes_nothing() {
    let p: Vec<u8> = (0..64).collect();
    assert_eq!(clamp_plane(&p, 8, 8, 8, 8), p);
}

#[test]
fn differences_of_blocks() {
    let a = vec![10u8; 256];
    let mut b = vec![10u8; 256];
    b[0] = 14;
    b[17] = 7;
    let at = at_spot(16, 0, 0);
    assert_eq!(sad_strided(&a, at, &b, at, 16, 16), 7);
    assert_eq!(ssd_px(&a, at, &b, at, 16, 16), 16 + 9);
    // One sample that differs by 4 reaches all sixteen coefficients.
    let mut c = vec![10u8; 256];
    c[0] = 14;
    assert_eq!(satd_px(&a, at, &c, at, 4, 4), 64);
    assert_eq!(satd_px(&a, at, &a, at, 16, 16), 0);
}

#[test]
fn satd_of_any_blocks_is_even() {
    let a: Vec<u8> = (0..256).map(|i| ((i * 37) % 251) as u8).collect();
    let b: Vec<u8> = (0..256).map(|i| ((i * 91 + 5) % 241) as u8).collect();
    let at = at_spot(16, 0, 0);
    assert_eq!(satd_px(&a, at, &b, at, 16, 16) % 2, 0);
}

#[test]
fn variance_of_blocks() {
    let flat = vec![77u8; 256];
    let at = at_spot(16, 0, 0);
    assert_eq!(block_variance(&flat, at, 16, 16), 0);
    let half: Vec<u8> = (0..256).map(|i| if i % 2 == 0 { 0 } else { 10 }).collect();
    assert_eq!(block_variance(&half, at, 16, 16), 25);
}

#[test]
fn even_blend_is_the_rounded_mean() {
    for (p, q) in [(0u8, 255u8), (3, 4), (200, 201), (255, 255)] {
        assert_eq!(bi_blend(p, q, (32, 32)), ((p as u32 + q as u32 + 1) / 2) as u8);
    }
    assert_eq!(bi_blend(100, 200, (64, 0)), 100);
    assert_eq!(bi_blend(100, 200, (0, 64)), 200);
}

#[test]
fn weights_follow_the_distances_and_add_up() {
    assert_eq!(implicit_bi_weights(2, 0, 4), (32, 32));
    assert_eq!(implicit_bi_weights(2, 0, 8), (48, 16));
    assert_eq!(implicit_bi_weights(6, 0, 8), (16, 48));
    assert_eq!(implicit_bi_weights(3, 5, 5), (32, 32));
    for (c, a, b) in [(1, 0, 3), (2, 0, 3), (5, 2, 9)] {
        let (w0, w1) = implicit_bi_weights(c, a, b);
        assert_eq!(w0 + w1, 64);
    }
}

#[test]
fn chroma_qps() {
    for q in 0..30u8 {
        assert_eq!(chroma_qp(q), q);
    }
    assert_eq!(chroma_qp(30), 29);
    assert_eq!(chroma_qp(39), 35);
    assert_eq!(chroma_qp(51), 39);
}

#[test]
fn offsets_move_qps_within_their_range() {
    let mut q = vec![26u8, 1, 50, 30];
    apply_mbtree_qpo(&mut q, &[-6, -6, 6, 2]);
    assert_eq!(q, vec![20, 0, 51, 32]);
    let mut q = vec![26u8, 27];
    apply_mbtree_qpo(&mut q, &[]);
    assert_eq!(q, vec![26, 27]);
}

#[test]
fn any_offset_that_can_be_added_is_taken() {
    let mut q = vec![26u8, 51, 0];
    apply_mbtree_qpo(&mut q, &[i32::MAX - 26, i32::MIN, i32::MAX]);
    assert_eq!(q, vec![51, 0, 51]);
    // Offsets for another number of macroblocks are not looked at.
    let mut q = vec![26u8, 27];
    apply_mbtree_qpo(&mut q, &[i32::MAX, i32::MAX, i32::MAX]);
    assert_eq!(q, vec![26, 27]);
}

#[test]
fn what_is_behind_a_plane_is_not_looked_at() {
    let mut plane: Vec<u8> = (0..40 * 20).map(|i| (i % 253) as u8).collect();
    let want = clamp_plane(&plane, 40, 20, 48, 32);
    plane.extend([9, 8, 7]);
    assert_eq!(clamp_plane(&plane, 40, 20, 48, 32), want);
}

#[test]
fn rectangles_are_put_and_taken_back() {
    let mut g: Vec<u8> = (0..48).collect();
    let orig = g.clone();
    let taken = get_rect(&g, 8, 6, 2, 1, 4, 3);
    assert_eq!(taken, vec![10, 11, 12, 13, 18, 19, 20, 21, 26, 27, 28, 29]);
    fill_rect(&mut g, 8, 6, 2, 1, 4, 3, 99);
    assert_eq!(g[10], 99);
    assert_eq!(g[29], 99);
    assert_eq!(g[14], 14);
    put_rect(&mut g, 8, 6, 2, 1, 4, 3, &taken);
    assert_eq!(g, orig);
}

#[test]
fn scans_are_zigzag() {
    let mut b = [0i32; 16];
    for i in 0..16 {
        b[i] = i as i32;
    }
    assert_eq!(scan_4x4_dcac(&b), [0, 1, 4, 8, 5, 2, 3, 6, 9, 12, 13, 10, 7, 11, 14, 15]);
    assert_eq!(scan_4x4_ac(&b), [1, 4, 8, 5, 2, 3, 6, 9, 12, 13, 10, 7, 11, 14, 15]);
    let mut e = [0i32; 64];
    for i in 0..64 {
        e[i] = i as i32;
    }
    let s = scan_8x8_fwd(&e);
    assert_eq!(&s[..10], &[0, 1, 8, 16, 9, 2, 3, 10, 17, 24]);
    let mut sorted = s.to_vec();
    sorted.sort();
    assert_eq!(sorted, e.to_vec());
}

#[test]
fn blocks_of_a_prediction() {
    let mut p = [0u8; 256];
    for (i, v) in p.iter_mut().enumerate() {
        *v = i as u8;
    }
    let b = pred_block(&p, 2, 1);
    assert_eq!(b[0], 4 * 16 + 8);
    assert_eq!(b[7], 5 * 16 + 11);
    assert_eq!(b[15], 7 * 16 + 11);
}

#[test]
fn difference_from_a_mean_rounds_up() {
    let (s, a, b) = (vec![10u8; 64], vec![10u8; 64], vec![13u8; 64]);
    let at = at_spot(8, 0, 0);
    // The mean of 10 and 13 is 12.
    assert_eq!(sad_avg_strided(&s, at, &a, at, &b, at, 8, 4), 64);
}

#[test]
fn short_coefficients_are_scanned_alike() {
    let mut w = [0i32; 16];
    let mut n = [0i16; 20];
    for i in 0..16 {
        w[i] = 3 * i as i32 - 20;
        n[i] = w[i] as i16;
    }
    assert_eq!(scan_4x4_dcac_i16(&n), scan_4x4_dcac(&w));
}
