//! The bins of syntax elements.
use rusty_h264_encoder::binarize::{
    b_part_mb_type, cb_cbp, cb_chroma_pred_mode, cb_exp_bypass, cb_intra4x4_pred_mode,
    cb_mb_qp_delta, cb_mb_type_b, cb_mb_type_i, cb_mb_type_p_inter, cb_mb_type_p_intra, cb_mvd,
    cb_ref_idx, cb_sub_mb_type_p, cb_ueg_level, cb_unary,
};
use rusty_h264_encoder::cabac::{Bin, CabacEncoder};
use rusty_h264_encoder::mbinter::{p_partition_layout, p_sub_partition_layout};
use rusty_h264_encoder::motion::{predict_mv, predict_partition_mv, MvNeighbor};
use rusty_h264_encoder::residual::{cb_residual, CB_RP_CHROMA_DC, CB_RP_LUMA_4X4, CB_RP_LUMA_8X8};

fn d(ctx: usize, bin: u32) -> Bin {
    Bin::Decision { ctx, bin }
}

fn b(bin: u32) -> Bin {
    Bin::Bypass { bin }
}

fn bins(f: impl FnOnce(&mut CabacEncoder)) -> Vec<Bin> {
    let mut c = CabacEncoder::new();
    f(&mut c);
    c.bins
}

#[test]
fn unary_and_exponential_codes() {
    assert_eq!(bins(|c| cb_unary(c, 9, 2, 0)), vec![d(9, 0)]);
    assert_eq!(bins(|c| cb_unary(c, 9, 2, 3)), vec![d(9, 1), d(11, 1), d(11, 1), d(11, 0)]);
    assert_eq!(bins(|c| cb_exp_bypass(c, 0, 0)), vec![b(0)]);
    // Behind prefixes of 1 and 2, the rest of 5 is 2 in two bits.
    assert_eq!(bins(|c| cb_exp_bypass(c, 0, 5)), vec![b(1), b(1), b(0), b(1), b(0)]);
    assert_eq!(bins(|c| cb_exp_bypass(c, 3, 4)), vec![b(0), b(1), b(0), b(0)]);
}

#[test]
fn levels_escape_behind_thirteen_ones() {
    assert_eq!(bins(|c| cb_ueg_level(c, 240, 0)), vec![d(240, 0)]);
    assert_eq!(bins(|c| cb_ueg_level(c, 240, 2)), vec![d(240, 1), d(240, 1), d(240, 0)]);
    let mut twelve = vec![d(240, 1); 12];
    twelve.push(d(240, 0));
    assert_eq!(bins(|c| cb_ueg_level(c, 240, 12)), twelve);
    let mut long = vec![d(240, 1); 13];
    long.extend([b(1), b(0), b(1)]);
    assert_eq!(bins(|c| cb_ueg_level(c, 240, 15)), long);
}

#[test]
fn qp_deltas_remember_the_last_one() {
    let mut last = 0;
    assert_eq!(bins(|c| cb_mb_qp_delta(c, &mut last, 0)), vec![d(60, 0)]);
    assert_eq!(last, 0);
    // The code of 1 is 1, that of -1 is 2, that of 2 is 3.
    assert_eq!(bins(|c| cb_mb_qp_delta(c, &mut last, 1)), vec![d(60, 1), d(62, 0)]);
    assert_eq!(last, 1);
    assert_eq!(bins(|c| cb_mb_qp_delta(c, &mut last, -1)), vec![d(61, 1), d(62, 1), d(63, 0)]);
    assert_eq!(
        bins(|c| cb_mb_qp_delta(c, &mut last, 2)),
        vec![d(61, 1), d(62, 1), d(63, 1), d(63, 0)]
    );
    assert_eq!(last, 2);
}

#[test]
fn intra_modes() {
    assert_eq!(bins(|c| cb_chroma_pred_mode(c, 2, 0)), vec![d(66, 0)]);
    assert_eq!(bins(|c| cb_chroma_pred_mode(c, 0, 1)), vec![d(64, 1), d(67, 0)]);
    assert_eq!(bins(|c| cb_chroma_pred_mode(c, 1, 2)), vec![d(65, 1), d(67, 1), d(67, 0)]);
    assert_eq!(bins(|c| cb_chroma_pred_mode(c, 0, 3)), vec![d(64, 1), d(67, 1), d(67, 1)]);
    assert_eq!(bins(|c| cb_intra4x4_pred_mode(c, 4, 4)), vec![d(68, 1)]);
    assert_eq!(
        bins(|c| cb_intra4x4_pred_mode(c, 4, 3)),
        vec![d(68, 0), d(69, 1), d(69, 1), d(69, 0)]
    );
    assert_eq!(
        bins(|c| cb_intra4x4_pred_mode(c, 4, 5)),
        vec![d(68, 0), d(69, 0), d(69, 0), d(69, 1)]
    );
}

#[test]
fn macroblock_types_of_intra() {
    let go = Bin::Terminate { end: false };
    assert_eq!(bins(|c| cb_mb_type_i(c, 1, true, 0, 0, false)), vec![d(4, 0)]);
    assert_eq!(
        bins(|c| cb_mb_type_i(c, 0, false, 2, 1, true)),
        vec![d(3, 1), go, d(6, 1), d(7, 1), d(8, 0), d(9, 1), d(10, 0)]
    );
    assert_eq!(
        bins(|c| cb_mb_type_i(c, 2, false, 1, 0, false)),
        vec![d(5, 1), go, d(6, 0), d(7, 0), d(9, 0), d(10, 1)]
    );
    assert_eq!(bins(|c| cb_mb_type_p_intra(c, true, 0, 0, false)), vec![d(14, 1), d(17, 0)]);
    assert_eq!(
        bins(|c| cb_mb_type_p_intra(c, false, 3, 2, false)),
        vec![d(14, 1), d(17, 1), go, d(18, 0), d(19, 1), d(19, 1), d(20, 1), d(20, 1)]
    );
}

#[test]
fn macroblock_types_of_inter() {
    assert_eq!(bins(|c| cb_mb_type_p_inter(c, 0)), vec![d(14, 0), d(15, 0), d(16, 0)]);
    assert_eq!(bins(|c| cb_mb_type_p_inter(c, 1)), vec![d(14, 0), d(15, 1), d(17, 1)]);
    assert_eq!(bins(|c| cb_mb_type_p_inter(c, 2)), vec![d(14, 0), d(15, 1), d(17, 0)]);
    assert_eq!(bins(|c| cb_mb_type_p_inter(c, 3)), vec![d(14, 0), d(15, 0), d(16, 1)]);
    assert_eq!(bins(|c| cb_sub_mb_type_p(c, 0)), vec![d(21, 1)]);
    assert_eq!(bins(|c| cb_sub_mb_type_p(c, 1)), vec![d(21, 0), d(22, 0)]);
    assert_eq!(bins(|c| cb_sub_mb_type_p(c, 2)), vec![d(21, 0), d(22, 1), d(23, 1)]);
    assert_eq!(bins(|c| cb_sub_mb_type_p(c, 3)), vec![d(21, 0), d(22, 1), d(23, 0)]);
}

#[test]
fn macroblock_types_of_b() {
    assert_eq!(bins(|c| cb_mb_type_b(c, 1, 0)), vec![d(28, 0)]);
    assert_eq!(bins(|c| cb_mb_type_b(c, 0, 2)), vec![d(27, 1), d(30, 0), d(32, 1)]);
    assert_eq!(
        bins(|c| cb_mb_type_b(c, 2, 3)),
        vec![d(29, 1), d(30, 1), d(31, 0), d(32, 0), d(32, 0), d(32, 0)]
    );
    // 13 is 1000 and 1; 11 is 1110; 22 is 1111.
    assert_eq!(
        bins(|c| cb_mb_type_b(c, 0, 13)),
        vec![d(27, 1), d(30, 1), d(31, 1), d(32, 0), d(32, 0), d(32, 0), d(32, 1)]
    );
    assert_eq!(
        bins(|c| cb_mb_type_b(c, 0, 11)),
        vec![d(27, 1), d(30, 1), d(31, 1), d(32, 1), d(32, 1), d(32, 0)]
    );
    let mut seen: Vec<u32> = vec![];
    for p0 in 1..=3u8 {
        for p1 in 1..=3u8 {
            for m in 1..=2u8 {
                let t = b_part_mb_type(p0, p1, m);
                assert!((4..=21).contains(&t) && !seen.contains(&t));
                seen.push(t);
            }
        }
    }
    assert_eq!(b_part_mb_type(1, 2, 1), 8);
    assert_eq!(b_part_mb_type(3, 2, 2), 19);
}

#[test]
fn coded_block_patterns() {
    // Without neighbours, every quarter coded, and chroma with its AC.
    assert_eq!(
        bins(|c| cb_cbp(c, None, None, 0x2f)),
        vec![d(73, 1), d(73, 1), d(73, 1), d(73, 1), d(77, 1), d(81, 1)]
    );
    // Empty neighbours raise the contexts; so do empty quarters of the same macroblock.
    assert_eq!(
        bins(|c| cb_cbp(c, Some(0), Some(0x20), 0)),
        vec![d(76, 0), d(76, 0), d(76, 0), d(76, 0), d(78, 0)]
    );
    assert_eq!(
        bins(|c| cb_cbp(c, Some(0x2f), Some(0x1f), 0x11)),
        vec![d(73, 1), d(73, 0), d(73, 0), d(76, 0), d(80, 1), d(83, 0)]
    );
}

#[test]
fn vector_differences_and_references() {
    assert_eq!(bins(|c| cb_mvd(c, 0, 1, 0)), vec![d(41, 0)]);
    assert_eq!(bins(|c| cb_mvd(c, 1, 2, 1)), vec![d(49, 1), d(50, 0), b(0)]);
    assert_eq!(
        bins(|c| cb_mvd(c, 0, 0, -4)),
        vec![d(40, 1), d(43, 1), d(44, 1), d(45, 1), d(46, 0), b(1)]
    );
    // 12 is escaped: nine ones, then 3 in three bits.
    assert_eq!(
        bins(|c| cb_mvd(c, 0, 0, 12)),
        vec![
            d(40, 1), d(43, 1), d(44, 1), d(45, 1), d(46, 1), d(46, 1), d(46, 1), d(46, 1),
            d(46, 1), b(0), b(0), b(1), b(1), b(0),
        ]
    );
    assert_eq!(bins(|c| cb_ref_idx(c, 3, 0)), vec![d(57, 0)]);
    assert_eq!(bins(|c| cb_ref_idx(c, 1, 3)), vec![d(55, 1), d(58, 1), d(59, 1), d(59, 0)]);
}

#[test]
fn residual_of_a_small_block() {
    let mut nzc = [0xffu8; 48];
    let (mut dc, mut n) = (0u16, 0);
    let mut co = [0i32; 16];
    (co[0], co[2]) = (3, -1);
    let got = bins(|c| {
        n = cb_residual(c, &mut nzc, &mut dc, 0, CB_RP_LUMA_4X4, true, (None, None), &co);
    });
    assert_eq!(
        got,
        vec![
            d(96, 1),
            d(134, 1), d(195, 0), d(135, 0), d(136, 1), d(197, 1),
            d(248, 0), b(1),
            d(249, 1), d(252, 1), d(252, 0), b(0),
        ]
    );
    assert_eq!((n, dc, nzc[9]), (2, 0, 2));
    // The next block of the row sees the count; an empty block is one bin.
    let none = [0i32; 16];
    let got = bins(|c| {
        n = cb_residual(c, &mut nzc, &mut dc, 1, CB_RP_LUMA_4X4, false, (None, None), &none);
    });
    assert_eq!(got, vec![d(94, 0)]);
    assert_eq!((n, nzc[10]), (0, 0));
}

#[test]
fn residual_of_chroma_dc_marks_the_mask() {
    let mut nzc = [0u8; 48];
    let mut dc = 0u16;
    let got = bins(|c| {
        let co = [0, 0, 0, 1];
        assert_eq!(
            cb_residual(c, &mut nzc, &mut dc, 16, CB_RP_CHROMA_DC, false, (Some(1 << 7), None), &co),
            1
        );
    });
    // The last place has neither flag.
    assert_eq!(got, vec![d(99, 1), d(149, 0), d(150, 0), d(151, 0), d(258, 0), b(0)]);
    assert_eq!(dc, 1 << 7);
    assert_eq!(nzc, [0u8; 48]);
}

#[test]
fn residual_of_a_large_block_counts_for_its_quarters() {
    let mut nzc = [0u8; 48];
    let mut dc = 0u16;
    let mut co = [0i32; 64];
    co[0] = 1;
    let got = bins(|c| {
        cb_residual(c, &mut nzc, &mut dc, 4, CB_RP_LUMA_8X8, false, (None, None), &co);
    });
    assert_eq!(got, vec![d(402, 1), d(417, 1), d(427, 0), b(0)]);
    for k in [11usize, 12, 19, 20] {
        assert_eq!(nzc[k], 1);
    }
}

#[test]
fn large_blocks_at_the_end_fill_the_last_cells() {
    let mut co = [0i32; 64];
    (co[0], co[63]) = (1, -2);
    for (iz, cells) in [(21usize, vec![39, 46, 47]), (22, vec![46, 47]), (23, vec![47])] {
        let mut nzc = [0u8; 48];
        let (mut dc, mut n) = (0u16, 0);
        let got = bins(|c| {
            n = cb_residual(c, &mut nzc, &mut dc, iz, CB_RP_LUMA_8X8, false, (None, None), &co);
        });
        // The bins do not depend on where the block stands.
        let mut first = [0u8; 48];
        let at_first = bins(|c| {
            cb_residual(c, &mut first, &mut dc, 0, CB_RP_LUMA_8X8, false, (None, None), &co);
        });
        assert_eq!((n, dc, got), (2, 0, at_first));
        for (i, &v) in nzc.iter().enumerate() {
            assert_eq!(v, if cells.contains(&i) { 2 } else { 0 });
        }
    }
}

fn near(x: i32, y: i32, r: i32) -> MvNeighbor {
    MvNeighbor { available: true, mv: (x, y), ref_idx: r }
}

#[test]
fn vectors_are_predicted_by_the_median() {
    let no = MvNeighbor::missing();
    assert_eq!(predict_mv(near(1, 9, 0), near(5, 2, 0), near(3, 4, 0), 0), (3, 4));
    // One neighbour with the reference decides alone; so does the left one where it is alone.
    assert_eq!(predict_mv(near(1, 9, 1), near(5, 2, 0), near(3, 4, 1), 0), (5, 2));
    assert_eq!(predict_mv(near(7, 8, 2), no, no, 0), (7, 8));
    assert_eq!(predict_mv(no, no, no, 0), (0, 0));
    // The upper row takes the vector above, the lower one the vector at its left.
    let (a, b, c) = (near(1, 1, 0), near(2, 2, 0), near(3, 3, 0));
    assert_eq!(predict_partition_mv(1, 0, a, b, c, 0), (2, 2));
    assert_eq!(predict_partition_mv(1, 1, a, b, c, 0), (1, 1));
    assert_eq!(predict_partition_mv(2, 0, a, b, c, 0), (1, 1));
    assert_eq!(predict_partition_mv(2, 1, a, b, c, 0), (3, 3));
}

#[test]
fn layouts_cover_every_block_once() {
    for mode in 0..=3u8 {
        let mut all: Vec<usize> = vec![];
        for p in p_partition_layout(mode) {
            all.extend(p.blocks);
        }
        all.sort();
        assert_eq!(all, (0..16).collect::<Vec<usize>>());
    }
    for sub in 0..=3u8 {
        let mut all: Vec<usize> = vec![];
        for p8 in 0..4usize {
            for p in p_sub_partition_layout(p8, sub) {
                all.extend(p.blocks);
            }
        }
        all.sort();
        assert_eq!(all, (0..16).collect::<Vec<usize>>());
    }
}
