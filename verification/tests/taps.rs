//! Telemetry, censuses, counters and switches.
use rusty_h264_encoder::bstats;
use rusty_h264_encoder::bstats::{BStats, Which};
use rusty_h264_encoder::census;
use rusty_h264_encoder::diastats;
use rusty_h264_encoder::knobs;
use rusty_h264_encoder::route::{route, Route, Signs};
use rusty_h264_encoder::satdpath;
use rusty_h264_encoder::search::DIA_DEFAULT;
use rusty_h264_encoder::spstats;
use rusty_h264_encoder::telemetry::{
    begin_slice, enable, new_tap, p_zero_q8, record, take, CabacBin,
};

#[test]
fn segments_and_records() {
    let mut t = new_tap();
    enable(&mut t, true);
    begin_slice(&mut t, 26, 0, true);
    record(&mut t, 105, 0, 0, 1);
    record(&mut t, 105, 0, 1, 0);
    begin_slice(&mut t, 28, 1, false);
    record(&mut t, 11, 5, 1, 1);
    let s = take(&mut t);
    enable(&mut t, false);
    assert_eq!(s.len(), 2);
    assert_eq!(s[0].bins.len(), 2);
    assert_eq!((s[0].qp, s[0].init_idc, s[0].is_i), (26, 0, true));
    assert_eq!(s[1].bins[0].ctx_idx, 11);
}

#[test]
fn disabled_records_nothing() {
    let mut t = new_tap();
    enable(&mut t, false);
    begin_slice(&mut t, 26, 0, true);
    record(&mut t, 1, 0, 0, 0);
    assert!(take(&mut t).is_empty());
}

#[test]
fn taking_drains_and_turning_off_drops() {
    let mut t = new_tap();
    enable(&mut t, true);
    record(&mut t, 1, 2, 1, 0); // no slice is open
    assert!(take(&mut t).is_empty());
    begin_slice(&mut t, 30, 2, false);
    record(&mut t, 7, 3, 1, 0);
    let s = take(&mut t);
    assert_eq!(s[0].bins, vec![CabacBin { ctx_idx: 7, state: 3, mps: 1, bin: 0 }]);
    assert!(take(&mut t).is_empty());
    begin_slice(&mut t, 30, 2, false);
    enable(&mut t, false);
    enable(&mut t, true);
    assert!(take(&mut t).is_empty());
}

#[test]
fn census_counts_by_gate_and_transform_size() {
    let mut c = census::new_census(true);
    census::bump(&mut c, census::SUB8_SPLIT, true);
    census::bump(&mut c, census::SUB8_SPLIT, false);
    census::bump(&mut c, census::INTRA_RD_FLIP, true);
    census::commit_mb(&mut c, true);
    census::bump(&mut c, census::SUB8_SPLIT, true);
    census::commit_mb(&mut c, false);
    census::commit_mb(&mut c, false);
    let all = census::snapshot(&c);
    assert_eq!(all[census::SUB8_SPLIT], (2, 3));
    assert_eq!(all[census::INTRA_RD_FLIP], (1, 1));
    assert_eq!(all[census::AQ_GRAIN], (0, 0));
    let by = census::snapshot_by_t8(&c);
    assert_eq!(by[0][census::SUB8_SPLIT], (1, 1));
    assert_eq!(by[1][census::SUB8_SPLIT], (1, 2));
    assert_eq!(by[1][census::INTRA_RD_FLIP], (1, 1));
    census::work(&mut c, census::W_MB_CODED);
    census::work(&mut c, census::W_MB_CODED);
    assert_eq!(census::work_snapshot(&c), [0, 0, 2, 0]);
    census::bump(&mut c, 0, true);
    census::reset(&mut c);
    census::commit_mb(&mut c, true);
    assert_eq!(census::snapshot(&c), [(0, 0); 9]);
    assert_eq!(census::snapshot_by_t8(&c), [[(0, 0); 9]; 2]);
    assert_eq!(census::work_snapshot(&c), [0; 4]);
}

#[test]
fn gates_of_frames_and_groups_count_for_no_transform_size() {
    let mut c = census::new_census(true);
    let wide = [
        census::AQ_GRAIN,
        census::MBTREE_GRAIN,
        census::MBTREE_BACKOFF,
        census::SUB8_GRAIN,
        census::MBTREE_SPREAD_LATCH,
    ];
    for g in wide {
        census::bump(&mut c, g, true);
    }
    census::bump(&mut c, census::SHAPE_RD_FLIP, false);
    census::commit_mb(&mut c, false);
    let by = census::snapshot_by_t8(&c);
    for g in wide {
        assert_eq!(by[0][g], (0, 0));
        assert_eq!(by[1][g], (0, 0));
        assert_eq!(census::snapshot(&c)[g], (1, 1));
    }
    assert_eq!(by[0][census::SHAPE_RD_FLIP], (0, 1));
}

#[test]
fn census_that_is_off_counts_nothing() {
    let mut c = census::new_census(false);
    census::bump(&mut c, 1, true);
    census::work(&mut c, 1);
    census::commit_mb(&mut c, true);
    assert_eq!(census::snapshot(&c), [(0, 0); 9]);
    assert_eq!(census::work_snapshot(&c), [0; 4]);
}

#[test]
fn refinement_counters() {
    let mut s = spstats::new();
    spstats::ev(&mut s, 0, 3, 1);
    spstats::ev(&mut s, 1, 9, 0);
    spstats::imp(&mut s, 1, 7, 40);
    spstats::redundant(&mut s);
    let (pos, it) = spstats::snapshot(&s);
    assert_eq!(pos.len(), 32);
    assert_eq!(it.len(), 24);
    assert_eq!(pos[6], 1); // half samples, position 3, trials
    assert_eq!(pos[30], 1); // quarter samples, position 7, trials
    assert_eq!(pos[31], 1); // and improvements
    assert_eq!(it[0], 1);
    assert_eq!(it[12], 1);
    assert_eq!(it[23], 1);
    assert_eq!(spstats::redundant_count(&s), 1);
    spstats::reset(&mut s);
    assert_eq!(spstats::snapshot(&s).0, vec![0; 32]);
    assert_eq!(spstats::redundant_count(&s), 0);
}

#[test]
fn walk_and_path_counters() {
    let mut d = diastats::new();
    diastats::ev(&mut d, 2);
    diastats::ev(&mut d, 2);
    diastats::imp(&mut d, 2);
    assert_eq!(diastats::snapshot(&d), vec![(0, 0), (0, 0), (2, 1), (0, 0), (0, 0), (0, 0)]);
    diastats::reset(&mut d);
    assert_eq!(diastats::snapshot(&d), vec![(0, 0); 6]);
    let mut p = satdpath::new();
    satdpath::bump(&mut p, 1);
    satdpath::bump(&mut p, 1);
    assert_eq!(satdpath::snapshot(&p), vec![0, 2, 0]);
    satdpath::reset(&mut p);
    assert_eq!(satdpath::snapshot(&p), vec![0, 0, 0]);
}

#[test]
fn b_counters_only_count_when_on() {
    let mut s = BStats { on: false, skip: 0, coded: 0, dirwin: 0, split: 0 };
    bstats::bump(&mut s, Which::Skip);
    assert_eq!(s.skip, 0);
    s.on = true;
    bstats::bump(&mut s, Which::Skip);
    bstats::bump(&mut s, Which::DirWin);
    bstats::bump(&mut s, Which::DirWin);
    bstats::bump(&mut s, Which::Coded);
    bstats::bump(&mut s, Which::Split);
    assert_eq!((s.skip, s.coded, s.dirwin, s.split), (1, 1, 2, 1));
}

#[test]
fn switches_fall_back_to_outer_settings_and_defaults() {
    let mut k = knobs::new_knobs();
    assert_eq!(k.mv_smooth_mode(None), 1);
    assert_eq!(k.mv_smooth_mode(Some(0)), 0);
    knobs::set_mv_smooth(&mut k, true);
    assert_eq!(k.mv_smooth_mode(Some(0)), 2);
    knobs::set_mv_smooth_mode(&mut k, 77);
    assert_eq!(k.mv_smooth_mode(None), 3);
    assert_eq!(k.me_sadfp_mode(None), 1);
    knobs::set_me_sadfp(&mut k, false);
    assert_eq!(k.me_sadfp_mode(Some(2)), 0);
    knobs::set_me_sadfp_mode(&mut k, 5);
    assert_eq!(k.me_sadfp_mode(None), 2);
    assert!(!k.sp_fc_enabled(None));
    assert!(k.sp_fc_enabled(Some(true)));
    knobs::set_sp_fc(&mut k, true);
    assert!(k.sp_fc_enabled(Some(false)));
    assert!(k.me_fc_enabled(None));
    knobs::set_me_fc(&mut k, false);
    assert!(!k.me_fc_enabled(None));
    assert_eq!(k.sp_maxit(None), 0);
    knobs::set_sp_maxit(&mut k, 4);
    assert_eq!(k.sp_maxit(Some(9)), 4);
    knobs::set_split_mg(&mut k, 30);
    assert_eq!(k.split_mg, 30);
}

#[test]
fn vector_costs_by_mode_and_frame() {
    let mut k = knobs::new_knobs();
    assert_eq!(k.mv_cost_kind(None, true), 1);
    assert_eq!(k.mv_cost_kind(None, false), 0);
    knobs::set_mv_smooth(&mut k, false);
    assert_eq!(k.mv_cost_kind(None, true), 0);
    knobs::set_mv_smooth_mode(&mut k, 2);
    assert_eq!(k.mv_cost_kind(None, false), 1);
    knobs::set_mv_smooth_mode(&mut k, 3);
    assert_eq!(k.mv_cost_kind(None, false), 2);
    assert_eq!(knobs::build_true_biased(&vec![5, 7, 65534], 4), vec![5, 11, 65535]);
}

#[test]
fn ladders_of_the_walk() {
    let mut k = knobs::new_knobs();
    assert_eq!(k.dia_mask(None), DIA_DEFAULT);
    assert_eq!(k.dia_mask(Some(&vec![64, 32, 16, 8, 4])), 31);
    assert_eq!(k.dia_mask(Some(&vec![4, 64])), 17);
    assert_eq!(k.dia_mask(Some(&vec![5])), DIA_DEFAULT);
    knobs::set_dia_mask(&mut k, 3);
    assert_eq!(k.dia_mask(Some(&vec![4])), 3);
    assert_eq!(knobs::dia_sub_mask(knobs::UNSET, None), 16);
    assert_eq!(knobs::dia_sub_mask(knobs::UNSET, Some(&vec![5])), 0);
    assert_eq!(knobs::dia_sub_mask(8, None), 8);
    let mut p = knobs::UNSET;
    assert_eq!(knobs::subpel_pattern_override(&mut p, None), None);
    assert_eq!(knobs::subpel_pattern(&mut p, None), 0);
    assert_eq!(knobs::subpel_pattern_override(&mut p, Some(3)), Some(0));
    assert_eq!(knobs::sp_dispatch_cfg(knobs::UNSET, true, None, None), (200, 67));
    assert_eq!(knobs::sp_dispatch_cfg(0, true, None, None), (0, 0));
    assert_eq!(knobs::sp_dispatch_cfg(knobs::UNSET, false, Some(1), None), (0, 0));
}

#[test]
fn frames_are_routed_by_their_signs() {
    let start = Route { me_wide: true, sadfp: false, mv_smooth: false, do_splits: true };
    let s = Signs { pan: false, cramped: true, moving: true, smooth: true, dividing: Some(false) };
    // Without a reference nothing changes.
    assert_eq!(route(start, false, false, 1, 1, s), start);
    assert_eq!(
        route(start, true, false, 1, 1, s),
        Route { me_wide: false, sadfp: true, mv_smooth: true, do_splits: false }
    );
    // A fast frame, or modes that do not ask the frame, keep the measures.
    assert_eq!(route(start, true, true, 1, 1, s), Route { me_wide: false, ..start });
    assert_eq!(route(start, true, false, 2, 1, s), Route { me_wide: false, ..start });
    assert_eq!(
        route(start, true, false, 1, 0, Signs { cramped: false, dividing: None, ..s }),
        Route { sadfp: true, ..start }
    );
}

/// The widths of the less probable symbol in three states of a context.
const STATE_0: [u8; 4] = [128, 176, 208, 240];
const STATE_30: [u8; 4] = [30, 37, 43, 50];
const STATE_62: [u8; 4] = [6, 7, 8, 9];

/// The coder's table in the three states that are asked for, and in the one that ends a slice.
fn table() -> Vec<[u8; 4]> {
    let mut t = vec![[0; 4]; 64];
    t[0] = STATE_0;
    t[30] = STATE_30;
    t[62] = STATE_62;
    t[63] = [2, 2, 2, 2];
    t
}

#[test]
fn p_zero_is_sane() {
    let t = table();
    // A fresh context is nearly even.
    let p = p_zero_q8(&t, 0, 0);
    assert!((120..=136).contains(&p), "state 0 is about a half, got {p}");
    // A deep state: 0 is the less probable symbol.
    let p = p_zero_q8(&t, 62, 1);
    assert!(p <= 8, "the less probable symbol should be rare, got {p}");
    // The other most probable symbol mirrors it.
    assert_eq!(p_zero_q8(&t, 30, 0) as u32 + p_zero_q8(&t, 30, 1) as u32, 256);
}

#[test]
fn states_behind_the_deepest_are_as_deep() {
    let t = table();
    for state in [63, 64, 200, 255] {
        for mps in [0, 1] {
            assert_eq!(p_zero_q8(&t, state, mps), p_zero_q8(&t, 62, mps));
        }
    }
    assert_ne!(p_zero_q8(&t, 62, 1), p_zero_q8(&[[2, 2, 2, 2]; 63], 62, 1));
}

#[test]
fn wider_symbols_are_less_sure() {
    let t = table();
    assert!(p_zero_q8(&t, 62, 0) > p_zero_q8(&t, 30, 0));
    assert!(p_zero_q8(&t, 30, 0) > p_zero_q8(&t, 0, 0));
    assert!(p_zero_q8(&t, 62, 1) < p_zero_q8(&t, 0, 1));
}

#[test]
fn shares_match_their_means() {
    for row in [STATE_0, STATE_30, STATE_62, [2, 2, 2, 2], [0, 0, 0, 0], [255, 255, 255, 255]] {
        let mid = [288.0, 352.0, 416.0, 480.0];
        let p = (0..4).map(|q| row[q] as f64 / mid[q]).sum::<f64>() / 4.0;
        for (mps, zero) in [(0u8, 1.0 - p), (1, p)] {
            let share = p_zero_q8(&vec![row; 63], 5, mps);
            assert_eq!(share, (zero * 256.0).round().clamp(1.0, 255.0) as u8);
        }
    }
}
