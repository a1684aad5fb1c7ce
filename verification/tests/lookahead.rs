//! The lookahead, the macroblock tree and the signals of a frame.
use rusty_h264_encoder::cavlc::Syntax;
use rusty_h264_encoder::config::EncoderConfig;
use rusty_h264_encoder::gop::{
    gop_qp_offsets, gop_qp_offsets_refs, pair_prep, pair_sums, Gop, Weigher,
};
use rusty_h264_encoder::kernels::{Around, Gain, Kernels, McJob, Price, Rd};
use rusty_h264_encoder::lookcost::{coded_luma, intra_cost, Look, LookaheadMode, MbCost};
use rusty_h264_encoder::mbtree::{overlaps, FramePair};
use rusty_h264_encoder::plan::I16Mode;
use rusty_h264_encoder::rank::nth;
use rusty_h264_encoder::setup::YuvFrame;
use rusty_h264_encoder::signals::FrameSignals;

/// Motion compensation in whole samples from a plane, whose edges are repeated.
#[derive(Clone)]
struct Plane {
    y: Vec<u8>,
    w: usize,
    h: usize,
}

impl Kernels for Plane {
    fn mc(&self, job: McJob) -> [u8; 256] {
        let mut out = [0u8; 256];
        for y in 0..job.h {
            for x in 0..job.w {
                let rx = (job.x as i32 + x as i32 + (job.mv.0 >> 2)).clamp(0, self.w as i32 - 1);
                let ry = (job.y as i32 + y as i32 + (job.mv.1 >> 2)).clamp(0, self.h as i32 - 1);
                out[y * job.w + x] = self.y[ry as usize * self.w + rx as usize];
            }
        }
        out
    }

    fn price(&self, _p: Price) -> i64 {
        0
    }

    fn served(&self, _mv: (i32, i32)) -> bool {
        false
    }

    fn fdct4(&self, res: &[i32; 16]) -> [i32; 16] {
        *res
    }

    fn quant4(&self, c: &[i32; 16], _qp: u8, _dz: u8) -> [i32; 16] {
        *c
    }

    fn lower(&self, _qp: u8, _pos: usize, _coeff: i32, _level: u32) -> bool {
        false
    }

    fn trim(&self, _qp: u8, _pos: usize, _coeff: i32, _level: u32, _bits: i64) -> bool {
        false
    }

    fn deq4(&self, q: &[i32; 16], _qp: u8) -> [i32; 16] {
        *q
    }

    fn add4(&self, _c: &[i32; 16], _pred: &[i32; 16]) -> [u8; 16] {
        [0; 16]
    }

    fn cdc(&self, dc: &[i32; 4], _qpc: u8, _intra: bool) -> [i32; 4] {
        *dc
    }

    fn cdc_inv(&self, l: &[i32; 4], _qpc: u8) -> [i32; 4] {
        *l
    }

    fn ldc(&self, dc: &[i32; 16], _qp: u8) -> [i32; 16] {
        *dc
    }

    fn ldc_inv(&self, l: &[i32; 16], _qp: u8) -> [i32; 16] {
        *l
    }

    fn quant8(&self, res: &[i32; 64], _qp: u8, _dz: u8) -> [i32; 64] {
        *res
    }

    fn add8(&self, _q: &[i32; 64], _qp: u8, _pred: &[i32; 64]) -> [u8; 64] {
        [0; 64]
    }

    fn intra16(&self, _m: I16Mode, _has: Around, _t: &[u8; 16], _l: &[u8; 16], _c: u8) -> [u8; 256] {
        [0; 256]
    }

    fn intra4(&self, _m: u8, _has: Around, _t: &[u8; 8], _l: &[u8; 4], _c: u8) -> [u8; 16] {
        [0; 16]
    }

    fn intra8(&self, _m: u8, _has: Around, _t: &[u8; 16], _l: &[u8; 8], _c: u8) -> [u8; 64] {
        [0; 64]
    }

    fn intrac(&self, _m: u8, _has: Around, _t: &[u8; 8], _l: &[u8; 8], _c: u8) -> [u8; 64] {
        [0; 64]
    }

    fn rd_less(&self, _qp: u8, _a: Rd, _b: Rd) -> bool {
        false
    }

    fn rd_at_most(&self, _qp: u8, _a: Rd, _b: Rd) -> bool {
        false
    }

    fn bits(&self, _w: &Syntax) -> usize {
        0
    }

    fn chroma_share(&self, ssd: i64) -> i64 {
        ssd
    }

    fn split_floor(&self, _loud: bool) -> i64 {
        0
    }

    fn pays(&self, _gains: &Vec<Gain>, _seen: usize) -> bool {
        false
    }
}

const W: usize = 64;
const H: usize = 48;

/// A texture that stands `dx` samples further to the right.
fn texture(dx: usize) -> Vec<u8> {
    let mut y = vec![0u8; W * H];
    for j in 0..H {
        for i in 0..W {
            let u = i + 64 - dx;
            y[j * W + i] = ((u * u / 3 + j * 7 + (u * j) % 23) % 200 + 20) as u8;
        }
    }
    y
}

fn yuv(y: Vec<u8>) -> YuvFrame {
    let c = (W / 2) * (H / 2);
    YuvFrame { width: W, height: H, y, u: vec![128; c], v: vec![128; c] }
}

#[test]
fn cost_without_prediction_leaves_out_the_mean() {
    let flat = vec![90u8; 256];
    assert_eq!(intra_cost(&flat, 16, 0, 0, 16), 1);
    let mut one = vec![90u8; 256];
    one[0] = 94;
    // The other fifteen coefficients of the block are four each.
    assert_eq!(intra_cost(&one, 16, 0, 0, 16), 60);
    assert_eq!(intra_cost(&one, 16, 8, 8, 8), 1);
}

/// A smooth hollow that stands `dx` samples further to the right.
fn hollow(dx: usize) -> Vec<u8> {
    let mut y = vec![0u8; W * H];
    for j in 0..H {
        for i in 0..W {
            let (u, v) = (i as i32 - dx as i32 - 20, j as i32 - 30);
            y[j * W + i] = (30 + u * u / 12 + v * v / 16) as u8;
        }
    }
    y
}

#[test]
fn search_finds_a_shift() {
    let (cur, prev) = (hollow(4), hollow(0));
    let k = Plane { y: prev.clone(), w: W, h: H };
    let l = Look { k: &k, sy: &cur, cw: W, ch: H, ref_y: &prev, bx0: 32, by0: 16, bs: 16 };
    let (c, mv) = l.inter_cost((0, 0), 8);
    assert_eq!((c, mv), (0, (-16, 0)));
    assert_eq!(l.inter_cost((-16, 0), 2), (0, (-16, 0)));
    // The cost is that of the vector, and not higher than without motion.
    let (c, mv) = l.inter_cost((400, 400), 1);
    assert_eq!(c as i64, l.mc_satd(mv));
    assert!(c as i64 <= l.mc_satd((0, 0)));
    assert!(c as i64 <= l.mc_satd((400, 400)));
    let s = Look { k: &k, sy: &prev, cw: W, ch: H, ref_y: &prev, bx0: 0, by0: 0, bs: 16 };
    assert_eq!(s.inter_cost((40, 8), 8), (0, (0, 0)));
}

#[test]
fn no_step_of_one_sample_is_better() {
    let (cur, prev) = (texture(4), texture(0));
    let k = Plane { y: prev.clone(), w: W, h: H };
    for (bx0, by0, step) in [(16, 16, 8), (32, 0, 1), (0, 32, 3), (48, 16, 5000)] {
        let l = Look { k: &k, sy: &cur, cw: W, ch: H, ref_y: &prev, bx0, by0, bs: 16 };
        let (c, mv) = l.inter_cost((12, -8), step);
        for d in [(4, 0), (-4, 0), (0, 4), (0, -4)] {
            assert!(c as i64 <= l.mc_satd((mv.0 + d.0, mv.1 + d.1)));
        }
    }
    // A search goes on from vectors of any size, and wraps around behind the last.
    let l = Look { k: &k, sy: &cur, cw: W, ch: H, ref_y: &prev, bx0: 32, by0: 16, bs: 16 };
    for seed in [(0x4000_0000, 0), (i32::MAX, i32::MIN), (i32::MIN, 5)] {
        let (c, mv) = l.inter_cost(seed, i32::MAX);
        assert_eq!(c as i64, l.mc_satd(mv));
        assert!(c as i64 <= l.mc_satd(seed));
    }
    // Without a step the better one of the two starts is kept.
    let l = Look { k: &k, sy: &cur, cw: W, ch: H, ref_y: &prev, bx0: 32, by0: 16, bs: 16 };
    for step in [0, -1, i32::MIN] {
        let (c, mv) = l.inter_cost((8, 8), step);
        assert_eq!(c as i64, l.mc_satd((0, 0)).min(l.mc_satd((8, 8))));
        assert!(mv == (0, 0) || mv == (8, 8));
    }
}

#[test]
fn shares_make_up_the_square() {
    let at = |mv: (i32, i32)| -> Vec<(usize, u32)> {
        overlaps(4, 3, 1, 1, mv).iter().map(|o| (o.cell, o.area)).collect()
    };
    assert_eq!(at((0, 0)), vec![(5, 256)]);
    assert_eq!(at((16, 0)), vec![(5, 192), (6, 64)]);
    assert_eq!(at((-16, 32)), vec![(4, 32), (5, 96), (8, 32), (9, 96)]);
    assert_eq!(at((-4000, -4000)), vec![(0, 256)]);
    assert_eq!(at((4000, 4000)), vec![(11, 256)]);
    // Quarters of a sample are rounded down.
    assert_eq!(at((-1, 0)), vec![(4, 16), (5, 240)]);
    for mv in [(3, 5), (-77, 13), (31, -2), (1000, -9)] {
        assert_eq!(at(mv).iter().map(|o| o.1).sum::<u32>(), 256);
    }
}

#[test]
fn costs_of_a_frame_in_all_modes() {
    let (cur, prev) = (texture(4), texture(0));
    let half = |y: &Vec<u8>| rusty_h264_encoder::lookcost::downsample2x(y, W, H).0;
    let (ch, ph) = (half(&cur), half(&prev));
    let kf = Plane { y: prev.clone(), w: W, h: H };
    let kh = Plane { y: ph.clone(), w: W / 2, h: H / 2 };
    for mode in [LookaheadMode::FullRes, LookaheadMode::HalfRes, LookaheadMode::Hybrid] {
        let p = FramePair {
            kf: &kf,
            kh: &kh,
            mb_w: 4,
            mb_h: 3,
            full: &cur,
            half: &ch,
            ref_full: Some(&prev),
            ref_half: Some(&ph),
            mode,
        };
        let c = p.frame_costs();
        assert_eq!(c.len(), 12);
        assert!(c.iter().all(|m| 1 <= m.intra && 0 <= m.inter && m.inter <= m.intra));
        assert_eq!(c[6].mv, (-16, 0), "{mode:?}");
        assert_eq!(c[6].inter, 0, "{mode:?}");
        let first = FramePair { ref_full: None, ref_half: None, ..p };
        let c = first.frame_costs();
        assert!(c.iter().all(|m| m.inter == m.intra && m.mv == (0, 0)));
    }
}

struct Fixed {
    grain: bool,
    backs_off: bool,
    level: bool,
}

impl Weigher for Fixed {
    fn grain(&self, cur: &Vec<u8>, prev: &Vec<u8>) -> bool {
        self.grain && cur.len() == prev.len()
    }

    fn backs_off(&self, _costs: &Vec<MbCost>) -> bool {
        self.backs_off
    }

    fn level(&self, _costs: &Vec<MbCost>) -> bool {
        self.level
    }

    fn offset(&self, _costs: &Vec<MbCost>, i: usize) -> i32 {
        i as i32 - 10
    }
}

fn offsets(w: &Fixed, active: bool, grain_veto: bool, n: usize) -> Vec<Vec<i32>> {
    let cfg = EncoderConfig::new(W, H);
    let frames: Vec<YuvFrame> = (0..n).map(|i| yuv(texture(4 * i))).collect();
    let k: Vec<Plane> = (0..n)
        .map(|f| {
            let y = coded_luma(&cfg, &frames[f.max(1) - 1]);
            Plane { y: rusty_h264_encoder::lookcost::downsample2x(&y, W, H).0, w: W / 2, h: H / 2 }
        })
        .collect();
    let refs: Vec<&YuvFrame> = frames.iter().collect();
    let g = Gop {
        cfg: &cfg,
        frames: &refs,
        mode: LookaheadMode::HalfRes,
        kf: &k,
        kh: &k,
        w,
        active,
        grain_veto,
    };
    let a = gop_qp_offsets_refs(&g);
    let none: Vec<&YuvFrame> = vec![];
    let b = gop_qp_offsets(&Gop { frames: &none, ..g }, &frames);
    assert_eq!(a, b);
    a
}

#[test]
fn offsets_are_clamped_or_given_up() {
    let on = Fixed { grain: false, backs_off: false, level: false };
    let v = offsets(&on, true, true, 2);
    assert_eq!(v.len(), 2);
    assert_eq!(v[0], vec![-6, -6, -6, -6, -6, -5, -4, -3, -2, -1, 0, 1]);
    assert_eq!(v[1], vec![2, 3, 4, 5, 6, 6, 6, 6, 6, 6, 6, 6]);
    let zero = vec![vec![0; 12]; 2];
    assert_eq!(offsets(&on, false, true, 2), zero);
    assert_eq!(offsets(&Fixed { grain: true, ..on }, true, true, 2), zero);
    assert_ne!(offsets(&Fixed { grain: true, ..on }, true, false, 2), zero);
    assert_ne!(offsets(&Fixed { grain: true, ..on }, true, true, 1), vec![vec![0; 12]]);
    assert_eq!(offsets(&Fixed { backs_off: true, ..on }, true, true, 2), zero);
    assert_eq!(offsets(&Fixed { level: true, ..on }, true, true, 2), zero);
    assert!(offsets(&on, true, true, 0).is_empty());
}

#[test]
fn pairs_are_compared_in_half_resolution() {
    let cfg = EncoderConfig::new(W, H);
    let a = pair_prep(&cfg, &yuv(texture(0)));
    let k = Plane { y: a.half.clone(), w: W / 2, h: H / 2 };
    let (num, den) = pair_sums(&cfg, &a, &a, &k);
    assert_eq!(num, 0);
    assert!(den > 0);
    let flat = pair_prep(&cfg, &yuv(vec![60; W * H]));
    let kf = Plane { y: flat.half.clone(), w: W / 2, h: H / 2 };
    let (num, den) = pair_sums(&cfg, &a, &flat, &kf);
    assert!(0 < num && num <= den);
}

#[test]
fn places_in_a_sorted_list() {
    let v = vec![5i64, 1, 9, 5, 0, 7];
    let mut s = v.clone();
    s.sort();
    for k in 0..6 {
        assert_eq!(nth(&v, k), s[k]);
    }
}

/// A flat row of macroblocks, a texture, and a block that moved four samples.
fn synth_pair(cw: usize, ch: usize) -> (Vec<u8>, Vec<u8>) {
    let mut sy = vec![64u8; cw * ch];
    let mut ry = vec![64u8; cw * ch];
    for j in 16..ch {
        for i in 0..cw {
            let t = ((i * 7 + j * 13) % 97) as u8;
            sy[j * cw + i] = 60 + t;
            ry[j * cw + i] = 60 + t;
        }
    }
    for j in 24..40.min(ch) {
        for i in 0..16 {
            let px = (220 - (i as i32) * 3 - (j as i32 % 16)) as u8;
            if 20 + i < cw {
                sy[j * cw + 20 + i] = px;
            }
            if 16 + i < cw {
                ry[j * cw + 16 + i] = px;
            }
        }
    }
    (sy, ry)
}

fn var_of(sy: &[u8], cw: usize, mx: usize, my: usize) -> i64 {
    let (mut s, mut q) = (0i64, 0i64);
    for y in 0..16 {
        for x in 0..16 {
            let v = sy[(16 * my + y) * cw + 16 * mx + x] as i64;
            s += v;
            q += v * v;
        }
    }
    q - s * s / 256
}

#[test]
fn variances_and_their_ranks() {
    let (cw, ch) = (160, 112);
    let (sy, ry) = synth_pair(cw, ch);
    let sig = FrameSignals::new(&sy, cw, 10, 7, Some(&ry));
    assert!(sig.has_ref());
    assert_eq!(sig.n_mbs(), 70);
    let v = sig.mb_vars();
    let mut want: Vec<i64> = (0..70).map(|i| var_of(&sy, cw, i % 10, i / 10)).collect();
    assert_eq!(v, want);
    assert!(v.iter().any(|&x| x == 0));
    want.sort();
    for k in [0usize, 9, 10, 35, 69] {
        assert_eq!(sig.var_rank(k), want[k]);
    }
    let mut coarse: Vec<i64> = (0..70)
        .map(|i| {
            let (mut s, mut q) = (0i64, 0i64);
            for r in (0..16).step_by(2) {
                for c in (0..16).step_by(2) {
                    let v = sy[(16 * (i / 10) + r) * cw + 16 * (i % 10) + c] as i64;
                    s += v;
                    q += v * v;
                }
            }
            (q - s * s / 64) / 64
        })
        .collect();
    coarse.sort();
    assert_eq!(sig.median_var(), coarse[35]);
}

fn sad(sy: &[u8], ry: &[u8], cw: usize, bx: usize, by: usize, dx: isize, dy: isize) -> u32 {
    let mut s = 0;
    for y in 0..16 {
        for x in 0..16 {
            let r = ry[((by + y) as isize + dy) as usize * cw + ((bx + x) as isize + dx) as usize];
            s += sy[(by + y) * cw + bx + x].abs_diff(r) as u32;
        }
    }
    s
}

#[test]
fn probes_match_a_direct_count() {
    for (cw, ch) in [(160usize, 112usize), (224, 160), (512, 480)] {
        let (mw, mh) = (cw / 16, ch / 16);
        let (sy, ry) = synth_pair(cw, ch);
        let sig = FrameSignals::new(&sy, cw, mw, mh, Some(&ry));
        let walk = |target: usize| -> Vec<(usize, usize)> {
            let inner = (mw - 4) * (mh - 4);
            let stride = (inner / target).max(1);
            (0..inner)
                .step_by(stride)
                .map(|i| (16 * (2 + i % (mw - 4)), 16 * (2 + i / (mw - 4))))
                .collect()
        };
        let gains = sig.gains();
        let at = walk(24);
        assert_eq!(gains.len(), at.len());
        for (g, &(bx, by)) in gains.iter().zip(&at) {
            assert_eq!(g.still, sad(&sy, &ry, cw, bx, by, 0, 0));
            let best = (-2..=2)
                .flat_map(|y| (-2..=2).map(move |x| (4 * x, 4 * y)))
                .map(|(x, y)| sad(&sy, &ry, cw, bx, by, x, y))
                .min()
                .unwrap();
            assert_eq!(g.best, best.min(g.still));
        }
        let room = sig.headrooms();
        assert_eq!(room.len(), at.len());
        for (h, &(bx, by)) in room.iter().zip(&at) {
            let local = (-2..=2)
                .flat_map(|y| (-2..=2).map(move |x| (x, y)))
                .map(|(x, y)| sad(&sy, &ry, cw, bx, by, x, y))
                .min()
                .unwrap();
            assert_eq!(h.local, local);
            assert!(h.wide <= h.local);
        }
        let mut floors: Vec<u32> = walk(48)
            .iter()
            .map(|&(bx, by)| sad(&sy, &ry, cw, bx, by, 0, 0))
            .collect();
        floors.sort();
        assert_eq!(sig.grain_floor(), Some(floors[floors.len() / 4]));
    }
}

#[test]
fn global_motion_of_a_pan() {
    let mut sy = vec![0u8; 96 * 64];
    let mut ry = vec![0u8; 96 * 64];
    for j in 0..64usize {
        for i in 0..96usize {
            let f = |u: usize| ((u * u * 3 + j * 11 + u * j) % 211) as u8;
            sy[j * 96 + i] = f(i + 100);
            ry[j * 96 + i] = f(i + 104);
        }
    }
    let sig = FrameSignals::new(&sy, 96, 6, 4, Some(&ry));
    assert_eq!(sig.global_mc_residual(), Some((0, 8 * 4)));
    let none = FrameSignals::new(&sy, 96, 6, 4, None);
    assert_eq!(none.global_mc_residual(), None);
    assert_eq!(none.grain_floor(), None);
    assert!(none.gains().is_empty());
    let small = vec![0u8; 32 * 64];
    assert_eq!(FrameSignals::new(&small, 32, 2, 4, Some(&small)).global_mc_residual(), None);
}

#[test]
fn drawn_frames_have_long_runs_of_few_values() {
    let mut page = vec![255u8; 64 * 48];
    for j in (0..48).step_by(4) {
        for i in 10..20 {
            page[j * 64 + i] = 0;
        }
    }
    let sig = FrameSignals::new(&page, 64, 4, 3, None);
    let d = sig.flat_hist();
    assert_eq!(d.samples, 64 * 12);
    assert_eq!(d.runs, 3 * 12);
    assert_eq!(d.top16, 64 * 12);
    assert!(sig.is_screen());
    let filmed: Vec<u8> = (0..64 * 48usize).map(|i| ((i * 7919) % 251) as u8).collect();
    let sig = FrameSignals::new(&filmed, 64, 4, 3, None);
    let d = sig.flat_hist();
    let mut h = [0u64; 256];
    for y in (0..48).step_by(4) {
        for x in 0..64 {
            h[filmed[y * 64 + x] as usize] += 1;
        }
    }
    h.sort();
    assert_eq!(d.top16, h[240..].iter().sum::<u64>());
    assert!(!sig.is_screen());
}
