//! Whole slices, coded with simple kernels: the transform is the identity, levels are eighths, and
//! motion compensation takes whole samples.
use rusty_h264_encoder::bcabac::{encode_slice_data_cabac_b, BCState};
use rusty_h264_encoder::bslice::{encode_slice_data_b, BCounts, BEnv, BOptions, BState};
use rusty_h264_encoder::bstats::BStats;
use rusty_h264_encoder::cabac::{Bin, CabacEncoder};
use rusty_h264_encoder::cavlc::{Elem, Syntax};
use rusty_h264_encoder::census;
use rusty_h264_encoder::config::EncoderConfig;
use rusty_h264_encoder::extmv::MvScore;
use rusty_h264_encoder::finish::into_reference;
use rusty_h264_encoder::frame::FrameEncoder;
use rusty_h264_encoder::icabac::{encode_slice_data_cabac_intra, IEnv, IState};
use rusty_h264_encoder::intraplan::plan_mb;
use rusty_h264_encoder::kernels::{Around, Gain, Kernels, McJob, Price, Rd};
use rusty_h264_encoder::mbcabac::CabacState;
use rusty_h264_encoder::mbinter::encode_all_skip_b_cabac;
use rusty_h264_encoder::mbstate::RefFrame;
use rusty_h264_encoder::pcabac::{encode_slice_data_cabac_p, CEnv, COptions, CState, Pay};
use rusty_h264_encoder::plan::I16Mode;
use rusty_h264_encoder::pslice::{encode_slice_data, PEnv, POptions, PState, SkipCensus};
use rusty_h264_encoder::quant::{rdoq, rdoq_rate};
use rusty_h264_encoder::search::{MeOptions, MeState, MvRate};
use rusty_h264_encoder::setup::{mb_variance, FrameParams};

const W: usize = 64;
const H: usize = 48;

struct Toy {
    /// The luma and chroma planes of the references of both lists.
    lists: [Vec<[Vec<u8>; 3]>; 2],
}

fn clip(v: i32) -> u8 {
    v.clamp(0, 255) as u8
}

fn flat_mean(has: Around, top: &[u8], left: &[u8]) -> u8 {
    let mut s = 0u32;
    let mut n = 0u32;
    if has.top {
        s += top.iter().map(|&v| v as u32).sum::<u32>();
        n += top.len() as u32;
    }
    if has.left {
        s += left.iter().map(|&v| v as u32).sum::<u32>();
        n += left.len() as u32;
    }
    if n == 0 {
        128
    } else {
        ((s + n / 2) / n) as u8
    }
}

/// Fills a square from above (0), from the left (1) or with the mean (others).
fn spread(way: u8, side: usize, has: Around, top: &[u8], left: &[u8], out: &mut [u8]) {
    let m = flat_mean(has, &top[..side], &left[..side]);
    for y in 0..side {
        for x in 0..side {
            out[y * side + x] = match way {
                0 if has.top => top[x],
                1 if has.left => left[y],
                _ => m,
            };
        }
    }
}

impl Kernels for Toy {
    fn mc(&self, job: McJob) -> [u8; 256] {
        let p = &self.lists[job.list as usize][job.refi as usize][job.plane as usize];
        let (w, h, s) = if job.plane == 0 { (W, H, 2) } else { (W / 2, H / 2, 3) };
        let mut out = [0u8; 256];
        for y in 0..job.h {
            for x in 0..job.w {
                let rx = (job.x as i32 + x as i32 + (job.mv.0 >> s)).clamp(0, w as i32 - 1);
                let ry = (job.y as i32 + y as i32 + (job.mv.1 >> s)).clamp(0, h as i32 - 1);
                out[y * job.w + x] = p[ry as usize * w + rx as usize];
            }
        }
        out
    }

    fn price(&self, p: Price) -> i64 {
        p.bits as i64 * 4
    }

    fn served(&self, _mv: (i32, i32)) -> bool {
        false
    }

    fn fdct4(&self, res: &[i32; 16]) -> [i32; 16] {
        *res
    }

    fn quant4(&self, c: &[i32; 16], _qp: u8, _dz: u8) -> [i32; 16] {
        c.map(|v| v / 8)
    }

    fn lower(&self, _qp: u8, _pos: usize, coeff: i32, level: u32) -> bool {
        coeff.unsigned_abs() < 8 * level + 2
    }

    fn trim(&self, _qp: u8, _pos: usize, _coeff: i32, level: u32, bits: i64) -> bool {
        level == 1 && bits > 5
    }

    fn deq4(&self, q: &[i32; 16], _qp: u8) -> [i32; 16] {
        q.map(|v| v * 8)
    }

    fn add4(&self, c: &[i32; 16], pred: &[i32; 16]) -> [u8; 16] {
        let mut r = [0u8; 16];
        for i in 0..16 {
            r[i] = clip(c[i] + pred[i]);
        }
        r
    }

    fn cdc(&self, dc: &[i32; 4], _qpc: u8, _intra: bool) -> [i32; 4] {
        dc.map(|v| v / 8)
    }

    fn cdc_inv(&self, l: &[i32; 4], _qpc: u8) -> [i32; 4] {
        l.map(|v| v * 8)
    }

    fn ldc(&self, dc: &[i32; 16], _qp: u8) -> [i32; 16] {
        dc.map(|v| v / 8)
    }

    fn ldc_inv(&self, l: &[i32; 16], _qp: u8) -> [i32; 16] {
        l.map(|v| v * 8)
    }

    fn quant8(&self, res: &[i32; 64], _qp: u8, _dz: u8) -> [i32; 64] {
        res.map(|v| v / 8)
    }

    fn add8(&self, q: &[i32; 64], _qp: u8, pred: &[i32; 64]) -> [u8; 64] {
        let mut r = [0u8; 64];
        for i in 0..64 {
            r[i] = clip(8 * q[i] + pred[i]);
        }
        r
    }

    fn intra16(&self, mode: I16Mode, has: Around, top: &[u8; 16], left: &[u8; 16], _c: u8) -> [u8; 256] {
        let way = match mode {
            I16Mode::Vertical => 0,
            I16Mode::Horizontal => 1,
            _ => 2,
        };
        let mut r = [0u8; 256];
        spread(way, 16, has, top, left, &mut r);
        r
    }

    fn intra4(&self, mode: u8, has: Around, top: &[u8; 8], left: &[u8; 4], _c: u8) -> [u8; 16] {
        let mut r = [0u8; 16];
        spread(mode, 4, has, top, left, &mut r);
        r
    }

    fn intra8(&self, mode: u8, has: Around, top: &[u8; 16], left: &[u8; 8], _c: u8) -> [u8; 64] {
        let mut r = [0u8; 64];
        spread(mode, 8, has, top, left, &mut r);
        r
    }

    fn intrac(&self, mode: u8, has: Around, top: &[u8; 8], left: &[u8; 8], _c: u8) -> [u8; 64] {
        let way = match mode {
            1 => 1,
            2 => 0,
            _ => 2,
        };
        let mut r = [0u8; 64];
        spread(way, 8, has, top, left, &mut r);
        r
    }

    fn rd_less(&self, _qp: u8, a: Rd, b: Rd) -> bool {
        a.ssd + 10 * a.rate < b.ssd + 10 * b.rate
    }

    fn rd_at_most(&self, _qp: u8, a: Rd, b: Rd) -> bool {
        a.ssd + 10 * a.rate <= b.ssd + 10 * b.rate
    }

    fn bits(&self, w: &Syntax) -> usize {
        w.elems.len()
    }

    fn chroma_share(&self, ssd: i64) -> i64 {
        ssd
    }

    fn split_floor(&self, _loud: bool) -> i64 {
        0
    }

    fn pays(&self, _gains: &Vec<Gain>, _seen: usize) -> bool {
        true
    }
}

type Planes = [Vec<u8>; 3];

/// A picture whose texture is moved to the right by `dx` samples.
fn picture(dx: usize) -> Planes {
    let mut y = vec![0u8; W * H];
    for j in 0..H {
        for i in 0..W {
            let u = i + 64 - dx;
            y[j * W + i] = ((u * u / 3 + j * 7 + (u * j) % 23) % 200 + 20) as u8;
        }
    }
    let mut u = vec![0u8; W * H / 4];
    let mut v = vec![0u8; W * H / 4];
    for j in 0..H / 2 {
        for i in 0..W / 2 {
            let t = i + 32 - dx / 2;
            u[j * W / 2 + i] = (100 + (t * 5 + j * 3) % 60) as u8;
            v[j * W / 2 + i] = (90 + (t * 2 + j * 9) % 70) as u8;
        }
    }
    [y, u, v]
}

fn reference(p: &Planes) -> RefFrame {
    let n = (W / 4) * (H / 4);
    RefFrame {
        y: p[0].clone(),
        u: p[1].clone(),
        v: p[2].clone(),
        poc: 0,
        frame_num: 0,
        mv: vec![(0, 0); n],
        ref_idx: vec![0; n],
        w4: W / 4,
    }
}

fn frame() -> FrameEncoder {
    FrameEncoder::new(
        &EncoderConfig::new(W, H),
        FrameParams { all_intra: false, fast: false, fast_intra: false, inter8x8: true, inter8_pen: 0 },
    )
}

fn me_options() -> MeOptions {
    MeOptions {
        me_snap: false,
        sadfp: false,
        dia_mask: 28,
        dia_sub_mask: 16,
        fc: false,
        me_wide: false,
        me_fast: false,
        me_wide_var: 0,
        me_rescue: 0,
        me_range: 16,
        me_learn: 0,
        me_payoff_pct: 0,
        subpel_force: false,
        sp_defer: false,
        me_subpel_iter: true,
        pattern: None,
        sub_pattern: 0,
        sp_single_pass: false,
        sp_learn: 0,
        sp_t: 67,
        sp_maxit: 0,
        sp_fc: false,
    }
}

fn p_options() -> POptions {
    POptions {
        qp: 26,
        satd_var: None,
        do_splits: true,
        sub8x8: true,
        greedy_skip: false,
        greedy_min_free: 0,
        rd_skip: false,
        rd_skip_min_free: 0,
        skip_ssd: None,
    }
}

fn b_options() -> BOptions {
    BOptions { satd_var: None, skip_dist: None, busy_pct: 60, dirwin_pct: 10, split: false, force: 0 }
}

const MBS: usize = (W / 16) * (H / 16);

fn p_slice(src: &Planes, refs: &[Planes]) -> PState {
    p_slice_with(src, refs, None, None)
}

type Field<'a> = Option<&'a [(i32, i32)]>;

fn p_slice_with(src: &Planes, refs: &[Planes], ext: Field, rival: Field) -> PState {
    let k = Toy { lists: [refs.to_vec(), vec![]] };
    let (o, p) = (me_options(), p_options());
    let rs: Vec<RefFrame> = refs.iter().map(|p| reference(p)).collect();
    let qps = vec![26u8; MBS];
    let env = PEnv {
        k: &k,
        rate: &MvRate::Golomb,
        refs: &rs,
        sy: &src[0],
        su: &src[1],
        sv: &src[2],
        o: &o,
        p: &p,
        qps: &qps,
        is_p: !refs.is_empty(),
        ext,
        rival,
    };
    let mut s = PState {
        fe: frame(),
        me: MeState::new(),
        census: SkipCensus::new(0),
        run: 0,
        qpy: vec![26; MBS],
        score: MvScore::new(),
        out: Syntax::new(),
    };
    encode_slice_data(&env, &mut s);
    s
}

fn c_slice(src: &Planes, refs: &[Planes], c: COptions) -> CState {
    let k = Toy { lists: [refs.to_vec(), vec![]] };
    let (o, p) = (me_options(), p_options());
    let rs: Vec<RefFrame> = refs.iter().map(|p| reference(p)).collect();
    let qps = vec![26u8; MBS];
    let loud = vec![false; MBS];
    let env = CEnv {
        e: PEnv {
            k: &k,
            rate: &MvRate::Golomb,
            refs: &rs,
            sy: &src[0],
            su: &src[1],
            sv: &src[2],
            o: &o,
            p: &p,
            qps: &qps,
            is_p: true,
            ext: None,
            rival: None,
        },
        c: &c,
        loud: &loud,
    };
    let mut s = CState {
        fe: frame(),
        me: MeState::new(),
        census: SkipCensus::new(0),
        pay: Pay { seen: 0, gains: vec![], paying: true },
        gates: vec![],
        ends: vec![],
        qpy: vec![26; MBS],
        cab: CabacEncoder::new(),
        cs: CabacState::new(MBS),
    };
    encode_slice_data_cabac_p(&env, &mut s);
    s
}

fn plain_c() -> COptions {
    COptions {
        shape_rd: false,
        arms: false,
        grain: false,
        arms_rd: false,
        arms_pay: false,
        pay_learn: 0,
        intra_rd: false,
        rd_by_mb: false,
    }
}

fn b_env<'a>(
    k: &'a Toy,
    past: &'a [RefFrame],
    future: &'a [RefFrame],
    src: &'a Planes,
    o: &'a MeOptions,
    b: &'a BOptions,
    qps: &'a [u8],
) -> BEnv<'a, Toy> {
    BEnv {
        k,
        rate: &MvRate::Golomb,
        past,
        future,
        sy: &src[0],
        su: &src[1],
        sv: &src[2],
        o,
        b,
        qps,
    }
}

fn b_slice(src: &Planes, past: &Planes, future: &Planes) -> BState {
    let k = Toy { lists: [vec![past.clone()], vec![future.clone()]] };
    let (o, b) = (me_options(), b_options());
    let (rp, rf) = (vec![reference(past)], vec![reference(future)]);
    let qps = vec![26u8; MBS];
    let env = b_env(&k, &rp, &rf, src, &o, &b, &qps);
    let mut s = BState {
        fe: frame(),
        me: MeState::new(),
        counts: BCounts::new(),
        run: 0,
        out: Syntax::new(),
    };
    encode_slice_data_b(&env, &mut s);
    s
}

fn b_bins(src: &Planes, past: &Planes, future: &Planes, b: BOptions) -> BCState {
    let k = Toy { lists: [vec![past.clone()], vec![future.clone()]] };
    let o = me_options();
    let (rp, rf) = (vec![reference(past)], vec![reference(future)]);
    let qps = vec![26u8; MBS];
    let env = b_env(&k, &rp, &rf, src, &o, &b, &qps);
    let mut s = BCState {
        fe: frame(),
        me: MeState::new(),
        counts: BCounts::new(),
        stats: BStats { on: true, skip: 0, coded: 0, dirwin: 0, split: 0 },
        cab: CabacEncoder::new(),
        cs: CabacState::new(MBS),
    };
    encode_slice_data_cabac_b(&env, &mut s);
    s
}

/// Every sample is rebuilt to within what quantisation to eighths loses.
fn close(fe: &FrameEncoder, src: &Planes) {
    for (rec, s) in [(&fe.rec_y, &src[0]), (&fe.rec_u, &src[1]), (&fe.rec_v, &src[2])] {
        for i in 0..s.len() {
            assert!(rec[i].abs_diff(s[i]) <= 7, "sample {i}: {} for {}", rec[i], s[i]);
        }
    }
}

fn ends_once(bins: &[Bin]) {
    let ends: Vec<bool> = bins
        .iter()
        .filter_map(|b| match b {
            Bin::Terminate { end } => Some(*end),
            _ => None,
        })
        .collect();
    // Intra macroblock types hold a bin of this kind too.
    assert!(ends.len() >= MBS);
    assert_eq!(ends.iter().filter(|&&e| e).count(), 1);
    assert!(matches!(bins.last(), Some(Bin::Terminate { end: true })));
}

#[test]
fn intra_slice_rebuilds_its_source() {
    let src = picture(0);
    let s = p_slice(&src, &[]);
    close(&s.fe, &src);
    assert!(s.fe.coded_y.iter().all(|&c| c));
    assert!(s.fe.inter_y.iter().all(|&i| !i));
    assert_eq!(s.run, 0);
    assert!(s.out.elems.len() > MBS);
}

#[test]
fn cabac_intra_slice_rebuilds_its_source() {
    let src = picture(0);
    let k = Toy { lists: [vec![], vec![]] };
    let qps = vec![26u8; MBS];
    let env = IEnv { k: &k, sy: &src[0], su: &src[1], sv: &src[2], qps: &qps };
    let mut s = IState {
        fe: frame(),
        qpy: vec![0; MBS],
        cab: CabacEncoder::new(),
        cs: CabacState::new(MBS),
    };
    encode_slice_data_cabac_intra(&env, &mut s);
    close(&s.fe, &src);
    ends_once(&s.cab.bins);
    assert_eq!(s.qpy, vec![26; MBS]);
    // The same plans as with CAVLC give the same samples.
    let t = p_slice(&src, &[]);
    assert_eq!(s.fe.rec_y, t.fe.rec_y);
    assert_eq!(s.fe.rec_u, t.fe.rec_u);
    assert_eq!(s.fe.modes_y, t.fe.modes_y);
}

#[test]
fn unchanged_picture_is_skipped_as_a_whole() {
    let src = picture(0);
    let s = p_slice(&src, &[src.clone()]);
    assert_eq!(s.fe.rec_y, src[0]);
    assert_eq!(s.fe.rec_v, src[2]);
    assert_eq!(s.out.elems.len(), 1);
    assert!(matches!(s.out.elems[0], Elem::Ue(n) if n as usize == MBS));
    assert_eq!((s.census.free, s.census.seen), (MBS as u64, MBS as u64));
}

#[test]
fn unchanged_picture_is_skipped_bin_by_bin() {
    let src = picture(0);
    let s = c_slice(&src, &[src.clone()], plain_c());
    assert_eq!(s.fe.rec_y, src[0]);
    ends_once(&s.cab.bins);
    assert_eq!(s.cab.bins.len(), 2 * MBS);
    assert_eq!(s.cab.bins[0], Bin::Decision { ctx: 11, bin: 1 });
    assert!(s.cs.mb_skip.iter().all(|&b| b));
}

#[test]
fn moved_picture_is_found_and_rebuilt() {
    let (old, new) = (picture(0), picture(4));
    let s = p_slice(&new, &[old.clone()]);
    close(&s.fe, &new);
    // Away from the left edge the texture came from four samples to the left.
    let mv = s.fe.mv_y[6 * (W / 4) + 8];
    assert_eq!((mv.0 >> 2, mv.1 >> 2), (-4, 0));
    let t = c_slice(&new, &[old.clone()], plain_c());
    close(&t.fe, &new);
    ends_once(&t.cab.bins);
    let mv = t.fe.mv_y[6 * (W / 4) + 8];
    assert_eq!((mv.0 >> 2, mv.1 >> 2), (-4, 0));
}

#[test]
fn two_references_are_told_apart() {
    let (old, older, new) = (picture(9), picture(0), picture(4));
    let s = p_slice(&new, &[old.clone(), older.clone()]);
    close(&s.fe, &new);
    assert!(s.fe.ref_idx_y.iter().any(|&i| i == 1));
    let t = c_slice(&new, &[old, older], plain_c());
    close(&t.fe, &new);
}

#[test]
fn weighing_by_rate_keeps_the_picture() {
    let (old, new) = (picture(0), picture(6));
    let c = COptions {
        shape_rd: true,
        arms: true,
        grain: false,
        arms_rd: true,
        arms_pay: true,
        pay_learn: 4,
        intra_rd: true,
        rd_by_mb: true,
    };
    let t = c_slice(&new, &[old], c);
    close(&t.fe, &new);
    ends_once(&t.cab.bins);
    assert!(t.pay.seen <= MBS);
}

#[test]
fn unchanged_b_picture_is_skipped_as_a_whole() {
    let src = picture(0);
    let s = b_slice(&src, &src, &src);
    assert_eq!(s.out.elems.len(), 1);
    assert!(matches!(s.out.elems[0], Elem::Ue(n) if n as usize == MBS));
    assert_eq!((s.counts.seen, s.counts.free, s.counts.coded), (MBS as u64, MBS as u64, 0));
    let t = b_bins(&src, &src, &src, b_options());
    let mut all = CabacEncoder::new();
    encode_all_skip_b_cabac(&mut all, MBS);
    assert_eq!(t.cab.bins, all.bins);
    assert_eq!((t.stats.skip, t.stats.coded), (MBS as u64, 0));
}

#[test]
fn b_picture_takes_from_both_sides() {
    let (past, src, future) = (picture(0), picture(4), picture(8));
    let s = b_slice(&src, &past, &future);
    let coded = s.counts.coded;
    assert_eq!(s.counts.free + coded, MBS as u64);
    assert!(coded > 0);
    let t = b_bins(&src, &past, &future, b_options());
    ends_once(&t.cab.bins);
    assert_eq!(t.counts.coded, coded);
    assert_eq!((t.stats.coded, t.stats.dirwin), (coded, t.counts.dirwin));
    assert_eq!((t.stats.skip, t.stats.split), (t.counts.free, 0));
    assert_eq!(t.fe.rec_y, s.fe.rec_y);
    assert_eq!(t.fe.mv_y, s.fe.mv_y);
    assert_eq!(t.fe.mv1_y, s.fe.mv1_y);
}

#[test]
fn forced_halves_keep_the_motion_of_the_whole() {
    let (past, src, future) = (picture(0), picture(4), picture(8));
    let a = b_bins(&src, &past, &future, b_options());
    for force in [1u8, 2] {
        let b = b_bins(&src, &past, &future, BOptions { force, ..b_options() });
        ends_once(&b.cab.bins);
        assert_eq!(a.fe.mv_y[0], b.fe.mv_y[0]);
        assert_eq!(b.stats.split, 0);
    }
    let c = b_bins(&src, &past, &future, BOptions { split: true, ..b_options() });
    ends_once(&c.cab.bins);
}

#[test]
fn trials_leave_the_frame_as_it_was() {
    let (old, new) = (picture(0), picture(4));
    let k = Toy { lists: [vec![old.clone()], vec![]] };
    let l1 = reference(&old);
    let mut fe = frame();
    let before = (fe.rec_y.clone(), fe.mv_y.clone(), fe.nnz_y.clone(), fe.coded_y.clone());
    let (ssd, rate) =
        fe.trial_inter(&k, &l1, 1, &new[0], &new[1], &new[2], 1, 1, 0, &[(0, (-16, 0))]);
    assert_eq!(ssd, 0);
    assert!(rate > 0);
    let (_, bits) = fe.trial_intra(&k, &new[0], &new[1], &new[2], 1, 1, true);
    assert!(bits > rate);
    assert_eq!(before, (fe.rec_y.clone(), fe.mv_y.clone(), fe.nnz_y.clone(), fe.coded_y.clone()));
}

#[test]
fn both_ways_of_coding_a_macroblock_agree() {
    let (old, new) = (picture(0), picture(4));
    let k = Toy { lists: [vec![old.clone()], vec![]] };
    let l1 = reference(&old);
    let mut out = Vec::new();
    for v2 in [false, true] {
        let mut fe = frame();
        let mut w = Syntax::new();
        fe.encode_inter_mb(v2, &k, &mut w, &l1, 1, &new[0], &new[1], &new[2], 2, 1, 0, &[(0, (-12, 4))]);
        out.push((fe.rec_y, fe.nnz_y, w.elems.len()));
    }
    assert_eq!(out[0], out[1]);
}

#[test]
fn refined_levels_only_move_toward_zero() {
    let k = Toy { lists: [vec![], vec![]] };
    let mut c = [0i32; 16];
    (c[0], c[1], c[4], c[14]) = (33, -19, 8, -13);
    assert_eq!(rdoq(&k, false, &c, 26, 6, 0)[..5], [4, -2, 0, 0, 1]);
    let r = rdoq(&k, true, &c, 26, 6, 0);
    // 33 and 8 are near enough to the level below, -19 is not; the far level is dropped.
    assert_eq!((r[0], r[1], r[4], r[14]), (3, -2, 0, 0));
    // The first level is left alone where it is not the block's own.
    let r = rdoq(&k, true, &c, 26, 6, 1);
    assert_eq!((r[0], r[1], r[4], r[14]), (4, -2, 0, 0));
    assert_eq!([rdoq_rate(0), rdoq_rate(1), rdoq_rate(2), rdoq_rate(40)], [1, 3, 4, 16]);
}

#[test]
fn saved_macroblocks_are_loaded_back() {
    let mut fe = frame();
    for (i, v) in fe.rec_y.iter_mut().enumerate() {
        *v = (i % 251) as u8;
    }
    let mut kept = fe.save_mb(0, 0);
    fe.save_mb_into(1, 1, &mut kept);
    let before = (fe.rec_y.clone(), fe.mv_y.clone(), fe.inter_y.clone());
    fe.commit_skip(1, 1, (8, -4), &[9u8; 256], &[[7u8; 64]; 2]);
    assert_eq!(fe.rec_y[16 * W + 16], 9);
    fe.load_mb(1, 1, &kept);
    assert_eq!(before, (fe.rec_y.clone(), fe.mv_y.clone(), fe.inter_y.clone()));
}

#[test]
fn a_coded_frame_becomes_a_reference() {
    let (old, new) = (picture(0), picture(4));
    let s = p_slice(&new, &[old]);
    let (y, mv) = (s.fe.rec_y.clone(), s.fe.mv_y.clone());
    let r = into_reference(s.fe);
    assert_eq!((r.y, r.mv), (y, mv));
    assert_eq!((r.w4, r.poc, r.frame_num), (W / 4, 0, 0));
}

#[test]
fn a_foreign_field_is_put_in_place_of_the_own() {
    let (old, new) = (picture(0), picture(4));
    let w4 = W / 4;
    // One vector for all blocks, but for one block of the last macroblock.
    let mut field = vec![(-8, 4); w4 * (H / 4)];
    *field.last_mut().unwrap() = (0, 0);
    let s = p_slice_with(&new, &[old.clone()], Some(&field), None);
    close(&s.fe, &new);
    let own = p_slice(&new, &[old.clone()]);
    let mut forced = 0;
    for mb in 0..MBS - 1 {
        let cell = 4 * (mb / (W / 16)) * w4 + 4 * (mb % (W / 16));
        if s.fe.inter_y[cell] && s.fe.coded_y[cell] {
            forced += (s.fe.mv_y[cell] == (-8, 4) && own.fe.mv_y[cell] != (-8, 4)) as usize;
        }
    }
    assert!(forced > 0);
    // A macroblock that the field divides keeps its own vector.
    assert_ne!(s.fe.mv_y[(H / 4 - 4) * w4 + w4 - 4], (-8, 4));
    // Vectors of any size are coded; their differences wrap around.
    for mv in [(0x5000_0000, 0), (i32::MAX, i32::MIN)] {
        let far = vec![mv; w4 * (H / 4)];
        let s = p_slice_with(&new, &[old.clone()], Some(&far), None);
        close(&s.fe, &new);
        assert!(s.fe.mv_y.contains(&mv));
    }
    // A field that is too short has no vector to give.
    let t = p_slice_with(&new, &[old], Some(&[]), Some(&[]));
    assert_eq!(t.fe.mv_y, own.fe.mv_y);
    assert_eq!(t.fe.rec_y, own.fe.rec_y);
}

#[test]
fn gates_answer_macroblock_by_macroblock() {
    let (old, new) = (picture(0), picture(6));
    let c = COptions {
        shape_rd: true,
        arms: true,
        grain: false,
        arms_rd: true,
        arms_pay: false,
        pay_learn: 0,
        intra_rd: true,
        rd_by_mb: true,
    };
    let t = c_slice(&new, &[old.clone()], c);
    assert_eq!(t.ends.len(), MBS);
    assert!(t.ends.windows(2).all(|w| w[0] <= w[1]));
    assert_eq!(t.ends[MBS - 1], t.gates.len());
    let count = |g: usize| t.gates.iter().filter(|a| a.0 == g).count();
    // Intra is judged once in every macroblock that is not free; quarters come in fours.
    let judged = (t.census.seen - t.census.free) as usize;
    assert_eq!(count(census::INTRA_RD_FLIP), judged);
    assert_eq!(count(census::SUB8_SPLIT), 4 * count(census::SUB8_GRAIN));
    assert_eq!(count(census::SHAPE_RD_FLIP), count(census::SUB8_GRAIN));
    assert!(count(census::SUB8_GRAIN) > 0);
    assert!(t.gates.iter().all(|a| a.0 != census::SUB8_GRAIN || !a.1));
    // All that was answered is counted, and what macroblocks answered by their transform size.
    let mut n = census::new_census(true);
    census::report(&mut n, &t.gates, &t.ends, &t.cs.mb_t8x8);
    let (all, [by4, by8]) = (census::snapshot(&n), census::snapshot_by_t8(&n));
    for g in 0..census::N {
        assert_eq!(all[g].1 as usize, count(g));
        let held = by4[g].1 + by8[g].1;
        assert_eq!(held, if g == census::SUB8_GRAIN { 0 } else { all[g].1 });
    }
    // With grain the quarters are not searched in parts, and that is answered.
    let t = c_slice(&new, &[old.clone()], COptions { grain: true, ..c });
    assert!(t.gates.iter().all(|a| a.0 != census::SUB8_GRAIN || a.1));
    assert!(t.gates.iter().all(|a| a.0 != census::SUB8_SPLIT));
    // Without these options no gate is asked.
    let t = c_slice(&new, &[old], plain_c());
    assert_eq!((t.gates.len(), t.ends), (0, vec![0; MBS]));
}

#[test]
fn spread_of_a_macroblock() {
    let fe = frame();
    let level = vec![77u8; W * H];
    assert_eq!(mb_variance(&fe, &level, 1, 2), 0);
    let src = picture(0)[0].clone();
    let v = mb_variance(&fe, &src, 1, 2);
    assert!(v > 0);
    // It does not see the level.
    let low = *src.iter().min().unwrap();
    let moved: Vec<u8> = src.iter().map(|&s| s - low).collect();
    assert_eq!(mb_variance(&fe, &moved, 1, 2), v);
    // A buffer that holds the macroblock's samples is enough, and the others do not matter.
    let end = (47 * W) + 32;
    assert_eq!(mb_variance(&fe, &src[..end], 1, 2), v);
    let mut other = src.clone();
    (other[0], other[end]) = (255 - src[0], 255 - src[end]);
    assert_eq!(mb_variance(&fe, &other, 1, 2), v);
    let mut one = level;
    one[40 * W + 20] = 78;
    assert!(mb_variance(&fe, &one, 1, 2) >= 0);
}

#[test]
fn a_rival_is_priced_and_leaves_no_trace() {
    let (old, new) = (picture(0), picture(4));
    let own = p_slice(&new, &[old.clone()]);
    let field = vec![(-8, 4); (W / 4) * (H / 4)];
    let s = p_slice_with(&new, &[old.clone()], None, Some(&field));
    assert_eq!(s.fe.rec_y, own.fe.rec_y);
    assert_eq!(s.fe.mv_y, own.fe.mv_y);
    assert_eq!(s.out.elems.len(), own.out.elems.len());
    assert!(s.score.n > 0 && s.score.n <= MBS as u64);
    assert!(s.score.bits > 0 && s.score.other_bits > 0);
    assert!(s.score.won <= s.score.n && s.score.differed <= s.score.n);
    // The true motion costs no more than one that is off.
    assert!(s.score.other_bits >= s.score.bits || s.score.other_ssd >= s.score.ssd);
    // Put in place of the own motion, the rival meets itself.
    let t = p_slice_with(&new, &[old], Some(&field), Some(&field));
    assert_eq!((t.score.bits, t.score.ssd), (t.score.other_bits, t.score.other_ssd));
    assert_eq!((t.score.won, t.score.differed), (0, t.score.n));
    assert_eq!(own.score, MvScore::new());
}

#[test]
fn first_levels_stand_apart_in_a_plan() {
    let src = picture(0);
    let k = Toy { lists: [vec![], vec![]] };
    let mut fe = frame();
    let p = plan_mb(&k, &mut fe, 1, 1, &src[0], &src[1], &src[2]);
    assert!(p.i16_q.iter().all(|q| q[0] == 0));
    assert!(p.i16_q.iter().any(|q| q.iter().any(|&l| l != 0)));
    assert!(p.c_q_blocks.iter().flatten().all(|q| q[0] == 0));
    assert!(p.i16_dc_levels.iter().any(|&l| l != 0));
}
