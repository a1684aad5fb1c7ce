//! What stands in a stream, and what equal frames show.
use vstd::prelude::*;
use crate::bits;
use crate::cabac::Bin;
use crate::cavlc;
use crate::cavlc::{ElemView, Run};
use crate::frame::FrameEncoder;
use crate::gmc;
use crate::grid;
use crate::icabac::{IEnv, IState};
use crate::kernels::Kernels;
use crate::mbcabac;
use crate::mbcavlc;
use crate::params;
use crate::params::{NalUnit, NalUnitType, Pps, Sps};
use crate::pixels;
use crate::plan;
use crate::plan::MbPlan;
use crate::pslice;
use crate::rank;
use crate::signals;
use crate::signals::{FrameSignals, Gained, Headroom};
use super::elements;
use super::samples;
use super::slices::goes_on;

verus! {

proof fn lemma_stands_first(s: Seq<bool>, t: Seq<bool>, x: Seq<bool>)
    requires
        s == t + x,
    ensures
        bits::stands_at(s, 0, t),
{
    assert forall|i: int| 0 <= i < t.len() implies #[trigger] s[0 + i] == t[i] by {}
}

/// The unit of a parameter set has the highest importance, and a decoder that reads its payload from the
/// first bit on has the set.
pub proof fn law_parameter_units(sps: Sps, pps: Pps, a: NalUnit, b: NalUnit)
    requires
        sps.ok(),
        pps.ok(),
        sps.pic_order_cnt_type == 0 || sps.log2_max_pic_order_cnt_lsb_minus4 == 0,
        call_ensures(Sps::to_nal, (&sps,), a),
        call_ensures(Pps::to_nal, (&pps,), b),
    ensures
        a.nal_ref_idc == 3 && b.nal_ref_idc == 3,
        a.nal_unit_type == NalUnitType::Sps,
        b.nal_unit_type == NalUnitType::Pps,
        params::read_sps(bits::byte_bits(a.rbsp@), 0).0 == sps,
        ({
            let end = bits::table_bits(pps.table()).len() as int;
            params::read_pps(bits::byte_bits(b.rbsp@), 0, end) == (pps, end)
        }),
{
    let (s, p) = (bits::byte_bits(a.rbsp@), bits::byte_bits(b.rbsp@));
    let (t, u) = (bits::table_bits(sps.table()), bits::table_bits(pps.table()));
    lemma_stands_first(s, t, bits::trailing(t.len() as int));
    lemma_stands_first(p, u, bits::trailing(u.len() as int));
    params::law_sps_reads_back(s, 0, sps);
    params::law_pps_reads_back(p, 0, pps);
}

/// A macroblock of an I slice goes on from the bins before it; its QP is noted, and is its own or, where it
/// codes no step, the last one.
#[verifier::spinoff_prover]
#[verifier::rlimit(60)]
pub proof fn law_i_macroblock<'a, K: Kernels>(
    env: IEnv<'a, K>,
    s: IState,
    t: IState,
    x: int,
    y: int,
)
    requires
        env.step(s, t, x, y),
        s.wf(),
        s.fe.has_mb(x, y),
    ensures
        ({
            let i = y * s.fe.mb_w + x;
            &&& goes_on(t.cab@, s.cab@)
            &&& t.cab@.len() > s.cab@.len()
            &&& t.qpy@ == s.qpy@.update(i, t.fe.cur_qp)
            &&& t.fe.cur_qp == env.qps@[i] || t.fe.cur_qp == s.fe.cur_qp
            &&& t.fe.qp == env.qps@[i]
        }),
{
    let i = grid::cell(s.fe.mb_w as int, x, y);
    let a = pslice::begun(s.fe, env.qps@[i]);
    let (m, p, b) = choose|m: FrameEncoder, p: MbPlan, b: Seq<Bin>|
        {
            &&& #[trigger] mbcavlc::intra_planned(*env.k, a, m, env.sy@, env.su@, env.sv@, x, y, p)
            &&& #[trigger] mbcabac::i_coded(m, t.fe, s.cab@, b, s.cs, t.cs, p, x, y)
            &&& t.qpy@ == s.qpy@.update(i, t.fe.cur_qp)
            &&& t.cab@ == b.push(Bin::term(i + 1 == s.fe.mb_w * s.fe.mb_h))
        };
    assert(m.qp == a.qp && m.cur_qp == a.cur_qp);
    let w = m.mb_w as int;
    let ty = crate::binarize::mb_type_i_bins(
        mbcabac::cat_ctx(s.cs.cat@, mbcabac::top_of(w, x, y), mbcabac::left_of(w, x, y)),
        mbcabac::type_of(p),
    );
    let c = mbcabac::intra_code(m, s.cs, p, x, y);
    assert(b == s.cab@ + ty + c.bins);
    assert(t.cab@.take(s.cab@.len() as int) =~= s.cab@);
}

/// An `I_NxN` macroblock in CAVLC has, behind its type and modes, its chroma mode, its pattern, the QP step
/// where anything is coded, and then its luma by the pattern.
pub proof fn law_nxn_elements(
    fe: FrameEncoder,
    x: int,
    y: int,
    p: MbPlan,
    is_p: bool,
    out: Seq<ElemView>,
    b: int,
)
    requires
        p.wf(),
        p.use_i4,
        0 <= b < 16,
    ensures
        ({
            let r = mbcavlc::nxn_coded(fe, x, y, p, is_p, out).out;
            let h = mbcavlc::nxn_head(fe, x, y, p, is_p);
            let n = out.len() as int + h.len();
            let cbp = mbcavlc::nxn_cbp(p);
            let m = n + 2 + (if cbp != 0 {
                1int
            } else {
                0
            });
            let at = m + 4 * elements::marked_before(cbp % 16, b / 4) + b % 4;
            &&& r.len() == m + 4 * elements::marked_before(cbp % 16, 4)
            &&& r.take(n) == out + h
            &&& r[n] == ElemView::Ue(p.chroma_mode as u32)
            &&& r[n + 1] == ElemView::CbpIntra(cbp as u32)
            &&& cbp != 0 ==> r[n + 2] is Se && fe.cur_qp + r[n + 2]->Se_0 == fe.qp
            &&& plan::cbp_bit(cbp % 16, b / 4) ==> at < r.len() && r[at] is Residual && r[at]->levels
                == (if p.i8 is Some {
                mbcavlc::levels8(p.i8->Some_0.q@)
            } else {
                mbcavlc::levels4(p.i4->Some_0.q@)
            })[b]
        }),
{
    let w = fe.mb_w as int;
    let h = mbcavlc::nxn_head(fe, x, y, p, is_p);
    let cbp = mbcavlc::nxn_cbp(p);
    let mid = seq![ElemView::Ue(p.chroma_mode as u32), ElemView::CbpIntra(cbp as u32)];
    let qe = mbcavlc::qp_elems(fe, cbp != 0);
    let whole = out + h + mid + qe;
    let levels = if p.i8 is Some {
        mbcavlc::levels8(p.i8->Some_0.q@)
    } else {
        mbcavlc::levels4(p.i4->Some_0.q@)
    };
    let run = Run { nnz: fe.nnz_y@, out: whole };
    let r = mbcavlc::nxn_coded(fe, x, y, p, is_p, out).out;
    assert(r == cavlc::luma_run(w, x, y, levels, cbp % 16, 0, run).out);
    elements::law_luma_order(w, x, y, levels, cbp % 16, run, b);
    elements::lemma_marked(cbp % 16, 3);
    elements::lemma_marked(cbp % 16, b / 4);
    let n = (out + h).len() as int;
    let k = whole.len() as int;
    assert forall|i: int| 0 <= i < k implies r[i] == whole[i] by {
        assert(r.take(k)[i] == whole[i]);
    }
    assert(r.take(n) =~= out + h);
}

/// Between equal frames nothing differs: no sampled macroblock without motion, and so the floor of grain is
/// zero where there is one.
pub proof fn law_equal_frames_show_no_grain<'a>(s: FrameSignals<'a>, f: Option<u32>)
    requires
        s.wf(),
        s.ref_y is Some,
        s.ref_y->Some_0@ == s.sy@,
        call_ensures(FrameSignals::<'a>::grain_floor, (&s,), f),
    ensures
        s.mb_w >= 6 && s.mb_h >= 6 ==> f == Some(0u32),
        s.mb_w < 6 || s.mb_h < 6 ==> f is None,
{
    if f is Some {
        let r = s.ref_y->Some_0@;
        let (at, v) = choose|at: Seq<(usize, usize)>, v: Seq<i64>|
            {
                &&& signals::stands_for(at, s.mb_w as int, s.mb_h as int, 48)
                &&& #[trigger] signals::stills(s.sy@, r, s.cw, at, v)
                &&& rank::is_nth(v, v.len() as int / 4, f->Some_0 as i64)
            };
        rank::law_nth_is_an_entry(v, v.len() as int / 4, f->Some_0 as i64);
        let i = choose|i: int| 0 <= i < v.len() && #[trigger] v[i] == f->Some_0 as i64;
        lemma_still(s.sy@, s.cw, 16 * at[i].0, 16 * at[i].1);
    }
}

/// The difference of a square to itself.
proof fn lemma_still(sy: Seq<u8>, cw: usize, x: int, y: int)
    ensures
        signals::moved_sad(sy, sy, cw, x, y, 0, 0) == 0,
{
    let a = pixels::placed(cw, x as usize, y as usize);
    assert(samples::apart_by(sy, a, sy, a, 16, 256, 0));
    samples::law_sums_of_differences(sy, a, sy, a, 16, 256, 0);
}

/// Between equal frames no search gains anything, near or far.
pub proof fn law_equal_frames_gain_nothing<'a>(
    s: FrameSignals<'a>,
    g: Vec<Gained>,
    h: Vec<Headroom>,
    j: int,
)
    requires
        s.wf(),
        s.ref_y is Some,
        s.ref_y->Some_0@ == s.sy@,
        call_ensures(FrameSignals::<'a>::gains, (&s,), g),
        call_ensures(FrameSignals::<'a>::headrooms, (&s,), h),
    ensures
        0 <= j < g@.len() ==> g@[j].still == 0 && g@[j].shift == 0 && g@[j].best <= 0,
        0 <= j < h@.len() ==> h@[j].local <= 0 && h@[j].wide <= 0,
{
    let r = s.ref_y->Some_0@;
    let at = choose|at: Seq<(usize, usize)>|
        {
            &&& #[trigger] signals::stands_for(at, s.mb_w as int, s.mb_h as int, 24)
            &&& g@.len() == at.len()
            &&& forall|j: int|
                0 <= j < g@.len() ==> signals::gained_of(
                    s.sy@,
                    r,
                    s.cw,
                    at[j].0 as int,
                    at[j].1 as int,
                ) == ((#[trigger] g@[j]).still as int, g@[j].shift as int, g@[j].best as int)
        };
    let to = choose|at: Seq<(usize, usize)>|
        {
            &&& #[trigger] signals::stands_for(at, s.mb_w as int, s.mb_h as int, 24)
            &&& h@.len() == at.len()
            &&& forall|j: int|
                0 <= j < h@.len() ==> signals::headroom_of(
                    s.sy@,
                    r,
                    s.cw,
                    at[j].0 as int,
                    at[j].1 as int,
                ) == ((#[trigger] h@[j]).local as int, h@[j].wide as int)
        };
    if 0 <= j < g@.len() {
        let (x, y) = (at[j].0 as int, at[j].1 as int);
        assert(signals::gained_of(s.sy@, r, s.cw, x, y) == (
            g@[j].still as int,
            g@[j].shift as int,
            g@[j].best as int,
        ));
        lemma_still(s.sy@, s.cw, 16 * x, 16 * y);
        super::lookahead::law_gains(s.sy@, r, s.cw, x, y);
    }
    if 0 <= j < h@.len() {
        let (x, y) = (to[j].0 as int, to[j].1 as int);
        assert(signals::headroom_of(s.sy@, r, s.cw, x, y) == (h@[j].local as int, h@[j].wide as int));
        lemma_still(s.sy@, s.cw, 16 * x, 16 * y);
        super::lookahead::law_gains(s.sy@, r, s.cw, x, y);
    }
}

/// Between equal frames the best single vector leaves nothing.
pub proof fn law_equal_frames_leave_nothing<'a>(s: FrameSignals<'a>)
    requires
        gmc::taken(s.cw as int) * gmc::taken(16 * s.mb_h) >= 0,
    ensures
        s.left_over(s.sy@) <= 0,
{
    let cw = s.cw as int;
    let n = gmc::taken(cw) * gmc::taken(16 * s.mb_h);
    let b = gmc::coarse(s.sy@, s.sy@, cw, n, 49);
    super::lookahead::law_square_walk(12, 4, 3, 3);
    super::lookahead::law_best_single_vector(s.sy@, s.sy@, cw, n, 49, 24);
    super::lookahead::law_global_difference(s.sy@, s.sy@, cw, 0, 0, n as nat);
    super::lookahead::law_refined_single_vector(s.sy@, s.sy@, cw, n, b, 49, 0);
}

} // verus!
