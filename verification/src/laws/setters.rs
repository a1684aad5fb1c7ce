//! What the functions that write and decide leave behind.
use vstd::prelude::*;
use crate::bits;
use crate::bits::BitWriter;
use crate::cabac::CabacEncoder;
use crate::config::EncoderConfig;
use crate::frame::FrameEncoder;
use crate::grid;
use crate::kernels;
use crate::kernels::{Kernels, Phase, Price};
use crate::knobs;
use crate::knobs::Knobs;
use crate::mbinter;
use crate::mbinter::Part;
use crate::mbstate::RefFrame;
use crate::motion;
use crate::motion::MvNeighbor;
use crate::params;
use crate::readback;
use crate::search::Pricer;
use crate::setup;
use crate::slice;
use crate::slicehead;
use crate::telemetry;
use crate::telemetry::{SliceTap, Tap};
use super::contexts;
use super::direct;

verus! {

/// Switching smooth prices on prices vectors smoothly in every frame, switching them off in steps,
/// whatever the outer setting says; a mode that is set is kept up to the last one. No other switch moves.
pub proof fn law_smooth_switch(
    k: &mut Knobs,
    j: &mut Knobs,
    on: bool,
    m: u32,
    outer: Option<u32>,
    smooth: bool,
)
    requires
        call_ensures(knobs::set_mv_smooth, (k, on), ()),
        call_ensures(knobs::set_mv_smooth_mode, (j, m), ()),
    ensures
        on ==> mut_ref_future(k).cost_kind(outer, smooth) == 1,
        !on ==> mut_ref_future(k).cost_kind(outer, smooth) == 0,
        mut_ref_future(k) == (Knobs { mv_smooth: mut_ref_future(k).mv_smooth, ..mut_ref_current(k) }),
        m == 0 ==> mut_ref_future(j).cost_kind(outer, smooth) == 0,
        m == 1 ==> mut_ref_future(j).cost_kind(outer, smooth) == (if smooth {
            1u32
        } else {
            0
        }),
        m == 2 ==> mut_ref_future(j).cost_kind(outer, smooth) == 1,
        m >= 3 ==> mut_ref_future(j).cost_kind(outer, smooth) == 2,
        mut_ref_future(j) == (Knobs { mv_smooth: mut_ref_future(j).mv_smooth, ..mut_ref_current(j) }),
{
}

/// A switch that was set is what its question answers afterwards, whatever the outer setting says.
pub proof fn law_switch_answers(
    a: &mut Knobs,
    b: &mut Knobs,
    c: &mut Knobs,
    d: &mut Knobs,
    on: bool,
    n: u32,
    outer: Option<bool>,
    more: Option<u32>,
    sp: bool,
    me: bool,
)
    requires
        call_ensures(knobs::set_sp_fc, (a, on), ()),
        call_ensures(knobs::set_me_fc, (b, on), ()),
        call_ensures(knobs::set_sp_maxit, (c, n), ()),
        call_ensures(knobs::set_me_sadfp, (d, on), ()),
        call_ensures(Knobs::sp_fc_enabled, (&mut_ref_future(a), outer), sp),
        call_ensures(Knobs::me_fc_enabled, (&mut_ref_future(b), outer), me),
        n != 0xffff_ffff,
    ensures
        sp == on,
        me == on,
        knobs::resolved(mut_ref_future(c).sp_maxit, more, 0) == n,
        knobs::resolved(mut_ref_future(d).me_sadfp, more, 1) == (if on {
            2u32
        } else {
            0
        }),
{
}

/// A decoder that reads behind what was there finds the header of a P slice, with the slice's QP.
pub proof fn law_written_p_header(
    w: &mut BitWriter,
    cfg: EncoderConfig,
    qp: u8,
    frame_num: u32,
    poc_lsb: u32,
    active: usize,
)
    requires
        active <= u32::MAX,
        call_ensures(slice::write_p_slice_header, (w, &cfg, qp, frame_num, poc_lsb, active), ()),
    ensures
        ({
            let (s, p) = (mut_ref_future(w)@, mut_ref_current(w)@.len() as int);
            let (h, end) = slicehead::read_head(s, p, params::pps_of(cfg), false, true);
            &&& s.take(p) == mut_ref_current(w)@
            &&& end == s.len()
            &&& h.qp == qp
            &&& slicehead::is_p(h.slice_type)
            &&& h.frame_num == frame_num % 16
            &&& h.poc_lsb == poc_lsb % 16
            &&& cfg.num_ref_frames > 1 && active >= 1 ==> h.active0 == active
        }),
{
    let (s, a) = (mut_ref_future(w)@, mut_ref_current(w)@);
    let t = bits::table_bits(slice::p_header(cfg, qp, frame_num, poc_lsb, active as int));
    lemma_behind(s, a, t);
    slicehead::law_p_header_reads_back(s, a.len() as int, cfg, qp, frame_num, poc_lsb, active as int);
}

/// The same for a B slice in CAVLC, with the references of both lists.
pub proof fn law_written_b_header(
    w: &mut BitWriter,
    cfg: EncoderConfig,
    qp: u8,
    frame_num: u32,
    poc_lsb: u32,
    l0: usize,
    l1: usize,
)
    requires
        l0 <= u32::MAX,
        l1 <= u32::MAX,
        !cfg.cabac,
        call_ensures(slice::write_b_slice_header, (w, &cfg, qp, frame_num, poc_lsb, l0, l1), ()),
    ensures
        ({
            let (s, p) = (mut_ref_future(w)@, mut_ref_current(w)@.len() as int);
            let (h, end) = slicehead::read_head(s, p, params::pps_of(cfg), false, false);
            &&& s.take(p) == mut_ref_current(w)@
            &&& end == s.len()
            &&& h.qp == qp
            &&& slicehead::is_b(h.slice_type)
            &&& h.frame_num == frame_num % 16
            &&& h.poc_lsb == poc_lsb % 16
            &&& l0 >= 1 ==> h.active0 == l0
            &&& l1 >= 1 ==> h.active1 == l1
            &&& h.spatial
        }),
{
    let (s, a) = (mut_ref_future(w)@, mut_ref_current(w)@);
    let t = bits::table_bits(
        slice::b_header(cfg, qp, frame_num, poc_lsb, l0 as int, l1 as int),
    );
    lemma_behind(s, a, t);
    slicehead::law_b_header_reads_back(
        s,
        a.len() as int,
        cfg,
        qp,
        frame_num,
        poc_lsb,
        l0 as int,
        l1 as int,
    );
}

/// The same for an IDR slice.
pub proof fn law_written_idr_header(w: &mut BitWriter, cfg: EncoderConfig, qp: u8)
    requires
        call_ensures(slice::write_idr_slice_header, (w, &cfg, qp), ()),
    ensures
        ({
            let (s, p) = (mut_ref_future(w)@, mut_ref_current(w)@.len() as int);
            let (h, end) = slicehead::read_head(s, p, params::pps_of(cfg), true, true);
            &&& s.take(p) == mut_ref_current(w)@
            &&& end == s.len()
            &&& h.qp == qp
            &&& h.slice_type % 5 == 2
            &&& h.frame_num == 0 && h.poc_lsb == 0
        }),
{
    let (s, a) = (mut_ref_future(w)@, mut_ref_current(w)@);
    let t = bits::table_bits(slice::idr_header(cfg, qp));
    lemma_behind(s, a, t);
    slicehead::law_idr_header_reads_back(s, a.len() as int, cfg, qp);
}

proof fn lemma_behind(s: Seq<bool>, a: Seq<bool>, t: Seq<bool>)
    requires
        s == a + t,
    ensures
        bits::stands_at(s, a.len() as int, t),
        s.take(a.len() as int) == a,
        s.len() == a.len() + t.len(),
{
    let p = a.len() as int;
    assert forall|i: int| 0 <= i < t.len() implies #[trigger] s[p + i] == t[i] by {}
    assert(s.take(p) =~= a);
}

/// What a search finds the predictor itself to cost is its distortion and the price of two zero
/// differences: two bits where differences are charged by their codes.
pub proof fn law_cost_of_the_predictor<'a, K: Kernels>(p: Pricer<'a, K>, r: i64)
    requires
        p.wf(),
        *p.rate is Golomb,
        call_ensures(Pricer::<'a, K>::cost, (&p, false, p.center), r),
    ensures
        r == crate::distortion::mv_dist(
            p.fe.by_sad(),
            *p.k,
            p.reference.y@,
            p.sy@,
            p.fe.cw,
            (16 * p.fe.mb_h) as usize,
            p.lx,
            p.ly,
            p.rw,
            p.rh,
            crate::distortion::luma_job(p.list, p.refi, p.lx, p.ly, p.rw, p.rh, p.center),
        ) + kernels::price_of(*p.k, (Price { phase: Phase::Fine, bits: 2, loud: p.fe.mb_loud })),
{
    super::rates::law_rate_of_the_predictor(p);
}

/// The direct motion of the blocks of a macroblock: where a list's reference is 0, a neighbour has one and
/// the co-located block stands still, its vector is zero; else it is the predicted one for the
/// reference, or zero where the list has none.
pub proof fn law_direct_motion_of_blocks(
    fe: FrameEncoder,
    l1: RefFrame,
    x: usize,
    y: usize,
    r: [(i32, (i32, i32), i32, (i32, i32)); 16],
    i: int,
)
    requires
        call_ensures(FrameEncoder::b_direct_motion, (&fe, &l1, x, y), r),
        0 <= i < 16,
    ensures
        ({
            let m = fe.motion();
            let n0 = motion::part_neighbours(m, false, 4 * x, 4 * y, 4);
            let n1 = motion::part_neighbours(m, true, 4 * x, 4 * y, 4);
            let still = direct::stands_still(l1, 4 * x + i % 4, 4 * y + i / 4);
            let some = direct::any_reference(n0) || direct::any_reference(n1);
            let (r0, v0, r1, v1) = r@[i];
            &&& some && r0 == 0 && still ==> v0 == (0i32, 0i32)
            &&& some && r1 == 0 && still ==> v1 == (0i32, 0i32)
            &&& some && (r0 > 0 || (r0 == 0 && !still)) ==> v0 == motion::predicted(
                n0.0,
                n0.1,
                n0.2,
                r0 as int,
            )
            &&& some && (r1 > 0 || (r1 == 0 && !still)) ==> v1 == motion::predicted(
                n1.0,
                n1.1,
                n1.2,
                r1 as int,
            )
            &&& direct::any_reference(n0) ==> direct::smallest_reference(r0, n0)
            &&& direct::any_reference(n1) ==> direct::smallest_reference(r1, n1)
            &&& !some ==> r@[i] == (0i32, (0i32, 0i32), 0i32, (0i32, 0i32))
        }),
{
    assert(r@[i] == crate::mbstate::direct_block(
        fe.motion(),
        l1,
        x as int,
        y as int,
        i % 4,
        i / 4,
    ));
    direct::law_direct_motion(fe.motion(), l1, x as int, y as int, i % 4, i / 4);
}

/// Setting the motion of a macroblock: all its blocks get the vector, whether they are inter, and the
/// reference or none; no other block changes.
pub proof fn law_set_motion(
    fe: &mut FrameEncoder,
    x: usize,
    y: usize,
    mv: (i32, i32),
    inter: bool,
    refi: i32,
    bx: int,
    by: int,
)
    requires
        mut_ref_current(fe).wf(),
        mut_ref_current(fe).has_mb(x as int, y as int),
        call_ensures(FrameEncoder::set_mb_mv, (fe, x, y, mv, inter, refi), ()),
        0 <= bx < 4 * mut_ref_current(fe).mb_w,
        0 <= by < 4 * mut_ref_current(fe).mb_h,
    ensures
        ({
            let (a, b) = (mut_ref_current(fe), mut_ref_future(fe));
            let i = by * (4 * a.mb_w) + bx;
            let inside = 4 * x <= bx < 4 * x + 4 && 4 * y <= by < 4 * y + 4;
            &&& inside ==> b.mv_y@[i] == mv && b.inter_y@[i] == inter
            &&& inside && inter ==> b.ref_idx_y@[i] == refi
            &&& inside && !inter ==> b.ref_idx_y@[i] < 0
            &&& !inside ==> b.mv_y@[i] == a.mv_y@[i] && b.inter_y@[i] == a.inter_y@[i]
                && b.ref_idx_y@[i] == a.ref_idx_y@[i]
        }),
{
    let a = mut_ref_current(fe);
    grid::lemma_cell(4 * a.mb_w, 4 * a.mb_h, bx, by);
}

/// Coding the difference of a partition: a decoder that takes each context by the sum of the neighbours'
/// differences reads both components behind what was there.
pub proof fn law_coded_difference(
    cab: &mut CabacEncoder,
    p: Part,
    mvdc: &mut [[i16; 2]; 30],
    refc: &mut [i8; 30],
    mmvd: &mut [[i16; 2]; 16],
    mref: &mut [i8; 16],
    mvd: (i32, i32),
    r: i8,
)
    requires
        mbinter::part_ok(p@),
        call_ensures(
            mbinter::cb_emit_mvd_partition,
            (cab, &p, mvdc, refc, mmvd, mref, mvd, r),
            (),
        ),
    ensures
        ({
            let m = mbinter::motion(
                mut_ref_current(cab)@,
                mut_ref_current(mvdc),
                mut_ref_current(refc),
                mut_ref_current(mmvd),
                mut_ref_current(mref),
            );
            let s = mut_ref_future(cab)@;
            let cell = 7 + 6 * contexts::row(p.idx as int) + contexts::column(p.idx as int);
            let sx = contexts::neighbour_mvd(m, cell - 6, 0) + contexts::neighbour_mvd(m, cell - 1, 0);
            let sy = contexts::neighbour_mvd(m, cell - 6, 1) + contexts::neighbour_mvd(m, cell - 1, 1);
            exists|cx: int, cy: int, q: int|
                {
                    &&& (sx < 3 ==> cx == 0) && (3 <= sx <= 32 ==> cx == 1) && (sx > 32 ==> cx == 2)
                    &&& (sy < 3 ==> cy == 0) && (3 <= sy <= 32 ==> cy == 1) && (sy > 32 ==> cy == 2)
                    &&& #[trigger] readback::read_mvd(
                        s,
                        mut_ref_current(cab)@.len() as int,
                        0,
                        cx,
                    ) == Some((mvd.0 as int, q))
                    &&& #[trigger] readback::read_mvd(s, q, 1, cy) == Some(
                        (mvd.1 as int, s.len() as int),
                    )
                }
        }),
{
    let m = mbinter::motion(
        mut_ref_current(cab)@,
        mut_ref_current(mvdc),
        mut_ref_current(refc),
        mut_ref_current(mmvd),
        mut_ref_current(mref),
    );
    contexts::law_mvd_contexts(m, p@, mvd, r);
    assert(mut_ref_future(cab)@ == m.with_mvd(p@, mvd, r).bins);
}

/// Moving QPs by offsets: each by its own, kept in range, where there is one for each; else none.
pub proof fn law_moved_qps(q: &mut Vec<u8>, o: &[i32], i: int)
    requires
        call_ensures(setup::apply_mbtree_qpo, (q, o), ()),
        0 <= i < mut_ref_current(q)@.len(),
    ensures
        ({
            let (a, b) = (mut_ref_current(q)@, mut_ref_future(q)@);
            let v = a[i] + o@[i];
            &&& b.len() == a.len()
            &&& o@.len() == a.len() && 0 <= v <= 51 ==> b[i] == v
            &&& o@.len() == a.len() && v < 0 ==> b[i] == 0
            &&& o@.len() == a.len() && v > 51 ==> b[i] == 51
            &&& o@.len() != a.len() ==> b == a
        }),
{
}

/// Taking what a tap has recorded hands out all slices and leaves none; switching it off drops them.
pub proof fn law_tap_is_emptied(t: &mut Tap, u: &mut Tap, v: Vec<SliceTap>, on: bool)
    requires
        call_ensures(telemetry::take, (t,), v),
        call_ensures(telemetry::enable, (u, on), ()),
    ensures
        telemetry::slices(v@) == mut_ref_current(t)@.slices,
        mut_ref_future(t)@.slices.len() == 0,
        mut_ref_future(t)@.enabled == mut_ref_current(t)@.enabled,
        mut_ref_future(u)@.enabled == on,
        on ==> mut_ref_future(u)@.slices == mut_ref_current(u)@.slices,
        !on ==> mut_ref_future(u)@.slices.len() == 0,
{
}

/// The predicted vector that a partition is coded against, as it is computed.
pub proof fn law_computed_prediction(
    a: MvNeighbor,
    b: MvNeighbor,
    c: MvNeighbor,
    r: i32,
    v: (i32, i32),
)
    requires
        call_ensures(motion::predict_mv, (a, b, c, r), v),
    ensures
        a.available && !b.available && !c.available ==> v == a.mv,
        a.available && b.available && a.ref_idx == r && b.ref_idx != r && c.ref_idx != r ==> v == a.mv,
        b.available && a.ref_idx != r && b.ref_idx == r && c.ref_idx != r ==> v == b.mv,
        c.available && a.ref_idx != r && b.ref_idx != r && c.ref_idx == r ==> v == c.mv,
        a.ref_idx == r && b.ref_idx == r && b.available ==> super::motion::in_the_middle(
            v.0 as int,
            a.mv.0 as int,
            b.mv.0 as int,
            c.mv.0 as int,
        ) && super::motion::in_the_middle(
            v.1 as int,
            a.mv.1 as int,
            b.mv.1 as int,
            c.mv.1 as int,
        ),
{
}

} // verus!
