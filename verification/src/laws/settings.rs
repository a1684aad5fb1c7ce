//! What switches, routes, counters and the end of a slice stand for.
use vstd::prelude::*;
use crate::bstats::{BStats, Which};
use crate::census;
use crate::census::CensusView;
use crate::config::{EncoderConfig, Profile};
use crate::drawn;
use crate::drawn::Drawn;
use crate::finish;
use crate::frame::FrameEncoder;
use crate::knobs;
use crate::knobs::Knobs;
use crate::mbstate::RefFrame;
use crate::route::{Route, Signs};
use crate::search::DIA_RUNGS;
use crate::spstats;
use crate::telemetry;

verus! {

/// A switch that was set wins over the outer setting, and that over the default.
pub proof fn law_switches(knob: u32, outer: Option<u32>, default: u32)
    ensures
        knob != 0xffff_ffff ==> knobs::resolved(knob, outer, default) == knob,
        knob == 0xffff_ffff && outer is Some ==> knobs::resolved(knob, outer, default)
            == outer->Some_0,
        knob == 0xffff_ffff && outer is None ==> knobs::resolved(knob, outer, default) == default,
{
}

/// How vectors are priced: in steps where that is chosen; smoothly where that is chosen; as measured
/// where that is chosen; and where it is left to the frame, smoothly exactly in a frame that asks for it.
pub proof fn law_price_kinds(k: Knobs, outer: Option<u32>, smooth: bool)
    ensures
        ({
            let r = k.cost_kind(outer, smooth);
            let m = if k.mv_smooth <= 3 {
                k.mv_smooth
            } else if outer is Some {
                outer->Some_0
            } else {
                1
            };
            &&& m == 0 ==> r == 0
            &&& m == 1 && smooth ==> r == 1
            &&& m == 1 && !smooth ==> r == 0
            &&& m == 2 ==> r == 1
            &&& m >= 3 ==> r == 2
        }),
{
}

/// Judging neighbours together below whole samples is off unless it is asked for; at whole samples it is
/// on unless it is refused.
pub proof fn law_joint_judging(k: Knobs, outer: Option<bool>, sp: bool, me: bool)
    requires
        call_ensures(Knobs::sp_fc_enabled, (&k, outer), sp),
        call_ensures(Knobs::me_fc_enabled, (&k, outer), me),
    ensures
        k.sp_fc == 0 ==> !sp,
        k.sp_fc == 1 ==> sp,
        k.sp_fc > 1 ==> sp == (outer == Some(true)),
        k.me_fc == 0 ==> !me,
        k.me_fc == 1 ==> me,
        k.me_fc > 1 ==> me == (outer != Some(false)),
{
}

/// The refinement's learning is off without its switch; else it watches 200 refinements and asks for 67
/// percent, unless told otherwise.
pub proof fn law_learning_setting(
    knob: u32,
    on: bool,
    learn: Option<u32>,
    share: Option<i64>,
    r: (u32, i64),
)
    requires
        call_ensures(knobs::sp_dispatch_cfg, (knob, on, learn, share), r),
    ensures
        knob == 0 || !on ==> r == (0u32, 0i64),
        knob != 0 && on && learn is Some ==> r.0 == learn->Some_0,
        knob != 0 && on && learn is None ==> r.0 == 200,
        knob != 0 && on && share is Some ==> r.1 == share->Some_0,
        knob != 0 && on && share is None ==> r.1 == 67,
{
}

/// The mask of a list of distances has the bit of each that stands in the list, and no other.
pub proof fn law_distance_mask(want: Seq<i32>, i: int)
    requires
        0 <= i < 5,
    ensures
        0 <= knobs::mask_of(want, 5) < 32,
        (knobs::mask_of(want, 5) / super::searching::pow_2(i)) % 2 == 1 <==> want.contains(
            DIA_RUNGS[i],
        ),
{
    reveal_with_fuel(knobs::mask_of, 6);
    reveal_with_fuel(super::searching::pow_2, 6);
    let m = knobs::mask_of(want, 5);
    let bit = |j: int, v: int|
        if want.contains(DIA_RUNGS@[j]) {
            v
        } else {
            0
        };
    assert(m == bit(0, 1) + bit(1, 2) + bit(2, 4) + bit(3, 8) + bit(4, 16));
    assert(super::searching::pow_2(i) == (if i == 0 {
        1int
    } else if i == 1 {
        2
    } else if i == 2 {
        4
    } else if i == 3 {
        8
    } else {
        16
    }));
    if i == 0 {
        assert((m / 1) % 2 == 1 <==> want.contains(DIA_RUNGS@[0]));
    } else if i == 1 {
        assert((m / 2) % 2 == 1 <==> want.contains(DIA_RUNGS@[1]));
    } else if i == 2 {
        assert((m / 4) % 2 == 1 <==> want.contains(DIA_RUNGS@[2]));
    } else if i == 3 {
        assert((m / 8) % 2 == 1 <==> want.contains(DIA_RUNGS@[3]));
    } else {
        assert((m / 16) % 2 == 1 <==> want.contains(DIA_RUNGS@[4]));
    }
}

/// The distances are those that were set; else those listed, if any is known; else sixteen samples and
/// less are not walked from: the last three.
pub proof fn law_distance_setting(k: Knobs, v: Vec<i32>, listed: u32, unlisted: u32)
    requires
        call_ensures(Knobs::dia_mask, (&k, Some(&v)), listed),
        call_ensures(Knobs::dia_mask, (&k, None::<&Vec<i32>>), unlisted),
    ensures
        k.dia_mask != 0xffff_ffff ==> listed == k.dia_mask && unlisted == k.dia_mask,
        k.dia_mask == 0xffff_ffff ==> unlisted == 4 + 8 + 16,
        k.dia_mask == 0xffff_ffff && knobs::mask_of(v@, 5) != 0 ==> listed == knobs::mask_of(v@, 5),
        k.dia_mask == 0xffff_ffff && knobs::mask_of(v@, 5) == 0 ==> listed == unlisted,
{
    law_distance_mask(v@, 0);
}

/// A charge is added to every entry of a table but that of no difference, and stops at the highest number.
pub proof fn law_charged(c: u16, d: int, bias: u16)
    ensures
        d == 0 ==> knobs::charged(c, d, bias) == c,
        d != 0 && c + bias <= 65535 ==> knobs::charged(c, d, bias) == c + bias,
        d != 0 && c + bias > 65535 ==> knobs::charged(c, d, bias) == 65535,
{
}

/// A pan or a cramped frame is searched without the grid. The signs decide the measure of whole samples
/// where that is left to the frame, in a frame with references that is not fast; then also the price of
/// vectors where that is left to it, and whether macroblocks are divided where there is a sign.
pub proof fn law_routes(
    start: Route,
    has_refs: bool,
    fast: bool,
    sadfp_mode: u32,
    smooth_mode: u32,
    s: Signs,
)
    ensures
        ({
            let r = start.taken(has_refs, fast, sadfp_mode, smooth_mode, s);
            let left = has_refs && !fast && sadfp_mode == 1;
            &&& r.me_wide ==> start.me_wide
            &&& has_refs && s.pan ==> !r.me_wide
            &&& has_refs && s.cramped ==> !r.me_wide
            &&& start.me_wide && !s.pan && !s.cramped ==> r.me_wide
            &&& left ==> r.sadfp == s.moving
            &&& !left ==> r.sadfp == start.sadfp && r.mv_smooth == start.mv_smooth && r.do_splits
                == start.do_splits
            &&& left && smooth_mode == 1 ==> r.mv_smooth == s.smooth
            &&& left && smooth_mode != 1 ==> r.mv_smooth == start.mv_smooth
            &&& left && s.dividing is Some ==> r.do_splits == s.dividing->Some_0
            &&& left && s.dividing is None ==> r.do_splits == start.do_splits
        }),
{
}

/// The bits behind a header fill its last byte with ones, and less than a byte.
pub proof fn law_fill(len: int, i: int)
    requires
        0 <= len,
    ensures
        (len + finish::fill(len).len()) % 8 == 0,
        finish::fill(len).len() < 8,
        0 <= i < finish::fill(len).len() ==> finish::fill(len)[i],
{
}

/// Edges between blocks are filtered by their references: those of blocks that have one stay apart and
/// are kept, all others are alike and like no reference.
pub proof fn law_filter_references(a: &[i32], r: Vec<i32>, i: int, j: int)
    requires
        call_ensures(finish::filter_refs, (a,), r),
        0 <= i < a@.len(),
        0 <= j < a@.len(),
    ensures
        r@.len() == a@.len(),
        a@[i] >= 0 ==> r@[i] == a@[i],
        a@[i] < 0 && a@[j] < 0 ==> r@[i] == r@[j],
        a@[i] < 0 && a@[j] >= 0 ==> r@[i] != r@[j],
        a@[i] >= 0 && a@[j] >= 0 && a@[i] != a@[j] ==> r@[i] != r@[j],
{
}

/// A coded frame becomes a reference with its samples and its motion in list 0.
pub proof fn law_reference_of_a_frame(fe: FrameEncoder, r: RefFrame)
    requires
        call_ensures(finish::into_reference, (fe,), r),
    ensures
        r.y@ == fe.rec_y@,
        r.u@ == fe.rec_u@,
        r.v@ == fe.rec_v@,
        r.mv@ == fe.mv_y@,
        r.ref_idx@ == fe.ref_idx_y@,
        r.w4 == 4 * fe.mb_w,
{
}

/// The settings of a new configuration, and how many macroblocks cover its frames: as few as cover them.
pub proof fn law_new_configuration(width: usize, height: usize, c: EncoderConfig, w: usize, h: usize)
    requires
        call_ensures(EncoderConfig::new, (width, height), c),
        call_ensures(EncoderConfig::mb_width, (&c,), w),
        call_ensures(EncoderConfig::mb_height, (&c,), h),
    ensures
        c.width == width && c.height == height,
        c.profile == Profile::High,
        c.cabac && c.transform_8x8 && c.weightp,
        c.qp == 26,
        c.num_ref_frames == 3,
        c.bframes == 0,
        16 * w >= width && 16 * w < width + 16,
        16 * h >= height && 16 * h < height + 16,
        16 * c.mbs_across() >= width && 16 * c.mbs_across() < width + 16,
        16 * c.mbs_down() >= height && 16 * c.mbs_down() < height + 16,
{
}

/// Each counter of trials belongs to one stage and one position, or to one stage and one pass, where late
/// ones share one; trials stand at even places, successes behind them.
pub proof fn law_trial_cells(a: int, b: int, p: int, q: int)
    requires
        0 <= a < 2,
        0 <= b < 2,
        0 <= p,
        0 <= q,
    ensures
        0 <= spstats::pos_cell(a, p) <= 30 && spstats::pos_cell(a, p) % 2 == 0,
        spstats::pos_cell(a, p) == spstats::pos_cell(b, q) <==> a == b && (p == q || (p >= 7 && q
            >= 7)),
        0 <= spstats::it_cell(a, p) <= 22 && spstats::it_cell(a, p) % 2 == 0,
        spstats::it_cell(a, p) == spstats::it_cell(b, q) <==> a == b && (p == q || (p <= 1 && q
            <= 1) || (p >= 6 && q >= 6)),
{
}

/// The gates are told apart, and the ones of macroblocks are those of quarters, of shapes and of intra.
pub proof fn law_gates()
    ensures
        census::AQ_GRAIN < census::MBTREE_GRAIN < census::MBTREE_BACKOFF < census::SUB8_GRAIN
            < census::SUB8_SPLIT < census::SUB8_RD_REVERT < census::INTRA_RD_FLIP
            < census::SHAPE_RD_FLIP < census::MBTREE_SPREAD_LATCH < census::N,
        census::W_BEST_PART < census::W_MB_PLAN < census::W_MB_CODED < census::W_REF_SEARCH
            < census::WN,
        census::of_a_macroblock(census::SUB8_SPLIT as int),
        census::of_a_macroblock(census::SUB8_RD_REVERT as int),
        census::of_a_macroblock(census::INTRA_RD_FLIP as int),
        census::of_a_macroblock(census::SHAPE_RD_FLIP as int),
        !census::of_a_macroblock(census::AQ_GRAIN as int),
        !census::of_a_macroblock(census::MBTREE_GRAIN as int),
        !census::of_a_macroblock(census::MBTREE_BACKOFF as int),
        !census::of_a_macroblock(census::SUB8_GRAIN as int),
        !census::of_a_macroblock(census::MBTREE_SPREAD_LATCH as int),
{
}

/// Asking a gate raises its count of questions, and that of answers where it fired; a census that is off
/// counts nothing.
pub proof fn law_questions_count(v: CensusView, i: usize, fired: bool)
    requires
        v.wf(),
        i < census::N,
        v.all.seen[i as int] < u64::MAX,
        v.all.fired[i as int] < u64::MAX,
    ensures
        ({
            let w = v.bumped(i, fired);
            &&& v.on ==> w.all.seen[i as int] == v.all.seen[i as int] + 1
            &&& v.on ==> w.all.fired[i as int] == v.all.fired[i as int] + (if fired {
                1int
            } else {
                0
            })
            &&& v.on && census::of_a_macroblock(i as int) ==> w.pending.len() == v.pending.len() + 1
            &&& !v.on ==> w == v
        }),
{
}

/// At the end of a macroblock the questions held back count for its transform size and for no other, and
/// none is held back any longer.
pub proof fn law_macroblock_end_counts(v: CensusView, t8: bool)
    requires
        v.on,
    ensures
        ({
            let w = v.committed(t8);
            let n = v.pending.len() as int;
            &&& w.pending.len() == 0
            &&& w.all == v.all
            &&& t8 ==> w.by4 == v.by4 && w.by8 == v.by8.asked_all(v.pending, n)
            &&& !t8 ==> w.by8 == v.by8 && w.by4 == v.by4.asked_all(v.pending, n)
        }),
{
}

/// Work counts at its own counter.
pub proof fn law_work_counts(v: CensusView, i: usize, j: int)
    requires
        v.wf(),
        i < census::WN,
        0 <= j < census::WN,
        v.done[i as int] < u64::MAX,
    ensures
        v.on ==> v.worked(i).done[i as int] == v.done[i as int] + 1,
        j != i ==> v.worked(i).done[j] == v.done[j],
        v.worked(i).all == v.all,
{
}

/// Each counter of B slices is raised alone, and only while they are on.
pub proof fn law_b_counters(s: BStats)
    requires
        s.skip < u64::MAX,
        s.coded < u64::MAX,
        s.dirwin < u64::MAX,
        s.split < u64::MAX,
    ensures
        s.on ==> s.bumped(Which::Skip) == (BStats { skip: (s.skip + 1) as u64, ..s }),
        s.on ==> s.bumped(Which::Coded) == (BStats { coded: (s.coded + 1) as u64, ..s }),
        s.on ==> s.bumped(Which::DirWin) == (BStats { dirwin: (s.dirwin + 1) as u64, ..s }),
        s.on ==> s.bumped(Which::Split) == (BStats { split: (s.split + 1) as u64, ..s }),
        !s.on ==> s.bumped(Which::Skip) == s && s.bumped(Which::Coded) == s,
{
}

/// Runs: each row starts one, and so does each sample that differs from the one before it.
pub proof fn law_runs(sy: Seq<u8>, cw: int, k: nat)
    requires
        cw > 0,
    ensures
        drawn::runs(sy, cw, k as int) <= k,
        drawn::runs(sy, cw, (k + 1) as int) - drawn::runs(sy, cw, k as int) == (if k as int % cw == 0
            || sy[4 * (k as int / cw) * cw + k as int % cw] != sy[4 * ((k - 1) / cw) * cw + (k - 1)
            % cw] {
            1int
        } else {
            0
        }),
        0 <= drawn::runs(sy, cw, k as int),
    decreases k,
{
    if k > 0 {
        law_runs(sy, cw, (k - 1) as nat);
    }
}

/// Every fourth row is counted; samples count for their value.
pub proof fn law_values_count(sy: Seq<u8>, cw: int, v: int, k: int)
    requires
        0 <= k,
    ensures
        drawn::having(sy, cw, v, 0) == 0,
        drawn::having(sy, cw, v, k + 1) - drawn::having(sy, cw, v, k) == (if sy[4 * (k / cw) * cw + k
            % cw] == v {
            1int
        } else {
            0
        }),
{
}

/// The sum of the greatest entries takes the greatest one first and counts none twice; more entries never
/// sum up to less.
pub proof fn law_greatest(h: Seq<u64>, n: nat, i: int)
    requires
        0 <= i < h.len(),
    ensures
        drawn::greatest(h, 0) == 0,
        drawn::greatest(h, 1) >= h[i],
        drawn::greatest(h, (n + 1) as int) >= drawn::greatest(h, n as int),
        exists|j: int| 0 <= j < h.len() && #[trigger] h[j] == drawn::greatest(h, 1),
    decreases n,
{
    let p = drawn::peak(h, h.len() as int);
    drawn::law_peak_is_the_greatest(h, h.len() as int);
    let g = h.update(p, 0);
    assert(drawn::greatest(g, 0) == 0);
    assert(drawn::greatest(h, 1) == h[p] + drawn::greatest(g, 0));
    if n > 0 {
        law_greatest(g, (n - 1) as nat, i);
        assert(drawn::greatest(h, (n + 1) as int) == h[p] + drawn::greatest(g, n as int));
        assert(drawn::greatest(h, n as int) == h[p] + drawn::greatest(g, n - 1));
    } else {
        assert(drawn::greatest(h, n as int) == 0);
    }
}

/// A frame is taken for drawn exactly where its runs are four samples long on average and sixteen values
/// hold half of its samples.
pub proof fn law_drawn(d: Drawn)
    requires
        d.samples > 0,
        d.runs > 0,
    ensures
        d.screen() <==> 4 * d.runs <= d.samples && d.samples <= 2 * d.top16,
{
}

/// The widths of the less probable symbol weigh in by the middles of the four quarters of the range, 288,
/// 352, 416 and 480: each as a share of its own.
pub proof fn law_widths_weigh_in(x: u8)
    ensures
        288 * telemetry::lps_parts([x, 0u8, 0u8, 0u8]) == 205920 * x,
        352 * telemetry::lps_parts([0u8, x, 0u8, 0u8]) == 205920 * x,
        416 * telemetry::lps_parts([0u8, 0u8, x, 0u8]) == 205920 * x,
        480 * telemetry::lps_parts([0u8, 0u8, 0u8, x]) == 205920 * x,
{
}

/// The probability of a bin 0 is the mean share of the less probable symbol, or what that leaves, to the
/// nearest of 256 parts.
pub proof fn law_nearest_share(lps: [u8; 4], mps: u8)
    requires
        1 < telemetry::zero_share(lps, mps) < 255,
    ensures
        ({
            let less = 2 * telemetry::lps_parts(lps);
            let zero = if mps == 0 {
                256 * 6435 - less
            } else {
                less
            };
            let s = telemetry::zero_share(lps, mps);
            2 * (6435 * s - zero) <= 6435 && 2 * (zero - 6435 * s) <= 6435
        }),
{
}

} // verus!
