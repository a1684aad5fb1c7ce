//! Coding a macroblock on trial: its distortion and rate are taken, and the frame is put back.
use vstd::prelude::*;
use crate::bits;
use crate::bits::mvd_bits;
use crate::cavlc;
use crate::cavlc::{ElemView, Run, Syntax};
use crate::frame::FrameEncoder;
use crate::grid;
use crate::interplan;
use crate::intra4;
use crate::intra4::{I4Ctx, I4State};
use crate::intra8;
use crate::intra8::{I8Ctx, I8State};
use crate::intraplan;
use crate::kernels;
use crate::kernels::{Kernels, Rd};
use crate::mbcavlc;
use crate::mbcavlc::{encode_mb, Coding};
use crate::mbstate;
use crate::mbstate::{MbState, RefFrame};
use crate::motion;
use crate::motion::MotionView;
use crate::partition;
use crate::partition::{BInter, MotionPart};
use crate::plan::{InterPlan, MbPlan};
use crate::quant;
use crate::quant::{level_bits, luma_bits};
use crate::rect;
use crate::scan::{CHROMA_4X4_SCAN_XY, LUMA_4X4_SCAN_XY};
use crate::skip;

verus! {

/// A rectangle inside macroblock `(mb_x, mb_y)`, of a grid with `k` by `k` cells for each.
pub open spec fn within(mb_x: int, mb_y: int, k: int, x: int, y: int, rw: int, rh: int) -> bool {
    k * mb_x <= x && x + rw <= k * mb_x + k && k * mb_y <= y && y + rh <= k * mb_y + k
}

proof fn lemma_update_same<T>(
    g: Seq<T>,
    mb_w: int,
    mb_h: int,
    mb_x: int,
    mb_y: int,
    k: int,
    x: int,
    y: int,
    v: T,
)
    requires
        0 <= mb_x < mb_w,
        0 <= mb_y < mb_h,
        k == 2 || k == 4,
        within(mb_x, mb_y, k, x, y, 1, 1),
        g.len() == (k * mb_w) * (k * mb_h),
    ensures
        mbstate::same_outside(
            g,
            g.update(grid::cell(k * mb_w, x, y), v),
            mb_w,
            mb_x,
            mb_y,
            k,
        ),
{
    assert(x < k * mb_w && y < k * mb_h && 0 <= x && 0 <= y) by (nonlinear_arith)
        requires
            k * mb_x <= x < k * mb_x + k,
            k * mb_y <= y < k * mb_y + k,
            0 <= mb_x,
            0 <= mb_y,
            mb_x + 1 <= mb_w,
            mb_y + 1 <= mb_h,
            k > 0,
    ;
    grid::lemma_cell(k * mb_w, k * mb_h, x, y);
}

/// Motion committed part by part changes nothing outside the macroblock.
proof fn lemma_moved_same(
    m: MotionView,
    mb_w: int,
    mb_x: int,
    mb_y: int,
    parts: Seq<MotionPart>,
    i: int,
)
    requires
        partition::rects_ok(parts),
        m.w == 4 * mb_w,
        0 <= i,
    ensures
        ({
            let n = partition::moved(m, false, mb_x, mb_y, parts, i);
            &&& mbstate::same_outside(m.mv0, n.mv0, mb_w, mb_x, mb_y, 4)
            &&& mbstate::same_outside(m.ref0, n.ref0, mb_w, mb_x, mb_y, 4)
            &&& mbstate::same_outside(m.inter, n.inter, mb_w, mb_x, mb_y, 4)
            &&& mbstate::same_outside(m.coded, n.coded, mb_w, mb_x, mb_y, 4)
            &&& n.mv1 == m.mv1
            &&& n.ref1 == m.ref1
            &&& n.w == m.w
        }),
    decreases parts.len() - i,
{
    if i < parts.len() {
        let p = parts[i];
        let c = partition::committed(m, false, mb_x, mb_y, p);
        let (x, y) = (4 * mb_x + p.rx as int / 4, 4 * mb_y + p.ry as int / 4);
        let (w, h) = (p.rw as int / 4, p.rh as int / 4);
        assert(within(mb_x, mb_y, 4, x, y, w, h));
        lemma_moved_same(c, mb_w, mb_x, mb_y, parts, i + 1);
    }
}

/// Coding luma changes no count outside the macroblock.
proof fn lemma_luma_run_same(
    mb_w: int,
    mb_h: int,
    mb_x: int,
    mb_y: int,
    levels: Seq<Seq<i32>>,
    cbp: int,
    z: int,
    s: Run,
)
    requires
        0 <= mb_x < mb_w,
        0 <= mb_y < mb_h,
        0 <= z,
        s.nnz.len() == (4 * mb_w) * (4 * mb_h),
    ensures
        mbstate::same_outside(
            s.nnz,
            cavlc::luma_run(mb_w, mb_x, mb_y, levels, cbp, z, s).nnz,
            mb_w,
            mb_x,
            mb_y,
            4,
        ),
    decreases 16 - z,
{
    if z < 16 {
        let n = cavlc::luma_step(mb_w, mb_x, mb_y, levels, cbp, z, s);
        let (x, y) = (4 * mb_x + LUMA_4X4_SCAN_XY@[z].0, 4 * mb_y + LUMA_4X4_SCAN_XY@[z].1);
        grid::lemma_luma_cell(mb_w, mb_h, mb_x, mb_y, z);
        lemma_update_same(
            s.nnz,
            mb_w,
            mb_h,
            mb_x,
            mb_y,
            4,
            x,
            y,
            n.nnz[grid::luma_cell(mb_w, mb_x, mb_y, z)],
        );
        lemma_luma_run_same(mb_w, mb_h, mb_x, mb_y, levels, cbp, z + 1, n);
    }
}

/// Coding chroma changes no count outside the macroblock.
proof fn lemma_chroma_run_same(
    mb_w: int,
    mb_h: int,
    mb_x: int,
    mb_y: int,
    levels: Seq<Seq<i32>>,
    z: int,
    s: Run,
)
    requires
        0 <= mb_x < mb_w,
        0 <= mb_y < mb_h,
        0 <= z,
        s.nnz.len() == (2 * mb_w) * (2 * mb_h),
    ensures
        mbstate::same_outside(
            s.nnz,
            cavlc::chroma_run(mb_w, mb_x, mb_y, levels, z, s).nnz,
            mb_w,
            mb_x,
            mb_y,
            2,
        ),
    decreases 4 - z,
{
    if z < 4 {
        let n = cavlc::chroma_step(mb_w, mb_x, mb_y, levels, z, s);
        let (x, y) = (2 * mb_x + CHROMA_4X4_SCAN_XY@[z].0, 2 * mb_y + CHROMA_4X4_SCAN_XY@[z].1);
        grid::lemma_chroma_cell(mb_w, mb_h, mb_x, mb_y, z);
        lemma_update_same(
            s.nnz,
            mb_w,
            mb_h,
            mb_x,
            mb_y,
            2,
            x,
            y,
            n.nnz[grid::chroma_cell(mb_w, mb_x, mb_y, z)],
        );
        lemma_chroma_run_same(mb_w, mb_h, mb_x, mb_y, levels, z + 1, n);
    }
}

/// The I_4x4 trial changes nothing outside the macroblock.
proof fn lemma_i4_run_same<K: Kernels>(k: K, mb_h: int, c: I4Ctx, s: I4State, z: int)
    requires
        0 <= c.mb_x < c.mb_w,
        0 <= c.mb_y < mb_h,
        0 <= z,
        s.coded.len() == (4 * c.mb_w) * (4 * mb_h),
    ensures
        ({
            let n = intra4::i4_run(k, c, s, z);
            &&& mbstate::same_outside(s.rec, n.rec, c.mb_w as int, c.mb_x, c.mb_y, 16)
            &&& mbstate::same_outside(s.coded, n.coded, c.mb_w as int, c.mb_x, c.mb_y, 4)
        }),
    decreases 16 - z,
{
    if z < 16 {
        let n = intra4::i4_step(k, c, s, z);
        grid::lemma_luma_cell(c.mb_w as int, mb_h, c.mb_x, c.mb_y, z);
        let (x, y) = (4 * c.mb_x + LUMA_4X4_SCAN_XY@[z].0, 4 * c.mb_y + LUMA_4X4_SCAN_XY@[z].1);
        assert(within(c.mb_x, c.mb_y, 16, 4 * x, 4 * y, 4, 4));
        lemma_update_same(s.coded, c.mb_w as int, mb_h, c.mb_x, c.mb_y, 4, x, y, true);
        lemma_i4_run_same(k, mb_h, c, n, z + 1);
    }
}

/// The I_8x8 trial changes nothing outside the macroblock.
proof fn lemma_i8_run_same<K: Kernels>(k: K, c: I8Ctx, s: I8State, b: int)
    requires
        0 <= b,
    ensures
        ({
            let n = intra8::i8_run(k, c, s, b);
            &&& mbstate::same_outside(s.rec, n.rec, c.mb_w as int, c.mb_x, c.mb_y, 16)
            &&& mbstate::same_outside(s.coded, n.coded, c.mb_w as int, c.mb_x, c.mb_y, 4)
            &&& mbstate::same_outside(s.modes_y, n.modes_y, c.mb_w as int, c.mb_x, c.mb_y, 4)
        }),
    decreases 4 - b,
{
    if b < 4 {
        let n = intra8::i8_step(k, c, s, b);
        let (x, y) = (4 * c.mb_x + 2 * (b % 2), 4 * c.mb_y + 2 * (b / 2));
        assert(within(c.mb_x, c.mb_y, 16, 4 * x, 4 * y, 8, 8));
        assert(within(c.mb_x, c.mb_y, 4, x, y, 2, 2));
        lemma_i8_run_same(k, c, n, b + 1);
    }
}

/// The frame `b` differs from `a` inside one macroblock at most, in what a copy keeps.
pub open spec fn stays_inside(a: FrameEncoder, b: FrameEncoder, mb_x: int, mb_y: int) -> bool {
    &&& mbstate::changed_inside(a, b, mb_x, mb_y)
    &&& b.mv1_y@ == a.mv1_y@
    &&& b.ref_idx1_y@ == a.ref_idx1_y@
    &&& b == (FrameEncoder {
        rec_y: b.rec_y,
        rec_u: b.rec_u,
        rec_v: b.rec_v,
        nnz_y: b.nnz_y,
        nnz_c: b.nnz_c,
        mv_y: b.mv_y,
        inter_y: b.inter_y,
        ref_idx_y: b.ref_idx_y,
        mv1_y: b.mv1_y,
        ref_idx1_y: b.ref_idx1_y,
        coded_y: b.coded_y,
        modes_y: b.modes_y,
        nnz_l_cache: b.nnz_l_cache,
        nnz_c_cache: b.nnz_c_cache,
        cur_qp: b.cur_qp,
        ..a
    })
}

/// Planning an inter macroblock of a P slice changes nothing outside it.
pub proof fn law_inter_plan_stays_inside<K: Kernels>(
    k: K,
    a: FrameEncoder,
    b: FrameEncoder,
    l1: RefFrame,
    sy: Seq<u8>,
    su: Seq<u8>,
    sv: Seq<u8>,
    mb_x: int,
    mb_y: int,
    mode: u8,
    parts: Seq<(i32, (i32, i32))>,
    sub_types: Seq<u8>,
    p: InterPlan,
)
    requires
        a.wf(),
        a.has_mb(mb_x, mb_y),
        interplan::inter_planned(
            k,
            a,
            b,
            l1,
            sy,
            su,
            sv,
            mb_x,
            mb_y,
            mode,
            parts,
            None,
            sub_types,
            p,
        ),
    ensures
        stays_inside(a, b, mb_x, mb_y),
        b.nnz_y == a.nnz_y,
        b.nnz_c == a.nnz_c,
        b.cur_qp == a.cur_qp,
{
    let m = a.motion();
    let used = interplan::used_parts(m, l1, mb_x, mb_y, mode, parts, None, sub_types);
    lemma_moved_same(m, a.mb_w as int, mb_x, mb_y, used, 0);
    let py = partition::predicted_plane(k, a.bi_w, 0, mb_x, mb_y, used);
    let pu = partition::predicted_plane(k, a.bi_w, 1, mb_x, mb_y, used);
    let pv = partition::predicted_plane(k, a.bi_w, 2, mb_x, mb_y, used);
    let c = choose|c: FrameEncoder|
        {
            &&& #[trigger] c.motion() == interplan::motion_after(
                m,
                l1,
                mb_x,
                mb_y,
                mode,
                parts,
                None,
                sub_types,
            )
            &&& interplan::only_motion(a, c)
            &&& interplan::residual_of(p).leaves(k, c, b, mb_x, mb_y, py, pu, pv)
        };
    assert(c.motion().mv0 == c.mv_y@);
    assert(within(mb_x, mb_y, 16, 16 * mb_x, 16 * mb_y, 16, 16));
    assert(within(mb_x, mb_y, 8, 8 * mb_x, 8 * mb_y, 8, 8));
    assert(within(mb_x, mb_y, 4, 4 * mb_x, 4 * mb_y, 4, 4));
}

/// Planning an intra macroblock changes nothing outside it.
pub proof fn law_intra_plan_stays_inside<K: Kernels>(
    k: K,
    a: FrameEncoder,
    b: FrameEncoder,
    sy: Seq<u8>,
    su: Seq<u8>,
    sv: Seq<u8>,
    mb_x: int,
    mb_y: int,
    p: MbPlan,
)
    requires
        a.wf(),
        a.has_mb(mb_x, mb_y),
        mbcavlc::intra_planned(k, a, b, sy, su, sv, mb_x, mb_y, p),
    ensures
        stays_inside(a, b, mb_x, mb_y),
{
    let (w, h) = (a.mb_w as int, a.mb_h as int);
    let c4 = a.i4_ctx(sy, mb_x, mb_y, a.qp);
    let four = intraplan::tries_i4(p.i16_part());
    lemma_i4_run_same(k, h, c4, intra4::i4_blank(a), 0);
    let l = intraplan::after_i4(k, a, sy, mb_x, mb_y, four);
    lemma_i8_run_same(
        k,
        a.i8_ctx(sy, mb_x, mb_y, a.qp),
        I8State {
            rec: l.rec,
            coded: l.coded,
            modes_y: l.modes_y,
            modes: Seq::new(4, |i: int| 2u8),
            q: Seq::new(4, |i: int| Seq::new(64, |j: int| 0i32)),
        },
        0,
    );
    let e = intraplan::after_i8(k, a, sy, mb_x, mb_y, four);
    reveal(intraplan::i4_trial);
    reveal(intraplan::i8_trial);
    reveal(intraplan::after_i4);
    reveal(intraplan::after_i8);
    assert(mbstate::same_outside(a.rec_y@, e.rec, w, mb_x, mb_y, 16));
    assert(mbstate::same_outside(a.coded_y@, e.coded, w, mb_x, mb_y, 4));
    assert(mbstate::same_outside(a.modes_y@, e.modes_y, w, mb_x, mb_y, 4));
    assert(within(mb_x, mb_y, 16, 16 * mb_x, 16 * mb_y, 16, 16));
    assert(within(mb_x, mb_y, 8, 8 * mb_x, 8 * mb_y, 8, 8));
    assert(within(mb_x, mb_y, 4, 4 * mb_x, 4 * mb_y, 4, 4));
    assert(b.luma().rec == b.rec_y@ && b.luma().coded == b.coded_y@ && b.luma().modes_y
        == b.modes_y@);
}

/// Coding luma and chroma changes no count outside the macroblock.
proof fn lemma_counts_same(
    fe: FrameEncoder,
    mb_x: int,
    mb_y: int,
    levels: Seq<Seq<i32>>,
    cbp: int,
    dc: Seq<[i32; 4]>,
    q: Seq<[[i32; 16]; 4]>,
    cbp_chroma: int,
    s: Coding,
)
    requires
        fe.wf(),
        fe.has_mb(mb_x, mb_y),
        s.ny.len() == fe.nnz_y@.len(),
        s.nu.len() == fe.nnz_c@[0]@.len(),
        s.nv.len() == fe.nnz_c@[1]@.len(),
    ensures
        ({
            let w = fe.mb_w as int;
            let l = mbcavlc::with_luma(w, mb_x, mb_y, levels, cbp, s);
            let e = mbcavlc::with_chroma(w, mb_x, mb_y, dc, q, cbp_chroma, s);
            &&& mbstate::same_outside(s.ny, l.ny, w, mb_x, mb_y, 4)
            &&& l.nu == s.nu
            &&& l.nv == s.nv
            &&& e.ny == s.ny
            &&& mbstate::same_outside(s.nu, e.nu, w, mb_x, mb_y, 2)
            &&& mbstate::same_outside(s.nv, e.nv, w, mb_x, mb_y, 2)
        }),
{
    let (w, h) = (fe.mb_w as int, fe.mb_h as int);
    lemma_luma_run_same(w, h, mb_x, mb_y, levels, cbp, 0, Run { nnz: s.ny, out: s.out });
    let o = if cbp_chroma != 0 {
        s.out + seq![
            ElemView::Residual { levels: dc[0]@, nc: -1int },
            ElemView::Residual { levels: dc[1]@, nc: -1int },
        ]
    } else {
        s.out
    };
    lemma_chroma_run_same(
        w,
        h,
        mb_x,
        mb_y,
        mbcavlc::chroma_ac(q[0]@),
        0,
        Run { nnz: s.nu, out: o },
    );
    let u = cavlc::chroma_run(
        w,
        mb_x,
        mb_y,
        mbcavlc::chroma_ac(q[0]@),
        0,
        Run { nnz: s.nu, out: o },
    );
    lemma_chroma_run_same(
        w,
        h,
        mb_x,
        mb_y,
        mbcavlc::chroma_ac(q[1]@),
        0,
        Run { nnz: s.nv, out: u.out },
    );
}

/// How long the type of a quarter is: one bin for 8x8, two for 8x4, three for the others.
pub open spec fn sub_bins(st: u8) -> int {
    if st == 0 {
        1
    } else if st == 1 {
        2
    } else {
        3
    }
}

/// How long the types of the first `n` quarters are.
pub open spec fn all_sub_bins(subs: Seq<u8>, n: int) -> int
    decreases n,
{
    if n <= 0 {
        0
    } else {
        all_sub_bins(subs, n - 1) + sub_bins(subs[n - 1])
    }
}

/// How long the first `n` differences are.
pub open spec fn mvd_rate(mvds: Seq<(i32, i32)>, n: int) -> int
    decreases n,
{
    if n <= 0 {
        0
    } else {
        mvd_rate(mvds, n - 1) + bits::mvd_rate(mvds[n - 1].0 as int) + bits::mvd_rate(
            mvds[n - 1].1 as int,
        )
    }
}

/// The rate of the levels of the first `n` blocks of a chroma plane.
pub open spec fn plane_rate(q: Seq<[i32; 16]>, n: int) -> int
    decreases n,
{
    if n <= 0 {
        0
    } else {
        plane_rate(q, n - 1) + quant::rate_sum(q[n - 1]@, 16)
    }
}

/// An estimate of the bits of a planned inter macroblock: its levels, its vectors, the types
/// of its quarters, and a fixed overhead.
pub open spec fn plan_rate(p: InterPlan, subs: Seq<u8>) -> int {
    (if p.t8x8 {
        quant::luma8_rate(p.q8@, 4)
    } else {
        quant::luma_rate(p.q_blocks@, 16)
    }) + quant::rate_sum(p.c_dc_levels@[0]@, 4) + plane_rate(p.c_q@[0]@, 4) + quant::rate_sum(
        p.c_dc_levels@[1]@,
        4,
    ) + plane_rate(p.c_q@[1]@, 4) + mvd_rate(p.mvds@, p.n_mvd as int) + all_sub_bins(subs, 4) + 16
}

fn plane_bits(q: &[[i32; 16]; 4]) -> (r: i64)
    ensures
        r == plane_rate(q@, 4),
        0 <= r <= 4096,
{
    let mut r: i64 = 0;
    let mut i: usize = 0;
    while i < 4
        invariant
            i <= 4,
            r == plane_rate(q@, i as int),
            0 <= r <= 1024 * i,
        decreases 4 - i,
    {
        r = r + level_bits(&q[i]);
        i = i + 1;
    }
    r
}

fn luma8_bits(q: &[[i32; 64]; 4]) -> (r: i64)
    ensures
        r == quant::luma8_rate(q@, 4),
        0 <= r <= 4096,
{
    let mut r: i64 = 0;
    let mut i: usize = 0;
    while i < 4
        invariant
            i <= 4,
            r == quant::luma8_rate(q@, i as int),
            0 <= r <= 1024 * i,
        decreases 4 - i,
    {
        r = r + level_bits(&q[i]);
        i = i + 1;
    }
    r
}

/// An estimate of the bits of a planned inter macroblock.
pub fn plan_rate_bits(p: &InterPlan, sub_types: [u8; 4]) -> (r: i64)
    requires
        p.n_mvd <= 16,
    ensures
        r == plan_rate(*p, sub_types@),
        0 <= r <= 0x1_0000,
{
    let luma: i64 = if p.t8x8 {
        luma8_bits(&p.q8)
    } else {
        luma_bits(&p.q_blocks)
    };
    let chroma: i64 = level_bits(&p.c_dc_levels[0]) + plane_bits(&p.c_q[0]) + level_bits(
        &p.c_dc_levels[1],
    ) + plane_bits(&p.c_q[1]);
    let mut mv: i64 = 0;
    let mut i: usize = 0;
    while i < p.n_mvd
        invariant
            i <= p.n_mvd <= 16,
            mv == mvd_rate(p.mvds@, i as int),
            0 <= mv <= 126 * i,
        decreases p.n_mvd - i,
    {
        let d: (i32, i32) = p.mvds[i];
        mv = mv + mvd_bits(d.0) as i64 + mvd_bits(d.1) as i64;
        i = i + 1;
    }
    let mut types: i64 = 0;
    let mut j: usize = 0;
    while j < 4
        invariant
            j <= 4,
            types == all_sub_bins(sub_types@, j as int),
            0 <= types <= 3 * j,
        decreases 4 - j,
    {
        types = types + if sub_types[j] == 0 {
            1
        } else if sub_types[j] == 1 {
            2
        } else {
            3
        };
        j = j + 1;
    }
    luma + chroma + mv + types + 16
}

/// No quarter is divided.
pub open spec fn whole_quarters() -> Seq<u8> {
    seq![0u8, 0u8, 0u8, 0u8]
}

/// The frame `b` and the syntax `w1` are what coding an inter macroblock makes of `a` and `w0`.
pub open spec fn inter_encoded<K: Kernels>(
    k: K,
    a: FrameEncoder,
    b: FrameEncoder,
    l1: RefFrame,
    num_refs: usize,
    sy: Seq<u8>,
    su: Seq<u8>,
    sv: Seq<u8>,
    mb_x: int,
    mb_y: int,
    mode: u8,
    parts: Seq<(i32, (i32, i32))>,
    bspec: Option<BInter>,
    w0: Seq<ElemView>,
    w1: Seq<ElemView>,
) -> bool {
    exists|m: FrameEncoder, p: InterPlan|
        {
            &&& #[trigger] interplan::inter_planned(
                k,
                a,
                m,
                l1,
                sy,
                su,
                sv,
                mb_x,
                mb_y,
                mode,
                parts,
                bspec,
                whole_quarters(),
                p,
            )
            &&& mbcavlc::coding(b, w1) == mbcavlc::inter_coded(
                m,
                num_refs,
                mb_x,
                mb_y,
                mode,
                parts,
                bspec,
                p,
                w0,
            )
            &&& b.cur_qp == if p.cbp != 0 {
                m.qp
            } else {
                m.cur_qp
            }
            &&& mbcavlc::only_counts(m, b)
        }
}

/// The frame `b` and the syntax `w1` are what coding an intra macroblock makes of `a` and `w0`.
pub open spec fn intra_encoded<K: Kernels>(
    k: K,
    a: FrameEncoder,
    b: FrameEncoder,
    sy: Seq<u8>,
    su: Seq<u8>,
    sv: Seq<u8>,
    mb_x: int,
    mb_y: int,
    is_p: bool,
    w0: Seq<ElemView>,
    w1: Seq<ElemView>,
) -> bool {
    exists|m: FrameEncoder, p: MbPlan|
        {
            &&& #[trigger] mbcavlc::intra_planned(k, a, m, sy, su, sv, mb_x, mb_y, p)
            &&& mbcavlc::coding(b, w1) == mbcavlc::intra_coded(m, mb_x, mb_y, p, is_p, w0)
            &&& b.cur_qp == if mbcavlc::codes_delta(p) {
                m.qp
            } else {
                m.cur_qp
            }
            &&& mbcavlc::only_counts(m, b)
        }
}

/// Coding an inter macroblock of a P slice changes nothing outside it.
#[verifier::rlimit(50)]
pub proof fn law_inter_coding_stays_inside<K: Kernels>(
    k: K,
    a: FrameEncoder,
    b: FrameEncoder,
    l1: RefFrame,
    num_refs: usize,
    sy: Seq<u8>,
    su: Seq<u8>,
    sv: Seq<u8>,
    mb_x: int,
    mb_y: int,
    mode: u8,
    parts: Seq<(i32, (i32, i32))>,
    w0: Seq<ElemView>,
    w1: Seq<ElemView>,
)
    requires
        a.wf(),
        a.has_mb(mb_x, mb_y),
        inter_encoded(k, a, b, l1, num_refs, sy, su, sv, mb_x, mb_y, mode, parts, None, w0, w1),
    ensures
        stays_inside(a, b, mb_x, mb_y),
{
    let (m, p) = choose|m: FrameEncoder, p: InterPlan|
        {
            &&& #[trigger] interplan::inter_planned(
                k,
                a,
                m,
                l1,
                sy,
                su,
                sv,
                mb_x,
                mb_y,
                mode,
                parts,
                None,
                whole_quarters(),
                p,
            )
            &&& mbcavlc::coding(b, w1) == mbcavlc::inter_coded(
                m,
                num_refs,
                mb_x,
                mb_y,
                mode,
                parts,
                None,
                p,
                w0,
            )
            &&& b.cur_qp == if p.cbp != 0 {
                m.qp
            } else {
                m.cur_qp
            }
            &&& mbcavlc::only_counts(m, b)
        };
    law_inter_plan_stays_inside(
        k,
        a,
        m,
        l1,
        sy,
        su,
        sv,
        mb_x,
        mb_y,
        mode,
        parts,
        whole_quarters(),
        p,
    );
    let head = w0 + mbcavlc::inter_pred_elems(num_refs, mode, parts, None, p)
        + mbcavlc::inter_cbp_elems(m, p);
    let levels = if p.t8x8 {
        mbcavlc::levels8(p.q8@)
    } else {
        mbcavlc::levels4(p.q_blocks@)
    };
    let s = mbcavlc::coding(m, head);
    let l = mbcavlc::with_luma(a.mb_w as int, mb_x, mb_y, levels, p.cbp as int % 16, s);
    lemma_counts_same(
        a,
        mb_x,
        mb_y,
        levels,
        p.cbp as int % 16,
        p.c_dc_levels@,
        p.c_q@,
        p.cbp as int / 16,
        s,
    );
    lemma_counts_same(
        a,
        mb_x,
        mb_y,
        levels,
        p.cbp as int % 16,
        p.c_dc_levels@,
        p.c_q@,
        p.cbp as int / 16,
        l,
    );
    let e = mbcavlc::coding(b, w1);
    assert(e.ny == b.nnz_y@ && e.nu == b.nnz_c@[0]@ && e.nv == b.nnz_c@[1]@);
}

/// Coding an intra macroblock changes nothing outside it.
pub proof fn law_intra_coding_stays_inside<K: Kernels>(
    k: K,
    a: FrameEncoder,
    b: FrameEncoder,
    sy: Seq<u8>,
    su: Seq<u8>,
    sv: Seq<u8>,
    mb_x: int,
    mb_y: int,
    is_p: bool,
    w0: Seq<ElemView>,
    w1: Seq<ElemView>,
)
    requires
        a.wf(),
        a.has_mb(mb_x, mb_y),
        intra_encoded(k, a, b, sy, su, sv, mb_x, mb_y, is_p, w0, w1),
    ensures
        stays_inside(a, b, mb_x, mb_y),
{
    let (m, p) = choose|m: FrameEncoder, p: MbPlan|
        {
            &&& #[trigger] mbcavlc::intra_planned(k, a, m, sy, su, sv, mb_x, mb_y, p)
            &&& mbcavlc::coding(b, w1) == mbcavlc::intra_coded(m, mb_x, mb_y, p, is_p, w0)
            &&& b.cur_qp == if mbcavlc::codes_delta(p) {
                m.qp
            } else {
                m.cur_qp
            }
            &&& mbcavlc::only_counts(m, b)
        };
    law_intra_plan_stays_inside(k, a, m, sy, su, sv, mb_x, mb_y, p);
    let w = a.mb_w as int;
    let (dc, q, cc) = (p.c_dc_levels@, p.c_q_blocks@, p.cbp_chroma as int);
    let l = if p.use_i4 {
        mbcavlc::nxn_coded(m, mb_x, mb_y, p, is_p, w0)
    } else {
        mbcavlc::i16_coded(m, mb_x, mb_y, p, is_p, w0)
    };
    if p.use_i4 {
        let cbp = mbcavlc::nxn_cbp(p);
        let head = w0 + mbcavlc::nxn_head(m, mb_x, mb_y, p, is_p) + seq![
            ElemView::Ue(p.chroma_mode as u32),
            ElemView::CbpIntra(cbp as u32),
        ] + mbcavlc::qp_elems(m, cbp != 0);
        let levels = if p.i8 is Some {
            mbcavlc::levels8(p.i8->0.q@)
        } else {
            mbcavlc::levels4(p.i4->0.q@)
        };
        lemma_counts_same(a, mb_x, mb_y, levels, cbp % 16, dc, q, cc, mbcavlc::coding(m, head));
    } else {
        let head = w0 + seq![
            ElemView::Ue((mbcavlc::i16_type(p) + mbcavlc::type_offset(is_p)) as u32),
            ElemView::Ue(p.chroma_mode as u32),
            ElemView::Se((m.qp - m.cur_qp) as i32),
            ElemView::Residual {
                levels: crate::scan::zigzag4(p.i16_dc_levels@),
                nc: cavlc::grid_nc(m.nnz_y@, 4 * w, 4 * mb_x, 4 * mb_y),
            },
        ];
        let s = Coding {
            ny: rect::fill(m.nnz_y@, 4 * w, 4 * mb_x, 4 * mb_y, 4, 4, 0u8),
            ..mbcavlc::coding(m, head)
        };
        assert(within(mb_x, mb_y, 4, 4 * mb_x, 4 * mb_y, 4, 4));
        lemma_counts_same(a, mb_x, mb_y, mbcavlc::levels4_ac(p.i16_q@), 15, dc, q, cc, s);
    }
    assert(mbstate::same_outside(m.nnz_y@, l.ny, w, mb_x, mb_y, 4));
    assert(l.nu == m.nnz_c@[0]@ && l.nv == m.nnz_c@[1]@);
    lemma_counts_same(a, mb_x, mb_y, Seq::empty(), 0, dc, q, cc, l);
    let e = mbcavlc::coding(b, w1);
    assert(e.ny == b.nnz_y@ && e.nu == b.nnz_c@[0]@ && e.nv == b.nnz_c@[1]@);
}

/// The frame `c` holds what `a` does; only the working copies of counts may differ.
pub open spec fn undone(a: FrameEncoder, c: FrameEncoder) -> bool {
    &&& c.rec_y@ == a.rec_y@
    &&& c.rec_u@ == a.rec_u@
    &&& c.rec_v@ == a.rec_v@
    &&& c.nnz_y@ == a.nnz_y@
    &&& c.nnz_c@[0]@ == a.nnz_c@[0]@
    &&& c.nnz_c@[1]@ == a.nnz_c@[1]@
    &&& c.motion() == a.motion()
    &&& c.modes_y@ == a.modes_y@
    &&& c.cur_qp == a.cur_qp
    &&& c == (FrameEncoder {
        rec_y: c.rec_y,
        rec_u: c.rec_u,
        rec_v: c.rec_v,
        nnz_y: c.nnz_y,
        nnz_c: c.nnz_c,
        mv_y: c.mv_y,
        inter_y: c.inter_y,
        ref_idx_y: c.ref_idx_y,
        mv1_y: c.mv1_y,
        ref_idx1_y: c.ref_idx1_y,
        coded_y: c.coded_y,
        modes_y: c.modes_y,
        nnz_l_cache: c.nnz_l_cache,
        nnz_c_cache: c.nnz_c_cache,
        ..a
    })
}

/// A trial that stays inside its macroblock is undone by the copy taken before it.
pub proof fn law_copy_undoes_trial(
    a: FrameEncoder,
    b: FrameEncoder,
    c: FrameEncoder,
    s: MbState,
    mb_x: int,
    mb_y: int,
)
    requires
        a.wf(),
        a.has_mb(mb_x, mb_y),
        s.copies(a, mb_x, mb_y),
        stays_inside(a, b, mb_x, mb_y),
        mbstate::restored(b, c, s, mb_x, mb_y),
    ensures
        undone(a, c),
{
    mbstate::law_trial_is_undone(a, b, c, s, mb_x, mb_y);
    assert(c.motion() =~= a.motion());
}

impl FrameEncoder {
    /// Code an inter macroblock, of a B slice if it has a description for one.
    pub fn encode_inter_mb_v1_b<K: Kernels>(
        &mut self,
        k: &K,
        w: &mut Syntax,
        l1: &RefFrame,
        num_refs: usize,
        sy: &[u8],
        su: &[u8],
        sv: &[u8],
        mb_x: usize,
        mb_y: usize,
        mode: u8,
        parts: &[(i32, (i32, i32))],
        bspec: Option<BInter>,
    )
        requires
            kernels::steady(*k),
            old(self).wf(),
            old(self).has_mb(mb_x as int, mb_y as int),
            old(self).counts_ok(),
            interplan::source_ok(*old(self), sy@, su@, sv@),
            interplan::inter_ok(*old(self), *l1, mode, parts@, bspec, whole_quarters()),
        ensures
            inter_encoded(
                *k,
                *old(self),
                *final(self),
                *l1,
                num_refs,
                sy@,
                su@,
                sv@,
                mb_x as int,
                mb_y as int,
                mode,
                parts@,
                bspec,
                old(w)@,
                final(w)@,
            ),
            final(self).wf(),
            final(self).counts_ok(),
    {
        let subs: [u8; 4] = [0; 4];
        assert(subs@ =~= whole_quarters());
        let p: InterPlan = self.plan_inter_mb(k, l1, sy, su, sv, mb_x, mb_y, mode, parts, bspec, subs);
        let ghost m = *self;
        self.emit_inter_cavlc(w, num_refs, mb_x, mb_y, mode, parts, bspec, &p);
        assert(self.motion() == m.motion());
    }

    /// Code an inter macroblock of a P slice.
    pub fn encode_inter_mb_v1<K: Kernels>(
        &mut self,
        k: &K,
        w: &mut Syntax,
        l1: &RefFrame,
        num_refs: usize,
        sy: &[u8],
        su: &[u8],
        sv: &[u8],
        mb_x: usize,
        mb_y: usize,
        mode: u8,
        parts: &[(i32, (i32, i32))],
    )
        requires
            kernels::steady(*k),
            old(self).wf(),
            old(self).has_mb(mb_x as int, mb_y as int),
            old(self).counts_ok(),
            interplan::source_ok(*old(self), sy@, su@, sv@),
            interplan::inter_ok(*old(self), *l1, mode, parts@, None, whole_quarters()),
        ensures
            inter_encoded(
                *k,
                *old(self),
                *final(self),
                *l1,
                num_refs,
                sy@,
                su@,
                sv@,
                mb_x as int,
                mb_y as int,
                mode,
                parts@,
                None,
                old(w)@,
                final(w)@,
            ),
            final(self).wf(),
            final(self).counts_ok(),
    {
        self.encode_inter_mb_v1_b(k, w, l1, num_refs, sy, su, sv, mb_x, mb_y, mode, parts, None);
    }

    /// Code a macroblock in the way that keeps its levels narrow: the same syntax and the same
    /// samples.
    pub fn encode_inter_mb_v2<K: Kernels>(
        &mut self,
        k: &K,
        w: &mut Syntax,
        l1: &RefFrame,
        num_refs: usize,
        sy: &[u8],
        su: &[u8],
        sv: &[u8],
        mb_x: usize,
        mb_y: usize,
        mode: u8,
        parts: &[(i32, (i32, i32))],
    )
        requires
            kernels::steady(*k),
            old(self).wf(),
            old(self).has_mb(mb_x as int, mb_y as int),
            old(self).counts_ok(),
            interplan::source_ok(*old(self), sy@, su@, sv@),
            interplan::inter_ok(*old(self), *l1, mode, parts@, None, whole_quarters()),
        ensures
            inter_encoded(
                *k,
                *old(self),
                *final(self),
                *l1,
                num_refs,
                sy@,
                su@,
                sv@,
                mb_x as int,
                mb_y as int,
                mode,
                parts@,
                None,
                old(w)@,
                final(w)@,
            ),
            final(self).wf(),
            final(self).counts_ok(),
    {
        self.encode_inter_mb_v1(k, w, l1, num_refs, sy, su, sv, mb_x, mb_y, mode, parts);
    }

    /// Code a macroblock in either of the two ways.
    pub fn encode_inter_mb<K: Kernels>(
        &mut self,
        v2: bool,
        k: &K,
        w: &mut Syntax,
        l1: &RefFrame,
        num_refs: usize,
        sy: &[u8],
        su: &[u8],
        sv: &[u8],
        mb_x: usize,
        mb_y: usize,
        mode: u8,
        parts: &[(i32, (i32, i32))],
    )
        requires
            kernels::steady(*k),
            old(self).wf(),
            old(self).has_mb(mb_x as int, mb_y as int),
            old(self).counts_ok(),
            interplan::source_ok(*old(self), sy@, su@, sv@),
            interplan::inter_ok(*old(self), *l1, mode, parts@, None, whole_quarters()),
        ensures
            inter_encoded(
                *k,
                *old(self),
                *final(self),
                *l1,
                num_refs,
                sy@,
                su@,
                sv@,
                mb_x as int,
                mb_y as int,
                mode,
                parts@,
                None,
                old(w)@,
                final(w)@,
            ),
            final(self).wf(),
            final(self).counts_ok(),
    {
        if v2 {
            self.encode_inter_mb_v2(k, w, l1, num_refs, sy, su, sv, mb_x, mb_y, mode, parts);
        } else {
            self.encode_inter_mb_v1(k, w, l1, num_refs, sy, su, sv, mb_x, mb_y, mode, parts);
        }
    }

    /// Code an inter macroblock of a P slice on trial: its distortion and its bits.
    pub fn trial_inter<K: Kernels>(
        &mut self,
        k: &K,
        l1: &RefFrame,
        num_refs: usize,
        sy: &[u8],
        su: &[u8],
        sv: &[u8],
        mb_x: usize,
        mb_y: usize,
        mode: u8,
        parts: &[(i32, (i32, i32))],
    ) -> (r: (i64, usize))
        requires
            kernels::steady(*k),
            kernels::modest(*k),
            old(self).wf(),
            old(self).has_mb(mb_x as int, mb_y as int),
            old(self).counts_ok(),
            interplan::source_ok(*old(self), sy@, su@, sv@),
            interplan::inter_ok(*old(self), *l1, mode, parts@, None, whole_quarters()),
        ensures
            inter_tried(
                *k,
                *old(self),
                *l1,
                num_refs,
                sy@,
                su@,
                sv@,
                mb_x as int,
                mb_y as int,
                mode,
                parts@,
                r.0 as int,
                r.1,
            ),
            undone(*old(self), *final(self)),
            final(self).wf(),
    {
        reveal(inter_tried);
        let ghost a = *self;
        let snap: MbState = self.save_mb(mb_x, mb_y);
        let mut scratch: Syntax = Syntax::new();
        self.encode_inter_mb_v1(k, &mut scratch, l1, num_refs, sy, su, sv, mb_x, mb_y, mode, parts);
        let n: usize = kernels::bits(k, &scratch);
        let ssd: i64 = self.mb_ssd(k, sy, su, sv, mb_x, mb_y);
        let ghost b = *self;
        proof {
            law_inter_coding_stays_inside(
                *k,
                a,
                b,
                *l1,
                num_refs,
                sy@,
                su@,
                sv@,
                mb_x as int,
                mb_y as int,
                mode,
                parts@,
                Seq::empty(),
                scratch@,
            );
        }
        self.load_mb(mb_x, mb_y, &snap);
        proof {
            law_copy_undoes_trial(a, b, *self, snap, mb_x as int, mb_y as int);
        }
        (ssd, n)
    }

    /// Code a macroblock as intra on trial: its distortion and its bits.
    pub fn trial_intra<K: Kernels>(
        &mut self,
        k: &K,
        sy: &[u8],
        su: &[u8],
        sv: &[u8],
        mb_x: usize,
        mb_y: usize,
        is_p: bool,
    ) -> (r: (i64, usize))
        requires
            kernels::steady(*k),
            kernels::modest(*k),
            old(self).wf(),
            old(self).has_mb(mb_x as int, mb_y as int),
            old(self).counts_ok(),
            interplan::source_ok(*old(self), sy@, su@, sv@),
        ensures
            intra_tried(
                *k,
                *old(self),
                sy@,
                su@,
                sv@,
                mb_x as int,
                mb_y as int,
                is_p,
                r.0 as int,
                r.1,
            ),
            undone(*old(self), *final(self)),
            final(self).wf(),
    {
        reveal(intra_tried);
        let ghost a = *self;
        let snap: MbState = self.save_mb(mb_x, mb_y);
        let mut scratch: Syntax = Syntax::new();
        encode_mb(k, self, &mut scratch, mb_x, mb_y, sy, su, sv, is_p);
        let n: usize = kernels::bits(k, &scratch);
        let ssd: i64 = self.mb_ssd(k, sy, su, sv, mb_x, mb_y);
        let ghost b = *self;
        assert(intra_encoded(
            *k,
            a,
            b,
            sy@,
            su@,
            sv@,
            mb_x as int,
            mb_y as int,
            is_p,
            Seq::empty(),
            scratch@,
        ));
        proof {
            law_intra_coding_stays_inside(
                *k,
                a,
                b,
                sy@,
                su@,
                sv@,
                mb_x as int,
                mb_y as int,
                is_p,
                Seq::empty(),
                scratch@,
            );
        }
        self.load_mb(mb_x, mb_y, &snap);
        proof {
            law_copy_undoes_trial(a, b, *self, snap, mb_x as int, mb_y as int);
        }
        (ssd, n)
    }

    /// Plan an inter macroblock of a P slice on trial: its distortion and the estimate of its
    /// bits.
    pub fn trial_plan<K: Kernels>(
        &mut self,
        k: &K,
        l1: &RefFrame,
        sy: &[u8],
        su: &[u8],
        sv: &[u8],
        mb_x: usize,
        mb_y: usize,
        mode: u8,
        parts: &[(i32, (i32, i32))],
        sub_types: [u8; 4],
    ) -> (r: Rd)
        requires
            kernels::steady(*k),
            kernels::modest(*k),
            old(self).wf(),
            old(self).has_mb(mb_x as int, mb_y as int),
            interplan::source_ok(*old(self), sy@, su@, sv@),
            interplan::inter_ok(*old(self), *l1, mode, parts@, None, sub_types@),
        ensures
            plan_tried(
                *k,
                *old(self),
                *l1,
                sy@,
                su@,
                sv@,
                mb_x as int,
                mb_y as int,
                mode,
                parts@,
                sub_types@,
                r,
            ),
            undone(*old(self), *final(self)),
            final(self).wf(),
    {
        reveal(plan_tried);
        let ghost a = *self;
        let snap: MbState = self.save_mb(mb_x, mb_y);
        let p: InterPlan = self.plan_inter_mb(
            k,
            l1,
            sy,
            su,
            sv,
            mb_x,
            mb_y,
            mode,
            parts,
            None,
            sub_types,
        );
        let ssd: i64 = self.mb_ssd(k, sy, su, sv, mb_x, mb_y);
        let rate: i64 = plan_rate_bits(&p, sub_types);
        let ghost b = *self;
        proof {
            law_inter_plan_stays_inside(
                *k,
                a,
                b,
                *l1,
                sy@,
                su@,
                sv@,
                mb_x as int,
                mb_y as int,
                mode,
                parts@,
                sub_types@,
                p,
            );
        }
        self.load_mb(mb_x, mb_y, &snap);
        proof {
            law_copy_undoes_trial(a, b, *self, snap, mb_x as int, mb_y as int);
        }
        Rd { ssd, rate }
    }
}

/// What coding an inter macroblock on trial finds.
#[verifier::opaque]
pub open spec fn inter_tried<K: Kernels>(
    k: K,
    a: FrameEncoder,
    l1: RefFrame,
    num_refs: usize,
    sy: Seq<u8>,
    su: Seq<u8>,
    sv: Seq<u8>,
    mb_x: int,
    mb_y: int,
    mode: u8,
    parts: Seq<(i32, (i32, i32))>,
    ssd: int,
    n: usize,
) -> bool {
    exists|b: FrameEncoder, w: Seq<ElemView>|
        {
            &&& #[trigger] inter_encoded(
                k,
                a,
                b,
                l1,
                num_refs,
                sy,
                su,
                sv,
                mb_x,
                mb_y,
                mode,
                parts,
                None,
                Seq::empty(),
                w,
            )
            &&& ssd == skip::mb_distortion(k, b, sy, su, sv, mb_x, mb_y)
            &&& n == kernels::bits_of(k, w)
        }
}

/// What coding an intra macroblock on trial finds.
#[verifier::opaque]
pub open spec fn intra_tried<K: Kernels>(
    k: K,
    a: FrameEncoder,
    sy: Seq<u8>,
    su: Seq<u8>,
    sv: Seq<u8>,
    mb_x: int,
    mb_y: int,
    is_p: bool,
    ssd: int,
    n: usize,
) -> bool {
    exists|b: FrameEncoder, w: Seq<ElemView>|
        {
            &&& #[trigger] intra_encoded(
                k,
                a,
                b,
                sy,
                su,
                sv,
                mb_x,
                mb_y,
                is_p,
                Seq::empty(),
                w,
            )
            &&& ssd == skip::mb_distortion(k, b, sy, su, sv, mb_x, mb_y)
            &&& n == kernels::bits_of(k, w)
        }
}

/// What planning an inter macroblock on trial finds.
#[verifier::opaque]
pub open spec fn plan_tried<K: Kernels>(
    k: K,
    a: FrameEncoder,
    l1: RefFrame,
    sy: Seq<u8>,
    su: Seq<u8>,
    sv: Seq<u8>,
    mb_x: int,
    mb_y: int,
    mode: u8,
    parts: Seq<(i32, (i32, i32))>,
    sub_types: Seq<u8>,
    rd: Rd,
) -> bool {
    exists|b: FrameEncoder, p: InterPlan|
        {
            &&& #[trigger] interplan::inter_planned(
                k,
                a,
                b,
                l1,
                sy,
                su,
                sv,
                mb_x,
                mb_y,
                mode,
                parts,
                None,
                sub_types,
                p,
            )
            &&& rd.ssd == skip::mb_distortion(k, b, sy, su, sv, mb_x, mb_y)
            &&& rd.rate == plan_rate(p, sub_types)
        }
}

/// Coding an inter macroblock leaves one syntax and one frame: whichever way it is coded, as both
/// ways are bound to the same relation, the syntax, the samples, the counts, the motion, the modes
/// and the running QP come out the same.
#[verifier::spinoff_prover]
pub proof fn law_both_ways_code_alike<K: Kernels>(
    k: K,
    a: FrameEncoder,
    b: FrameEncoder,
    c: FrameEncoder,
    l1: RefFrame,
    num_refs: usize,
    sy: Seq<u8>,
    su: Seq<u8>,
    sv: Seq<u8>,
    mb_x: int,
    mb_y: int,
    mode: u8,
    parts: Seq<(i32, (i32, i32))>,
    bspec: Option<BInter>,
    w0: Seq<ElemView>,
    w1: Seq<ElemView>,
    w2: Seq<ElemView>,
)
    requires
        inter_encoded(k, a, b, l1, num_refs, sy, su, sv, mb_x, mb_y, mode, parts, bspec, w0, w1),
        inter_encoded(k, a, c, l1, num_refs, sy, su, sv, mb_x, mb_y, mode, parts, bspec, w0, w2),
    ensures
        w1 == w2,
        interplan::alike(b, c),
{
    let sub = whole_quarters();
    let (m, p) = choose|m: FrameEncoder, p: InterPlan|
        {
            &&& #[trigger] interplan::inter_planned(
                k, a, m, l1, sy, su, sv, mb_x, mb_y, mode, parts, bspec, sub, p,
            )
            &&& mbcavlc::coding(b, w1) == mbcavlc::inter_coded(
                m, num_refs, mb_x, mb_y, mode, parts, bspec, p, w0,
            )
            &&& b.cur_qp == if p.cbp != 0 {
                m.qp
            } else {
                m.cur_qp
            }
            &&& mbcavlc::only_counts(m, b)
        };
    let (n, q) = choose|m: FrameEncoder, p: InterPlan|
        {
            &&& #[trigger] interplan::inter_planned(
                k, a, m, l1, sy, su, sv, mb_x, mb_y, mode, parts, bspec, sub, p,
            )
            &&& mbcavlc::coding(c, w2) == mbcavlc::inter_coded(
                m, num_refs, mb_x, mb_y, mode, parts, bspec, p, w0,
            )
            &&& c.cur_qp == if p.cbp != 0 {
                m.qp
            } else {
                m.cur_qp
            }
            &&& mbcavlc::only_counts(m, c)
        };
    interplan::lemma_one_plan(
        k, a, m, n, l1, sy, su, sv, mb_x, mb_y, mode, parts, bspec, sub, p, q,
    );
    assert(mbcavlc::inter_coded(m, num_refs, mb_x, mb_y, mode, parts, bspec, p, w0)
        == mbcavlc::inter_coded(n, num_refs, mb_x, mb_y, mode, parts, bspec, q, w0));
    assert(mbcavlc::coding(b, w1) == mbcavlc::coding(c, w2));
}

} // verus!
