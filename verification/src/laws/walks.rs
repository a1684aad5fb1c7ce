//! How a decoder walks a macroblock in CABAC, and what it has learnt of it afterwards.
use vstd::prelude::*;
use crate::binarize;
use crate::binarize::IntraType;
use crate::cabac;
use crate::cabac::Bin;
use crate::frame::FrameEncoder;
use crate::mbcabac;
use crate::mbcabac::{Blocks, CabacState};
use crate::mbinter;
use crate::mbinter::Motion;
use crate::plan::{I16Mode, I4Plan, InterPlan, MbPlan};
use crate::readback;
use crate::residual;
use crate::scan;
use super::contexts;

verus! {

/// What a reader found.
pub open spec fn value<A>(r: Option<(A, int)>) -> A {
    match r {
        Some((v, q)) => v,
        None => arbitrary(),
    }
}

/// Where a reader stopped.
pub open spec fn behind<A>(r: Option<(A, int)>) -> int {
    match r {
        Some((v, q)) => q,
        None => 0,
    }
}

/// One for the first and one for the second.
pub open spec fn both(l: bool, u: bool) -> int {
    if l && u {
        2
    } else if l || u {
        1
    } else {
        0
    }
}

/// The address left of and the address above a macroblock.
pub open spec fn left_addr(w: int, x: int, y: int) -> int {
    y * w + x - 1
}

pub open spec fn upper_addr(w: int, x: int, y: int) -> int {
    (y - 1) * w + x
}

/// Neighbours are there except at the left and the upper edge, and each context counts one for each
/// neighbour that it asks for: a set flag, a clear flag, a chroma mode other than DC, a type other than
/// `I_NxN`.
pub proof fn law_contexts_count_neighbours(
    flags: Seq<bool>,
    modes: Seq<i32>,
    cats: Seq<u8>,
    w: int,
    x: int,
    y: int,
)
    requires
        0 <= x < w,
        0 <= y,
    ensures
        ({
            let (l, u) = (left_addr(w, x, y), upper_addr(w, x, y));
            let (left, top) = (mbcabac::left_of(w, x, y), mbcabac::top_of(w, x, y));
            &&& left == (if x > 0 {
                Some(l)
            } else {
                None
            })
            &&& top == (if y > 0 {
                Some(u)
            } else {
                None
            })
            &&& mbcabac::flag_ctx(flags, top, left) == both(x > 0 && flags[l], y > 0 && flags[u])
            &&& mbcabac::clear_ctx(flags, top, left) == both(x > 0 && !flags[l], y > 0 && !flags[u])
            &&& mbcabac::cmode_ctx(modes, top, left) == both(
                x > 0 && 1 <= modes[l] <= 3,
                y > 0 && 1 <= modes[u] <= 3,
            )
            &&& mbcabac::cat_ctx(cats, top, left) == both(
                x > 0 && cats[l] >= 2,
                y > 0 && cats[u] >= 2,
            )
        }),
{
    assert((y - 1) * w + x == y * w + x - w) by (nonlinear_arith);
}

/// A part that stands between two others can be read there.
proof fn lemma_between(s: Seq<Bin>, a: Seq<Bin>, x: Seq<Bin>, b: Seq<Bin>)
    requires
        s == a + x + b,
    ensures
        cabac::stands_at(s, a.len() as int, x),
{
    let p = a.len() as int;
    assert forall|i: int| 0 <= i < x.len() implies #[trigger] s[p + i] == x[i] by {}
}

/// The skip flag of a P macroblock has context 11 and that of a B macroblock 24, one more for each
/// neighbour that is there and not skipped; the macroblock then counts as skipped, without a QP step, and
/// nothing is remembered differently of any other.
pub proof fn law_skipped_macroblock(
    b0: Seq<Bin>,
    b1: Seq<Bin>,
    cs0: CabacState,
    cs1: CabacState,
    w: int,
    h: int,
    x: int,
    y: int,
    bslice: bool,
)
    requires
        cs0.wf(w * h),
        0 <= x < w,
        0 <= y < h,
        !bslice ==> mbinter::p_skip_coded(b0, b1, cs0, cs1, w, x, y),
        bslice ==> mbinter::b_skip_coded(b0, b1, cs0, cs1, w, x, y),
    ensures
        ({
            let (l, u) = (left_addr(w, x, y), upper_addr(w, x, y));
            let step = both(x > 0 && !cs0.mb_skip@[l], y > 0 && !cs0.mb_skip@[u]);
            let a = y * w + x;
            &&& b1.len() == b0.len() + 1
            &&& b1.last() == Bin::dec(
                (if bslice {
                    24int
                } else {
                    11
                }) + step,
                1,
            )
            &&& b1.drop_last() == b0
            &&& cs1.mb_skip@[a]
            &&& bslice ==> cs1.mb_direct@[a]
            &&& cs1.last_delta_qp == 0
            &&& cs1.cat@[a] >= 2
            &&& forall|i: int|
                0 <= i < w * h && i != a ==> #[trigger] cs1.mb_skip@[i] == cs0.mb_skip@[i]
            &&& forall|i: int| 0 <= i < w * h && i != a ==> #[trigger] cs1.cat@[i] == cs0.cat@[i]
        }),
{
    crate::grid::lemma_cell(w, h, x, y);
    law_contexts_count_neighbours(cs0.mb_skip@, cs0.cmode@, cs0.cat@, w, x, y);
    assert(b1.drop_last() =~= b0);
}

/// The first `n` intra modes of a macroblock with 4x4 blocks read back one behind the other, each against
/// the prediction of its block: block `z` has the mode at its place in the raster.
pub proof fn law_i4_modes_walk(
    s: Seq<Bin>,
    at: int,
    fe: FrameEncoder,
    modes: Seq<u8>,
    x: int,
    y: int,
    n: int,
) -> (pos: Seq<int>)
    requires
        0 <= n <= 16,
        fe.wf(),
        fe.has_mb(x, y),
        modes.len() == 16,
        forall|i: int| 0 <= i < 16 ==> #[trigger] modes[i] <= 8,
        forall|i: int| 0 <= i < fe.modes_y@.len() ==> #[trigger] fe.modes_y@[i] <= 8,
        cabac::stands_at(s, at, mbcabac::i4_modes_bins(fe, modes, x, y, n)),
    ensures
        pos.len() == n + 1,
        pos[0] == at,
        pos[n] == at + mbcabac::i4_modes_bins(fe, modes, x, y, n).len(),
        forall|z: int|
            0 <= z < n ==> #[trigger] readback::read_i4_mode(
                s,
                pos[z],
                fe.i4_predicted(4 * x + contexts::column(z), 4 * y + contexts::row(z)),
            ) == Some((modes[4 * contexts::row(z) + contexts::column(z)] as int, pos[z + 1])),
    decreases n,
{
    if n <= 0 {
        seq![at]
    } else {
        let z = n - 1;
        super::levels::law_blocks_come_by_quarters(z);
        let (bx, by) = (4 * x + contexts::column(z), 4 * y + contexts::row(z));
        let a = mbcabac::i4_modes_bins(fe, modes, x, y, z);
        let m = modes[4 * contexts::row(z) + contexts::column(z)] as int;
        let b = binarize::i4_mode_bins(fe.i4_predicted(bx, by), m);
        assert(mbcabac::i4_modes_bins(fe, modes, x, y, n) == a + b);
        cabac::lemma_stands_at_concat(s, at, a, b);
        let before = law_i4_modes_walk(s, at, fe, modes, x, y, z);
        lemma_predicted_small(fe, bx, by);
        readback::law_i4_mode(s, at + a.len(), fe.i4_predicted(bx, by), m);
        let pos = before.push(at + a.len() + b.len());
        assert forall|i: int| 0 <= i < n implies #[trigger] readback::read_i4_mode(
            s,
            pos[i],
            fe.i4_predicted(4 * x + contexts::column(i), 4 * y + contexts::row(i)),
        ) == Some((modes[4 * contexts::row(i) + contexts::column(i)] as int, pos[i + 1])) by {
            if i < z {
                assert(pos[i] == before[i] && pos[i + 1] == before[i + 1]);
            }
        }
        pos
    }
}

proof fn lemma_predicted_small(fe: FrameEncoder, bx: int, by: int)
    requires
        fe.wf(),
        0 <= bx < 4 * fe.mb_w,
        0 <= by < 4 * fe.mb_h,
        forall|i: int| 0 <= i < fe.modes_y@.len() ==> #[trigger] fe.modes_y@[i] <= 8,
    ensures
        0 <= fe.i4_predicted(bx, by) <= 8,
{
    if bx > 0 && by > 0 {
        crate::grid::lemma_cell(4 * fe.mb_w, 4 * fe.mb_h, bx - 1, by);
        crate::grid::lemma_cell(4 * fe.mb_w, 4 * fe.mb_h, bx, by - 1);
    }
}

/// The predicted intra mode is the smaller one of the modes on the left and above, and DC at the left
/// and the upper edge of the frame.
pub proof fn law_predicted_mode(fe: FrameEncoder, bx: int, by: int)
    requires
        0 <= bx,
        0 <= by,
    ensures
        bx == 0 || by == 0 ==> fe.i4_predicted(bx, by) == 2,
        bx > 0 && by > 0 ==> ({
            let l = fe.modes_y@[by * (4 * fe.mb_w) + bx - 1] as int;
            let u = fe.modes_y@[(by - 1) * (4 * fe.mb_w) + bx] as int;
            let m = fe.i4_predicted(bx, by);
            (m == l || m == u) && m <= l && m <= u
        }),
{
}

/// The modes of a macroblock with 8x8 blocks read back one behind the other, each against the prediction
/// of the first 4x4 block of its quarter.
pub proof fn law_i8_modes_walk(
    s: Seq<Bin>,
    at: int,
    fe: FrameEncoder,
    modes: Seq<u8>,
    x: int,
    y: int,
    n: int,
) -> (pos: Seq<int>)
    requires
        0 <= n <= 4,
        fe.wf(),
        fe.has_mb(x, y),
        modes.len() == 4,
        forall|i: int| 0 <= i < 4 ==> #[trigger] modes[i] <= 8,
        forall|i: int| 0 <= i < fe.modes_y@.len() ==> #[trigger] fe.modes_y@[i] <= 8,
        cabac::stands_at(s, at, mbcabac::i8_mode_bins(fe, modes, x, y, n)),
    ensures
        pos.len() == n + 1,
        pos[0] == at,
        pos[n] == at + mbcabac::i8_mode_bins(fe, modes, x, y, n).len(),
        forall|b: int|
            0 <= b < n ==> #[trigger] readback::read_i4_mode(
                s,
                pos[b],
                fe.i4_predicted(4 * x + 2 * (b % 2), 4 * y + 2 * (b / 2)),
            ) == Some((modes[b] as int, pos[b + 1])),
    decreases n,
{
    if n <= 0 {
        seq![at]
    } else {
        let k = n - 1;
        let (bx, by) = (4 * x + 2 * (k % 2), 4 * y + 2 * (k / 2));
        let a = mbcabac::i8_mode_bins(fe, modes, x, y, k);
        let b = binarize::i4_mode_bins(fe.i4_predicted(bx, by), modes[k] as int);
        assert(mbcabac::i8_mode_bins(fe, modes, x, y, n) == a + b);
        cabac::lemma_stands_at_concat(s, at, a, b);
        let before = law_i8_modes_walk(s, at, fe, modes, x, y, k);
        lemma_predicted_small(fe, bx, by);
        readback::law_i4_mode(s, at + a.len(), fe.i4_predicted(bx, by), modes[k] as int);
        let pos = before.push(at + a.len() + b.len());
        assert forall|i: int| 0 <= i < n implies #[trigger] readback::read_i4_mode(
            s,
            pos[i],
            fe.i4_predicted(4 * x + 2 * (i % 2), 4 * y + 2 * (i / 2)),
        ) == Some((modes[i] as int, pos[i + 1])) by {
            if i < k {
                assert(pos[i] == before[i] && pos[i + 1] == before[i + 1]);
            }
        }
        pos
    }
}

/// The number of an `I_16x16` mode in the syntax.
pub proof fn law_i16_mode_numbers(top: bool, left: bool)
    ensures
        I16Mode::Vertical.number() == 0,
        I16Mode::Horizontal.number() == 1,
        I16Mode::Dc.number() == 2,
        I16Mode::Plane.number() == 3,
        I16Mode::Vertical.usable(top, left) == top,
        I16Mode::Horizontal.usable(top, left) == left,
        I16Mode::Dc.usable(top, left),
        I16Mode::Plane.usable(top, left) == (top && left),
{
}

/// A decoder walks an `I_16x16` macroblock of an I slice: its type, by how many neighbours are not
/// `I_NxN`, with the mode and both patterns; the chroma mode, by how many neighbours have one other than DC;
/// the QP step, which takes the QP from the last one to that of the macroblock; the DC levels. The QP is
/// then followed, and the neighbours behind see a type that is not `I_NxN`, the chroma mode and the
/// pattern.
#[verifier::spinoff_prover]
#[verifier::rlimit(60)]
pub proof fn law_i16_walk(
    fe0: FrameEncoder,
    fe1: FrameEncoder,
    b0: Seq<Bin>,
    b1: Seq<Bin>,
    cs0: CabacState,
    cs1: CabacState,
    p: MbPlan,
    x: int,
    y: int,
)
    requires
        mbcabac::i_coded(fe0, fe1, b0, b1, cs0, cs1, p, x, y),
        p.wf(),
        !p.use_i4,
        p.chroma_mode <= 3,
        fe0.wf(),
        fe0.has_mb(x, y),
        cs0.wf(fe0.mb_w * fe0.mb_h),
    ensures
        ({
            let w = fe0.mb_w as int;
            let (l, u) = (left_addr(w, x, y), upper_addr(w, x, y));
            let t = readback::read_mb_type_i(
                b1,
                b0.len() as int,
                both(x > 0 && cs0.cat@[l] >= 2, y > 0 && cs0.cat@[u] >= 2),
            );
            let c = readback::read_chroma_mode(
                b1,
                behind(t),
                both(x > 0 && 1 <= cs0.cmode@[l] <= 3, y > 0 && 1 <= cs0.cmode@[u] <= 3),
            );
            let d = readback::read_qp_delta(b1, behind(c), cs0.last_delta_qp as int);
            let r = readback::read_residual(
                b1,
                behind(d),
                1,
                residual::cbf_inc(
                    mbcabac::cache0(cs0, w, x, y),
                    0,
                    1,
                    true,
                    mbcabac::dc_masks(cs0, w, x, y),
                ),
            );
            let a = y * w + x;
            &&& t is Some && c is Some && d is Some && r is Some
            &&& value(t) == (IntraType {
                nxn: false,
                i16_mode: p.i16_mode.number(),
                cbp_chroma: p.cbp_chroma as int,
                cbp_luma15: p.i16_cbp15,
            })
            &&& value(c) == p.chroma_mode
            &&& fe0.cur_qp + value(d) == fe0.qp
            &&& forall|i: int|
                0 <= i < 16 ==> #[trigger] value(r)[i] == p.i16_dc_levels@[scan::ZIGZAG_4X4[i] as int]
            &&& fe1.cur_qp == fe0.qp
            &&& cs1.last_delta_qp == fe0.qp - fe0.cur_qp
            &&& cs1.cat@[a] >= 2
            &&& cs1.cmode@[a] == p.chroma_mode
            &&& cs1.mb_cbp@[a] == 16 * p.cbp_chroma + (if p.i16_cbp15 {
                15int
            } else {
                0
            })
        }),
{
    let w = fe0.mb_w as int;
    crate::grid::lemma_cell(w, fe0.mb_h as int, x, y);
    law_contexts_count_neighbours(cs0.mb_skip@, cs0.cmode@, cs0.cat@, w, x, y);
    let code = mbcabac::i16_code(fe0, cs0, p, x, y);
    let (top, left) = (mbcabac::top_of(w, x, y), mbcabac::left_of(w, x, y));
    let ty = binarize::mb_type_i_bins(mbcabac::cat_ctx(cs0.cat@, top, left), mbcabac::type_of(p));
    let cm = mbcabac::cmode_bins(cs0, w, x, y, p.chroma_mode as int);
    let dq = binarize::qp_delta_bins(cs0.last_delta_qp as int, fe0.qp - fe0.cur_qp);
    let dc = scan::zigzag4(p.i16_dc_levels@);
    let ndc = mbcabac::dc_masks(cs0, w, x, y);
    let nzc0 = mbcabac::cache0(cs0, w, x, y);
    let inc = residual::cbf_inc(nzc0, 0, 1, true, ndc);
    let res = residual::residual_bins(dc, 1, inc);
    let luma15 = if p.i16_cbp15 {
        15int
    } else {
        0
    };
    let luma = mbcabac::luma_blocks(p.i16_q@, luma15, true);
    let lb = luma.bins(nzc0, 0, 16, true, ndc);
    let cb = mbcabac::chroma_res_bins(
        luma.put(nzc0, 0, 16),
        ndc,
        true,
        p.cbp_chroma as int,
        p.c_dc_levels@,
        p.c_q_blocks@,
    );
    assert(code.bins == cm + dq + res + lb + cb);
    assert(b1 =~= b0 + ty + (cm + (dq + (res + (lb + cb)))));
    lemma_between(b1, b0, ty, cm + (dq + (res + (lb + cb))));
    assert(b1 =~= (b0 + ty) + cm + (dq + (res + (lb + cb))));
    lemma_between(b1, b0 + ty, cm, dq + (res + (lb + cb)));
    assert(b1 =~= (b0 + ty + cm) + dq + (res + (lb + cb)));
    lemma_between(b1, b0 + ty + cm, dq, res + (lb + cb));
    assert(b1 =~= (b0 + ty + cm + dq) + res + (lb + cb));
    lemma_between(b1, b0 + ty + cm + dq, res, lb + cb);
    readback::law_mb_type_i(
        b1,
        b0.len() as int,
        mbcabac::cat_ctx(cs0.cat@, top, left),
        mbcabac::type_of(p),
    );
    let q0 = b0.len() as int + ty.len();
    readback::law_chroma_mode(
        b1,
        q0,
        mbcabac::cmode_ctx(cs0.cmode@, top, left),
        p.chroma_mode as int,
    );
    let q1 = q0 + cm.len();
    readback::law_qp_delta(b1, q1, cs0.last_delta_qp as int, fe0.qp - fe0.cur_qp);
    let q2 = q1 + dq.len();
    lemma_mask_bit(ndc.0, 1, true);
    lemma_mask_bit(ndc.1, 1, true);
    readback::law_residual(b1, q2, dc, 1, inc);
    let found = dc.take(16).map_values(|x: i32| x as int);
    assert forall|i: int| 0 <= i < 16 implies #[trigger] found[i]
        == p.i16_dc_levels@[scan::ZIGZAG_4X4[i] as int] by {}
}

proof fn lemma_mask_bit(m: Option<u16>, rp: int, intra: bool)
    requires
        0 <= rp <= 10,
    ensures
        0 <= residual::mask_coded(m, rp, intra) <= 1,
{
    if m is Some {
        let (a, k) = (m->0, rp as u16);
        assert((a >> k) & 1 <= 1) by (bit_vector);
    }
}

/// The luma blocks that are coded are those of the quarters that the pattern marks, each with the levels
/// at its place in the raster; AC blocks are of kind 2 and lack their first level, others are of kind 3.
/// The chroma AC blocks are all coded, Cb before Cr, without their first level.
pub proof fn law_which_blocks(q: Seq<[i32; 16]>, c: Seq<[[i32; 16]; 4]>, cbp: int, ac: bool, z: int)
    requires
        0 <= z < 16,
    ensures
        ({
            let b = mbcabac::luma_blocks(q, cbp, ac);
            let e = mbcabac::chroma_blocks(c);
            let place = 4 * contexts::row(z) + contexts::column(z);
            &&& (b.rp)(z) == (if ac {
                2int
            } else {
                3
            })
            &&& z < 4 ==> (b.on)(z) == (cbp % 2 == 1)
            &&& 4 <= z < 8 ==> (b.on)(z) == ((cbp / 2) % 2 == 1)
            &&& 8 <= z < 12 ==> (b.on)(z) == ((cbp / 4) % 2 == 1)
            &&& 12 <= z ==> (b.on)(z) == ((cbp / 8) % 2 == 1)
            &&& forall|i: int|
                0 <= i < 15 ==> #[trigger] (b.co)(z)[i] == q[place]@[scan::ZIGZAG_4X4[if ac {
                    i + 1
                } else {
                    i
                }] as int]
            &&& z < 8 ==> (e.on)(16 + z) && (e.rp)(16 + z) == (if z < 4 {
                9int
            } else {
                10
            }) && forall|i: int|
                0 <= i < 15 ==> #[trigger] (e.co)(16 + z)[i] == c[z / 4]@[z % 4]@[scan::ZIGZAG_4X4[i
                    + 1] as int]
        }),
{
    super::levels::law_blocks_come_by_quarters(z);
}

/// The blocks of a macroblock read back one behind the other, each by the counts of those before it;
/// blocks that are not coded take no bin and count as empty.
pub proof fn law_blocks_walk(
    s: Seq<Bin>,
    at: int,
    b: Blocks,
    nzc: Seq<u8>,
    from: int,
    n: int,
    intra: bool,
    ndc: (Option<u16>, Option<u16>),
) -> (pos: Seq<int>)
    requires
        0 <= from <= n <= 24,
        nzc.len() == 48,
        forall|z: int|
            from <= z < n ==> 2 <= #[trigger] (b.rp)(z) <= 10 && (b.rp)(z) != 6
                && residual::CB_RES_MAXPOS[(b.rp)(z)] < (b.co)(z).len() && !residual::is_dc_kind(
                (b.rp)(z),
            ),
        cabac::stands_at(s, at, b.bins(nzc, from, n, intra, ndc)),
    ensures
        pos.len() == n - from + 1,
        pos[0] == at,
        pos[n - from] == at + b.bins(nzc, from, n, intra, ndc).len(),
        forall|z: int|
            from <= z < n && (b.on)(z) ==> #[trigger] readback::read_residual(
                s,
                pos[z - from],
                (b.rp)(z),
                residual::cbf_inc(b.put(nzc, from, z), z, (b.rp)(z), intra, ndc),
            ) == Some(
                (
                    (b.co)(z).take(residual::CB_RES_MAXPOS[(b.rp)(z)] + 1).map_values(
                        |x: i32| x as int,
                    ),
                    pos[z - from + 1],
                ),
            ),
        forall|z: int| from <= z < n && !(b.on)(z) ==> #[trigger] pos[z - from + 1] == pos[z - from],
    decreases n - from,
{
    if n <= from {
        seq![at]
    } else {
        let z = n - 1;
        let a = b.bins(nzc, from, z, intra, ndc);
        let rp = (b.rp)(z);
        let inc = residual::cbf_inc(b.put(nzc, from, z), z, rp, intra, ndc);
        let r = if (b.on)(z) {
            residual::residual_bins((b.co)(z), rp, inc)
        } else {
            Seq::<Bin>::empty()
        };
        assert(b.bins(nzc, from, n, intra, ndc) == a + r);
        cabac::lemma_stands_at_concat(s, at, a, r);
        let before = law_blocks_walk(s, at, b, nzc, from, z, intra, ndc);
        if (b.on)(z) {
            assert(2 <= (b.rp)(z) <= 10);
            readback::law_residual(s, at + a.len(), (b.co)(z), rp, inc);
        }
        let pos = before.push(at + a.len() + r.len());
        assert forall|i: int| from <= i < n && (b.on)(i) implies #[trigger] readback::read_residual(
            s,
            pos[i - from],
            (b.rp)(i),
            residual::cbf_inc(b.put(nzc, from, i), i, (b.rp)(i), intra, ndc),
        ) == Some(
            (
                (b.co)(i).take(residual::CB_RES_MAXPOS[(b.rp)(i)] + 1).map_values(|x: i32| x as int),
                pos[i - from + 1],
            ),
        ) by {
            if i < z {
                assert(pos[i - from] == before[i - from] && pos[i - from + 1] == before[i - from
                    + 1]);
            }
        }
        assert forall|i: int| from <= i < n && !(b.on)(i) implies #[trigger] pos[i - from + 1]
            == pos[i - from] by {
            if i < z {
                assert(before[i - from + 1] == before[i - from]);
            }
        }
        pos
    }
}

/// The chroma residual: nothing without chroma; else the DC levels of Cb and then of Cr; with the pattern 2
/// the AC blocks behind them.
pub proof fn law_chroma_walk(
    s: Seq<Bin>,
    at: int,
    nzc: Seq<u8>,
    ndc: (Option<u16>, Option<u16>),
    intra: bool,
    chroma: int,
    dc: Seq<[i32; 4]>,
    q: Seq<[[i32; 16]; 4]>,
)
    requires
        0 <= chroma <= 2,
        dc.len() == 2,
        nzc.len() == 48,
        cabac::stands_at(s, at, mbcabac::chroma_res_bins(nzc, ndc, intra, chroma, dc, q)),
    ensures
        ({
            let all = mbcabac::chroma_res_bins(nzc, ndc, intra, chroma, dc, q);
            let u = readback::read_residual(
                s,
                at,
                7,
                residual::cbf_inc(nzc, 16, 7, intra, ndc),
            );
            let v = readback::read_residual(
                s,
                behind(u),
                8,
                residual::cbf_inc(nzc, 20, 8, intra, ndc),
            );
            &&& chroma == 0 ==> all.len() == 0
            &&& chroma >= 1 ==> u is Some && v is Some && value(u) == dc[0]@.map_values(
                |x: i32| x as int,
            ) && value(v) == dc[1]@.map_values(|x: i32| x as int)
            &&& chroma == 1 ==> behind(v) == at + all.len()
            &&& chroma == 2 ==> cabac::stands_at(
                s,
                behind(v),
                mbcabac::chroma_blocks(q).bins(nzc, 16, 24, intra, ndc),
            )
        }),
{
    if chroma >= 1 {
        let all = mbcabac::chroma_res_bins(nzc, ndc, intra, chroma, dc, q);
        let iu = residual::cbf_inc(nzc, 16, 7, intra, ndc);
        let iv = residual::cbf_inc(nzc, 20, 8, intra, ndc);
        let u = residual::residual_bins(dc[0]@, 7, iu);
        let v = residual::residual_bins(dc[1]@, 8, iv);
        let t = if chroma == 2 {
            mbcabac::chroma_blocks(q).bins(nzc, 16, 24, intra, ndc)
        } else {
            Seq::<Bin>::empty()
        };
        assert(all == u + v + t);
        cabac::lemma_stands_at_concat(s, at, u + v, t);
        cabac::lemma_stands_at_concat(s, at, u, v);
        lemma_mask_bit(ndc.0, 7, intra);
        lemma_mask_bit(ndc.1, 7, intra);
        lemma_mask_bit(ndc.0, 8, intra);
        lemma_mask_bit(ndc.1, 8, intra);
        readback::law_residual(s, at, dc[0]@, 7, iu);
        readback::law_residual(s, at + u.len(), dc[1]@, 8, iv);
        assert(dc[0]@.take(4) =~= dc[0]@);
        assert(dc[1]@.take(4) =~= dc[1]@);
    }
}

/// A macroblock shows its counts to the ones behind it: the lower neighbour sees above each block of its
/// first row the block of the last row in the same column, the right neighbour left of each block of its
/// first column the block of the last column in the same row, in luma and in both planes of chroma.
pub proof fn law_counts_reach_the_neighbours(
    mb_nzc: Seq<[u8; 24]>,
    above: int,
    left: int,
    na: Seq<u8>,
    nl: Seq<u8>,
    i: int,
    c: int,
)
    requires
        0 <= above < mb_nzc.len(),
        0 <= left < mb_nzc.len(),
        na.len() == 48,
        nl.len() == 48,
        mb_nzc[above]@ == mbcabac::nzc_exported(na),
        mb_nzc[left]@ == mbcabac::nzc_exported(nl),
        0 <= i < 4,
        0 <= c < 2,
    ensures
        ({
            let n = mbcabac::nzc_built(mb_nzc, Some(above), Some(left));
            let seen = |k: u8|
                if k == 0xff {
                    0u8
                } else {
                    k
                };
            &&& n.len() == 48
            &&& n[9 + i - 8] == seen(na[9 + 24 + i])
            &&& n[9 + 8 * i - 1] == seen(nl[9 + 8 * i + 3])
            &&& i < 2 ==> n[14 + 24 * c + i - 8] == seen(na[14 + 24 * c + 8 + i])
            &&& i < 2 ==> n[14 + 24 * c + 8 * i - 1] == seen(nl[14 + 24 * c + 8 * i + 1])
            &&& forall|z: int|
                0 <= z < 24 ==> n[#[trigger] residual::CB_NZC_CACHE[z] as int] == 0xff
        }),
{
    let n = mbcabac::nzc_built(mb_nzc, Some(above), Some(left));
    assert forall|z: int| 0 <= z < 24 implies n[#[trigger] residual::CB_NZC_CACHE[z] as int]
        == 0xff by {
        if z < 16 {
            contexts::law_cache_cells(z);
        } else if z < 20 {
            contexts::law_cache_cells(z - 16);
        } else {
            contexts::law_cache_cells(z - 20);
        }
    }
}

/// Missing neighbours show no count.
pub proof fn law_missing_counts(mb_nzc: Seq<[u8; 24]>, c: int)
    requires
        0 <= c < 48,
    ensures
        mbcabac::nzc_built(mb_nzc, None, None)[c] == 0xff,
{
}

/// A macroblock shows its motion to the ones behind it: each block of the first row finds above it the
/// block of the last row of the upper macroblock in its column, each block of the first column finds
/// on its left the block of the last column of the left macroblock in its row; nothing of its own blocks
/// is there yet.
pub proof fn law_motion_reaches_the_neighbours(
    bins: Seq<Bin>,
    cs: CabacState,
    second: bool,
    own: i8,
    w: int,
    x: int,
    y: int,
    i: int,
)
    requires
        0 <= x < w,
        0 <= y,
        0 <= i < 4,
    ensures
        ({
            let m = mbinter::motion0(bins, cs, second, own, w, x, y);
            let (l, u) = (left_addr(w, x, y), upper_addr(w, x, y));
            let refs = if second {
                cs.mb_ref1@
            } else {
                cs.mb_ref@
            };
            let mvds = if second {
                cs.mb_mvd1@
            } else {
                cs.mb_mvd@
            };
            &&& m.sized()
            &&& m.bins == bins
            &&& m.refc[7 + i - 6] == (if y > 0 {
                refs[u]@[12 + i]
            } else {
                -1i8
            })
            &&& m.refc[7 + 6 * i - 1] == (if x > 0 {
                refs[l]@[4 * i + 3]
            } else {
                -1i8
            })
            &&& m.mvdc[7 + i - 6] == (if y > 0 {
                mvds[u]@[12 + i]
            } else {
                [0i16, 0i16]
            })
            &&& m.mvdc[7 + 6 * i - 1] == (if x > 0 {
                mvds[l]@[4 * i + 3]
            } else {
                [0i16, 0i16]
            })
            &&& forall|j: int|
                0 <= j < 4 ==> m.refc[7 + 6 * i + j] == -1 && #[trigger] m.mref[4 * i + j] == own
        }),
{
    assert((y - 1) * w + x == y * w + x - w) by (nonlinear_arith);
}

/// A decoder walks a 16x16 macroblock of a P slice: its type; its reference, where there is more than
/// one to choose from; its difference; its pattern; the transform flag, where luma is coded and the stream
/// allows it; and, with a pattern, the QP step. The QP is then followed and the neighbours behind see the
/// pattern.
#[verifier::spinoff_prover]
#[verifier::rlimit(100)]
pub proof fn law_p16_walk(
    fe0: FrameEncoder,
    fe1: FrameEncoder,
    b0: Seq<Bin>,
    b1: Seq<Bin>,
    cs0: CabacState,
    cs1: CabacState,
    p: InterPlan,
    x: int,
    y: int,
    num_refs: usize,
)
    requires
        mbinter::p_inter_coded(fe0, fe1, b0, b1, cs0, cs1, 0, p, x, y, num_refs),
        p.wf(),
        !mbinter::has_sub(p.sub_types@),
        fe0.wf(),
        fe0.has_mb(x, y),
        cs0.wf(fe0.mb_w * fe0.mb_h),
    ensures
        ({
            let w = fe0.mb_w as int;
            let (l, u) = (left_addr(w, x, y), upper_addr(w, x, y));
            let a = y * w + x;
            let t = readback::read_mb_type_p(b1, b0.len() as int);
            let up_ref = y > 0 && cs0.mb_ref@[u]@[12] > 0;
            let left_ref = x > 0 && cs0.mb_ref@[l]@[3] > 0;
            let r = if num_refs > 1 {
                readback::read_ref_idx(
                    b1,
                    behind(t),
                    (if left_ref {
                        1int
                    } else {
                        0
                    }) + (if up_ref {
                        2int
                    } else {
                        0
                    }),
                    0,
                )
            } else {
                Some((0nat, behind(t)))
            };
            let m = mbinter::motion0(Seq::empty(), cs0, false, 0, w, x, y);
            let sx = contexts::neighbour_mvd(m, 1, 0) + contexts::neighbour_mvd(m, 6, 0);
            let sy = contexts::neighbour_mvd(m, 1, 1) + contexts::neighbour_mvd(m, 6, 1);
            let step = |s: int|
                if s > 32 {
                    2int
                } else if s >= 3 {
                    1
                } else {
                    0
                };
            let dx = readback::read_mvd(b1, behind(r), 0, step(sx));
            let dy = readback::read_mvd(b1, behind(dx), 1, step(sy));
            let c = readback::read_cbp(
                b1,
                behind(dy),
                if y > 0 {
                    Some(cs0.mb_cbp@[u])
                } else {
                    None
                },
                if x > 0 {
                    Some(cs0.mb_cbp@[l])
                } else {
                    None
                },
            );
            let sized = p.cbp % 16 != 0 && fe0.transform_8x8;
            let q = behind(c) + if sized {
                1int
            } else {
                0
            };
            let d = readback::read_qp_delta(b1, q, cs0.last_delta_qp as int);
            &&& t is Some && value(t) == 0
            &&& r is Some && (num_refs > 1 ==> value(r) == p.plan_refs@[0])
            &&& dx is Some && value(dx) == p.mvds@[0].0
            &&& dy is Some && value(dy) == p.mvds@[0].1
            &&& c is Some && value(c) == p.cbp
            &&& sized ==> cabac::dec_at(
                b1,
                behind(c),
                399 + both(x > 0 && cs0.mb_t8x8@[l], y > 0 && cs0.mb_t8x8@[u]),
            ) == Some(
                if p.t8x8 {
                    1int
                } else {
                    0
                },
            )
            &&& p.cbp != 0 ==> d is Some && fe0.cur_qp + value(d) == fe0.qp && fe1.cur_qp == fe0.qp
                && cs1.last_delta_qp == value(d)
            &&& p.cbp == 0 ==> b1.len() == behind(c) && fe1.cur_qp == fe0.cur_qp && cs1.last_delta_qp
                == 0
            &&& cs1.mb_cbp@[a] == p.cbp
            &&& cs1.cat@[a] >= 2
            &&& cs1.mb_t8x8@[a] == (sized && p.t8x8)
        }),
{
    let w = fe0.mb_w as int;
    crate::grid::lemma_cell(w, fe0.mb_h as int, x, y);
    law_contexts_count_neighbours(cs0.mb_t8x8@, cs0.cmode@, cs0.cat@, w, x, y);
    let ty = binarize::mb_type_p_bins(0);
    assert(mbinter::p_type_bins(0, p.sub_types@) =~= ty);
    let (rb, bx, by) = (
        p16_ref_bins(cs0, p, w, x, y, num_refs as int),
        p16_mvd_bins(cs0, p, w, x, y, 0),
        p16_mvd_bins(cs0, p, w, x, y, 1),
    );
    lemma_p16_motion(b0 + ty, cs0, p, w, x, y, num_refs as int);
    let (cb, tb, tail) = (
        mbcabac::mb_cbp_bins(cs0, w, x, y, p.cbp as int),
        size_bins(fe0, cs0, p, x, y),
        lemma_inter_code(fe0, cs0, p, x, y),
    );
    lemma_seven(b1, b0, ty, rb, bx, by, cb, tb, tail);
    let q0 = b0.len() as int;
    readback::law_mb_type_p(b1, q0, 0);
    let q1 = q0 + ty.len();
    lemma_p16_ref_reads(b1, q1, cs0, p, w, x, y, num_refs as int);
    let q2 = q1 + rb.len();
    lemma_p16_mvd_reads(b1, q2, cs0, p, w, x, y, 0);
    let q3 = q2 + bx.len();
    lemma_p16_mvd_reads(b1, q3, cs0, p, w, x, y, 1);
    let q4 = q3 + by.len();
    readback::law_cbp(
        b1,
        q4,
        mbcabac::of(cs0.mb_cbp@, mbcabac::top_of(w, x, y)),
        mbcabac::of(cs0.mb_cbp@, mbcabac::left_of(w, x, y)),
        p.cbp as int,
    );
    let q5 = q4 + cb.len();
    if p.cbp as int % 16 > 0 && fe0.transform_8x8 {
        assert(b1[q5 + 0] == tb[0]);
    }
    let q6 = q5 + tb.len();
    if p.cbp != 0 {
        let dq = binarize::qp_delta_bins(cs0.last_delta_qp as int, fe0.qp - fe0.cur_qp);
        cabac::lemma_stands_at_concat(b1, q6, dq, tail.skip(dq.len() as int));
        readback::law_qp_delta(b1, q6, cs0.last_delta_qp as int, fe0.qp - fe0.cur_qp);
    }
}

/// The reference of a 16x16 macroblock in bins, where there is more than one to choose from.
spec fn p16_ref_bins(cs: CabacState, p: InterPlan, w: int, x: int, y: int, n: int) -> Seq<Bin> {
    let m = mbinter::motion0(Seq::empty(), cs, false, 0, w, x, y);
    if n > 1 {
        binarize::ref_idx_bins(
            cabac::bit(m.refc[6] > 0) + 2 * cabac::bit(m.refc[1] > 0),
            p.plan_refs@[0] as nat,
        )
    } else {
        Seq::empty()
    }
}

/// One component of the difference of a 16x16 macroblock in bins.
spec fn p16_mvd_bins(cs: CabacState, p: InterPlan, w: int, x: int, y: int, c: int) -> Seq<Bin> {
    let m = mbinter::motion0(Seq::empty(), cs, false, 0, w, x, y);
    binarize::mvd_bins(
        c,
        mbinter::mvd_step(mbinter::mvd_sum(m, 7, c)),
        if c == 0 {
            p.mvds@[0].0 as int
        } else {
            p.mvds@[0].1 as int
        },
    )
}

/// The transform flag of an inter macroblock in bins, where it is coded.
spec fn size_bins(fe: FrameEncoder, cs: CabacState, p: InterPlan, x: int, y: int) -> Seq<Bin> {
    if p.cbp as int % 16 > 0 && fe.transform_8x8 {
        seq![
            Bin::dec(399 + mbcabac::t8_ctx(cs, fe.mb_w as int, x, y), cabac::bit(p.t8x8)),
        ]
    } else {
        Seq::empty()
    }
}

proof fn lemma_p16_motion(
    b: Seq<Bin>,
    cs: CabacState,
    p: InterPlan,
    w: int,
    x: int,
    y: int,
    n: int,
)
    ensures
        mbinter::p_motion(mbinter::motion0(b, cs, false, 0, w, x, y), p, 0, n).bins == b
            + p16_ref_bins(cs, p, w, x, y, n) + p16_mvd_bins(cs, p, w, x, y, 0) + p16_mvd_bins(
            cs,
            p,
            w,
            x,
            y,
            1,
        ),
{
    let m0 = mbinter::motion0(b, cs, false, 0, w, x, y);
    let e0 = mbinter::motion0(Seq::empty(), cs, false, 0, w, x, y);
    assert(m0.refc == e0.refc && m0.mvdc == e0.mvdc);
    let l = mbinter::p_layout(0);
    let part = l[0];
    assert(part.idx == 0 && mbinter::CB_CACHE30[0] == 7);
    reveal_with_fuel(Motion::with_refs, 2);
    reveal_with_fuel(Motion::with_mvds, 2);
    let m1 = if n > 1 {
        m0.with_ref(part, p.plan_refs@[0])
    } else {
        m0
    };
    if n > 1 {
        lemma_splat_keeps(m0.refc, part.blocks, 16, p.plan_refs@[0] as i8, 1);
        lemma_splat_keeps(m0.refc, part.blocks, 16, p.plan_refs@[0] as i8, 6);
    }
    assert(m1.bins =~= b + p16_ref_bins(cs, p, w, x, y, n));
    assert(m1.mvdc == e0.mvdc);
    assert(m1.refc[1] == e0.refc[1] && m1.refc[6] == e0.refc[6]);
    assert(mbinter::mvd_sum(m1, 7, 0) == mbinter::mvd_sum(e0, 7, 0));
    assert(mbinter::mvd_sum(m1, 7, 1) == mbinter::mvd_sum(e0, 7, 1));
    let refs = |i: int| p.plan_refs@[i] as i8;
    let m2 = m1.with_mvds(l, p.mvds@, 0, refs, 1);
    assert(m2 == m1.with_mvd(part, p.mvds@[0], refs(0)));
    assert(mbinter::p_motion(m0, p, 0, n) == m2);
}

proof fn lemma_inter_code(fe: FrameEncoder, cs: CabacState, p: InterPlan, x: int, y: int) -> (tail:
    Seq<Bin>)
    ensures
        ({
            let c = mbinter::inter_code(fe, cs, p, true, x, y);
            let dq = binarize::qp_delta_bins(cs.last_delta_qp as int, fe.qp - fe.cur_qp);
            &&& c.bins == mbcabac::mb_cbp_bins(cs, fe.mb_w as int, x, y, p.cbp as int) + size_bins(
                fe,
                cs,
                p,
                x,
                y,
            ) + tail
            &&& p.cbp == 0 ==> tail.len() == 0
            &&& p.cbp != 0 ==> tail == dq + tail.skip(dq.len() as int)
        }),
{
    let c = mbinter::inter_code(fe, cs, p, true, x, y);
    let head = mbcabac::mb_cbp_bins(cs, fe.mb_w as int, x, y, p.cbp as int) + size_bins(
        fe,
        cs,
        p,
        x,
        y,
    );
    let dq = binarize::qp_delta_bins(cs.last_delta_qp as int, fe.qp - fe.cur_qp);
    let tail = c.bins.skip(head.len() as int);
    assert(c.bins =~= head + tail);
    if p.cbp != 0 {
        assert(tail =~= dq + tail.skip(dq.len() as int));
    }
    tail
}

proof fn lemma_seven(
    s: Seq<Bin>,
    a: Seq<Bin>,
    x1: Seq<Bin>,
    x2: Seq<Bin>,
    x3: Seq<Bin>,
    x4: Seq<Bin>,
    x5: Seq<Bin>,
    x6: Seq<Bin>,
    x7: Seq<Bin>,
)
    requires
        s == a + x1 + x2 + x3 + x4 + (x5 + x6 + x7),
    ensures
        ({
            let q1 = a.len() as int;
            let q2 = q1 + x1.len();
            let q3 = q2 + x2.len();
            let q4 = q3 + x3.len();
            let q5 = q4 + x4.len();
            let q6 = q5 + x5.len();
            let q7 = q6 + x6.len();
            &&& cabac::stands_at(s, q1, x1)
            &&& cabac::stands_at(s, q2, x2)
            &&& cabac::stands_at(s, q3, x3)
            &&& cabac::stands_at(s, q4, x4)
            &&& cabac::stands_at(s, q5, x5)
            &&& cabac::stands_at(s, q6, x6)
            &&& cabac::stands_at(s, q7, x7)
            &&& s.len() == q7 + x7.len()
        }),
{
    let c = x5 + x6 + x7;
    assert(cabac::stands_at(s, 0, s));
    cabac::lemma_stands_at_concat(s, 0, a + x1 + x2 + x3 + x4, c);
    cabac::lemma_stands_at_concat(s, 0, a + x1 + x2 + x3, x4);
    cabac::lemma_stands_at_concat(s, 0, a + x1 + x2, x3);
    cabac::lemma_stands_at_concat(s, 0, a + x1, x2);
    cabac::lemma_stands_at_concat(s, 0, a, x1);
    let q = (a + x1 + x2 + x3 + x4).len() as int;
    cabac::lemma_stands_at_concat(s, q, x5 + x6, x7);
    cabac::lemma_stands_at_concat(s, q, x5, x6);
}

proof fn lemma_p16_ref_reads(
    s: Seq<Bin>,
    q: int,
    cs: CabacState,
    p: InterPlan,
    w: int,
    x: int,
    y: int,
    n: int,
)
    requires
        0 <= x < w,
        0 <= y,
        p.wf(),
        cabac::stands_at(s, q, p16_ref_bins(cs, p, w, x, y, n)),
    ensures
        n > 1 ==> ({
            let up_ref = y > 0 && cs.mb_ref@[upper_addr(w, x, y)]@[12] > 0;
            let left_ref = x > 0 && cs.mb_ref@[left_addr(w, x, y)]@[3] > 0;
            readback::read_ref_idx(
                s,
                q,
                (if left_ref {
                    1int
                } else {
                    0
                }) + (if up_ref {
                    2int
                } else {
                    0
                }),
                0,
            ) == Some((p.plan_refs@[0] as nat, q + p16_ref_bins(cs, p, w, x, y, n).len()))
        }),
        n <= 1 ==> p16_ref_bins(cs, p, w, x, y, n).len() == 0,
{
    law_motion_reaches_the_neighbours(Seq::empty(), cs, false, 0, w, x, y, 0);
    let m = mbinter::motion0(Seq::empty(), cs, false, 0, w, x, y);
    if n > 1 {
        readback::law_ref_idx(
            s,
            q,
            cabac::bit(m.refc[6] > 0) + 2 * cabac::bit(m.refc[1] > 0),
            p.plan_refs@[0] as nat,
        );
    }
}

proof fn lemma_p16_mvd_reads(
    s: Seq<Bin>,
    q: int,
    cs: CabacState,
    p: InterPlan,
    w: int,
    x: int,
    y: int,
    c: int,
)
    requires
        0 <= c <= 1,
        cabac::stands_at(s, q, p16_mvd_bins(cs, p, w, x, y, c)),
    ensures
        ({
            let m = mbinter::motion0(Seq::empty(), cs, false, 0, w, x, y);
            let sum = contexts::neighbour_mvd(m, 1, c) + contexts::neighbour_mvd(m, 6, c);
            readback::read_mvd(
                s,
                q,
                c,
                if sum > 32 {
                    2
                } else if sum >= 3 {
                    1
                } else {
                    0
                },
            ) == Some(
                (
                    if c == 0 {
                        p.mvds@[0].0 as int
                    } else {
                        p.mvds@[0].1 as int
                    },
                    q + p16_mvd_bins(cs, p, w, x, y, c).len(),
                ),
            )
        }),
{
    let m = mbinter::motion0(Seq::empty(), cs, false, 0, w, x, y);
    let step = mbinter::mvd_step(mbinter::mvd_sum(m, 7, c));
    readback::law_mvd(
        s,
        q,
        c,
        step,
        if c == 0 {
            p.mvds@[0].0 as int
        } else {
            p.mvds@[0].1 as int
        },
    );
}

proof fn lemma_splat_keeps<T>(g: Seq<T>, blocks: Seq<usize>, n: int, v: T, c: int)
    requires
        0 <= n <= blocks.len(),
        g.len() == 30,
        c == 1 || c == 6,
        forall|i: int| 0 <= i < blocks.len() ==> #[trigger] blocks[i] < 16,
    ensures
        mbinter::splat(g, mbinter::CB_CACHE30@, blocks, n, v).len() == 30,
        mbinter::splat(g, mbinter::CB_CACHE30@, blocks, n, v)[c] == g[c],
    decreases n,
{
    if n > 0 {
        lemma_splat_keeps(g, blocks, n - 1, v, c);
        contexts::law_cache_cells(blocks[n - 1] as int);
    }
}

/// Two partitions: both references, where there is more than one to choose from, before both differences,
/// the first partition before the second.
pub proof fn law_two_partitions(m: Motion, p: InterPlan, mode: int, num_refs: int)
    requires
        mode == 1 || mode == 2,
    ensures
        ({
            let l = mbinter::p_layout(mode);
            let r = |i: int| p.plan_refs@[i];
            let n = if num_refs > 1 {
                m.with_ref(l[0], r(0)).with_ref(l[1], r(1))
            } else {
                m
            };
            mbinter::p_motion(m, p, mode, num_refs) == n.with_mvd(
                l[0],
                p.mvds@[0],
                r(0) as i8,
            ).with_mvd(l[1], p.mvds@[1], r(1) as i8)
        }),
{
    let l = mbinter::p_layout(mode);
    assert(l.len() == 2);
    reveal_with_fuel(Motion::with_refs, 3);
    reveal_with_fuel(Motion::with_mvds, 3);
}

/// A quarter has one vector where it is whole, two where it is halved and four where it is quartered; the
/// vectors of a quarter come behind those of the quarters before it.
pub proof fn law_vectors_of_quarters(t: Seq<u8>, n: int)
    requires
        0 <= n < t.len(),
        t[n] <= 3,
    ensures
        mbinter::sub_count(t, 0) == 0,
        mbinter::sub_count(t, n + 1) == mbinter::sub_count(t, n) + (if t[n] == 0 {
            1int
        } else if t[n] == 3 {
            4
        } else {
            2
        }),
{
}

/// The quarters of a macroblock are coded one behind the other, each with its own reference and its own
/// vectors: quarter `n` starts with the vector behind those of the quarters before it.
pub proof fn law_quarters_in_turn(m: Motion, p: InterPlan, n: int)
    requires
        0 <= n < 4,
    ensures
        mbinter::with_quarters(m, p, 0) == m,
        p.sub_types@[n] == 0 ==> mbinter::with_quarters(m, p, n + 1) == mbinter::with_quarters(
            m,
            p,
            n,
        ).with_mvd(
            mbinter::p_layout(3)[n],
            p.mvds@[mbinter::sub_count(p.sub_types@, n)],
            p.plan_refs@[n] as i8,
        ),
{
    reveal_with_fuel(Motion::with_mvds, 3);
    let l = mbinter::p_sub_layout(n, 0);
    assert(l.len() == 1);
    assert(l[0] == mbinter::p_layout(3)[n]);
}

/// A decoder walks an `I_4x4` macroblock of an I slice: its type; the transform flag, clear, where the
/// stream allows both transforms; behind the modes the chroma mode and the pattern; and, with a pattern,
/// the QP step, which takes the QP from the last one to that of the macroblock.
#[verifier::spinoff_prover]
#[verifier::rlimit(100)]
pub proof fn law_i4_walk(
    fe0: FrameEncoder,
    fe1: FrameEncoder,
    b0: Seq<Bin>,
    b1: Seq<Bin>,
    cs0: CabacState,
    cs1: CabacState,
    p: MbPlan,
    x: int,
    y: int,
)
    requires
        mbcabac::i_coded(fe0, fe1, b0, b1, cs0, cs1, p, x, y),
        p.wf(),
        p.use_i4,
        p.i8 is None,
        p.chroma_mode <= 3,
        fe0.wf(),
        fe0.has_mb(x, y),
        cs0.wf(fe0.mb_w * fe0.mb_h),
    ensures
        ({
            let w = fe0.mb_w as int;
            let (l, u) = (left_addr(w, x, y), upper_addr(w, x, y));
            let i4 = p.i4->Some_0;
            let t = readback::read_mb_type_i(
                b1,
                b0.len() as int,
                both(x > 0 && cs0.cat@[l] >= 2, y > 0 && cs0.cat@[u] >= 2),
            );
            let q = behind(t) + if fe0.transform_8x8 {
                1int
            } else {
                0
            };
            let modes = mbcabac::i4_modes_bins(fe0, i4.modes@, x, y, 16);
            let c = readback::read_chroma_mode(
                b1,
                q + modes.len(),
                both(x > 0 && 1 <= cs0.cmode@[l] <= 3, y > 0 && 1 <= cs0.cmode@[u] <= 3),
            );
            let k = readback::read_cbp(
                b1,
                behind(c),
                if y > 0 {
                    Some(cs0.mb_cbp@[u])
                } else {
                    None
                },
                if x > 0 {
                    Some(cs0.mb_cbp@[l])
                } else {
                    None
                },
            );
            let d = readback::read_qp_delta(b1, behind(k), cs0.last_delta_qp as int);
            let cbp = i4.cbp_luma + 16 * p.cbp_chroma;
            let a = y * w + x;
            &&& t is Some && value(t) == readback::nxn_type()
            &&& fe0.transform_8x8 ==> cabac::dec_at(
                b1,
                behind(t),
                399 + both(x > 0 && cs0.mb_t8x8@[l], y > 0 && cs0.mb_t8x8@[u]),
            ) == Some(0int)
            &&& cabac::stands_at(b1, q, modes)
            &&& c is Some && value(c) == p.chroma_mode
            &&& k is Some && value(k) == cbp
            &&& cbp != 0 ==> d is Some && fe0.cur_qp + value(d) == fe0.qp && fe1.cur_qp == fe0.qp
                && cs1.last_delta_qp == value(d)
            &&& cbp == 0 ==> b1.len() == behind(k) && fe1.cur_qp == fe0.cur_qp && cs1.last_delta_qp
                == 0
            &&& cs1.cat@[a] < 2
            &&& cs1.cmode@[a] == p.chroma_mode
            &&& cs1.mb_cbp@[a] == cbp
        }),
{
    let w = fe0.mb_w as int;
    let i4 = p.i4->Some_0;
    crate::grid::lemma_cell(w, fe0.mb_h as int, x, y);
    law_contexts_count_neighbours(cs0.mb_t8x8@, cs0.cmode@, cs0.cat@, w, x, y);
    let code = mbcabac::i4_code(fe0, cs0, p, i4, x, y);
    let (top, left) = (mbcabac::top_of(w, x, y), mbcabac::left_of(w, x, y));
    let ty = binarize::mb_type_i_bins(mbcabac::cat_ctx(cs0.cat@, top, left), mbcabac::type_of(p));
    let tb = if fe0.transform_8x8 {
        seq![Bin::dec(399 + mbcabac::t8_ctx(cs0, w, x, y), 0)]
    } else {
        Seq::<Bin>::empty()
    };
    let modes = mbcabac::i4_modes_bins(fe0, i4.modes@, x, y, 16);
    let cm = mbcabac::cmode_bins(cs0, w, x, y, p.chroma_mode as int);
    let cbp = i4.cbp_luma + 16 * p.cbp_chroma;
    let cb = mbcabac::mb_cbp_bins(cs0, w, x, y, cbp);
    let dq = binarize::qp_delta_bins(cs0.last_delta_qp as int, fe0.qp - fe0.cur_qp);
    let tail = lemma_i4_code(fe0, cs0, p, i4, x, y);
    lemma_regroup(b0 + ty, tb, modes, cm, cb, tail);
    lemma_seven(b1, b0, ty, tb, modes, cm, cb, Seq::empty(), tail);
    lemma_i4_reads(b1, b0.len() as int, fe0, cs0, p, x, y, ty, tb, modes, cm, cb);
    if cbp != 0 {
        let q = b0.len() + ty.len() + tb.len() + modes.len() + cm.len() + cb.len();
        cabac::lemma_stands_at_concat(b1, q as int, dq, tail.skip(dq.len() as int));
        readback::law_qp_delta(b1, q as int, cs0.last_delta_qp as int, fe0.qp - fe0.cur_qp);
    }
}

proof fn lemma_regroup(
    a: Seq<Bin>,
    x2: Seq<Bin>,
    x3: Seq<Bin>,
    x4: Seq<Bin>,
    x5: Seq<Bin>,
    x7: Seq<Bin>,
)
    ensures
        a + (x2 + x3 + x4 + x5 + x7) == a + x2 + x3 + x4 + (x5 + Seq::<Bin>::empty() + x7),
{
    assert(a + (x2 + x3 + x4 + x5 + x7) =~= a + x2 + x3 + x4 + (x5 + Seq::<Bin>::empty() + x7));
}

proof fn lemma_i4_code(
    fe: FrameEncoder,
    cs: CabacState,
    p: MbPlan,
    i4: I4Plan,
    x: int,
    y: int,
) -> (tail: Seq<Bin>)
    ensures
        ({
            let w = fe.mb_w as int;
            let c = mbcabac::i4_code(fe, cs, p, i4, x, y);
            let dq = binarize::qp_delta_bins(cs.last_delta_qp as int, fe.qp - fe.cur_qp);
            let tb = if fe.transform_8x8 {
                seq![Bin::dec(399 + mbcabac::t8_ctx(cs, w, x, y), 0)]
            } else {
                Seq::<Bin>::empty()
            };
            let cbp = i4.cbp_luma + 16 * p.cbp_chroma;
            &&& c.bins == tb + mbcabac::i4_modes_bins(fe, i4.modes@, x, y, 16)
                + mbcabac::cmode_bins(cs, w, x, y, p.chroma_mode as int) + mbcabac::mb_cbp_bins(
                cs,
                w,
                x,
                y,
                cbp,
            ) + tail
            &&& cbp == 0 ==> tail.len() == 0
            &&& cbp != 0 ==> tail == dq + tail.skip(dq.len() as int)
        }),
{
    let w = fe.mb_w as int;
    let c = mbcabac::i4_code(fe, cs, p, i4, x, y);
    let dq = binarize::qp_delta_bins(cs.last_delta_qp as int, fe.qp - fe.cur_qp);
    let tb = if fe.transform_8x8 {
        seq![Bin::dec(399 + mbcabac::t8_ctx(cs, w, x, y), 0)]
    } else {
        Seq::<Bin>::empty()
    };
    let cbp = i4.cbp_luma + 16 * p.cbp_chroma;
    let head = tb + mbcabac::i4_modes_bins(fe, i4.modes@, x, y, 16) + mbcabac::cmode_bins(
        cs,
        w,
        x,
        y,
        p.chroma_mode as int,
    ) + mbcabac::mb_cbp_bins(cs, w, x, y, cbp);
    let tail = c.bins.skip(head.len() as int);
    assert(c.bins =~= head + tail);
    if cbp != 0 {
        assert(tail =~= dq + tail.skip(dq.len() as int));
    }
    tail
}

proof fn lemma_i4_reads(
    b1: Seq<Bin>,
    q0: int,
    fe: FrameEncoder,
    cs: CabacState,
    p: MbPlan,
    x: int,
    y: int,
    ty: Seq<Bin>,
    tb: Seq<Bin>,
    modes: Seq<Bin>,
    cm: Seq<Bin>,
    cb: Seq<Bin>,
)
    requires
        p.wf(),
        p.use_i4,
        p.i8 is None,
        p.chroma_mode <= 3,
        ({
            let w = fe.mb_w as int;
            let (top, left) = (mbcabac::top_of(w, x, y), mbcabac::left_of(w, x, y));
            let q1 = q0 + ty.len();
            let q2 = q1 + tb.len();
            let q3 = q2 + modes.len();
            let q4 = q3 + cm.len();
            &&& ty == binarize::mb_type_i_bins(
                mbcabac::cat_ctx(cs.cat@, top, left),
                mbcabac::type_of(p),
            )
            &&& fe.transform_8x8 ==> tb == seq![Bin::dec(399 + mbcabac::t8_ctx(cs, w, x, y), 0)]
            &&& cm == mbcabac::cmode_bins(cs, w, x, y, p.chroma_mode as int)
            &&& cb == mbcabac::mb_cbp_bins(
                cs,
                w,
                x,
                y,
                p.i4->Some_0.cbp_luma + 16 * p.cbp_chroma,
            )
            &&& cabac::stands_at(b1, q0, ty)
            &&& cabac::stands_at(b1, q1, tb)
            &&& cabac::stands_at(b1, q3, cm)
            &&& cabac::stands_at(b1, q4, cb)
        }),
    ensures
        ({
            let w = fe.mb_w as int;
            let (top, left) = (mbcabac::top_of(w, x, y), mbcabac::left_of(w, x, y));
            let q1 = q0 + ty.len();
            let q2 = q1 + tb.len();
            let q3 = q2 + modes.len();
            let q4 = q3 + cm.len();
            let q5 = q4 + cb.len();
            &&& readback::read_mb_type_i(b1, q0, mbcabac::cat_ctx(cs.cat@, top, left)) == Some(
                (readback::nxn_type(), q1),
            )
            &&& fe.transform_8x8 ==> cabac::dec_at(b1, q1, 399 + mbcabac::t8_ctx(cs, w, x, y))
                == Some(0int)
            &&& readback::read_chroma_mode(b1, q3, mbcabac::cmode_ctx(cs.cmode@, top, left)) == Some(
                (p.chroma_mode as int, q4),
            )
            &&& readback::read_cbp(
                b1,
                q4,
                mbcabac::of(cs.mb_cbp@, top),
                mbcabac::of(cs.mb_cbp@, left),
            ) == Some((p.i4->Some_0.cbp_luma + 16 * p.cbp_chroma, q5))
        }),
{
    let w = fe.mb_w as int;
    let (top, left) = (mbcabac::top_of(w, x, y), mbcabac::left_of(w, x, y));
    let q1 = q0 + ty.len();
    let q2 = q1 + tb.len();
    let q3 = q2 + modes.len();
    let q4 = q3 + cm.len();
    readback::law_mb_type_i(
        b1,
        q0,
        mbcabac::cat_ctx(cs.cat@, top, left),
        mbcabac::type_of(p),
    );
    if fe.transform_8x8 {
        assert(b1[q1 + 0] == tb[0]);
    }
    readback::law_chroma_mode(
        b1,
        q3,
        mbcabac::cmode_ctx(cs.cmode@, top, left),
        p.chroma_mode as int,
    );
    readback::law_cbp(
        b1,
        q4,
        mbcabac::of(cs.mb_cbp@, top),
        mbcabac::of(cs.mb_cbp@, left),
        p.i4->Some_0.cbp_luma + 16 * p.cbp_chroma,
    );
}

/// The lists that a B prediction uses: 1 is list 0, 2 is list 1, 3 is both.
pub proof fn law_lists(pred: u8)
    ensures
        mbinter::uses(pred, false) == (pred == 1 || pred == 3),
        mbinter::uses(pred, true) == (pred == 2 || pred == 3),
{
}

/// The motion of a whole B macroblock: nothing for direct; the difference of list 0 where that is used,
/// and behind it the difference of list 1 where that is used, which is the second one only where both
/// are. Lists that are not used have no reference.
pub proof fn law_b16_motion(
    bins: Seq<Bin>,
    cs: CabacState,
    dir: u8,
    mvds: Seq<(i32, i32)>,
    w: int,
    x: int,
    y: int,
)
    requires
        dir <= 3,
    ensures
        ({
            let (m0, m1) = mbinter::b_motion(
                bins,
                cs,
                mbinter::b_shape(dir as int, None),
                mvds,
                w,
                x,
                y,
            );
            let part = mbinter::p_layout(0)[0];
            let own = if dir == 0 {
                0i8
            } else {
                -1i8
            };
            let z0 = mbinter::motion0(bins, cs, false, own, w, x, y);
            let z1 = mbinter::motion0(m0.bins, cs, true, own, w, x, y);
            &&& dir == 0 ==> m1.bins == bins
            &&& dir == 0 || dir == 2 ==> m0 == z0
            &&& dir == 0 || dir == 1 ==> m1 == z1
            &&& dir == 1 || dir == 3 ==> m0 == z0.with_mvd(part, mvds[0], 0)
            &&& dir == 2 ==> m1 == z1.with_mvd(part, mvds[0], 0)
            &&& dir == 3 ==> m1 == z1.with_mvd(part, mvds[1], 0)
        }),
{
    reveal_with_fuel(Motion::with_used, 3);
    reveal_with_fuel(mbinter::used_count, 3);
}

/// The type number of a B macroblock: the direction where it is whole; else the types that the two
/// partitions' predictions stand at, those of halves one above the other even and side by side odd.
pub proof fn law_b_types(p0: int, p1: int, m: int)
    requires
        1 <= p0 <= 3,
        1 <= p1 <= 3,
        m == 1 || m == 2,
    ensures
        ({
            let t = binarize::b_part_type(p0, p1, m);
            let k = t / 2;
            &&& (t % 2 == 0) == (m == 1)
            &&& p0 == p1 && p0 < 3 ==> k == 1 + p0
            &&& p0 < 3 && p1 < 3 && p0 != p1 ==> k == 3 + p0
            &&& p0 < 3 && p1 == 3 ==> k == 5 + p0
            &&& p0 == 3 && p1 < 3 ==> k == 7 + p1
            &&& p0 == 3 && p1 == 3 ==> k == 10
        }),
{
}

/// The type of a B macroblock has contexts from 27 on, one more for each neighbour that is there and not
/// direct; a decoder reads it back.
pub proof fn law_b_type_walk(
    s: Seq<Bin>,
    at: int,
    cs: CabacState,
    w: int,
    x: int,
    y: int,
    t: int,
)
    requires
        0 <= x < w,
        0 <= y,
        0 <= t <= 22,
        cabac::stands_at(s, at, mbinter::b_type_bins(cs, w, x, y, t)),
    ensures
        readback::read_mb_type_b(
            s,
            at,
            both(
                x > 0 && !cs.mb_direct@[left_addr(w, x, y)],
                y > 0 && !cs.mb_direct@[upper_addr(w, x, y)],
            ),
        ) == Some((t, at + mbinter::b_type_bins(cs, w, x, y, t).len())),
{
    law_contexts_count_neighbours(cs.mb_direct@, cs.cmode@, cs.cat@, w, x, y);
    readback::law_mb_type_b(
        s,
        at,
        both(
            x > 0 && !cs.mb_direct@[left_addr(w, x, y)],
            y > 0 && !cs.mb_direct@[upper_addr(w, x, y)],
        ),
        t,
    );
}

/// Behind a B macroblock the neighbours see whether it was direct, and a decoder has its motion in both
/// lists, its pattern and its QP.
pub proof fn law_b_macroblock_is_remembered(
    fe0: FrameEncoder,
    fe1: FrameEncoder,
    b0: Seq<Bin>,
    b1: Seq<Bin>,
    cs0: CabacState,
    cs1: CabacState,
    dir: u8,
    p: InterPlan,
    x: int,
    y: int,
)
    requires
        mbinter::b_inter_coded(fe0, fe1, b0, b1, cs0, cs1, dir, None, p, x, y),
        p.wf(),
        1 <= dir <= 3,
        fe0.wf(),
        fe0.has_mb(x, y),
        cs0.wf(fe0.mb_w * fe0.mb_h),
    ensures
        ({
            let w = fe0.mb_w as int;
            let a = y * w + x;
            &&& !cs1.mb_direct@[a]
            &&& cs1.mb_cbp@[a] == p.cbp
            &&& cs1.cat@[a] >= 2
            &&& fe1.cur_qp == (if p.cbp == 0 {
                fe0.cur_qp
            } else {
                fe0.qp
            })
            &&& forall|i: int|
                0 <= i < 16 ==> #[trigger] cs1.mb_ref@[a]@[i] == (if dir == 2 {
                    -1i8
                } else {
                    0i8
                })
            &&& forall|i: int|
                0 <= i < 16 ==> #[trigger] cs1.mb_ref1@[a]@[i] == (if dir == 1 {
                    -1i8
                } else {
                    0i8
                })
            &&& dir != 2 ==> forall|i: int|
                0 <= i < 16 ==> #[trigger] cs1.mb_mvd@[a]@[i] == [
                    p.mvds@[0].0 as i16,
                    p.mvds@[0].1 as i16,
                ]
            &&& dir == 2 ==> forall|i: int|
                0 <= i < 16 ==> #[trigger] cs1.mb_mvd1@[a]@[i] == [
                    p.mvds@[0].0 as i16,
                    p.mvds@[0].1 as i16,
                ]
            &&& dir == 3 ==> forall|i: int|
                0 <= i < 16 ==> #[trigger] cs1.mb_mvd1@[a]@[i] == [
                    p.mvds@[1].0 as i16,
                    p.mvds@[1].1 as i16,
                ]
        }),
{
    let w = fe0.mb_w as int;
    crate::grid::lemma_cell(w, fe0.mb_h as int, x, y);
    let bins = b0 + mbinter::b_type_bins(cs0, w, x, y, mbinter::b_type(dir as int, None));
    law_b16_motion(bins, cs0, dir, p.mvds@, w, x, y);
    let (m0, m1) = mbinter::b_motion(
        bins,
        cs0,
        mbinter::b_shape(dir as int, None),
        p.mvds@,
        w,
        x,
        y,
    );
    let part = mbinter::p_layout(0)[0];
    let z0 = mbinter::motion0(bins, cs0, false, -1i8, w, x, y);
    let z1 = mbinter::motion0(m0.bins, cs0, true, -1i8, w, x, y);
    if dir != 2 {
        assert forall|i: int| 0 <= i < 16 implies #[trigger] m0.mref[i] == 0 by {
            lemma_whole(z0, p.mvds@[0], i);
        }
        assert forall|i: int| 0 <= i < 16 implies #[trigger] m0.mmvd[i] == [
            p.mvds@[0].0 as i16,
            p.mvds@[0].1 as i16,
        ] by {
            lemma_whole(z0, p.mvds@[0], i);
        }
    }
    if dir == 2 {
        assert forall|i: int| 0 <= i < 16 implies #[trigger] m1.mref[i] == 0 by {
            lemma_whole(z1, p.mvds@[0], i);
        }
        assert forall|i: int| 0 <= i < 16 implies #[trigger] m1.mmvd[i] == [
            p.mvds@[0].0 as i16,
            p.mvds@[0].1 as i16,
        ] by {
            lemma_whole(z1, p.mvds@[0], i);
        }
    }
    if dir == 3 {
        assert forall|i: int| 0 <= i < 16 implies #[trigger] m1.mref[i] == 0 by {
            lemma_whole(z1, p.mvds@[1], i);
        }
        assert forall|i: int| 0 <= i < 16 implies #[trigger] m1.mmvd[i] == [
            p.mvds@[1].0 as i16,
            p.mvds@[1].1 as i16,
        ] by {
            lemma_whole(z1, p.mvds@[1], i);
        }
    }
}

/// A difference of the whole macroblock is kept for all of its blocks.
proof fn lemma_whole(m: Motion, mvd: (i32, i32), i: int)
    requires
        m.sized(),
        0 <= i < 16,
    ensures
        ({
            let n = m.with_mvd(mbinter::p_layout(0)[0], mvd, 0);
            n.mref[i] == 0 && n.mmvd[i] == [mvd.0 as i16, mvd.1 as i16]
        }),
{
    let (x, y) = (i % 4, i / 4);
    let z = 8 * (y / 2) + 4 * (x / 2) + 2 * (y % 2) + x % 2;
    assert(contexts::row(z) == y && contexts::column(z) == x);
    let part = mbinter::p_layout(0)[0];
    assert(part.blocks[z] == z as usize);
    contexts::law_mvd_is_kept(m, part, mvd, 0, z);
}

} // verus!
