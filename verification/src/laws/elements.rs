//! What the elements of a macroblock in CAVLC tell a decoder.
use vstd::prelude::*;
use crate::cavlc;
use crate::cavlc::{ElemView, Run};
use crate::frame::FrameEncoder;
use crate::grid;
use crate::mbcavlc;
use crate::mbcavlc::Coding;
use crate::partition::BInter;
use crate::plan;
use crate::plan::{InterPlan, MbPlan};
use crate::residual;
use crate::scan;
use super::contexts;

verus! {

/// The count that predicts a block is half the sum of its two neighbours' counts, rounded up; the one
/// there is; or zero. It does not matter which is which.
pub proof fn law_mean_count(a: u8, b: u8)
    requires
        a <= 63 || b <= 63,
        a <= 64,
        b <= 64,
    ensures
        ({
            let m = cavlc::mean_count(Some(a), Some(b));
            &&& 2 * m == a + b || 2 * m == a + b + 1
            &&& m == cavlc::mean_count(Some(b), Some(a))
            &&& cavlc::mean_count(Some(a), None) == a
            &&& cavlc::mean_count(None, Some(b)) == b
            &&& cavlc::mean_count(None, None) == 0
        }),
{
}

/// The block at `(x, y)` is predicted from the one on its left and the one above it, where the frame has
/// them.
pub proof fn law_grid_count(g: Seq<u8>, w: int, x: int, y: int)
    requires
        0 <= x,
        0 <= y,
    ensures
        ({
            let l = if x > 0 {
                Some(g[y * w + x - 1])
            } else {
                None
            };
            let u = if y > 0 {
                Some(g[(y - 1) * w + x])
            } else {
                None
            };
            cavlc::grid_nc(g, w, x, y) == cavlc::mean_count(l, u)
        }),
{
}

/// Coding the blocks of luma from `z` on: each block of a marked quarter leaves one residual with its
/// levels, and the number of its levels in the grid; each other block leaves none and a zero; no other
/// cell changes.
pub proof fn law_luma_counts(
    w: int,
    h: int,
    x: int,
    y: int,
    levels: Seq<Seq<i32>>,
    cbp: int,
    z: int,
    s: Run,
    b: int,
    c: int,
)
    requires
        0 <= x < w,
        0 <= y < h,
        s.nnz.len() == (4 * w) * (4 * h),
        0 <= z <= 16,
        z <= b < 16,
        0 <= c < s.nnz.len(),
    ensures
        ({
            let r = cavlc::luma_run(w, x, y, levels, cbp, z, s);
            let cell = (4 * y + contexts::row(b)) * (4 * w) + 4 * x + contexts::column(b);
            &&& r.nnz.len() == s.nnz.len()
            &&& r.nnz[cell] == (if plan::cbp_bit(cbp, b / 4) {
                residual::count_nz(levels[b], levels[b].len() as int) as u8
            } else {
                0
            })
            &&& (!(4 * x <= c % (4 * w) < 4 * x + 4) || !(4 * y <= c / (4 * w) < 4 * y + 4))
                ==> r.nnz[c] == s.nnz[c]
        }),
    decreases 16 - z,
{
    super::levels::law_blocks_come_by_quarters(z);
    super::levels::law_blocks_come_by_quarters(b);
    let n = cavlc::luma_step(w, x, y, levels, cbp, z, s);
    let (zx, zy) = (4 * x + contexts::column(z), 4 * y + contexts::row(z));
    grid::lemma_cell(4 * w, 4 * h, zx, zy);
    grid::lemma_cell(4 * w, 4 * h, 4 * x + contexts::column(b), 4 * y + contexts::row(b));
    let at = grid::luma_cell(w, x, y, z);
    assert(at == grid::cell(4 * w, zx, zy));
    assert(n.nnz.len() == s.nnz.len());
    if c == at {
        assert(c % (4 * w) == zx && c / (4 * w) == zy);
    }
    if z < b {
        law_luma_counts(w, h, x, y, levels, cbp, z + 1, n, b, c);
    } else if z < 15 {
        law_luma_counts(w, h, x, y, levels, cbp, z + 1, n, 15, c);
        let cell = grid::luma_cell(w, x, y, b);
        lemma_later_blocks(w, h, x, y, levels, cbp, z + 1, n, b);
    } else {
        assert(cavlc::luma_run(w, x, y, levels, cbp, 16, n) == n);
    }
}

/// The blocks from `z` on leave the cell of a block before them.
proof fn lemma_later_blocks(
    w: int,
    h: int,
    x: int,
    y: int,
    levels: Seq<Seq<i32>>,
    cbp: int,
    z: int,
    s: Run,
    b: int,
)
    requires
        0 <= x < w,
        0 <= y < h,
        s.nnz.len() == (4 * w) * (4 * h),
        0 <= b < z <= 16,
    ensures
        ({
            let cell = (4 * y + contexts::row(b)) * (4 * w) + 4 * x + contexts::column(b);
            cavlc::luma_run(w, x, y, levels, cbp, z, s).nnz[cell] == s.nnz[cell]
        }),
    decreases 16 - z,
{
    if z < 16 {
        super::levels::law_blocks_come_by_quarters(z);
        let n = cavlc::luma_step(w, x, y, levels, cbp, z, s);
        let (zx, zy) = (4 * x + contexts::column(z), 4 * y + contexts::row(z));
        let (bx, by) = (4 * x + contexts::column(b), 4 * y + contexts::row(b));
        grid::lemma_cell(4 * w, 4 * h, zx, zy);
        grid::lemma_cell(4 * w, 4 * h, bx, by);
        assert(zx != bx || zy != by);
        assert(grid::luma_cell(w, x, y, z) == grid::cell(4 * w, zx, zy));
        assert(grid::cell(4 * w, zx, zy) != grid::cell(4 * w, bx, by));
        lemma_later_blocks(w, h, x, y, levels, cbp, z + 1, n, b);
    }
}

/// One for each marked quarter before quarter `k`.
pub open spec fn marked_before(cbp: int, k: int) -> int
    decreases k,
{
    if k <= 0 {
        0
    } else {
        marked_before(cbp, k - 1) + if plan::cbp_bit(cbp, k - 1) {
            1int
        } else {
            0
        }
    }
}

/// The residuals of luma come in coding order: block `z` of a marked quarter stands behind the four
/// blocks of each marked quarter before and behind the blocks of its own before it, with its levels.
pub proof fn law_luma_order(
    w: int,
    x: int,
    y: int,
    levels: Seq<Seq<i32>>,
    cbp: int,
    s: Run,
    b: int,
)
    requires
        0 <= b < 16,
    ensures
        ({
            let r = cavlc::luma_run(w, x, y, levels, cbp, 0, s);
            let k = s.out.len() + 4 * marked_before(cbp, b / 4) + b % 4;
            &&& r.out.len() == s.out.len() + 4 * marked_before(cbp, 4)
            &&& r.out.take(s.out.len() as int) == s.out
            &&& plan::cbp_bit(cbp, b / 4) ==> k < r.out.len() && r.out[k] is Residual
                && r.out[k]->levels == levels[b]
        }),
{
    assert(s.out.take(s.out.len() as int) =~= s.out);
    lemma_luma_order(w, x, y, levels, cbp, 0, s, s, b);
}

/// Where the blocks before `z` have been put behind `s0`.
proof fn lemma_luma_order(
    w: int,
    x: int,
    y: int,
    levels: Seq<Seq<i32>>,
    cbp: int,
    z: int,
    s0: Run,
    s: Run,
    b: int,
)
    requires
        0 <= b < 16,
        0 <= z <= 16,
        s.out.len() == s0.out.len() + 4 * marked_before(cbp, z / 4) + (if z < 16 && plan::cbp_bit(
            cbp,
            z / 4,
        ) {
            z % 4
        } else {
            0
        }),
        s.out.take(s0.out.len() as int) == s0.out,
        b < z && plan::cbp_bit(cbp, b / 4) ==> ({
            let k = s0.out.len() + 4 * marked_before(cbp, b / 4) + b % 4;
            k < s.out.len() && s.out[k] is Residual && s.out[k]->levels == levels[b]
        }),
    ensures
        ({
            let r = cavlc::luma_run(w, x, y, levels, cbp, z, s);
            let k = s0.out.len() + 4 * marked_before(cbp, b / 4) + b % 4;
            &&& r.out.len() == s0.out.len() + 4 * marked_before(cbp, 4)
            &&& r.out.take(s0.out.len() as int) == s0.out
            &&& plan::cbp_bit(cbp, b / 4) ==> k < r.out.len() && r.out[k] is Residual
                && r.out[k]->levels == levels[b]
        }),
    decreases 16 - z,
{
    if z < 16 {
        let n = cavlc::luma_step(w, x, y, levels, cbp, z, s);
        assert((z + 1) / 4 == z / 4 || (z + 1) / 4 == z / 4 + 1);
        assert((z + 1) / 4 == z / 4 + 1 ==> (z + 1) % 4 == 0 && z % 4 == 3);
        lemma_marked(cbp, z / 4);
        lemma_marked(cbp, b / 4);
        assert(n.out.take(s0.out.len() as int) =~= s0.out) by {
            assert(s.out.take(s0.out.len() as int) =~= s0.out);
            assert forall|i: int| 0 <= i < s0.out.len() implies n.out[i] == s0.out[i] by {
                assert(s.out.take(s0.out.len() as int)[i] == s0.out[i]);
            }
        }
        lemma_luma_order(w, x, y, levels, cbp, z + 1, s0, n, b);
    }
}

pub proof fn lemma_marked(cbp: int, k: int)
    requires
        0 <= k,
    ensures
        marked_before(cbp, k) >= 0,
        marked_before(cbp, k + 1) == marked_before(cbp, k) + if plan::cbp_bit(cbp, k) {
            1int
        } else {
            0
        },
    decreases k,
{
    if k > 0 {
        lemma_marked(cbp, k - 1);
    }
}

/// Chroma is coded behind luma: nothing without a pattern, else the DC levels of Cb and of Cr under the
/// count that stands for them; with the pattern 2 the four AC blocks of Cb and then those of Cr.
pub proof fn law_chroma_elements(
    w: int,
    x: int,
    y: int,
    dc: Seq<[i32; 4]>,
    q: Seq<[[i32; 16]; 4]>,
    chroma: int,
    s: Coding,
)
    requires
        0 <= chroma <= 2,
    ensures
        ({
            let r = mbcavlc::with_chroma(w, x, y, dc, q, chroma, s);
            let n = s.out.len() as int;
            &&& r.ny == s.ny
            &&& r.out.len() == n + (if chroma == 0 {
                0int
            } else if chroma == 1 {
                2
            } else {
                10
            })
            &&& chroma < 2 ==> r.nu == s.nu && r.nv == s.nv
            &&& chroma > 0 ==> r.out[n] == (ElemView::Residual { levels: dc[0]@, nc: -1int })
            &&& chroma > 0 ==> r.out[n + 1] == (ElemView::Residual { levels: dc[1]@, nc: -1int })
            &&& chroma == 2 ==> forall|i: int|
                0 <= i < 8 ==> (#[trigger] r.out[n + 2 + i]) is Residual && r.out[n + 2 + i]->levels
                    == scan::zigzag4_ac(q[i / 4]@[i % 4]@)
        }),
{
    reveal_with_fuel(cavlc::chroma_run, 5);
}

/// A reference index, as a decoder reads it: with two references the flag is set for the first one;
/// with more the number is the reference. Different references never look alike.
pub proof fn law_ref_elements(r: i32, t: i32, num_refs: usize)
    requires
        0 <= r < num_refs,
        0 <= t < num_refs,
    ensures
        num_refs == 2 ==> mbcavlc::ref_elem(r, num_refs) == ElemView::Flag(r == 0),
        num_refs != 2 ==> mbcavlc::ref_elem(r, num_refs) == ElemView::Ue(r as u32),
        mbcavlc::ref_elem(r, num_refs) == mbcavlc::ref_elem(t, num_refs) ==> r == t,
{
}

/// The mode that a decoder takes from the elements of a block: the predicted one for a set flag, else the
/// number that follows, counted on from the predicted one.
pub open spec fn decoded_mode(e: Seq<ElemView>, predicted: int) -> int {
    if e[0] == ElemView::Flag(true) {
        predicted
    } else {
        let rem = e[1]->v as int;
        if rem < predicted {
            rem
        } else {
            rem + 1
        }
    }
}

/// A decoder gets the intra mode back, from three bits at most behind the flag.
pub proof fn law_mode_elements(actual: u8, predicted: int)
    requires
        actual <= 8,
        0 <= predicted <= 8,
    ensures
        ({
            let e = mbcavlc::mode_elems(actual, predicted);
            &&& decoded_mode(e, predicted) == actual
            &&& e[0] is Flag
            &&& e.len() == (if actual == predicted {
                1int
            } else {
                2
            })
            &&& e.len() == 2 ==> e[1] is Bits && e[1]->n == 3 && e[1]->v < 8
        }),
{
}

/// The type number of an `I_16x16` macroblock holds its mode, its chroma pattern and whether its luma has AC
/// levels, and runs from 1 to 24.
pub proof fn law_i16_type(p: MbPlan)
    requires
        p.cbp_chroma <= 2,
    ensures
        1 <= mbcavlc::i16_type(p) <= 24,
        (mbcavlc::i16_type(p) - 1) % 4 == p.i16_mode.number(),
        ((mbcavlc::i16_type(p) - 1) / 4) % 3 == p.cbp_chroma,
        (mbcavlc::i16_type(p) - 1) / 12 == (if p.i16_cbp15 {
            1int
        } else {
            0
        }),
        mbcavlc::type_offset(false) == 0,
        mbcavlc::type_offset(true) == 5,
{
}

/// A macroblock codes a QP step exactly where it is `I_16x16` or has a pattern; the step leads from the
/// running QP to that of the macroblock.
pub proof fn law_qp_elements(fe: FrameEncoder, coded: bool, p: MbPlan)
    requires
        p.wf(),
        p.cbp_chroma <= 2,
    ensures
        coded ==> mbcavlc::qp_elems(fe, coded).len() == 1 && mbcavlc::qp_elems(fe, coded)[0] is Se
            && fe.cur_qp + mbcavlc::qp_elems(fe, coded)[0]->Se_0 == fe.qp,
        !coded ==> mbcavlc::qp_elems(fe, coded).len() == 0,
        !p.use_i4 ==> mbcavlc::codes_delta(p),
        p.use_i4 && p.i8 is Some ==> mbcavlc::codes_delta(p) == (p.i8->Some_0.cbp_luma != 0
            || p.cbp_chroma != 0),
        p.use_i4 && p.i8 is None ==> mbcavlc::codes_delta(p) == (p.i4->Some_0.cbp_luma != 0
            || p.cbp_chroma != 0),
        p.use_i4 && p.i8 is Some ==> mbcavlc::nxn_cbp(p) % 16 == p.i8->Some_0.cbp_luma
            && mbcavlc::nxn_cbp(p) / 16 == p.cbp_chroma,
        p.use_i4 && p.i8 is None ==> mbcavlc::nxn_cbp(p) % 16 == p.i4->Some_0.cbp_luma
            && mbcavlc::nxn_cbp(p) / 16 == p.cbp_chroma,
{
}

/// The differences come in order, the component across before the one down.
pub proof fn law_difference_elements(mvds: Seq<(i32, i32)>, n: nat, i: int)
    requires
        0 <= i < n,
    ensures
        mbcavlc::mvd_elems(mvds, n as int).len() == 2 * n,
        mbcavlc::mvd_elems(mvds, n as int)[2 * i] == ElemView::Se(mvds[i].0),
        mbcavlc::mvd_elems(mvds, n as int)[2 * i + 1] == ElemView::Se(mvds[i].1),
    decreases n,
{
    if i < n - 1 {
        law_difference_elements(mvds, (n - 1) as nat, i);
    } else if n > 1 {
        law_difference_elements(mvds, (n - 1) as nat, 0);
    } else {
        assert(mbcavlc::mvd_elems(mvds, 0).len() == 0);
    }
}

/// The references come in order.
pub proof fn law_reference_elements(parts: Seq<(i32, (i32, i32))>, num_refs: usize, n: nat, i: int)
    requires
        0 <= i < n,
    ensures
        mbcavlc::ref_elems(parts, num_refs, n as int).len() == n,
        mbcavlc::ref_elems(parts, num_refs, n as int)[i] == mbcavlc::ref_elem(parts[i].0, num_refs),
    decreases n,
{
    if i < n - 1 {
        law_reference_elements(parts, num_refs, (n - 1) as nat, i);
    } else if n > 1 {
        law_reference_elements(parts, num_refs, (n - 1) as nat, 0);
    } else {
        assert(mbcavlc::ref_elems(parts, num_refs, 0).len() == 0);
    }
}

/// The head of a P macroblock: its type, four sub-types of whole quarters for 8x8, its references where
/// there is more than one to choose from, its differences.
pub proof fn law_inter_head(
    num_refs: usize,
    mode: u8,
    parts: Seq<(i32, (i32, i32))>,
    bspec: Option<BInter>,
    p: InterPlan,
    i: int,
)
    ensures
        ({
            let e = mbcavlc::inter_pred_elems(num_refs, mode, parts, bspec, p);
            let k: int = if mode == 3 {
                5
            } else {
                1
            };
            let m: int = if num_refs > 1 {
                k + parts.len()
            } else {
                k
            };
            &&& e[0] == ElemView::Ue(
                if bspec is Some {
                    bspec->Some_0.dir as u32
                } else {
                    mode as u32
                },
            )
            &&& e.len() == m + 2 * p.n_mvd
            &&& mode == 3 && 1 <= i < 5 ==> e[i] == ElemView::Ue(0)
            &&& num_refs > 1 && 0 <= i < parts.len() ==> e[k + i] == mbcavlc::ref_elem(
                parts[i].0,
                num_refs,
            )
            &&& 0 <= i < p.n_mvd ==> e[m + 2 * i] == ElemView::Se(p.mvds@[i].0) && e[m + 2 * i + 1]
                == ElemView::Se(p.mvds@[i].1)
        }),
{
    if num_refs > 1 && parts.len() > 0 {
        law_reference_elements(
            parts,
            num_refs,
            parts.len(),
            if 0 <= i < parts.len() {
                i
            } else {
                0
            },
        );
    } else {
        assert(mbcavlc::ref_elems(parts, num_refs, 0).len() == 0);
    }
    if p.n_mvd > 0 {
        law_difference_elements(
            p.mvds@,
            p.n_mvd as nat,
            if 0 <= i < p.n_mvd {
                i
            } else {
                0
            },
        );
    } else {
        assert(mbcavlc::mvd_elems(p.mvds@, 0).len() == 0);
    }
}

/// Behind its head an inter macroblock has its pattern; the transform flag, where luma is coded and the
/// stream allows both transforms; and the QP step, where anything is coded.
pub proof fn law_inter_pattern(fe: FrameEncoder, p: InterPlan)
    ensures
        ({
            let e = mbcavlc::inter_cbp_elems(fe, p);
            let sized = p.cbp % 16 != 0 && fe.transform_8x8;
            &&& e[0] == ElemView::CbpInter(p.cbp)
            &&& sized ==> e[1] == ElemView::Flag(p.t8x8)
            &&& e.len() == 1 + (if sized {
                1int
            } else {
                0
            }) + (if p.cbp != 0 {
                1int
            } else {
                0
            })
            &&& p.cbp != 0 ==> e.last() is Se && fe.cur_qp + e.last()->Se_0 == fe.qp
        }),
{
}

/// The elements of an `I_16x16` macroblock: its type, counted on from 5 in a P slice; the chroma mode; the QP
/// step; the DC levels, predicted like the first block. All counts of its luma start from zero.
pub proof fn law_i16_elements(
    fe: FrameEncoder,
    x: int,
    y: int,
    p: MbPlan,
    is_p: bool,
    out: Seq<ElemView>,
)
    requires
        p.wf(),
    ensures
        ({
            let r = mbcavlc::i16_coded(fe, x, y, p, is_p, out);
            let n = out.len() as int;
            let t = mbcavlc::i16_type(p) + if is_p {
                5int
            } else {
                0
            };
            &&& r.out[n] == ElemView::Ue(t as u32)
            &&& r.out[n + 1] == ElemView::Ue(p.chroma_mode as u32)
            &&& r.out[n + 2] is Se && fe.cur_qp + r.out[n + 2]->Se_0 == fe.qp
            &&& r.out[n + 3] == (ElemView::Residual {
                levels: scan::zigzag4(p.i16_dc_levels@),
                nc: cavlc::grid_nc(fe.nnz_y@, 4 * fe.mb_w, 4 * x, 4 * y),
            })
            &&& r.out.len() == n + 4 + (if p.i16_cbp15 {
                16int
            } else {
                0
            })
            &&& p.i16_cbp15 ==> forall|b: int|
                0 <= b < 16 ==> (#[trigger] r.out[n + 4 + b]) is Residual && r.out[n + 4
                    + b]->levels == mbcavlc::levels4_ac(p.i16_q@)[b]
        }),
{
    let r = mbcavlc::i16_coded(fe, x, y, p, is_p, out);
    let n = out.len() as int;
    let w = fe.mb_w as int;
    if p.i16_cbp15 {
        let head = out + seq![
            ElemView::Ue((mbcavlc::i16_type(p) + mbcavlc::type_offset(is_p)) as u32),
            ElemView::Ue(p.chroma_mode as u32),
            ElemView::Se((fe.qp - fe.cur_qp) as i32),
            ElemView::Residual {
                levels: scan::zigzag4(p.i16_dc_levels@),
                nc: cavlc::grid_nc(fe.nnz_y@, 4 * w, 4 * x, 4 * y),
            },
        ];
        let s = Run {
            nnz: crate::rect::fill(fe.nnz_y@, 4 * w, 4 * x, 4 * y, 4, 4, 0u8),
            out: head,
        };
        let l = mbcavlc::levels4_ac(p.i16_q@);
        assert(r.out == cavlc::luma_run(w, x, y, l, 15, 0, s).out);
        lemma_all_marked();
        law_luma_order(w, x, y, l, 15, s, 0);
        assert(r.out.take(n + 4) == head);
        assert(head[n] == r.out[n] && head[n + 1] == r.out[n + 1] && head[n + 2] == r.out[n + 2]
            && head[n + 3] == r.out[n + 3]) by {
            assert(r.out.take(n + 4)[n] == r.out[n]);
            assert(r.out.take(n + 4)[n + 1] == r.out[n + 1]);
            assert(r.out.take(n + 4)[n + 2] == r.out[n + 2]);
            assert(r.out.take(n + 4)[n + 3] == r.out[n + 3]);
        }
        assert forall|b: int| 0 <= b < 16 implies (#[trigger] r.out[n + 4 + b]) is Residual
            && r.out[n + 4 + b]->levels == l[b] by {
            law_luma_order(w, x, y, l, 15, s, b);
            assert(n + 4 + b == s.out.len() + 4 * marked_before(15, b / 4) + b % 4);
        }
    }
}

proof fn lemma_all_marked()
    ensures
        forall|k: int| 0 <= k <= 4 ==> #[trigger] marked_before(15, k) == k,
        forall|k: int| 0 <= k < 4 ==> #[trigger] plan::cbp_bit(15, k),
{
    reveal_with_fuel(marked_before, 6);
}

} // verus!
