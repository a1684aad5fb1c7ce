//! Macroblocks of a CAVLC slice.
use vstd::prelude::*;
use crate::cavlc;
use crate::cavlc::{ElemView, Run, Syntax};
use crate::frame::{predict_i4_mode, FrameEncoder};
use crate::interplan;
use crate::intraplan;
use crate::intraplan::plan_mb;
use crate::kernels;
use crate::kernels::Kernels;
use crate::partition::BInter;
use crate::plan;
use crate::plan::{InterPlan, MbPlan};
use crate::rect;
use crate::rect::fill_rect;
use crate::scan;
use crate::scan::{scan_4x4_ac, scan_4x4_dcac, scan_8x8_fwd, LUMA_4X4_SCAN_XY};

verus! {

/// The place of luma block `z` in the raster of sixteen.
pub open spec fn raster(z: int) -> int {
    4 * LUMA_4X4_SCAN_XY@[z].1 + LUMA_4X4_SCAN_XY@[z].0
}

/// The blocks of sixteen 4x4 transforms, in coding order.
pub open spec fn levels4(q: Seq<[i32; 16]>) -> Seq<Seq<i32>> {
    Seq::new(16, |z: int| scan::zigzag4(q[raster(z)]@))
}

/// The same without the first coefficients.
pub open spec fn levels4_ac(q: Seq<[i32; 16]>) -> Seq<Seq<i32>> {
    Seq::new(16, |z: int| scan::zigzag4_ac(q[raster(z)]@))
}

/// The blocks of four 8x8 transforms, in coding order: each is dealt out to four blocks,
/// coefficient by coefficient.
pub open spec fn levels8(q: Seq<[i32; 64]>) -> Seq<Seq<i32>> {
    Seq::new(
        16,
        |z: int| Seq::new(16, |i: int| scan::zigzag8(q[z / 4]@)[4 * i + z % 4]),
    )
}

/// The AC blocks of a chroma plane.
pub open spec fn chroma_ac(q: Seq<[i32; 16]>) -> Seq<Seq<i32>> {
    Seq::new(4, |z: int| scan::zigzag4_ac(q[z]@))
}

fn to_vec(a: &[i32]) -> (r: Vec<i32>)
    ensures
        r@ == a@,
{
    let mut r: Vec<i32> = Vec::new();
    let mut i: usize = 0;
    while i < a.len()
        invariant
            i <= a@.len(),
            r@ == a@.take(i as int),
        decreases a.len() - i,
    {
        r.push(a[i]);
        i = i + 1;
        assert(r@ =~= a@.take(i as int));
    }
    assert(a@.take(i as int) =~= a@);
    r
}

fn list4(q: &[[i32; 16]; 16], ac: bool) -> (r: Vec<Vec<i32>>)
    ensures
        cavlc::level_views(r@) == (if ac {
            levels4_ac(q@)
        } else {
            levels4(q@)
        }),
        r@.len() == 16,
        forall|i: int| 0 <= i < 16 ==> (#[trigger] r@[i])@.len() <= 16,
{
    let mut r: Vec<Vec<i32>> = Vec::new();
    let mut z: usize = 0;
    while z < 16
        invariant
            z <= 16,
            r@.len() == z,
            forall|i: int|
                0 <= i < z ==> (#[trigger] r@[i])@ == (if ac {
                    levels4_ac(q@)[i]
                } else {
                    levels4(q@)[i]
                }),
        decreases 16 - z,
    {
        let (x, y): (usize, usize) = LUMA_4X4_SCAN_XY[z];
        assert(x < 4 && y < 4);
        let v: Vec<i32> = if ac {
            to_vec(&scan_4x4_ac(&q[4 * y + x]))
        } else {
            to_vec(&scan_4x4_dcac(&q[4 * y + x]))
        };
        r.push(v);
        z = z + 1;
    }
    assert(cavlc::level_views(r@) =~= (if ac {
        levels4_ac(q@)
    } else {
        levels4(q@)
    }));
    r
}

fn list8(q: &[[i32; 64]; 4]) -> (r: Vec<Vec<i32>>)
    ensures
        cavlc::level_views(r@) == levels8(q@),
        r@.len() == 16,
        forall|i: int| 0 <= i < 16 ==> (#[trigger] r@[i])@.len() <= 16,
{
    let mut r: Vec<Vec<i32>> = Vec::new();
    let mut z: usize = 0;
    while z < 16
        invariant
            z <= 16,
            r@.len() == z,
            forall|i: int| 0 <= i < z ==> (#[trigger] r@[i])@ == levels8(q@)[i],
        decreases 16 - z,
    {
        let s: [i32; 64] = scan_8x8_fwd(&q[z / 4]);
        let mut v: Vec<i32> = Vec::new();
        let mut i: usize = 0;
        while i < 16
            invariant
                i <= 16,
                z < 16,
                s@ == scan::zigzag8(q@[z as int / 4]@),
                v@.len() == i,
                forall|j: int| 0 <= j < i ==> #[trigger] v@[j] == s@[4 * j + z as int % 4],
            decreases 16 - i,
        {
            v.push(s[4 * i + z % 4]);
            i = i + 1;
        }
        assert(v@ =~= levels8(q@)[z as int]);
        r.push(v);
        z = z + 1;
    }
    assert(cavlc::level_views(r@) =~= levels8(q@));
    r
}

fn list_chroma(q: &[[i32; 16]; 4]) -> (r: Vec<Vec<i32>>)
    ensures
        cavlc::level_views(r@) == chroma_ac(q@),
        r@.len() == 4,
        forall|i: int| 0 <= i < 4 ==> (#[trigger] r@[i])@.len() <= 16,
{
    let mut r: Vec<Vec<i32>> = Vec::new();
    let mut z: usize = 0;
    while z < 4
        invariant
            z <= 4,
            r@.len() == z,
            forall|i: int| 0 <= i < z ==> (#[trigger] r@[i])@ == chroma_ac(q@)[i],
        decreases 4 - z,
    {
        r.push(to_vec(&scan_4x4_ac(&q[z])));
        z = z + 1;
    }
    assert(cavlc::level_views(r@) =~= chroma_ac(q@));
    r
}

/// All counts and elements while a macroblock is coded.
#[verifier::ext_equal]
pub struct Coding {
    pub ny: Seq<u8>,
    pub nu: Seq<u8>,
    pub nv: Seq<u8>,
    pub out: Seq<ElemView>,
}

/// The counts of a frame and the elements so far.
pub open spec fn coding(fe: FrameEncoder, out: Seq<ElemView>) -> Coding {
    Coding { ny: fe.nnz_y@, nu: fe.nnz_c@[0]@, nv: fe.nnz_c@[1]@, out }
}

/// Chroma coded: the DC blocks if the pattern is not 0, the AC blocks if it is 2.
pub open spec fn with_chroma(
    mb_w: int,
    mb_x: int,
    mb_y: int,
    dc: Seq<[i32; 4]>,
    q: Seq<[[i32; 16]; 4]>,
    cbp_chroma: int,
    s: Coding,
) -> Coding {
    let o = if cbp_chroma != 0 {
        s.out + seq![
            ElemView::Residual { levels: dc[0]@, nc: -1int },
            ElemView::Residual { levels: dc[1]@, nc: -1int },
        ]
    } else {
        s.out
    };
    if cbp_chroma == 2 {
        let u = cavlc::chroma_run(
            mb_w,
            mb_x,
            mb_y,
            chroma_ac(q[0]@),
            0,
            Run { nnz: s.nu, out: o },
        );
        let v = cavlc::chroma_run(
            mb_w,
            mb_x,
            mb_y,
            chroma_ac(q[1]@),
            0,
            Run { nnz: s.nv, out: u.out },
        );
        Coding { ny: s.ny, nu: u.nnz, nv: v.nnz, out: v.out }
    } else {
        Coding { out: o, ..s }
    }
}

/// Luma coded.
pub open spec fn with_luma(
    mb_w: int,
    mb_x: int,
    mb_y: int,
    levels: Seq<Seq<i32>>,
    cbp: int,
    s: Coding,
) -> Coding {
    let r = cavlc::luma_run(mb_w, mb_x, mb_y, levels, cbp, 0, Run { nnz: s.ny, out: s.out });
    Coding { ny: r.nnz, out: r.out, ..s }
}

/// Only counts, their caches and the running QP have changed.
pub open spec fn only_counts(a: FrameEncoder, b: FrameEncoder) -> bool {
    b == (FrameEncoder {
        nnz_y: b.nnz_y,
        nnz_c: b.nnz_c,
        nnz_l_cache: b.nnz_l_cache,
        nnz_c_cache: b.nnz_c_cache,
        cur_qp: b.cur_qp,
        ..a
    })
}

impl FrameEncoder {
    /// Append the chroma of a macroblock.
    pub fn emit_chroma(
        &mut self,
        w: &mut Syntax,
        mb_x: usize,
        mb_y: usize,
        dc: &[[i32; 4]; 2],
        q: &[[[i32; 16]; 4]; 2],
        cbp_chroma: u32,
    )
        requires
            old(self).wf(),
            old(self).has_mb(mb_x as int, mb_y as int),
            old(self).counts_ok(),
        ensures
            coding(*final(self), final(w)@) == with_chroma(
                old(self).mb_w as int,
                mb_x as int,
                mb_y as int,
                dc@,
                q@,
                cbp_chroma as int,
                coding(*old(self), old(w)@),
            ),
            cavlc::only_chroma_counts(*old(self), *final(self)),
            final(self).counts_ok(),
            final(self).wf(),
    {
        let ghost start = w@;
        if cbp_chroma != 0 {
            w.residual(to_vec(&dc[0]), -1);
            w.residual(to_vec(&dc[1]), -1);
            assert(w@ =~= start + seq![
                ElemView::Residual { levels: dc@[0]@, nc: -1int },
                ElemView::Residual { levels: dc@[1]@, nc: -1int },
            ]);
        }
        if cbp_chroma == 2 {
            let lu: Vec<Vec<i32>> = list_chroma(&q[0]);
            let lv: Vec<Vec<i32>> = list_chroma(&q[1]);
            self.emit_chroma_ac(w, mb_x, mb_y, 0, &lu);
            self.emit_chroma_ac(w, mb_x, mb_y, 1, &lv);
        }
    }

    /// The coded delta of the QP, if there is one.
    fn emit_qp_delta(&mut self, w: &mut Syntax, coded: bool)
        ensures
            final(w)@ == old(w)@ + qp_elems(*old(self), coded),
            *final(self) == (FrameEncoder {
                cur_qp: if coded {
                    old(self).qp
                } else {
                    old(self).cur_qp
                },
                ..*old(self)
            }),
    {
        if coded {
            let d: i32 = self.qp_delta();
            w.se(d);
        }
        assert(old(w)@ + Seq::<ElemView>::empty() =~= old(w)@);
    }
}

/// The coded delta of the QP.
pub open spec fn qp_elems(fe: FrameEncoder, coded: bool) -> Seq<ElemView> {
    if coded {
        seq![ElemView::Se((fe.qp - fe.cur_qp) as i32)]
    } else {
        Seq::empty()
    }
}

/// A reference index: a flag that is set for the first one of two, else its number.
pub open spec fn ref_elem(refi: i32, num_refs: usize) -> ElemView {
    if num_refs == 2 {
        ElemView::Flag(refi == 0)
    } else {
        ElemView::Ue(refi as u32)
    }
}

/// Append a reference index.
pub fn write_ref_idx(w: &mut Syntax, refi: i32, num_refs: usize)
    ensures
        final(w)@ == old(w)@ + seq![ref_elem(refi, num_refs)],
{
    if num_refs == 2 {
        w.flag(refi == 0);
    } else {
        w.ue(refi as u32);
    }
}

/// The reference indices of the first `n` partitions.
pub open spec fn ref_elems(parts: Seq<(i32, (i32, i32))>, num_refs: usize, n: int) -> Seq<ElemView>
    decreases n,
{
    if n <= 0 {
        Seq::empty()
    } else {
        ref_elems(parts, num_refs, n - 1) + seq![ref_elem(parts[n - 1].0, num_refs)]
    }
}

/// The first `n` vector differences.
pub open spec fn mvd_elems(mvds: Seq<(i32, i32)>, n: int) -> Seq<ElemView>
    decreases n,
{
    if n <= 0 {
        Seq::empty()
    } else {
        mvd_elems(mvds, n - 1) + seq![ElemView::Se(mvds[n - 1].0), ElemView::Se(mvds[n - 1].1)]
    }
}

/// The type, references and vectors of an inter macroblock.
pub open spec fn inter_pred_elems(
    num_refs: usize,
    mode: u8,
    parts: Seq<(i32, (i32, i32))>,
    bspec: Option<BInter>,
    p: InterPlan,
) -> Seq<ElemView> {
    seq![
        ElemView::Ue(
            match bspec {
                Some(b) => b.dir as u32,
                None => mode as u32,
            },
        ),
    ] + (if mode == 3 {
        seq![ElemView::Ue(0), ElemView::Ue(0), ElemView::Ue(0), ElemView::Ue(0)]
    } else {
        Seq::empty()
    }) + (if num_refs > 1 {
        ref_elems(parts, num_refs, parts.len() as int)
    } else {
        Seq::empty()
    }) + mvd_elems(p.mvds@, p.n_mvd as int)
}

/// The pattern, the transform flag and the QP delta of an inter macroblock.
pub open spec fn inter_cbp_elems(fe: FrameEncoder, p: InterPlan) -> Seq<ElemView> {
    seq![ElemView::CbpInter(p.cbp)] + (if p.cbp % 16 > 0 && fe.transform_8x8 {
        seq![ElemView::Flag(p.t8x8)]
    } else {
        Seq::empty()
    }) + qp_elems(fe, p.cbp != 0)
}

/// An inter macroblock coded.
pub open spec fn inter_coded(
    fe: FrameEncoder,
    num_refs: usize,
    mb_x: int,
    mb_y: int,
    mode: u8,
    parts: Seq<(i32, (i32, i32))>,
    bspec: Option<BInter>,
    p: InterPlan,
    out: Seq<ElemView>,
) -> Coding {
    let w = fe.mb_w as int;
    let head = out + inter_pred_elems(num_refs, mode, parts, bspec, p) + inter_cbp_elems(fe, p);
    let levels = if p.t8x8 {
        levels8(p.q8@)
    } else {
        levels4(p.q_blocks@)
    };
    with_chroma(
        w,
        mb_x,
        mb_y,
        p.c_dc_levels@,
        p.c_q@,
        p.cbp as int / 16,
        with_luma(w, mb_x, mb_y, levels, p.cbp as int % 16, coding(fe, head)),
    )
}

#[verifier::rlimit(50)]
fn emit_inter_pred(
    w: &mut Syntax,
    num_refs: usize,
    mode: u8,
    parts: &[(i32, (i32, i32))],
    bspec: Option<BInter>,
    p: &InterPlan,
)
    requires
        p.n_mvd <= 16,
    ensures
        final(w)@ == old(w)@ + inter_pred_elems(num_refs, mode, parts@, bspec, *p),
{
    let ghost start = w@;
    w.ue(
        match bspec {
            Some(b) => b.dir as u32,
            None => mode as u32,
        },
    );
    if mode == 3 {
        w.ue(0);
        w.ue(0);
        w.ue(0);
        w.ue(0);
    }
    let ghost a = w@;
    let ghost four = if mode == 3 {
        seq![ElemView::Ue(0), ElemView::Ue(0), ElemView::Ue(0), ElemView::Ue(0)]
    } else {
        Seq::empty()
    };
    let ghost ty = seq![
        ElemView::Ue(
            match bspec {
                Some(b) => b.dir as u32,
                None => mode as u32,
            },
        ),
    ];
    assert(a =~= start + (ty + four));
    let ghost refs = if num_refs > 1 {
        ref_elems(parts@, num_refs, parts@.len() as int)
    } else {
        Seq::empty()
    };
    if num_refs > 1 {
        let mut i: usize = 0;
        assert(w@ =~= a + ref_elems(parts@, num_refs, 0));
        while i < parts.len()
            invariant
                i <= parts@.len(),
                w@ == a + ref_elems(parts@, num_refs, i as int),
            decreases parts.len() - i,
        {
            write_ref_idx(w, parts[i].0, num_refs);
            i = i + 1;
            assert(w@ =~= a + ref_elems(parts@, num_refs, i as int));
        }
    }
    assert(w@ =~= a + refs);
    let ghost b = w@;
    let mut i: usize = 0;
    assert(w@ =~= b + mvd_elems(p.mvds@, 0));
    while i < p.n_mvd
        invariant
            i <= p.n_mvd <= 16,
            w@ == b + mvd_elems(p.mvds@, i as int),
        decreases p.n_mvd - i,
    {
        let ghost t = w@;
        w.se(p.mvds[i].0);
        w.se(p.mvds[i].1);
        i = i + 1;
        assert(w@ =~= b + mvd_elems(p.mvds@, i as int));
    }
    assert(w@ =~= start + (ty + four + refs + mvd_elems(p.mvds@, p.n_mvd as int)));
}

impl FrameEncoder {
    /// Append an inter macroblock that has been planned.
    pub fn emit_inter_cavlc(
        &mut self,
        w: &mut Syntax,
        num_refs: usize,
        mb_x: usize,
        mb_y: usize,
        mode: u8,
        parts: &[(i32, (i32, i32))],
        bspec: Option<BInter>,
        p: &InterPlan,
    )
        requires
            old(self).wf(),
            old(self).has_mb(mb_x as int, mb_y as int),
            old(self).counts_ok(),
            p.n_mvd <= 16,
        ensures
            coding(*final(self), final(w)@) == inter_coded(
                *old(self),
                num_refs,
                mb_x as int,
                mb_y as int,
                mode,
                parts@,
                bspec,
                *p,
                old(w)@,
            ),
            final(self).cur_qp == if p.cbp != 0 {
                old(self).qp
            } else {
                old(self).cur_qp
            },
            only_counts(*old(self), *final(self)),
            final(self).counts_ok(),
            final(self).wf(),
    {
        let ghost fe = *self;
        let ghost start = w@;
        emit_inter_pred(w, num_refs, mode, parts, bspec, p);
        let ghost mid = w@;
        w.cbp_inter(p.cbp);
        if p.cbp % 16 > 0 && self.transform_8x8 {
            w.flag(p.t8x8);
        }
        self.emit_qp_delta(w, p.cbp != 0);
        assert(w@ =~= mid + inter_cbp_elems(fe, *p));
        let levels: Vec<Vec<i32>> = if p.t8x8 {
            list8(&p.q8)
        } else {
            list4(&p.q_blocks, false)
        };
        self.emit_luma(w, mb_x, mb_y, &levels, p.cbp % 16);
        self.emit_chroma(w, mb_x, mb_y, &p.c_dc_levels, &p.c_q, p.cbp / 16);
    }
}

/// An intra mode against the predicted one: a flag if they are the same, else the mode in
/// three bits, counted without the predicted one.
pub open spec fn mode_elems(actual: u8, predicted: int) -> Seq<ElemView> {
    if actual == predicted {
        seq![ElemView::Flag(true)]
    } else {
        seq![
            ElemView::Flag(false),
            ElemView::Bits {
                v: (if actual < predicted {
                    actual as int
                } else {
                    actual - 1
                }) as u32,
                n: 3,
            },
        ]
    }
}

fn write_mode(w: &mut Syntax, actual: u8, predicted: u8)
    ensures
        final(w)@ == old(w)@ + mode_elems(actual, predicted as int),
{
    let ghost start = w@;
    if actual == predicted {
        w.flag(true);
    } else {
        w.flag(false);
        let rem: u8 = if actual < predicted {
            actual
        } else {
            actual - 1
        };
        w.bits(rem as u32, 3);
    }
    assert(w@ =~= start + mode_elems(actual, predicted as int));
}

/// The modes of the first `n` blocks of an I_4x4 macroblock, in coding order.
pub open spec fn i4_mode_elems(fe: FrameEncoder, mb_x: int, mb_y: int, modes: Seq<u8>, n: int) -> Seq<
    ElemView,
>
    decreases n,
{
    if n <= 0 {
        Seq::empty()
    } else {
        let z = n - 1;
        let (x, y) = (4 * mb_x + LUMA_4X4_SCAN_XY@[z].0, 4 * mb_y + LUMA_4X4_SCAN_XY@[z].1);
        i4_mode_elems(fe, mb_x, mb_y, modes, n - 1) + mode_elems(
            modes[raster(z)],
            fe.i4_predicted(x, y),
        )
    }
}

/// The modes of the first `n` blocks of an I_8x8 macroblock.
pub open spec fn i8_mode_elems(fe: FrameEncoder, mb_x: int, mb_y: int, modes: Seq<u8>, n: int) -> Seq<
    ElemView,
>
    decreases n,
{
    if n <= 0 {
        Seq::empty()
    } else {
        let b = n - 1;
        let (x, y) = (4 * mb_x + 2 * (b % 2), 4 * mb_y + 2 * (b / 2));
        i8_mode_elems(fe, mb_x, mb_y, modes, n - 1) + mode_elems(
            modes[b],
            fe.i4_predicted(x, y),
        )
    }
}

/// Intra types come behind the five inter types of a P slice.
pub open spec fn type_offset(is_p: bool) -> int {
    if is_p {
        5
    } else {
        0
    }
}

/// The type and the modes of an I_NxN macroblock.
pub open spec fn nxn_head(fe: FrameEncoder, mb_x: int, mb_y: int, p: MbPlan, is_p: bool) -> Seq<
    ElemView,
> {
    let ty = seq![ElemView::Ue(type_offset(is_p) as u32)];
    if p.i8 is Some {
        ty + seq![ElemView::Flag(true)] + i8_mode_elems(fe, mb_x, mb_y, p.i8->0.modes@, 4)
    } else {
        ty + (if fe.transform_8x8 {
            seq![ElemView::Flag(false)]
        } else {
            Seq::empty()
        }) + i4_mode_elems(fe, mb_x, mb_y, p.i4->0.modes@, 16)
    }
}

/// The pattern of an I_NxN macroblock.
pub open spec fn nxn_cbp(p: MbPlan) -> int {
    (if p.i8 is Some {
        p.i8->0.cbp_luma
    } else {
        p.i4->0.cbp_luma
    }) + 16 * p.cbp_chroma
}

/// The number of an I_16x16 type: by prediction mode, chroma pattern and whether luma has AC.
pub open spec fn i16_type(p: MbPlan) -> int {
    1 + p.i16_mode.number() + 4 * p.cbp_chroma + if p.i16_cbp15 {
        12int
    } else {
        0
    }
}

/// An I_NxN macroblock coded, up to its luma.
pub open spec fn nxn_coded(
    fe: FrameEncoder,
    mb_x: int,
    mb_y: int,
    p: MbPlan,
    is_p: bool,
    out: Seq<ElemView>,
) -> Coding {
    let cbp = nxn_cbp(p);
    let head = out + nxn_head(fe, mb_x, mb_y, p, is_p) + seq![
        ElemView::Ue(p.chroma_mode as u32),
        ElemView::CbpIntra(cbp as u32),
    ] + qp_elems(fe, cbp != 0);
    with_luma(
        fe.mb_w as int,
        mb_x,
        mb_y,
        if p.i8 is Some {
            levels8(p.i8->0.q@)
        } else {
            levels4(p.i4->0.q@)
        },
        cbp % 16,
        coding(fe, head),
    )
}

/// An I_16x16 macroblock coded, up to its luma.
pub open spec fn i16_coded(
    fe: FrameEncoder,
    mb_x: int,
    mb_y: int,
    p: MbPlan,
    is_p: bool,
    out: Seq<ElemView>,
) -> Coding {
    let w = fe.mb_w as int;
    let head = out + seq![
        ElemView::Ue((i16_type(p) + type_offset(is_p)) as u32),
        ElemView::Ue(p.chroma_mode as u32),
        ElemView::Se((fe.qp - fe.cur_qp) as i32),
        ElemView::Residual {
            levels: scan::zigzag4(p.i16_dc_levels@),
            nc: cavlc::grid_nc(fe.nnz_y@, 4 * w, 4 * mb_x, 4 * mb_y),
        },
    ];
    let s = Coding {
        ny: rect::fill(fe.nnz_y@, 4 * w, 4 * mb_x, 4 * mb_y, 4, 4, 0u8),
        ..coding(fe, head)
    };
    if p.i16_cbp15 {
        with_luma(w, mb_x, mb_y, levels4_ac(p.i16_q@), 15, s)
    } else {
        s
    }
}

/// An intra macroblock coded.
pub open spec fn intra_coded(
    fe: FrameEncoder,
    mb_x: int,
    mb_y: int,
    p: MbPlan,
    is_p: bool,
    out: Seq<ElemView>,
) -> Coding {
    with_chroma(
        fe.mb_w as int,
        mb_x,
        mb_y,
        p.c_dc_levels@,
        p.c_q_blocks@,
        p.cbp_chroma as int,
        if p.use_i4 {
            nxn_coded(fe, mb_x, mb_y, p, is_p, out)
        } else {
            i16_coded(fe, mb_x, mb_y, p, is_p, out)
        },
    )
}

/// A macroblock codes a QP delta: I_16x16 always, the others with a pattern.
pub open spec fn codes_delta(p: MbPlan) -> bool {
    !p.use_i4 || nxn_cbp(p) != 0
}

/// Append the type and the modes of an I_NxN macroblock.
fn emit_nxn_head(fe: &FrameEncoder, w: &mut Syntax, mb_x: usize, mb_y: usize, p: &MbPlan, is_p: bool)
    requires
        fe.wf(),
        fe.has_mb(mb_x as int, mb_y as int),
        p.wf(),
        p.use_i4,
    ensures
        final(w)@ == old(w)@ + nxn_head(*fe, mb_x as int, mb_y as int, *p, is_p),
{
    let ghost start = w@;
    let ghost (gx, gy) = (mb_x as int, mb_y as int);
    w.ue(
        if is_p {
            5
        } else {
            0
        },
    );
    if let Some(i8) = &p.i8 {
        w.flag(true);
        let ghost a = w@;
        let mut b: usize = 0;
        assert(w@ =~= a + i8_mode_elems(*fe, gx, gy, i8.modes@, 0));
        while b < 4
            invariant
                b <= 4,
                fe.wf(),
                fe.has_mb(gx, gy),
                gx == mb_x && gy == mb_y,
                w@ == a + i8_mode_elems(*fe, gx, gy, i8.modes@, b as int),
            decreases 4 - b,
        {
            let (hx, hy): (usize, usize) = (b % 2, b / 2);
            let e: u8 = predict_i4_mode(fe, 4 * mb_x + 2 * hx, 4 * mb_y + 2 * hy);
            write_mode(w, i8.modes[b], e);
            b = b + 1;
            assert(w@ =~= a + i8_mode_elems(*fe, gx, gy, i8.modes@, b as int));
        }
        assert(w@ =~= start + nxn_head(*fe, gx, gy, *p, is_p));
    } else if let Some(i4) = &p.i4 {
        if fe.transform_8x8 {
            w.flag(false);
        }
        let ghost a = w@;
        let mut z: usize = 0;
        assert(w@ =~= a + i4_mode_elems(*fe, gx, gy, i4.modes@, 0));
        while z < 16
            invariant
                z <= 16,
                fe.wf(),
                fe.has_mb(gx, gy),
                gx == mb_x && gy == mb_y,
                w@ == a + i4_mode_elems(*fe, gx, gy, i4.modes@, z as int),
            decreases 16 - z,
        {
            let (x, y): (usize, usize) = LUMA_4X4_SCAN_XY[z];
            assert(x < 4 && y < 4);
            let e: u8 = predict_i4_mode(fe, 4 * mb_x + x, 4 * mb_y + y);
            write_mode(w, i4.modes[4 * y + x], e);
            z = z + 1;
            assert(w@ =~= a + i4_mode_elems(*fe, gx, gy, i4.modes@, z as int));
        }
        assert(w@ =~= start + nxn_head(*fe, gx, gy, *p, is_p));
    }
}

/// Append an I_NxN macroblock up to its luma.
#[verifier::spinoff_prover]
#[verifier::rlimit(60)]
fn emit_nxn(fe: &mut FrameEncoder, w: &mut Syntax, mb_x: usize, mb_y: usize, p: &MbPlan, is_p: bool)
    requires
        old(fe).wf(),
        old(fe).has_mb(mb_x as int, mb_y as int),
        old(fe).counts_ok(),
        p.wf(),
        p.use_i4,
    ensures
        coding(*final(fe), final(w)@) == nxn_coded(
            *old(fe),
            mb_x as int,
            mb_y as int,
            *p,
            is_p,
            old(w)@,
        ),
        final(fe).cur_qp == if nxn_cbp(*p) != 0 {
            old(fe).qp
        } else {
            old(fe).cur_qp
        },
        only_counts(*old(fe), *final(fe)),
        final(fe).counts_ok(),
        final(fe).wf(),
{
    let ghost a = *fe;
    let ghost start = w@;
    emit_nxn_head(fe, w, mb_x, mb_y, p, is_p);
    let ghost mid = w@;
    let (cbp_luma, levels): (u32, Vec<Vec<i32>>) = if let Some(i8) = &p.i8 {
        (i8.cbp_luma, list8(&i8.q))
    } else if let Some(i4) = &p.i4 {
        (i4.cbp_luma, list4(&i4.q, false))
    } else {
        (0, Vec::new())
    };
    let cbp: u32 = cbp_luma + 16 * p.cbp_chroma;
    w.ue(p.chroma_mode as u32);
    w.cbp_intra(cbp);
    fe.emit_qp_delta(w, cbp != 0);
    assert(w@ =~= mid + seq![
        ElemView::Ue(p.chroma_mode as u32),
        ElemView::CbpIntra(cbp as u32),
    ] + qp_elems(a, cbp != 0));
    fe.emit_luma(w, mb_x, mb_y, &levels, cbp_luma);
}

/// Append an I_16x16 macroblock up to its luma.
fn emit_i16(fe: &mut FrameEncoder, w: &mut Syntax, mb_x: usize, mb_y: usize, p: &MbPlan, is_p: bool)
    requires
        old(fe).wf(),
        old(fe).has_mb(mb_x as int, mb_y as int),
        old(fe).counts_ok(),
        p.wf(),
    ensures
        coding(*final(fe), final(w)@) == i16_coded(
            *old(fe),
            mb_x as int,
            mb_y as int,
            *p,
            is_p,
            old(w)@,
        ),
        final(fe).cur_qp == old(fe).qp,
        only_counts(*old(fe), *final(fe)),
        final(fe).counts_ok(),
        final(fe).wf(),
{
    let ghost a = *fe;
    let ghost start = w@;
    let ty: u32 = 1 + p.i16_mode.index() + 4 * p.cbp_chroma + if p.i16_cbp15 {
        12
    } else {
        0
    };
    w.ue(
        ty + if is_p {
            5
        } else {
            0
        },
    );
    w.ue(p.chroma_mode as u32);
    let d: i32 = fe.qp_delta();
    w.se(d);
    fe.nnz_cache_load(mb_x, mb_y);
    let nc: i32 = fe.nc_pred(mb_x, mb_y, 0);
    assert(LUMA_4X4_SCAN_XY@[0] == (0usize, 0usize));
    w.residual(to_vec(&scan_4x4_dcac(&p.i16_dc_levels)), nc);
    assert(w@ =~= start + seq![
        ElemView::Ue((i16_type(*p) + type_offset(is_p)) as u32),
        ElemView::Ue(p.chroma_mode as u32),
        ElemView::Se((a.qp - a.cur_qp) as i32),
        ElemView::Residual {
            levels: scan::zigzag4(p.i16_dc_levels@),
            nc: cavlc::grid_nc(a.nnz_y@, 4 * a.mb_w, 4 * mb_x, 4 * mb_y),
        },
    ]);
    let (mw, mh): (usize, usize) = (fe.mb_w, fe.mb_h);
    fill_rect(&mut fe.nnz_y, 4 * mw, 4 * mh, 4 * mb_x, 4 * mb_y, 4, 4, 0);
    if p.i16_cbp15 {
        let levels: Vec<Vec<i32>> = list4(&p.i16_q, true);
        fe.emit_luma(w, mb_x, mb_y, &levels, 15);
    }
}

/// Append an intra macroblock that has been planned.
pub fn emit_mb_cavlc(
    fe: &mut FrameEncoder,
    w: &mut Syntax,
    mb_x: usize,
    mb_y: usize,
    p: &MbPlan,
    is_p: bool,
)
    requires
        old(fe).wf(),
        old(fe).has_mb(mb_x as int, mb_y as int),
        old(fe).counts_ok(),
        p.wf(),
    ensures
        coding(*final(fe), final(w)@) == intra_coded(
            *old(fe),
            mb_x as int,
            mb_y as int,
            *p,
            is_p,
            old(w)@,
        ),
        final(fe).cur_qp == if codes_delta(*p) {
            old(fe).qp
        } else {
            old(fe).cur_qp
        },
        only_counts(*old(fe), *final(fe)),
        final(fe).counts_ok(),
        final(fe).wf(),
{
    if p.use_i4 {
        emit_nxn(fe, w, mb_x, mb_y, p, is_p);
    } else {
        emit_i16(fe, w, mb_x, mb_y, p, is_p);
    }
    fe.emit_chroma(w, mb_x, mb_y, &p.c_dc_levels, &p.c_q_blocks, p.cbp_chroma);
}

/// The frame `m` is what planning an intra macroblock leaves of `a`, and `p` is the plan.
pub open spec fn intra_planned<K: Kernels>(
    k: K,
    a: FrameEncoder,
    m: FrameEncoder,
    sy: Seq<u8>,
    su: Seq<u8>,
    sv: Seq<u8>,
    mb_x: int,
    mb_y: int,
    p: MbPlan,
) -> bool {
    &&& intraplan::luma_planned(k, a, sy, mb_x, mb_y, p)
    &&& m.luma() == intraplan::luma_after(k, a, sy, mb_x, mb_y, p.i16_part())
    &&& intraplan::chroma_planned(k, a, m, su, sv, mb_x, mb_y, p)
    &&& m == (FrameEncoder {
        rec_y: m.rec_y,
        rec_u: m.rec_u,
        rec_v: m.rec_v,
        coded_y: m.coded_y,
        modes_y: m.modes_y,
        ..a
    })
}

/// Plan and append an intra macroblock.
pub fn encode_mb<K: Kernels>(
    k: &K,
    fe: &mut FrameEncoder,
    w: &mut Syntax,
    mb_x: usize,
    mb_y: usize,
    sy: &[u8],
    su: &[u8],
    sv: &[u8],
    is_p: bool,
)
    requires
        kernels::steady(*k),
        old(fe).wf(),
        old(fe).has_mb(mb_x as int, mb_y as int),
        old(fe).counts_ok(),
        interplan::source_ok(*old(fe), sy@, su@, sv@),
    ensures
        exists|m: FrameEncoder, p: MbPlan|
            {
                &&& #[trigger] intra_planned(
                    *k,
                    *old(fe),
                    m,
                    sy@,
                    su@,
                    sv@,
                    mb_x as int,
                    mb_y as int,
                    p,
                )
                &&& coding(*final(fe), final(w)@) == intra_coded(
                    m,
                    mb_x as int,
                    mb_y as int,
                    p,
                    is_p,
                    old(w)@,
                )
                &&& final(fe).cur_qp == if codes_delta(p) {
                    m.qp
                } else {
                    m.cur_qp
                }
                &&& only_counts(m, *final(fe))
            },
        final(fe).counts_ok(),
        final(fe).wf(),
{
    let p: MbPlan = plan_mb(k, fe, mb_x, mb_y, sy, su, sv);
    let ghost m = *fe;
    assert(intra_planned(*k, *old(fe), m, sy@, su@, sv@, mb_x as int, mb_y as int, p));
    emit_mb_cavlc(fe, w, mb_x, mb_y, &p, is_p);
}

} // verus!
