//! Committing a macroblock to the frame, and taking a trial back.
use vstd::prelude::*;
use crate::arith;
use crate::frame::FrameEncoder;
use crate::grid;
use crate::grid::cell_at;
use crate::motion;
use crate::motion::{predict_mv, MotionView, MvNeighbor};
use crate::rect;
use crate::rect::{fill_rect, get_rect, put_rect};

verus! {

/// A coded picture that others are predicted from.
pub struct RefFrame {
    pub y: Vec<u8>,
    pub u: Vec<u8>,
    pub v: Vec<u8>,
    pub poc: i32,
    pub frame_num: u32,
    /// The list-0 motion of its 4x4 blocks.
    pub mv: Vec<(i32, i32)>,
    pub ref_idx: Vec<i32>,
    /// How many 4x4 blocks are in a row; 0 where no motion is kept.
    pub w4: usize,
}

/// A copy of one macroblock's part of the frame.
pub struct MbState {
    pub rec_y: Vec<u8>,
    pub rec_u: Vec<u8>,
    pub rec_v: Vec<u8>,
    pub nnz_y: Vec<u8>,
    pub nnz_c0: Vec<u8>,
    pub nnz_c1: Vec<u8>,
    pub mv_y: Vec<(i32, i32)>,
    pub inter_y: Vec<bool>,
    pub ref_idx_y: Vec<i32>,
    pub coded_y: Vec<bool>,
    pub modes_y: Vec<u8>,
    pub cur_qp: u8,
}

/// The luma samples of a macroblock.
pub open spec fn luma_of<T>(g: Seq<T>, mb_w: int, mb_x: int, mb_y: int) -> Seq<T> {
    rect::block(g, 16 * mb_w, 16 * mb_x, 16 * mb_y, 16, 16)
}

/// The chroma samples of a macroblock.
pub open spec fn chroma_of<T>(g: Seq<T>, mb_w: int, mb_x: int, mb_y: int) -> Seq<T> {
    rect::block(g, 8 * mb_w, 8 * mb_x, 8 * mb_y, 8, 8)
}

/// The luma blocks of a macroblock.
pub open spec fn cells_of<T>(g: Seq<T>, mb_w: int, mb_x: int, mb_y: int) -> Seq<T> {
    rect::block(g, 4 * mb_w, 4 * mb_x, 4 * mb_y, 4, 4)
}

/// The chroma blocks of a macroblock.
pub open spec fn ccells_of<T>(g: Seq<T>, mb_w: int, mb_x: int, mb_y: int) -> Seq<T> {
    rect::block(g, 2 * mb_w, 2 * mb_x, 2 * mb_y, 2, 2)
}

impl MbState {
    /// This is the copy of macroblock `(mb_x, mb_y)` of the frame.
    pub open spec fn copies(&self, fe: FrameEncoder, mb_x: int, mb_y: int) -> bool {
        let w = fe.mb_w as int;
        &&& self.rec_y@ == luma_of(fe.rec_y@, w, mb_x, mb_y)
        &&& self.rec_u@ == chroma_of(fe.rec_u@, w, mb_x, mb_y)
        &&& self.rec_v@ == chroma_of(fe.rec_v@, w, mb_x, mb_y)
        &&& self.nnz_y@ == cells_of(fe.nnz_y@, w, mb_x, mb_y)
        &&& self.nnz_c0@ == ccells_of(fe.nnz_c@[0]@, w, mb_x, mb_y)
        &&& self.nnz_c1@ == ccells_of(fe.nnz_c@[1]@, w, mb_x, mb_y)
        &&& self.mv_y@ == cells_of(fe.mv_y@, w, mb_x, mb_y)
        &&& self.inter_y@ == cells_of(fe.inter_y@, w, mb_x, mb_y)
        &&& self.ref_idx_y@ == cells_of(fe.ref_idx_y@, w, mb_x, mb_y)
        &&& self.coded_y@ == cells_of(fe.coded_y@, w, mb_x, mb_y)
        &&& self.modes_y@ == cells_of(fe.modes_y@, w, mb_x, mb_y)
        &&& self.cur_qp == fe.cur_qp
    }

    /// The copy has the size of a macroblock.
    pub open spec fn wf(&self) -> bool {
        &&& self.rec_y@.len() == 256
        &&& self.rec_u@.len() == 64
        &&& self.rec_v@.len() == 64
        &&& self.nnz_y@.len() == 16
        &&& self.nnz_c0@.len() == 4
        &&& self.nnz_c1@.len() == 4
        &&& self.mv_y@.len() == 16
        &&& self.inter_y@.len() == 16
        &&& self.ref_idx_y@.len() == 16
        &&& self.coded_y@.len() == 16
        &&& self.modes_y@.len() == 16
    }
}

/// What the frame becomes when the copy `s` is written to macroblock `(mb_x, mb_y)`.
pub open spec fn restored(
    fe0: FrameEncoder,
    fe1: FrameEncoder,
    s: MbState,
    mb_x: int,
    mb_y: int,
) -> bool {
    let w = fe0.mb_w as int;
    let (l, c, b, q) = (16 * w, 8 * w, 4 * w, 2 * w);
    &&& fe1.rec_y@ == rect::put_block(fe0.rec_y@, l, 16 * mb_x, 16 * mb_y, 16, 16, s.rec_y@)
    &&& fe1.rec_u@ == rect::put_block(fe0.rec_u@, c, 8 * mb_x, 8 * mb_y, 8, 8, s.rec_u@)
    &&& fe1.rec_v@ == rect::put_block(fe0.rec_v@, c, 8 * mb_x, 8 * mb_y, 8, 8, s.rec_v@)
    &&& fe1.nnz_y@ == rect::put_block(fe0.nnz_y@, b, 4 * mb_x, 4 * mb_y, 4, 4, s.nnz_y@)
    &&& fe1.nnz_c@[0]@ == rect::put_block(
        fe0.nnz_c@[0]@,
        q,
        2 * mb_x,
        2 * mb_y,
        2,
        2,
        s.nnz_c0@,
    )
    &&& fe1.nnz_c@[1]@ == rect::put_block(
        fe0.nnz_c@[1]@,
        q,
        2 * mb_x,
        2 * mb_y,
        2,
        2,
        s.nnz_c1@,
    )
    &&& fe1.mv_y@ == rect::put_block(fe0.mv_y@, b, 4 * mb_x, 4 * mb_y, 4, 4, s.mv_y@)
    &&& fe1.inter_y@ == rect::put_block(fe0.inter_y@, b, 4 * mb_x, 4 * mb_y, 4, 4, s.inter_y@)
    &&& fe1.ref_idx_y@ == rect::put_block(fe0.ref_idx_y@, b, 4 * mb_x, 4 * mb_y, 4, 4, s.ref_idx_y@)
    &&& fe1.coded_y@ == rect::put_block(fe0.coded_y@, b, 4 * mb_x, 4 * mb_y, 4, 4, s.coded_y@)
    &&& fe1.modes_y@ == rect::put_block(fe0.modes_y@, b, 4 * mb_x, 4 * mb_y, 4, 4, s.modes_y@)
    &&& fe1 == (FrameEncoder {
        rec_y: fe1.rec_y,
        rec_u: fe1.rec_u,
        rec_v: fe1.rec_v,
        nnz_y: fe1.nnz_y,
        nnz_c: fe1.nnz_c,
        mv_y: fe1.mv_y,
        inter_y: fe1.inter_y,
        ref_idx_y: fe1.ref_idx_y,
        coded_y: fe1.coded_y,
        modes_y: fe1.modes_y,
        cur_qp: s.cur_qp,
        ..fe0
    })
}

/// `g` and `h` have the same cells outside the rectangle of a macroblock, `k` cells wide.
pub open spec fn same_outside<T>(
    g: Seq<T>,
    h: Seq<T>,
    mb_w: int,
    mb_x: int,
    mb_y: int,
    k: int,
) -> bool {
    &&& g.len() == h.len()
    &&& forall|i: int|
        0 <= i < g.len() && !rect::inside(k * mb_w, k * mb_x, k * mb_y, k, k, i)
            ==> #[trigger] h[i] == g[i]
}

/// The frame `b` is `a` with macroblock `(x, y)` skipped: its samples are the prediction, and
/// its motion is one vector into reference 0.
pub open spec fn skip_committed(
    a: FrameEncoder,
    b: FrameEncoder,
    x: int,
    y: int,
    mv: (i32, i32),
    py: Seq<u8>,
    pu: Seq<u8>,
    pv: Seq<u8>,
) -> bool {
    let w = a.mb_w as int;
    &&& b.rec_y@ == rect::put_block(a.rec_y@, 16 * w, 16 * x, 16 * y, 16, 16, py)
    &&& b.rec_u@ == rect::put_block(
        a.rec_u@,
        8 * w,
        8 * x,
        8 * y,
        8,
        8,
        pu,
    )
    &&& b.rec_v@ == rect::put_block(
        a.rec_v@,
        8 * w,
        8 * x,
        8 * y,
        8,
        8,
        pv,
    )
    &&& b.mv_y@ == rect::fill(a.mv_y@, 4 * w, 4 * x, 4 * y, 4, 4, mv)
    &&& b.inter_y@ == rect::fill(a.inter_y@, 4 * w, 4 * x, 4 * y, 4, 4, true)
    &&& b.ref_idx_y@ == rect::fill(a.ref_idx_y@, 4 * w, 4 * x, 4 * y, 4, 4, 0i32)
    &&& b.modes_y@ == rect::fill(a.modes_y@, 4 * w, 4 * x, 4 * y, 4, 4, 2u8)
    &&& b.coded_y@ == rect::fill(a.coded_y@, 4 * w, 4 * x, 4 * y, 4, 4, true)
    &&& b == (FrameEncoder {
        rec_y: b.rec_y,
        rec_u: b.rec_u,
        rec_v: b.rec_v,
        mv_y: b.mv_y,
        inter_y: b.inter_y,
        ref_idx_y: b.ref_idx_y,
        modes_y: b.modes_y,
        coded_y: b.coded_y,
        ..a
    })
}

/// The frame `b` is `a` with the motion `d` in the blocks of macroblock `(mb_x, mb_y)`.
pub open spec fn direct_committed(
    a: FrameEncoder,
    b: FrameEncoder,
    mb_x: int,
    mb_y: int,
    d: Seq<(i32, (i32, i32), i32, (i32, i32))>,
) -> bool {
    let (w, x, y) = (4 * a.mb_w, 4 * mb_x, 4 * mb_y);
    &&& b.inter_y@ == rect::fill(a.inter_y@, w, x, y, 4, 4, true)
    &&& b.coded_y@ == rect::fill(a.coded_y@, w, x, y, 4, 4, true)
    &&& b.ref_idx_y@ == rect::put_block(
        a.ref_idx_y@,
        w,
        x,
        y,
        4,
        4,
        Seq::new(16, |i: int| d[i].0),
    )
    &&& b.mv_y@ == rect::put_block(
        a.mv_y@,
        w,
        x,
        y,
        4,
        4,
        Seq::new(16, |i: int| d[i].1),
    )
    &&& b.ref_idx1_y@ == rect::put_block(
        a.ref_idx1_y@,
        w,
        x,
        y,
        4,
        4,
        Seq::new(16, |i: int| d[i].2),
    )
    &&& b.mv1_y@ == rect::put_block(
        a.mv1_y@,
        w,
        x,
        y,
        4,
        4,
        Seq::new(16, |i: int| d[i].3),
    )
    &&& b == (FrameEncoder {
        inter_y: b.inter_y,
        coded_y: b.coded_y,
        ref_idx_y: b.ref_idx_y,
        mv_y: b.mv_y,
        ref_idx1_y: b.ref_idx1_y,
        mv1_y: b.mv1_y,
        ..a
    })
}

/// Nothing that a copy keeps has changed outside macroblock `(mb_x, mb_y)`.
pub open spec fn changed_inside(a: FrameEncoder, b: FrameEncoder, mb_x: int, mb_y: int) -> bool {
    let w = a.mb_w as int;
    &&& b.mb_w == a.mb_w
    &&& b.mb_h == a.mb_h
    &&& same_outside(a.rec_y@, b.rec_y@, w, mb_x, mb_y, 16)
    &&& same_outside(a.rec_u@, b.rec_u@, w, mb_x, mb_y, 8)
    &&& same_outside(a.rec_v@, b.rec_v@, w, mb_x, mb_y, 8)
    &&& same_outside(a.nnz_y@, b.nnz_y@, w, mb_x, mb_y, 4)
    &&& same_outside(a.nnz_c@[0]@, b.nnz_c@[0]@, w, mb_x, mb_y, 2)
    &&& same_outside(a.nnz_c@[1]@, b.nnz_c@[1]@, w, mb_x, mb_y, 2)
    &&& same_outside(a.mv_y@, b.mv_y@, w, mb_x, mb_y, 4)
    &&& same_outside(a.inter_y@, b.inter_y@, w, mb_x, mb_y, 4)
    &&& same_outside(a.ref_idx_y@, b.ref_idx_y@, w, mb_x, mb_y, 4)
    &&& same_outside(a.coded_y@, b.coded_y@, w, mb_x, mb_y, 4)
    &&& same_outside(a.modes_y@, b.modes_y@, w, mb_x, mb_y, 4)
}

/// Whatever a trial did inside its macroblock, writing back the copy that was taken before
/// it gives the grids and the running QP that the frame had.
pub proof fn law_trial_is_undone(
    a: FrameEncoder,
    b: FrameEncoder,
    c: FrameEncoder,
    s: MbState,
    mb_x: int,
    mb_y: int,
)
    requires
        a.wf(),
        a.has_mb(mb_x, mb_y),
        s.copies(a, mb_x, mb_y),
        changed_inside(a, b, mb_x, mb_y),
        restored(b, c, s, mb_x, mb_y),
    ensures
        c.rec_y@ == a.rec_y@,
        c.rec_u@ == a.rec_u@,
        c.rec_v@ == a.rec_v@,
        c.nnz_y@ == a.nnz_y@,
        c.nnz_c@[0]@ == a.nnz_c@[0]@,
        c.nnz_c@[1]@ == a.nnz_c@[1]@,
        c.mv_y@ == a.mv_y@,
        c.inter_y@ == a.inter_y@,
        c.ref_idx_y@ == a.ref_idx_y@,
        c.coded_y@ == a.coded_y@,
        c.modes_y@ == a.modes_y@,
        c.cur_qp == a.cur_qp,
{
    let (w, h) = (a.mb_w as int, a.mb_h as int);
    rect::law_put_back(a.rec_y@, b.rec_y@, 16 * w, 16 * h, 16 * mb_x, 16 * mb_y, 16, 16);
    rect::law_put_back(a.rec_u@, b.rec_u@, 8 * w, 8 * h, 8 * mb_x, 8 * mb_y, 8, 8);
    rect::law_put_back(a.rec_v@, b.rec_v@, 8 * w, 8 * h, 8 * mb_x, 8 * mb_y, 8, 8);
    rect::law_put_back(a.nnz_y@, b.nnz_y@, 4 * w, 4 * h, 4 * mb_x, 4 * mb_y, 4, 4);
    rect::law_put_back(a.nnz_c@[0]@, b.nnz_c@[0]@, 2 * w, 2 * h, 2 * mb_x, 2 * mb_y, 2, 2);
    rect::law_put_back(a.nnz_c@[1]@, b.nnz_c@[1]@, 2 * w, 2 * h, 2 * mb_x, 2 * mb_y, 2, 2);
    rect::law_put_back(a.mv_y@, b.mv_y@, 4 * w, 4 * h, 4 * mb_x, 4 * mb_y, 4, 4);
    rect::law_put_back(a.inter_y@, b.inter_y@, 4 * w, 4 * h, 4 * mb_x, 4 * mb_y, 4, 4);
    rect::law_put_back(a.ref_idx_y@, b.ref_idx_y@, 4 * w, 4 * h, 4 * mb_x, 4 * mb_y, 4, 4);
    rect::law_put_back(a.coded_y@, b.coded_y@, 4 * w, 4 * h, 4 * mb_x, 4 * mb_y, 4, 4);
    rect::law_put_back(a.modes_y@, b.modes_y@, 4 * w, 4 * h, 4 * mb_x, 4 * mb_y, 4, 4);
}

/// The reference that direct motion uses: the smallest one that a neighbour has, or a
/// negative number if none has one.
pub open spec fn min_ref(a: int, b: int) -> int {
    if a < 0 {
        b
    } else if b < 0 {
        a
    } else {
        arith::min(a, b)
    }
}

fn min_pos(a: i32, b: i32) -> (r: i32)
    ensures
        r == min_ref(a as int, b as int),
{
    if a < 0 {
        b
    } else if b < 0 {
        a
    } else if a <= b {
        a
    } else {
        b
    }
}

/// The co-located block of list 1 stands still: it has reference 0 and a vector of at most
/// one quarter sample in each direction.
pub open spec fn still(l1: RefFrame, bx: int, by: int) -> bool {
    let i = grid::cell(l1.w4 as int, bx, by);
    &&& l1.w4 != 0
    &&& i < l1.ref_idx@.len()
    &&& l1.ref_idx@[i] == 0
    &&& -1 <= l1.mv@[i].0 <= 1
    &&& -1 <= l1.mv@[i].1 <= 1
}

/// The direct motion of a macroblock as a whole: the references and vectors of both lists,
/// and whether neither list has a neighbour to take a reference from.
pub struct DirectBase {
    pub ref0: int,
    pub mv0: (i32, i32),
    pub ref1: int,
    pub mv1: (i32, i32),
    pub zero: bool,
}

/// Spatial direct motion of macroblock `(mb_x, mb_y)`.
pub open spec fn direct_base(m: MotionView, mb_x: int, mb_y: int) -> DirectBase {
    let n0 = motion::part_neighbours(m, false, 4 * mb_x, 4 * mb_y, 4);
    let n1 = motion::part_neighbours(m, true, 4 * mb_x, 4 * mb_y, 4);
    let r0 = min_ref(
        min_ref(n0.0.ref_idx as int, n0.1.ref_idx as int),
        n0.2.ref_idx as int,
    );
    let r1 = min_ref(
        min_ref(n1.0.ref_idx as int, n1.1.ref_idx as int),
        n1.2.ref_idx as int,
    );
    let zero = r0 < 0 && r1 < 0;
    DirectBase {
        ref0: if zero {
            0
        } else {
            r0
        },
        mv0: if r0 >= 0 {
            motion::predicted(n0.0, n0.1, n0.2, r0)
        } else {
            (0, 0)
        },
        ref1: if zero {
            0
        } else {
            r1
        },
        mv1: if r1 >= 0 {
            motion::predicted(n1.0, n1.1, n1.2, r1)
        } else {
            (0, 0)
        },
        zero,
    }
}

/// The direct motion of the block in column `sbx` and row `sby` of the macroblock: a list
/// with reference 0 stands still where the co-located block does.
pub open spec fn direct_block(
    m: MotionView,
    l1: RefFrame,
    mb_x: int,
    mb_y: int,
    sbx: int,
    sby: int,
) -> (i32, (i32, i32), i32, (i32, i32)) {
    let d = direct_base(m, mb_x, mb_y);
    let cz = !d.zero && still(l1, 4 * mb_x + sbx, 4 * mb_y + sby);
    (
        d.ref0 as i32,
        if d.ref0 == 0 && cz {
            (0, 0)
        } else {
            d.mv0
        },
        d.ref1 as i32,
        if d.ref1 == 0 && cz {
            (0, 0)
        } else {
            d.mv1
        },
    )
}

/// The threshold for skipping without a search at `(mb_x, mb_y)`: from the skip costs of
/// those neighbours that were skipped, the only one there is, or the median with zero for
/// the others.
pub open spec fn skip_threshold(fe: FrameEncoder, mb_x: int, mb_y: int) -> int {
    let w = fe.mb_w as int;
    let a = skip_note(fe, mb_x - 1, mb_y);
    let b = skip_note(fe, mb_x, mb_y - 1);
    let tr = skip_note(fe, mb_x + 1, mb_y - 1);
    let c = if tr is Some {
        tr
    } else {
        skip_note(fe, mb_x - 1, mb_y - 1)
    };
    let (sa, sb, sc) = (skip_cost(a), skip_cost(b), skip_cost(c));
    let (ka, kb, kc) = (was_skip(a), was_skip(b), was_skip(c));
    if b is None && c is None && a is Some {
        sa
    } else if ka && !kb && !kc {
        sa
    } else if !ka && kb && !kc {
        sb
    } else if !ka && !kb && kc {
        sc
    } else {
        motion::median(sa, sb, sc)
    }
}

/// What is noted of the skip decision of macroblock `(x, y)`, if it lies in the frame above
/// or left of the current one.
pub open spec fn skip_note(fe: FrameEncoder, x: int, y: int) -> Option<(bool, u32)> {
    if x < 0 || y < 0 || x >= fe.mb_w {
        None
    } else {
        let i = grid::cell(fe.mb_w as int, x, y);
        Some((fe.mb_was_skip@[i], fe.mb_skip_sad@[i]))
    }
}

/// The noted cost of a skipped macroblock, zero for any other.
pub open spec fn skip_cost(n: Option<(bool, u32)>) -> int {
    match n {
        Some((true, v)) => v as int,
        _ => 0,
    }
}

/// The macroblock is there and was skipped.
pub open spec fn was_skip(n: Option<(bool, u32)>) -> bool {
    n matches Some((s, _)) && s
}

impl FrameEncoder {
    /// A copy of one macroblock's part of the frame.
    pub fn save_mb(&self, mb_x: usize, mb_y: usize) -> (s: MbState)
        requires
            self.wf(),
            self.has_mb(mb_x as int, mb_y as int),
        ensures
            s.copies(*self, mb_x as int, mb_y as int),
            s.wf(),
    {
        let (w, h): (usize, usize) = (self.mb_w, self.mb_h);
        MbState {
            rec_y: get_rect(&self.rec_y, 16 * w, 16 * h, 16 * mb_x, 16 * mb_y, 16, 16),
            rec_u: get_rect(&self.rec_u, 8 * w, 8 * h, 8 * mb_x, 8 * mb_y, 8, 8),
            rec_v: get_rect(&self.rec_v, 8 * w, 8 * h, 8 * mb_x, 8 * mb_y, 8, 8),
            nnz_y: get_rect(&self.nnz_y, 4 * w, 4 * h, 4 * mb_x, 4 * mb_y, 4, 4),
            nnz_c0: get_rect(&self.nnz_c[0], 2 * w, 2 * h, 2 * mb_x, 2 * mb_y, 2, 2),
            nnz_c1: get_rect(&self.nnz_c[1], 2 * w, 2 * h, 2 * mb_x, 2 * mb_y, 2, 2),
            mv_y: get_rect(&self.mv_y, 4 * w, 4 * h, 4 * mb_x, 4 * mb_y, 4, 4),
            inter_y: get_rect(&self.inter_y, 4 * w, 4 * h, 4 * mb_x, 4 * mb_y, 4, 4),
            ref_idx_y: get_rect(&self.ref_idx_y, 4 * w, 4 * h, 4 * mb_x, 4 * mb_y, 4, 4),
            coded_y: get_rect(&self.coded_y, 4 * w, 4 * h, 4 * mb_x, 4 * mb_y, 4, 4),
            modes_y: get_rect(&self.modes_y, 4 * w, 4 * h, 4 * mb_x, 4 * mb_y, 4, 4),
            cur_qp: self.cur_qp,
        }
    }

    /// Refill `d` with the copy of one macroblock's part of the frame.
    pub fn save_mb_into(&self, mb_x: usize, mb_y: usize, d: &mut MbState)
        requires
            self.wf(),
            self.has_mb(mb_x as int, mb_y as int),
        ensures
            final(d).copies(*self, mb_x as int, mb_y as int),
            final(d).wf(),
    {
        *d = self.save_mb(mb_x, mb_y);
    }

    /// Write the copy of a macroblock back.
    pub fn load_mb(&mut self, mb_x: usize, mb_y: usize, s: &MbState)
        requires
            old(self).wf(),
            old(self).has_mb(mb_x as int, mb_y as int),
            s.wf(),
        ensures
            restored(*old(self), *final(self), *s, mb_x as int, mb_y as int),
            final(self).wf(),
    {
        let (w, h): (usize, usize) = (self.mb_w, self.mb_h);
        put_rect(&mut self.rec_y, 16 * w, 16 * h, 16 * mb_x, 16 * mb_y, 16, 16, &s.rec_y);
        put_rect(&mut self.rec_u, 8 * w, 8 * h, 8 * mb_x, 8 * mb_y, 8, 8, &s.rec_u);
        put_rect(&mut self.rec_v, 8 * w, 8 * h, 8 * mb_x, 8 * mb_y, 8, 8, &s.rec_v);
        put_rect(&mut self.nnz_y, 4 * w, 4 * h, 4 * mb_x, 4 * mb_y, 4, 4, &s.nnz_y);
        put_rect(&mut self.nnz_c[0], 2 * w, 2 * h, 2 * mb_x, 2 * mb_y, 2, 2, &s.nnz_c0);
        put_rect(&mut self.nnz_c[1], 2 * w, 2 * h, 2 * mb_x, 2 * mb_y, 2, 2, &s.nnz_c1);
        put_rect(&mut self.mv_y, 4 * w, 4 * h, 4 * mb_x, 4 * mb_y, 4, 4, &s.mv_y);
        put_rect(&mut self.inter_y, 4 * w, 4 * h, 4 * mb_x, 4 * mb_y, 4, 4, &s.inter_y);
        put_rect(&mut self.ref_idx_y, 4 * w, 4 * h, 4 * mb_x, 4 * mb_y, 4, 4, &s.ref_idx_y);
        put_rect(&mut self.coded_y, 4 * w, 4 * h, 4 * mb_x, 4 * mb_y, 4, 4, &s.coded_y);
        put_rect(&mut self.modes_y, 4 * w, 4 * h, 4 * mb_x, 4 * mb_y, 4, 4, &s.modes_y);
        self.cur_qp = s.cur_qp;
    }

    /// Note the motion of a whole macroblock; an intra one has no reference.
    pub fn set_mb_mv(&mut self, mb_x: usize, mb_y: usize, mv: (i32, i32), inter: bool, refi: i32)
        requires
            old(self).wf(),
            old(self).has_mb(mb_x as int, mb_y as int),
        ensures
            ({
                let (w, x, y) = (4 * old(self).mb_w, 4 * mb_x, 4 * mb_y);
                &&& final(self).mv_y@ == rect::fill(old(self).mv_y@, w, x, y, 4, 4, mv)
                &&& final(self).inter_y@ == rect::fill(old(self).inter_y@, w, x, y, 4, 4, inter)
                &&& final(self).ref_idx_y@ == rect::fill(
                    old(self).ref_idx_y@,
                    w,
                    x,
                    y,
                    4,
                    4,
                    if inter {
                        refi
                    } else {
                        -1i32
                    },
                )
            }),
            *final(self) == (FrameEncoder {
                mv_y: final(self).mv_y,
                inter_y: final(self).inter_y,
                ref_idx_y: final(self).ref_idx_y,
                ..*old(self)
            }),
            final(self).wf(),
    {
        let (w, h): (usize, usize) = (self.mb_w, self.mb_h);
        fill_rect(&mut self.mv_y, 4 * w, 4 * h, 4 * mb_x, 4 * mb_y, 4, 4, mv);
        fill_rect(&mut self.inter_y, 4 * w, 4 * h, 4 * mb_x, 4 * mb_y, 4, 4, inter);
        fill_rect(
            &mut self.ref_idx_y,
            4 * w,
            4 * h,
            4 * mb_x,
            4 * mb_y,
            4,
            4,
            if inter {
                refi
            } else {
                -1
            },
        );
    }

    /// Make a skipped macroblock part of the frame: its samples are the prediction.
    pub fn commit_skip(
        &mut self,
        mb_x: usize,
        mb_y: usize,
        mv: (i32, i32),
        pred_y: &[u8; 256],
        pred_c: &[[u8; 64]; 2],
    )
        requires
            old(self).wf(),
            old(self).has_mb(mb_x as int, mb_y as int),
        ensures
            skip_committed(
                *old(self),
                *final(self),
                mb_x as int,
                mb_y as int,
                mv,
                pred_y@,
                pred_c@[0]@,
                pred_c@[1]@,
            ),
            final(self).wf(),
    {
        let (w, h): (usize, usize) = (self.mb_w, self.mb_h);
        put_rect(&mut self.rec_y, 16 * w, 16 * h, 16 * mb_x, 16 * mb_y, 16, 16, pred_y);
        put_rect(&mut self.rec_u, 8 * w, 8 * h, 8 * mb_x, 8 * mb_y, 8, 8, &pred_c[0]);
        put_rect(&mut self.rec_v, 8 * w, 8 * h, 8 * mb_x, 8 * mb_y, 8, 8, &pred_c[1]);
        self.set_mb_mv(mb_x, mb_y, mv, true, 0);
        fill_rect(&mut self.modes_y, 4 * w, 4 * h, 4 * mb_x, 4 * mb_y, 4, 4, 2);
        fill_rect(&mut self.coded_y, 4 * w, 4 * h, 4 * mb_x, 4 * mb_y, 4, 4, true);
    }

    /// Note the direct motion of a macroblock in both lists.
    pub fn commit_direct_motion(
        &mut self,
        mb_x: usize,
        mb_y: usize,
        motion: &[(i32, (i32, i32), i32, (i32, i32)); 16],
    )
        requires
            old(self).wf(),
            old(self).has_mb(mb_x as int, mb_y as int),
        ensures
            direct_committed(
                *old(self),
                *final(self),
                mb_x as int,
                mb_y as int,
                motion@,
            ),
            final(self).wf(),
    {
        let (w, h): (usize, usize) = (self.mb_w, self.mb_h);
        let mut r0: [i32; 16] = [0; 16];
        let mut m0: [(i32, i32); 16] = [(0, 0); 16];
        let mut r1: [i32; 16] = [0; 16];
        let mut m1: [(i32, i32); 16] = [(0, 0); 16];
        let mut i: usize = 0;
        while i < 16
            invariant
                i <= 16,
                forall|j: int| 0 <= j < i ==> #[trigger] r0@[j] == motion@[j].0,
                forall|j: int| 0 <= j < i ==> #[trigger] m0@[j] == motion@[j].1,
                forall|j: int| 0 <= j < i ==> #[trigger] r1@[j] == motion@[j].2,
                forall|j: int| 0 <= j < i ==> #[trigger] m1@[j] == motion@[j].3,
            decreases 16 - i,
        {
            r0[i] = motion[i].0;
            m0[i] = motion[i].1;
            r1[i] = motion[i].2;
            m1[i] = motion[i].3;
            i = i + 1;
        }
        assert(r0@ =~= Seq::new(16, |i: int| motion@[i].0));
        assert(m0@ =~= Seq::new(16, |i: int| motion@[i].1));
        assert(r1@ =~= Seq::new(16, |i: int| motion@[i].2));
        assert(m1@ =~= Seq::new(16, |i: int| motion@[i].3));
        fill_rect(&mut self.inter_y, 4 * w, 4 * h, 4 * mb_x, 4 * mb_y, 4, 4, true);
        fill_rect(&mut self.coded_y, 4 * w, 4 * h, 4 * mb_x, 4 * mb_y, 4, 4, true);
        put_rect(&mut self.ref_idx_y, 4 * w, 4 * h, 4 * mb_x, 4 * mb_y, 4, 4, &r0);
        put_rect(&mut self.mv_y, 4 * w, 4 * h, 4 * mb_x, 4 * mb_y, 4, 4, &m0);
        put_rect(&mut self.ref_idx1_y, 4 * w, 4 * h, 4 * mb_x, 4 * mb_y, 4, 4, &r1);
        put_rect(&mut self.mv1_y, 4 * w, 4 * h, 4 * mb_x, 4 * mb_y, 4, 4, &m1);
    }

    /// Whether the block of list 1 at `(bx, by)` stands still.
    pub fn col_zero(&self, l1: &RefFrame, bx: usize, by: usize) -> (r: bool)
        requires
            l1.mv@.len() == l1.ref_idx@.len(),
            by * l1.w4 + bx <= usize::MAX,
        ensures
            r == still(*l1, bx as int, by as int),
    {
        if l1.w4 == 0 {
            return false;
        }
        assert(0 <= by * l1.w4) by (nonlinear_arith)
            requires
                by >= 0,
                l1.w4 >= 0,
        ;
        let idx: usize = by * l1.w4 + bx;
        if idx >= l1.ref_idx.len() {
            return false;
        }
        let (x, y): (i32, i32) = l1.mv[idx];
        l1.ref_idx[idx] == 0 && -1 <= x && x <= 1 && -1 <= y && y <= 1
    }

    /// The spatial direct motion of a macroblock: reference and vector of each block in
    /// both lists.
    #[verifier::rlimit(50)]
    pub fn b_direct_motion(&self, l1: &RefFrame, mb_x: usize, mb_y: usize) -> (r: [(
        i32,
        (i32, i32),
        i32,
        (i32, i32),
    ); 16])
        requires
            self.wf(),
            self.has_mb(mb_x as int, mb_y as int),
            l1.mv@.len() == l1.ref_idx@.len(),
            l1.w4 == 0 || l1.w4 == 4 * self.mb_w,
        ensures
            forall|i: int|
                0 <= i < 16 ==> #[trigger] r@[i] == direct_block(
                    self.motion(),
                    *l1,
                    mb_x as int,
                    mb_y as int,
                    i % 4,
                    i / 4,
                ),
    {
        let n0: [MvNeighbor; 3] = self.mv_neighbors_block_list(4 * mb_x, 4 * mb_y, 4, 0);
        let n1: [MvNeighbor; 3] = self.mv_neighbors_block_list(4 * mb_x, 4 * mb_y, 4, 1);
        let r0: i32 = min_pos(min_pos(n0[0].ref_idx, n0[1].ref_idx), n0[2].ref_idx);
        let r1: i32 = min_pos(min_pos(n1[0].ref_idx, n1[1].ref_idx), n1[2].ref_idx);
        let zero: bool = r0 < 0 && r1 < 0;
        let mv0: (i32, i32) = if r0 >= 0 {
            predict_mv(n0[0], n0[1], n0[2], r0)
        } else {
            (0, 0)
        };
        let mv1: (i32, i32) = if r1 >= 0 {
            predict_mv(n1[0], n1[1], n1[2], r1)
        } else {
            (0, 0)
        };
        let ref0: i32 = if zero {
            0
        } else {
            r0
        };
        let ref1: i32 = if zero {
            0
        } else {
            r1
        };
        let ghost d = direct_base(self.motion(), mb_x as int, mb_y as int);
        assert(d.ref0 == ref0 && d.ref1 == ref1 && d.mv0 == mv0 && d.mv1 == mv1 && d.zero == zero);
        let mut m: [(i32, (i32, i32), i32, (i32, i32)); 16] = [(0, (0, 0), 0, (0, 0)); 16];
        let mut i: usize = 0;
        while i < 16
            invariant
                i <= 16,
                self.wf(),
                self.has_mb(mb_x as int, mb_y as int),
                l1.mv@.len() == l1.ref_idx@.len(),
                l1.w4 == 0 || l1.w4 == 4 * self.mb_w,
                d == direct_base(self.motion(), mb_x as int, mb_y as int),
                d.ref0 == ref0 && d.ref1 == ref1 && d.mv0 == mv0 && d.mv1 == mv1 && d.zero == zero,
                forall|j: int|
                    0 <= j < i ==> #[trigger] m@[j] == direct_block(
                        self.motion(),
                        *l1,
                        mb_x as int,
                        mb_y as int,
                        j % 4,
                        j / 4,
                    ),
            decreases 16 - i,
        {
            let bx: usize = 4 * mb_x + i % 4;
            let by: usize = 4 * mb_y + i / 4;
            proof {
                grid::lemma_cell(4 * self.mb_w, 4 * self.mb_h, bx as int, by as int);
                assert(self.mv_y.len() == (4 * self.mb_w) * (4 * self.mb_h));
                if l1.w4 == 0 {
                    assert(by * l1.w4 == 0) by (nonlinear_arith)
                        requires
                            l1.w4 == 0,
                    ;
                }
            }
            let cz: bool = !zero && self.col_zero(l1, bx, by);
            let a: (i32, i32) = if ref0 == 0 && cz {
                (0, 0)
            } else {
                mv0
            };
            let b: (i32, i32) = if ref1 == 0 && cz {
                (0, 0)
            } else {
                mv1
            };
            m[i] = (ref0, a, ref1, b);
            i = i + 1;
        }
        m
    }

    fn skip_note_at(&self, x: usize, y: usize) -> (r: Option<(bool, u32)>)
        requires
            self.wf(),
            x < self.mb_w,
            y < self.mb_h,
        ensures
            r == skip_note(*self, x as int, y as int),
    {
        proof {
            grid::lemma_cell(self.mb_w as int, self.mb_h as int, x as int, y as int);
        }
        let i: usize = cell_at(self.mb_w, x, y, self.mb_was_skip.len());
        Some((self.mb_was_skip[i], self.mb_skip_sad[i]))
    }

    /// The threshold for skipping a macroblock without a search.
    pub fn pred_skip_sad(&self, mb_x: usize, mb_y: usize) -> (r: u32)
        requires
            self.wf(),
            self.has_mb(mb_x as int, mb_y as int),
        ensures
            r == skip_threshold(*self, mb_x as int, mb_y as int),
    {
        let a: Option<(bool, u32)> = if mb_x > 0 {
            self.skip_note_at(mb_x - 1, mb_y)
        } else {
            None
        };
        let b: Option<(bool, u32)> = if mb_y > 0 {
            self.skip_note_at(mb_x, mb_y - 1)
        } else {
            None
        };
        let c: Option<(bool, u32)> = if mb_y > 0 && mb_x + 1 < self.mb_w {
            self.skip_note_at(mb_x + 1, mb_y - 1)
        } else if mb_y > 0 && mb_x > 0 {
            self.skip_note_at(mb_x - 1, mb_y - 1)
        } else {
            None
        };
        let (ka, sa): (bool, u32) = noted(a);
        let (kb, sb): (bool, u32) = noted(b);
        let (kc, sc): (bool, u32) = noted(c);
        if b.is_none() && c.is_none() && a.is_some() {
            return sa;
        }
        if ka && !kb && !kc {
            sa
        } else if !ka && kb && !kc {
            sb
        } else if !ka && !kb && kc {
            sc
        } else {
            let lo: u32 = if sa <= sb {
                sa
            } else {
                sb
            };
            let hi: u32 = if sa >= sb {
                sa
            } else {
                sb
            };
            let m: u32 = if hi <= sc {
                hi
            } else {
                sc
            };
            if lo >= m {
                lo
            } else {
                m
            }
        }
    }
}

fn noted(n: Option<(bool, u32)>) -> (r: (bool, u32))
    ensures
        r.0 == was_skip(n),
        r.1 == skip_cost(n),
{
    match n {
        Some((s, v)) => if s {
            (true, v)
        } else {
            (false, 0)
        },
        None => (false, 0),
    }
}

} // verus!
