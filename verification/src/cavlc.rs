//! The macroblock layer of a CAVLC slice, as a list of syntax elements.
use vstd::prelude::*;
use crate::frame::FrameEncoder;
use crate::grid;
use crate::grid::cell_at;
use crate::plan;
use crate::plan::has_cbp_bit;
use crate::residual;
use crate::scan::{CHROMA_4X4_SCAN_XY, LUMA_4X4_SCAN_XY};

verus! {

/// A syntax element: a flag, a fixed number of bits, an Exp-Golomb code, a mapped coded
/// block pattern, or a block of levels with the count that its tables are chosen by.
pub enum Elem {
    Flag(bool),
    Bits { v: u32, n: u32 },
    Ue(u32),
    Se(i32),
    CbpIntra(u32),
    CbpInter(u32),
    Residual { levels: Vec<i32>, nc: i32 },
}

/// A syntax element with its levels as a sequence.
pub enum ElemView {
    Flag(bool),
    Bits { v: u32, n: u32 },
    Ue(u32),
    Se(i32),
    CbpIntra(u32),
    CbpInter(u32),
    Residual { levels: Seq<i32>, nc: int },
}

impl Elem {
    pub open spec fn view(&self) -> ElemView {
        match self {
            Elem::Flag(b) => ElemView::Flag(*b),
            Elem::Bits { v, n } => ElemView::Bits { v: *v, n: *n },
            Elem::Ue(v) => ElemView::Ue(*v),
            Elem::Se(v) => ElemView::Se(*v),
            Elem::CbpIntra(v) => ElemView::CbpIntra(*v),
            Elem::CbpInter(v) => ElemView::CbpInter(*v),
            Elem::Residual { levels, nc } => ElemView::Residual { levels: levels@, nc: *nc as int },
        }
    }
}

/// A list of syntax elements that grows.
pub struct Syntax {
    pub elems: Vec<Elem>,
}

impl View for Syntax {
    type V = Seq<ElemView>;

    open spec fn view(&self) -> Seq<ElemView> {
        Seq::new(self.elems@.len(), |i: int| self.elems@[i]@)
    }
}

impl Syntax {
    /// An empty list.
    pub fn new() -> (r: Self)
        ensures
            r@ == Seq::<ElemView>::empty(),
    {
        let r: Syntax = Syntax { elems: Vec::new() };
        assert(r@ =~= Seq::<ElemView>::empty());
        r
    }

    /// Append another list.
    pub fn append(&mut self, w: Syntax)
        ensures
            final(self)@ == old(self)@ + w@,
    {
        let ghost before = self@;
        let mut w: Syntax = w;
        let ghost added = w@;
        self.elems.append(&mut w.elems);
        assert(self@ =~= before + added);
    }

    fn push(&mut self, e: Elem)
        ensures
            final(self)@ == old(self)@ + seq![e@],
    {
        let ghost before = self@;
        self.elems.push(e);
        assert(self@ =~= before + seq![e@]);
    }

    pub fn flag(&mut self, b: bool)
        ensures
            final(self)@ == old(self)@ + seq![ElemView::Flag(b)],
    {
        self.push(Elem::Flag(b));
    }

    pub fn bits(&mut self, v: u32, n: u32)
        ensures
            final(self)@ == old(self)@ + seq![ElemView::Bits { v, n }],
    {
        self.push(Elem::Bits { v, n });
    }

    pub fn ue(&mut self, v: u32)
        ensures
            final(self)@ == old(self)@ + seq![ElemView::Ue(v)],
    {
        self.push(Elem::Ue(v));
    }

    pub fn se(&mut self, v: i32)
        ensures
            final(self)@ == old(self)@ + seq![ElemView::Se(v)],
    {
        self.push(Elem::Se(v));
    }

    pub fn cbp_intra(&mut self, v: u32)
        ensures
            final(self)@ == old(self)@ + seq![ElemView::CbpIntra(v)],
    {
        self.push(Elem::CbpIntra(v));
    }

    pub fn cbp_inter(&mut self, v: u32)
        ensures
            final(self)@ == old(self)@ + seq![ElemView::CbpInter(v)],
    {
        self.push(Elem::CbpInter(v));
    }

    pub fn residual(&mut self, levels: Vec<i32>, nc: i32)
        ensures
            final(self)@ == old(self)@ + seq![ElemView::Residual { levels: levels@, nc: nc as int }],
    {
        self.push(Elem::Residual { levels, nc });
    }
}

/// The count that predicts a block from the counts of the blocks left of and above it: the
/// rounded mean of both, the only one, or zero. Two counts that add up to 128 are taken for
/// blocks that are not there; only full 8x8 blocks have them.
pub open spec fn mean_count(left: Option<u8>, top: Option<u8>) -> int {
    match (left, top) {
        (Some(a), Some(b)) => if a + b < 128 {
            (a + b + 1) / 2
        } else {
            a + b - 128
        },
        (Some(a), None) => a as int,
        (None, Some(b)) => b as int,
        (None, None) => 0,
    }
}

/// The count of the cell at `(x, y)` of a grid, if it has one.
pub open spec fn count_at(g: Seq<u8>, w: int, x: int, y: int) -> Option<u8> {
    if x >= 0 && y >= 0 {
        Some(g[grid::cell(w, x, y)])
    } else {
        None
    }
}

/// The predicted count of the block at `(x, y)` of a grid.
pub open spec fn grid_nc(g: Seq<u8>, w: int, x: int, y: int) -> int {
    mean_count(count_at(g, w, x - 1, y), count_at(g, w, x, y - 1))
}

/// A count in a cache: 128 stands for a block that is not there.
pub open spec fn cached(c: Option<u8>) -> u8 {
    match c {
        Some(v) => v,
        None => 0x80u8,
    }
}

/// The sum of two cached counts tells which of them are there.
fn nc_from(left: u8, top: u8) -> (r: i32)
    ensures
        forall|a: Option<u8>, b: Option<u8>|
            left == #[trigger] cached(a) && top == #[trigger] cached(b) && small_count(a)
                && small_count(b) ==> r == mean_count(a, b),
        0 <= r <= 128,
{
    let s: i32 = left as i32 + top as i32;
    if s < 0x80 {
        (s + 1) / 2
    } else {
        s % 128
    }
}

/// A count that is there is at most 64.
pub open spec fn small_count(c: Option<u8>) -> bool {
    c matches Some(v) ==> v <= 64
}

/// Every count of a grid is at most 64, as many as an 8x8 block has.
pub open spec fn small_counts(g: Seq<u8>) -> bool {
    forall|i: int| 0 <= i < g.len() ==> #[trigger] g[i] <= 64
}

impl FrameEncoder {
    /// The counts of the frame are small.
    pub open spec fn counts_ok(&self) -> bool {
        small_counts(self.nnz_y@) && small_counts(self.nnz_c@[0]@) && small_counts(self.nnz_c@[1]@)
    }

    /// The luma cache holds the counts around macroblock `(mb_x, mb_y)`.
    pub open spec fn luma_edges_cached(&self, mb_x: int, mb_y: int) -> bool {
        let w = 4 * self.mb_w;
        &&& forall|i: int|
            0 <= i < 4 ==> #[trigger] self.nnz_l_cache@[1 + i] == cached(
                count_at(self.nnz_y@, w, 4 * mb_x + i, 4 * mb_y - 1),
            )
        &&& forall|j: int|
            0 <= j < 4 ==> #[trigger] self.nnz_l_cache@[5 * (j + 1)] == cached(
                count_at(self.nnz_y@, w, 4 * mb_x - 1, 4 * mb_y + j),
            )
    }

    /// The luma cache holds the counts of the first `z` blocks of the macroblock.
    pub open spec fn luma_blocks_cached(&self, mb_x: int, mb_y: int, z: int) -> bool {
        forall|i: int|
            0 <= i < z ==> #[trigger] self.nnz_l_cache@[5 * (LUMA_4X4_SCAN_XY@[i].1 + 1)
                + LUMA_4X4_SCAN_XY@[i].0 + 1] == self.nnz_y@[grid::luma_cell(
                self.mb_w as int,
                mb_x,
                mb_y,
                i,
            )]
    }

    /// Fill the edges of the luma cache.
    pub fn nnz_cache_load(&mut self, mb_x: usize, mb_y: usize)
        requires
            old(self).wf(),
            old(self).has_mb(mb_x as int, mb_y as int),
        ensures
            final(self).luma_edges_cached(mb_x as int, mb_y as int),
            *final(self) == (FrameEncoder { nnz_l_cache: final(self).nnz_l_cache, ..*old(self) }),
            final(self).wf(),
    {
        let w4: usize = 4 * self.mb_w;
        let n: usize = self.nnz_y.len();
        let ghost (x0, y0) = (4 * mb_x as int, 4 * mb_y as int);
        let mut i: usize = 0;
        while i < 4
            invariant
                i <= 4,
                self.wf(),
                self.has_mb(mb_x as int, mb_y as int),
                w4 == 4 * self.mb_w,
                n == self.nnz_y@.len(),
                x0 == 4 * mb_x && y0 == 4 * mb_y,
                forall|j: int|
                    0 <= j < i ==> #[trigger] self.nnz_l_cache@[1 + j] == cached(
                        count_at(self.nnz_y@, w4 as int, x0 + j, y0 - 1),
                    ),
                forall|j: int|
                    0 <= j < i ==> #[trigger] self.nnz_l_cache@[5 * (j + 1)] == cached(
                        count_at(self.nnz_y@, w4 as int, x0 - 1, y0 + j),
                    ),
                *self == (FrameEncoder { nnz_l_cache: self.nnz_l_cache, ..*old(self) }),
            decreases 4 - i,
        {
            let t: u8 = if mb_y == 0 {
                0x80
            } else {
                proof {
                    grid::lemma_cell(4 * self.mb_w, 4 * self.mb_h, x0 + i, y0 - 1);
                }
                self.nnz_y[cell_at(w4, 4 * mb_x + i, 4 * mb_y - 1, n)]
            };
            let l: u8 = if mb_x == 0 {
                0x80
            } else {
                proof {
                    grid::lemma_cell(4 * self.mb_w, 4 * self.mb_h, x0 - 1, y0 + i);
                }
                self.nnz_y[cell_at(w4, 4 * mb_x - 1, 4 * mb_y + i, n)]
            };
            self.nnz_l_cache[1 + i] = t;
            self.nnz_l_cache[5 * (i + 1)] = l;
            i = i + 1;
        }
    }

    /// The predicted count of a luma block, from the cache.
    pub fn nc_pred(&self, mb_x: usize, mb_y: usize, z: usize) -> (r: i32)
        requires
            self.wf(),
            self.has_mb(mb_x as int, mb_y as int),
            z < 16,
            small_counts(self.nnz_y@),
            self.luma_edges_cached(mb_x as int, mb_y as int),
            self.luma_blocks_cached(mb_x as int, mb_y as int, z as int),
        ensures
            r == grid_nc(
                self.nnz_y@,
                4 * self.mb_w,
                4 * mb_x + LUMA_4X4_SCAN_XY@[z as int].0,
                4 * mb_y + LUMA_4X4_SCAN_XY@[z as int].1,
            ),
            0 <= r <= 64,
    {
        let (lbx, lby): (usize, usize) = LUMA_4X4_SCAN_XY[z];
        let left: u8 = self.nnz_l_cache[5 * (lby + 1) + lbx];
        let top: u8 = self.nnz_l_cache[5 * lby + lbx + 1];
        let ghost (w, h) = (4 * self.mb_w, 4 * self.mb_h);
        let ghost (x, y) = (4 * mb_x + lbx, 4 * mb_y + lby);
        let ghost a = count_at(self.nnz_y@, w, x - 1, y);
        let ghost b = count_at(self.nnz_y@, w, x, y - 1);
        proof {
            lemma_before(z as int);
            if lbx > 0 {
                let i = left_of(z as int);
                assert(self.nnz_l_cache@[5 * (LUMA_4X4_SCAN_XY@[i].1 + 1) + LUMA_4X4_SCAN_XY@[i].0
                    + 1] == self.nnz_y@[grid::luma_cell(
                    self.mb_w as int,
                    mb_x as int,
                    mb_y as int,
                    i,
                )]);
            } else {
                assert(self.nnz_l_cache@[5 * (lby as int + 1)] == cached(a));
            }
            if lby > 0 {
                let i = above_of(z as int);
                assert(self.nnz_l_cache@[5 * (LUMA_4X4_SCAN_XY@[i].1 + 1) + LUMA_4X4_SCAN_XY@[i].0
                    + 1] == self.nnz_y@[grid::luma_cell(
                    self.mb_w as int,
                    mb_x as int,
                    mb_y as int,
                    i,
                )]);
            } else {
                assert(self.nnz_l_cache@[1 + lbx as int] == cached(b));
            }
            if x > 0 {
                grid::lemma_cell(w, h, x - 1, y);
            }
            if y > 0 {
                grid::lemma_cell(w, h, x, y - 1);
            }
            assert(left == cached(a) && top == cached(b));
            assert(small_count(a) && small_count(b));
        }
        nc_from(left, top)
    }

    /// Note the count of a luma block in the cache.
    pub fn nnz_cache_set(&mut self, lbx: usize, lby: usize, total: u8)
        requires
            lbx < 4,
            lby < 4,
        ensures
            *final(self) == (FrameEncoder { nnz_l_cache: final(self).nnz_l_cache, ..*old(self) }),
            final(self).nnz_l_cache@ == old(self).nnz_l_cache@.update(
                5 * (lby + 1) + lbx + 1,
                total,
            ),
    {
        self.nnz_l_cache[5 * (lby + 1) + lbx + 1] = total;
    }
}

/// The block left of block `z` in the macroblock, by coding order.
pub open spec fn left_of(z: int) -> int {
    if z % 2 == 1 {
        z - 1
    } else {
        z - 3
    }
}

/// The block above block `z` in the macroblock, by coding order.
pub open spec fn above_of(z: int) -> int {
    if z % 4 >= 2 {
        z - 2
    } else {
        z - 6
    }
}

/// The blocks left of and above a block come before it.
proof fn lemma_before(z: int)
    requires
        0 <= z < 16,
    ensures
        LUMA_4X4_SCAN_XY@[z].0 > 0 ==> 0 <= left_of(z) < z && LUMA_4X4_SCAN_XY@[left_of(z)].0
            == LUMA_4X4_SCAN_XY@[z].0 - 1 && LUMA_4X4_SCAN_XY@[left_of(z)].1
            == LUMA_4X4_SCAN_XY@[z].1,
        LUMA_4X4_SCAN_XY@[z].1 > 0 ==> 0 <= above_of(z) < z && LUMA_4X4_SCAN_XY@[above_of(z)].0
            == LUMA_4X4_SCAN_XY@[z].0 && LUMA_4X4_SCAN_XY@[above_of(z)].1
            == LUMA_4X4_SCAN_XY@[z].1 - 1,
        LUMA_4X4_SCAN_XY@[z].0 < 4,
        LUMA_4X4_SCAN_XY@[z].1 < 4,
{
}

/// Counts and elements while blocks are coded.
#[verifier::ext_equal]
pub struct Run {
    pub nnz: Seq<u8>,
    pub out: Seq<ElemView>,
}

/// How many levels of a block are not zero.
pub open spec fn block_count(levels: Seq<i32>) -> int {
    residual::count_nz(levels, levels.len() as int) as int
}

/// Luma block `z` coded: its levels if its quarter is marked, and its count.
pub open spec fn luma_step(
    mb_w: int,
    mb_x: int,
    mb_y: int,
    levels: Seq<Seq<i32>>,
    cbp: int,
    z: int,
    s: Run,
) -> Run {
    let (x, y) = (4 * mb_x + LUMA_4X4_SCAN_XY@[z].0, 4 * mb_y + LUMA_4X4_SCAN_XY@[z].1);
    let c = grid::luma_cell(mb_w, mb_x, mb_y, z);
    if plan::cbp_bit(cbp, z / 4) {
        Run {
            nnz: s.nnz.update(c, block_count(levels[z]) as u8),
            out: s.out + seq![
                ElemView::Residual { levels: levels[z], nc: grid_nc(s.nnz, 4 * mb_w, x, y) },
            ],
        }
    } else {
        Run { nnz: s.nnz.update(c, 0), out: s.out }
    }
}

/// The luma blocks from number `z` on coded.
pub open spec fn luma_run(
    mb_w: int,
    mb_x: int,
    mb_y: int,
    levels: Seq<Seq<i32>>,
    cbp: int,
    z: int,
    s: Run,
) -> Run
    decreases 16 - z,
{
    if z >= 16 {
        s
    } else {
        luma_run(mb_w, mb_x, mb_y, levels, cbp, z + 1, luma_step(mb_w, mb_x, mb_y, levels, cbp, z, s))
    }
}

/// Blocks as sequences.
pub open spec fn level_views(l: Seq<Vec<i32>>) -> Seq<Seq<i32>> {
    Seq::new(l.len(), |i: int| l[i]@)
}

fn copy_levels(v: &[i32]) -> (r: Vec<i32>)
    ensures
        r@ == v@,
{
    let mut r: Vec<i32> = Vec::new();
    let mut i: usize = 0;
    while i < v.len()
        invariant
            i <= v@.len(),
            r@ == v@.take(i as int),
        decreases v.len() - i,
    {
        r.push(v[i]);
        i = i + 1;
        assert(r@ =~= v@.take(i as int));
    }
    assert(v@.take(i as int) =~= v@);
    r
}

fn count_of(v: &[i32]) -> (r: u8)
    requires
        v@.len() <= 16,
    ensures
        r == block_count(v@),
        r <= 16,
{
    let mut n: u8 = 0;
    let mut i: usize = 0;
    while i < v.len()
        invariant
            i <= v@.len() <= 16,
            n == residual::count_nz(v@, i as int),
            n <= i,
        decreases v.len() - i,
    {
        if v[i] != 0 {
            n = n + 1;
        }
        i = i + 1;
    }
    n
}

proof fn lemma_scan_distinct(i: int, z: int)
    requires
        0 <= i < z < 16,
    ensures
        LUMA_4X4_SCAN_XY@[i] != LUMA_4X4_SCAN_XY@[z],
        5 * (LUMA_4X4_SCAN_XY@[i].1 + 1) + LUMA_4X4_SCAN_XY@[i].0 != 5 * (LUMA_4X4_SCAN_XY@[z].1 + 1)
            + LUMA_4X4_SCAN_XY@[z].0,
{
}

/// A count that changes inside a macroblock changes none around it.
proof fn lemma_edges_kept(a: FrameEncoder, b: FrameEncoder, mb_x: int, mb_y: int, z: int, v: u8)
    requires
        a.wf(),
        a.has_mb(mb_x, mb_y),
        0 <= z < 16,
        a.luma_edges_cached(mb_x, mb_y),
        a.luma_blocks_cached(mb_x, mb_y, z),
        b.mb_w == a.mb_w,
        b.nnz_y@ == a.nnz_y@.update(grid::luma_cell(a.mb_w as int, mb_x, mb_y, z), v),
        b.nnz_l_cache@ == a.nnz_l_cache@.update(
            5 * (LUMA_4X4_SCAN_XY@[z].1 + 1) + LUMA_4X4_SCAN_XY@[z].0 + 1,
            v,
        ),
    ensures
        b.luma_edges_cached(mb_x, mb_y),
        b.luma_blocks_cached(mb_x, mb_y, z + 1),
{
    let (w, h) = (4 * a.mb_w, 4 * a.mb_h);
    let (x, y) = (4 * mb_x + LUMA_4X4_SCAN_XY@[z].0, 4 * mb_y + LUMA_4X4_SCAN_XY@[z].1);
    lemma_before(z);
    grid::lemma_cell(w, h, x, y);
    assert forall|i: int| 0 <= i < 4 implies #[trigger] b.nnz_l_cache@[1 + i] == cached(
        count_at(b.nnz_y@, w, 4 * mb_x + i, 4 * mb_y - 1),
    ) by {
        if mb_y > 0 {
            grid::lemma_cell(w, h, 4 * mb_x + i, 4 * mb_y - 1);
        }
        assert(a.nnz_l_cache@[1 + i] == cached(
            count_at(a.nnz_y@, w, 4 * mb_x + i, 4 * mb_y - 1),
        ));
    }
    assert forall|j: int| 0 <= j < 4 implies #[trigger] b.nnz_l_cache@[5 * (j + 1)] == cached(
        count_at(b.nnz_y@, w, 4 * mb_x - 1, 4 * mb_y + j),
    ) by {
        if mb_x > 0 {
            grid::lemma_cell(w, h, 4 * mb_x - 1, 4 * mb_y + j);
        }
        assert(a.nnz_l_cache@[5 * (j + 1)] == cached(
            count_at(a.nnz_y@, w, 4 * mb_x - 1, 4 * mb_y + j),
        ));
    }
    assert forall|i: int| 0 <= i < z + 1 implies #[trigger] b.nnz_l_cache@[5 * (
    LUMA_4X4_SCAN_XY@[i].1 + 1) + LUMA_4X4_SCAN_XY@[i].0 + 1] == b.nnz_y@[grid::luma_cell(
        a.mb_w as int,
        mb_x,
        mb_y,
        i,
    )] by {
        if i < z {
            lemma_scan_distinct(i, z);
            lemma_before(i);
            grid::lemma_cell(
                w,
                h,
                4 * mb_x + LUMA_4X4_SCAN_XY@[i].0,
                4 * mb_y + LUMA_4X4_SCAN_XY@[i].1,
            );
            assert(a.nnz_l_cache@[5 * (LUMA_4X4_SCAN_XY@[i].1 + 1) + LUMA_4X4_SCAN_XY@[i].0 + 1]
                == a.nnz_y@[grid::luma_cell(a.mb_w as int, mb_x, mb_y, i)]);
        }
    }
}

/// Only the luma counts and their cache have changed.
pub open spec fn only_luma_counts(a: FrameEncoder, b: FrameEncoder) -> bool {
    b == (FrameEncoder { nnz_y: b.nnz_y, nnz_l_cache: b.nnz_l_cache, ..a })
}

impl FrameEncoder {
    /// Append the luma blocks of a macroblock, in coding order, and note their counts.
    pub fn emit_luma(
        &mut self,
        w: &mut Syntax,
        mb_x: usize,
        mb_y: usize,
        levels: &Vec<Vec<i32>>,
        cbp: u32,
    )
        requires
            old(self).wf(),
            old(self).has_mb(mb_x as int, mb_y as int),
            small_counts(old(self).nnz_y@),
            levels@.len() == 16,
            forall|i: int| 0 <= i < 16 ==> (#[trigger] levels@[i])@.len() <= 16,
        ensures
            ({
                let r = luma_run(
                    old(self).mb_w as int,
                    mb_x as int,
                    mb_y as int,
                    level_views(levels@),
                    cbp as int,
                    0,
                    (Run { nnz: old(self).nnz_y@, out: old(w)@ }),
                );
                final(self).nnz_y@ == r.nnz && final(w)@ == r.out
            }),
            only_luma_counts(*old(self), *final(self)),
            small_counts(final(self).nnz_y@),
            final(self).wf(),
    {
        let ghost (mw, gx, gy) = (self.mb_w as int, mb_x as int, mb_y as int);
        let ghost lv = level_views(levels@);
        let ghost start = Run { nnz: self.nnz_y@, out: w@ };
        self.nnz_cache_load(mb_x, mb_y);
        let mut z: usize = 0;
        while z < 16
            invariant
                z <= 16,
                self.wf(),
                mw == self.mb_w && gx == mb_x && gy == mb_y,
                self.has_mb(gx, gy),
                small_counts(self.nnz_y@),
                lv == level_views(levels@),
                levels@.len() == 16,
                forall|i: int| 0 <= i < 16 ==> (#[trigger] levels@[i])@.len() <= 16,
                self.luma_edges_cached(gx, gy),
                self.luma_blocks_cached(gx, gy, z as int),
                luma_run(
                    mw,
                    gx,
                    gy,
                    lv,
                    cbp as int,
                    z as int,
                    Run { nnz: self.nnz_y@, out: w@ },
                ) == luma_run(mw, gx, gy, lv, cbp as int, 0, start),
                only_luma_counts(*old(self), *self),
            decreases 16 - z,
        {
            let ghost before = *self;
            let (lbx, lby): (usize, usize) = LUMA_4X4_SCAN_XY[z];
            proof {
                grid::lemma_luma_cell(mw, self.mb_h as int, gx, gy, z as int);
            }
            let mut total: u8 = 0;
            if has_cbp_bit(cbp, z / 4) {
                let nc: i32 = self.nc_pred(mb_x, mb_y, z);
                total = count_of(&levels[z]);
                w.residual(copy_levels(&levels[z]), nc);
            }
            self.nnz_cache_set(lbx, lby, total);
            let c: usize = cell_at(4 * self.mb_w, 4 * mb_x + lbx, 4 * mb_y + lby, self.nnz_y.len());
            self.nnz_y[c] = total;
            proof {
                lemma_edges_kept(before, *self, gx, gy, z as int, total);
            }
            z = z + 1;
        }
    }
}

/// Chroma block `z` of a plane coded.
pub open spec fn chroma_step(
    mb_w: int,
    mb_x: int,
    mb_y: int,
    levels: Seq<Seq<i32>>,
    z: int,
    s: Run,
) -> Run {
    let (x, y) = (2 * mb_x + CHROMA_4X4_SCAN_XY@[z].0, 2 * mb_y + CHROMA_4X4_SCAN_XY@[z].1);
    Run {
        nnz: s.nnz.update(
            grid::chroma_cell(mb_w, mb_x, mb_y, z),
            block_count(levels[z]) as u8,
        ),
        out: s.out + seq![
            ElemView::Residual { levels: levels[z], nc: grid_nc(s.nnz, 2 * mb_w, x, y) },
        ],
    }
}

/// The chroma blocks of a plane from number `z` on coded.
pub open spec fn chroma_run(
    mb_w: int,
    mb_x: int,
    mb_y: int,
    levels: Seq<Seq<i32>>,
    z: int,
    s: Run,
) -> Run
    decreases 4 - z,
{
    if z >= 4 {
        s
    } else {
        chroma_run(mb_w, mb_x, mb_y, levels, z + 1, chroma_step(mb_w, mb_x, mb_y, levels, z, s))
    }
}

/// Only the chroma counts and their cache have changed.
pub open spec fn only_chroma_counts(a: FrameEncoder, b: FrameEncoder) -> bool {
    b == (FrameEncoder { nnz_c: b.nnz_c, nnz_c_cache: b.nnz_c_cache, ..a })
}

impl FrameEncoder {
    /// The chroma cache of plane `c` holds the counts around the macroblock.
    pub open spec fn chroma_edges_cached(&self, c: int, mb_x: int, mb_y: int) -> bool {
        let w = 2 * self.mb_w;
        &&& forall|i: int|
            0 <= i < 2 ==> #[trigger] self.nnz_c_cache@[c]@[1 + i] == cached(
                count_at(self.nnz_c@[c]@, w, 2 * mb_x + i, 2 * mb_y - 1),
            )
        &&& forall|j: int|
            0 <= j < 2 ==> #[trigger] self.nnz_c_cache@[c]@[3 * (j + 1)] == cached(
                count_at(self.nnz_c@[c]@, w, 2 * mb_x - 1, 2 * mb_y + j),
            )
    }

    /// The chroma cache of plane `c` holds the counts of the first `z` blocks.
    pub open spec fn chroma_blocks_cached(&self, c: int, mb_x: int, mb_y: int, z: int) -> bool {
        forall|i: int|
            0 <= i < z ==> #[trigger] self.nnz_c_cache@[c]@[3 * (CHROMA_4X4_SCAN_XY@[i].1 + 1)
                + CHROMA_4X4_SCAN_XY@[i].0 + 1] == self.nnz_c@[c]@[grid::chroma_cell(
                self.mb_w as int,
                mb_x,
                mb_y,
                i,
            )]
    }

    /// Fill the edges of the chroma cache of a plane.
    pub fn chroma_cache_load(&mut self, c: usize, mb_x: usize, mb_y: usize)
        requires
            old(self).wf(),
            old(self).has_mb(mb_x as int, mb_y as int),
            c < 2,
        ensures
            final(self).chroma_edges_cached(c as int, mb_x as int, mb_y as int),
            *final(self) == (FrameEncoder { nnz_c_cache: final(self).nnz_c_cache, ..*old(self) }),
            final(self).wf(),
    {
        let w2: usize = 2 * self.mb_w;
        let n: usize = self.nnz_c[c].len();
        let ghost (x0, y0) = (2 * mb_x as int, 2 * mb_y as int);
        let mut i: usize = 0;
        while i < 2
            invariant
                i <= 2,
                c < 2,
                self.wf(),
                self.has_mb(mb_x as int, mb_y as int),
                w2 == 2 * self.mb_w,
                n == self.nnz_c@[c as int]@.len(),
                x0 == 2 * mb_x && y0 == 2 * mb_y,
                forall|j: int|
                    0 <= j < i ==> #[trigger] self.nnz_c_cache@[c as int]@[1 + j] == cached(
                        count_at(self.nnz_c@[c as int]@, w2 as int, x0 + j, y0 - 1),
                    ),
                forall|j: int|
                    0 <= j < i ==> #[trigger] self.nnz_c_cache@[c as int]@[3 * (j + 1)] == cached(
                        count_at(self.nnz_c@[c as int]@, w2 as int, x0 - 1, y0 + j),
                    ),
                *self == (FrameEncoder { nnz_c_cache: self.nnz_c_cache, ..*old(self) }),
            decreases 2 - i,
        {
            let t: u8 = if mb_y == 0 {
                0x80
            } else {
                proof {
                    grid::lemma_cell(2 * self.mb_w, 2 * self.mb_h, x0 + i, y0 - 1);
                }
                self.nnz_c[c][cell_at(w2, 2 * mb_x + i, 2 * mb_y - 1, n)]
            };
            let l: u8 = if mb_x == 0 {
                0x80
            } else {
                proof {
                    grid::lemma_cell(2 * self.mb_w, 2 * self.mb_h, x0 - 1, y0 + i);
                }
                self.nnz_c[c][cell_at(w2, 2 * mb_x - 1, 2 * mb_y + i, n)]
            };
            self.nnz_c_cache[c][1 + i] = t;
            self.nnz_c_cache[c][3 * (i + 1)] = l;
            i = i + 1;
        }
    }

    /// The predicted count of a chroma block, from the cache.
    pub fn chroma_nc_pred(&self, c: usize, mb_x: usize, mb_y: usize, z: usize) -> (r: i32)
        requires
            self.wf(),
            self.has_mb(mb_x as int, mb_y as int),
            c < 2,
            z < 4,
            small_counts(self.nnz_c@[c as int]@),
            self.chroma_edges_cached(c as int, mb_x as int, mb_y as int),
            self.chroma_blocks_cached(c as int, mb_x as int, mb_y as int, z as int),
        ensures
            r == grid_nc(
                self.nnz_c@[c as int]@,
                2 * self.mb_w,
                2 * mb_x + CHROMA_4X4_SCAN_XY@[z as int].0,
                2 * mb_y + CHROMA_4X4_SCAN_XY@[z as int].1,
            ),
            0 <= r <= 64,
    {
        let (bx, by): (usize, usize) = CHROMA_4X4_SCAN_XY[z];
        let left: u8 = self.nnz_c_cache[c][3 * (by + 1) + bx];
        let top: u8 = self.nnz_c_cache[c][3 * by + bx + 1];
        let ghost (w, h) = (2 * self.mb_w, 2 * self.mb_h);
        let ghost (x, y) = (2 * mb_x + bx, 2 * mb_y + by);
        let ghost g = self.nnz_c@[c as int]@;
        let ghost k = self.nnz_c_cache@[c as int]@;
        let ghost a = count_at(g, w, x - 1, y);
        let ghost b = count_at(g, w, x, y - 1);
        proof {
            if bx > 0 {
                let i = z - 1;
                assert(k[3 * (CHROMA_4X4_SCAN_XY@[i].1 + 1) + CHROMA_4X4_SCAN_XY@[i].0 + 1]
                    == g[grid::chroma_cell(self.mb_w as int, mb_x as int, mb_y as int, i)]);
            } else {
                assert(k[3 * (by as int + 1)] == cached(a));
            }
            if by > 0 {
                let i = z - 2;
                assert(k[3 * (CHROMA_4X4_SCAN_XY@[i].1 + 1) + CHROMA_4X4_SCAN_XY@[i].0 + 1]
                    == g[grid::chroma_cell(self.mb_w as int, mb_x as int, mb_y as int, i)]);
            } else {
                assert(k[1 + bx as int] == cached(b));
            }
            if x > 0 {
                grid::lemma_cell(w, h, x - 1, y);
            }
            if y > 0 {
                grid::lemma_cell(w, h, x, y - 1);
            }
            assert(left == cached(a) && top == cached(b));
            assert(small_count(a) && small_count(b));
        }
        nc_from(left, top)
    }

    /// Note the count of a chroma block in the cache.
    pub fn chroma_nnz_cache_set(&mut self, c: usize, bx: usize, by: usize, total: u8)
        requires
            c < 2,
            bx < 2,
            by < 2,
        ensures
            *final(self) == (FrameEncoder { nnz_c_cache: final(self).nnz_c_cache, ..*old(self) }),
            final(self).nnz_c_cache@[c as int]@ == old(self).nnz_c_cache@[c as int]@.update(
                3 * (by + 1) + bx + 1,
                total,
            ),
            final(self).nnz_c_cache@[1 - c] == old(self).nnz_c_cache@[1 - c],
    {
        self.nnz_c_cache[c][3 * (by + 1) + bx + 1] = total;
    }

    /// Append the AC blocks of a chroma plane and note their counts.
    pub fn emit_chroma_ac(
        &mut self,
        w: &mut Syntax,
        mb_x: usize,
        mb_y: usize,
        c: usize,
        levels: &Vec<Vec<i32>>,
    )
        requires
            old(self).wf(),
            old(self).has_mb(mb_x as int, mb_y as int),
            c < 2,
            small_counts(old(self).nnz_c@[c as int]@),
            levels@.len() == 4,
            forall|i: int| 0 <= i < 4 ==> (#[trigger] levels@[i])@.len() <= 16,
        ensures
            ({
                let r = chroma_run(
                    old(self).mb_w as int,
                    mb_x as int,
                    mb_y as int,
                    level_views(levels@),
                    0,
                    (Run { nnz: old(self).nnz_c@[c as int]@, out: old(w)@ }),
                );
                final(self).nnz_c@[c as int]@ == r.nnz && final(w)@ == r.out
            }),
            final(self).nnz_c@[1 - c] == old(self).nnz_c@[1 - c],
            only_chroma_counts(*old(self), *final(self)),
            small_counts(final(self).nnz_c@[c as int]@),
            final(self).wf(),
    {
        let ghost (mw, gx, gy, gc) = (self.mb_w as int, mb_x as int, mb_y as int, c as int);
        let ghost lv = level_views(levels@);
        let ghost start = Run { nnz: self.nnz_c@[gc]@, out: w@ };
        self.chroma_cache_load(c, mb_x, mb_y);
        let mut z: usize = 0;
        while z < 4
            invariant
                z <= 4,
                c < 2,
                self.wf(),
                mw == self.mb_w && gx == mb_x && gy == mb_y && gc == c,
                self.has_mb(gx, gy),
                small_counts(self.nnz_c@[gc]@),
                lv == level_views(levels@),
                levels@.len() == 4,
                forall|i: int| 0 <= i < 4 ==> (#[trigger] levels@[i])@.len() <= 16,
                self.chroma_edges_cached(gc, gx, gy),
                self.chroma_blocks_cached(gc, gx, gy, z as int),
                chroma_run(mw, gx, gy, lv, z as int, Run { nnz: self.nnz_c@[gc]@, out: w@ })
                    == chroma_run(mw, gx, gy, lv, 0, start),
                self.nnz_c@[1 - gc] == old(self).nnz_c@[1 - gc],
                only_chroma_counts(*old(self), *self),
            decreases 4 - z,
        {
            let ghost before = *self;
            let (bx, by): (usize, usize) = CHROMA_4X4_SCAN_XY[z];
            proof {
                grid::lemma_chroma_cell(mw, self.mb_h as int, gx, gy, z as int);
            }
            let nc: i32 = self.chroma_nc_pred(c, mb_x, mb_y, z);
            let total: u8 = count_of(&levels[z]);
            w.residual(copy_levels(&levels[z]), nc);
            self.chroma_nnz_cache_set(c, bx, by, total);
            let cell: usize = cell_at(
                2 * self.mb_w,
                2 * mb_x + bx,
                2 * mb_y + by,
                self.nnz_c[c].len(),
            );
            self.nnz_c[c][cell] = total;
            proof {
                lemma_chroma_edges_kept(before, *self, gc, gx, gy, z as int, total);
            }
            z = z + 1;
        }
    }
}

proof fn lemma_chroma_edges_kept(
    a: FrameEncoder,
    b: FrameEncoder,
    c: int,
    mb_x: int,
    mb_y: int,
    z: int,
    v: u8,
)
    requires
        a.wf(),
        a.has_mb(mb_x, mb_y),
        0 <= c < 2,
        0 <= z < 4,
        a.chroma_edges_cached(c, mb_x, mb_y),
        a.chroma_blocks_cached(c, mb_x, mb_y, z),
        b.mb_w == a.mb_w,
        b.nnz_c@[c]@ == a.nnz_c@[c]@.update(grid::chroma_cell(a.mb_w as int, mb_x, mb_y, z), v),
        b.nnz_c_cache@[c]@ == a.nnz_c_cache@[c]@.update(
            3 * (CHROMA_4X4_SCAN_XY@[z].1 + 1) + CHROMA_4X4_SCAN_XY@[z].0 + 1,
            v,
        ),
    ensures
        b.chroma_edges_cached(c, mb_x, mb_y),
        b.chroma_blocks_cached(c, mb_x, mb_y, z + 1),
{
    let (w, h) = (2 * a.mb_w, 2 * a.mb_h);
    let (ga, gb) = (a.nnz_c@[c]@, b.nnz_c@[c]@);
    let (ka, kb) = (a.nnz_c_cache@[c]@, b.nnz_c_cache@[c]@);
    grid::lemma_cell(
        w,
        h,
        2 * mb_x + CHROMA_4X4_SCAN_XY@[z].0,
        2 * mb_y + CHROMA_4X4_SCAN_XY@[z].1,
    );
    assert forall|i: int| 0 <= i < 2 implies #[trigger] b.nnz_c_cache@[c]@[1 + i] == cached(
        count_at(gb, w, 2 * mb_x + i, 2 * mb_y - 1),
    ) by {
        if mb_y > 0 {
            grid::lemma_cell(w, h, 2 * mb_x + i, 2 * mb_y - 1);
        }
        assert(a.nnz_c_cache@[c]@[1 + i] == cached(count_at(ga, w, 2 * mb_x + i, 2 * mb_y - 1)));
    }
    assert forall|j: int| 0 <= j < 2 implies #[trigger] b.nnz_c_cache@[c]@[3 * (j + 1)] == cached(
        count_at(gb, w, 2 * mb_x - 1, 2 * mb_y + j),
    ) by {
        if mb_x > 0 {
            grid::lemma_cell(w, h, 2 * mb_x - 1, 2 * mb_y + j);
        }
        assert(a.nnz_c_cache@[c]@[3 * (j + 1)] == cached(
            count_at(ga, w, 2 * mb_x - 1, 2 * mb_y + j),
        ));
    }
    assert forall|i: int| 0 <= i < z + 1 implies #[trigger] b.nnz_c_cache@[c]@[3 * (
    CHROMA_4X4_SCAN_XY@[i].1 + 1) + CHROMA_4X4_SCAN_XY@[i].0 + 1] == gb[grid::chroma_cell(
        a.mb_w as int,
        mb_x,
        mb_y,
        i,
    )] by {
        if i < z {
            assert(CHROMA_4X4_SCAN_XY@[i] != CHROMA_4X4_SCAN_XY@[z]);
            grid::lemma_cell(
                w,
                h,
                2 * mb_x + CHROMA_4X4_SCAN_XY@[i].0,
                2 * mb_y + CHROMA_4X4_SCAN_XY@[i].1,
            );
            assert(a.nnz_c_cache@[c]@[3 * (CHROMA_4X4_SCAN_XY@[i].1 + 1) + CHROMA_4X4_SCAN_XY@[i].0
                + 1] == ga[grid::chroma_cell(a.mb_w as int, mb_x, mb_y, i)]);
        }
    }
}

} // verus!
