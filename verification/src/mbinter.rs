//! Inter macroblocks in CABAC: partition layouts, motion-vector differences, P and B types.
use vstd::prelude::*;
use crate::arith;
use crate::arith::{abs_i16, bit_usize};
use crate::binarize;
use crate::binarize::{
    b_part_mb_type, cb_cbp, cb_mb_qp_delta, cb_mb_skip, cb_mb_type_b, cb_mb_type_p_inter, cb_mvd,
    cb_ref_idx, cb_sub_mb_type_p,
};
use crate::cabac;
use crate::cabac::{Bin, CabacEncoder};
use crate::frame::FrameEncoder;
use crate::mbcabac;
use crate::mbcabac::{
    cb_build_nzc, cb_emit_chroma_residual, cb_export_nzc, cb_luma_blocks, cb_luma_eight,
    clear_luma_counts, count_flag, get_u16, get_u8, neighbours, CabacState, MbCode,
};
use crate::plan::InterPlan;

verus! {

/// The cell of each 4x4 block, in coding order, in the padded motion cache. The row stride
/// is 6; the cell above a block is 6 before its own, the cell left of it 1 before.
pub const CB_CACHE30: [usize; 16] = [7, 8, 13, 14, 9, 10, 15, 16, 19, 20, 25, 26, 21, 22, 27, 28];

/// The raster position of each 4x4 block in coding order.
pub const CB_G_SCAN4: [usize; 16] = [0, 1, 4, 5, 2, 3, 6, 7, 8, 9, 12, 13, 10, 11, 14, 15];

/// One motion partition: its first 4x4 block and all blocks it covers, in coding order.
pub struct Part {
    pub idx: usize,
    pub blocks: Vec<usize>,
}

/// A partition as a mathematical value.
pub struct PartView {
    pub idx: int,
    pub blocks: Seq<usize>,
}

impl View for Part {
    type V = PartView;

    open spec fn view(&self) -> PartView {
        PartView { idx: self.idx as int, blocks: self.blocks@ }
    }
}

/// The views of a list of partitions.
pub open spec fn part_views(v: Seq<Part>) -> Seq<PartView> {
    Seq::new(v.len(), |i: int| v[i]@)
}

/// `n` blocks from `first` on, `step` apart.
pub open spec fn run(first: int, n: nat, step: int) -> Seq<usize> {
    Seq::new(n, |i: int| (first + step * i) as usize)
}

/// The partitions of a P macroblock: 1 is 16x8, 2 is 8x16, 3 is four 8x8 quarters, any
/// other the whole macroblock.
pub open spec fn p_layout(mode: int) -> Seq<PartView> {
    if mode == 1 {
        seq![
            PartView { idx: 0, blocks: run(0, 8, 1) },
            PartView { idx: 8, blocks: run(8, 8, 1) },
        ]
    } else if mode == 2 {
        seq![
            PartView { idx: 0, blocks: run(0, 4, 1) + run(8, 4, 1) },
            PartView { idx: 4, blocks: run(4, 4, 1) + run(12, 4, 1) },
        ]
    } else if mode == 3 {
        seq![
            PartView { idx: 0, blocks: run(0, 4, 1) },
            PartView { idx: 4, blocks: run(4, 4, 1) },
            PartView { idx: 8, blocks: run(8, 4, 1) },
            PartView { idx: 12, blocks: run(12, 4, 1) },
        ]
    } else {
        seq![PartView { idx: 0, blocks: run(0, 16, 1) }]
    }
}

fn blocks_from(first: usize, n: usize, step: usize) -> (r: Vec<usize>)
    requires
        first < 16,
        n <= 16,
        step <= 2,
    ensures
        r@ == run(first as int, n as nat, step as int),
{
    let mut v: Vec<usize> = Vec::new();
    let mut i: usize = 0;
    while i < n
        invariant
            i <= n,
            first < 16,
            n <= 16,
            step <= 2,
            v@ == run(first as int, i as nat, step as int),
        decreases n - i,
    {
        assert(step * i <= 2 * 16) by (nonlinear_arith)
            requires
                step <= 2,
                i <= 16,
        ;
        v.push(first + step * i);
        i = i + 1;
        assert(v@ =~= run(first as int, i as nat, step as int));
    }
    v
}

/// The partitions of a P macroblock.
pub fn p_partition_layout(mode: u8) -> (r: Vec<Part>)
    ensures
        part_views(r@) == p_layout(mode as int),
{
    let mut r: Vec<Part> = Vec::new();
    if mode == 1 {
        r.push(Part { idx: 0, blocks: blocks_from(0, 8, 1) });
        r.push(Part { idx: 8, blocks: blocks_from(8, 8, 1) });
    } else if mode == 2 {
        let mut a: Vec<usize> = blocks_from(0, 4, 1);
        let mut a2: Vec<usize> = blocks_from(8, 4, 1);
        a.append(&mut a2);
        let mut b: Vec<usize> = blocks_from(4, 4, 1);
        let mut b2: Vec<usize> = blocks_from(12, 4, 1);
        b.append(&mut b2);
        r.push(Part { idx: 0, blocks: a });
        r.push(Part { idx: 4, blocks: b });
    } else if mode == 3 {
        r.push(Part { idx: 0, blocks: blocks_from(0, 4, 1) });
        r.push(Part { idx: 4, blocks: blocks_from(4, 4, 1) });
        r.push(Part { idx: 8, blocks: blocks_from(8, 4, 1) });
        r.push(Part { idx: 12, blocks: blocks_from(12, 4, 1) });
    } else {
        r.push(Part { idx: 0, blocks: blocks_from(0, 16, 1) });
    }
    assert(part_views(r@) =~= p_layout(mode as int));
    r
}

/// The sub-partitions of the 8x8 quarter `p8`: 0 is the whole quarter, 1 is 8x4, 2 is 4x8,
/// any other 4x4.
pub open spec fn p_sub_layout(p8: int, sub_type: int) -> Seq<PartView> {
    let b = 4 * p8;
    if sub_type == 0 {
        seq![PartView { idx: b, blocks: run(b, 4, 1) }]
    } else if sub_type == 1 {
        seq![
            PartView { idx: b, blocks: run(b, 2, 1) },
            PartView { idx: b + 2, blocks: run(b + 2, 2, 1) },
        ]
    } else if sub_type == 2 {
        seq![
            PartView { idx: b, blocks: run(b, 2, 2) },
            PartView { idx: b + 1, blocks: run(b + 1, 2, 2) },
        ]
    } else {
        seq![
            PartView { idx: b, blocks: run(b, 1, 1) },
            PartView { idx: b + 1, blocks: run(b + 1, 1, 1) },
            PartView { idx: b + 2, blocks: run(b + 2, 1, 1) },
            PartView { idx: b + 3, blocks: run(b + 3, 1, 1) },
        ]
    }
}

/// The sub-partitions of an 8x8 quarter, for the motion-vector differences.
pub fn p_sub_partition_layout(p8: usize, sub_type: u8) -> (r: Vec<Part>)
    requires
        p8 < 4,
        sub_type <= 3,
    ensures
        part_views(r@) == p_sub_layout(p8 as int, sub_type as int),
{
    let b: usize = 4 * p8;
    let mut r: Vec<Part> = Vec::new();
    if sub_type == 0 {
        r.push(Part { idx: b, blocks: blocks_from(b, 4, 1) });
    } else if sub_type == 1 {
        r.push(Part { idx: b, blocks: blocks_from(b, 2, 1) });
        r.push(Part { idx: b + 2, blocks: blocks_from(b + 2, 2, 1) });
    } else if sub_type == 2 {
        r.push(Part { idx: b, blocks: blocks_from(b, 2, 2) });
        r.push(Part { idx: b + 1, blocks: blocks_from(b + 1, 2, 2) });
    } else {
        r.push(Part { idx: b, blocks: blocks_from(b, 1, 1) });
        r.push(Part { idx: b + 1, blocks: blocks_from(b + 1, 1, 1) });
        r.push(Part { idx: b + 2, blocks: blocks_from(b + 2, 1, 1) });
        r.push(Part { idx: b + 3, blocks: blocks_from(b + 3, 1, 1) });
    }
    assert(part_views(r@) =~= p_sub_layout(p8 as int, sub_type as int));
    r
}

/// The rectangles `(x, y, width, height)` of the sub-partitions of an 8x8 quarter.
pub open spec fn sub_rects(sub_type: int) -> Seq<(usize, usize, usize, usize)> {
    if sub_type == 0 {
        seq![(0usize, 0usize, 8usize, 8usize)]
    } else if sub_type == 1 {
        seq![(0usize, 0usize, 8usize, 4usize), (0usize, 4usize, 8usize, 4usize)]
    } else if sub_type == 2 {
        seq![(0usize, 0usize, 4usize, 8usize), (4usize, 0usize, 4usize, 8usize)]
    } else {
        seq![
            (0usize, 0usize, 4usize, 4usize),
            (4usize, 0usize, 4usize, 4usize),
            (0usize, 4usize, 4usize, 4usize),
            (4usize, 4usize, 4usize, 4usize),
        ]
    }
}

/// The rectangles of the sub-partitions of an 8x8 quarter, in coding order.
pub fn sub_mb_partitions_p(sub_type: u8) -> (r: Vec<(usize, usize, usize, usize)>)
    ensures
        r@ == sub_rects(sub_type as int),
{
    let mut r: Vec<(usize, usize, usize, usize)> = Vec::new();
    if sub_type == 0 {
        r.push((0, 0, 8, 8));
    } else if sub_type == 1 {
        r.push((0, 0, 8, 4));
        r.push((0, 4, 8, 4));
    } else if sub_type == 2 {
        r.push((0, 0, 4, 8));
        r.push((4, 0, 4, 8));
    } else {
        r.push((0, 0, 4, 4));
        r.push((4, 0, 4, 4));
        r.push((0, 4, 4, 4));
        r.push((4, 4, 4, 4));
    }
    assert(r@ =~= sub_rects(sub_type as int));
    r
}

/// The blocks of a list of partitions, one partition behind the other.
pub open spec fn all_blocks(l: Seq<PartView>) -> Seq<usize>
    decreases l.len(),
{
    if l.len() == 0 {
        Seq::empty()
    } else {
        all_blocks(l.drop_last()) + l.last().blocks
    }
}

/// The partitions of every P macroblock type cover each of the sixteen blocks exactly once.
pub proof fn law_p_layout_covers_the_macroblock(mode: int, z: int)
    requires
        0 <= mode <= 3,
        0 <= z < 16,
    ensures
        all_blocks(p_layout(mode)).len() == 16,
        exists|i: int| 0 <= i < 16 && #[trigger] all_blocks(p_layout(mode))[i] == z,
{
    reveal_with_fuel(all_blocks, 5);
    let l = p_layout(mode);
    let a = all_blocks(l);
    if mode == 1 {
        assert(l.drop_last() =~= seq![l[0]]);
        assert(seq![l[0]].drop_last() =~= Seq::<PartView>::empty());
        assert(a =~= run(0, 8, 1) + run(8, 8, 1));
        assert(a[z] == z);
    } else if mode == 2 {
        assert(l.drop_last() =~= seq![l[0]]);
        assert(seq![l[0]].drop_last() =~= Seq::<PartView>::empty());
        assert(a =~= (run(0, 4, 1) + run(8, 4, 1)) + (run(4, 4, 1) + run(12, 4, 1)));
        let i = if z < 4 {
            z
        } else if z < 8 {
            z + 4
        } else if z < 12 {
            z - 4
        } else {
            z
        };
        assert(a[i] == z);
    } else if mode == 3 {
        assert(l.drop_last() =~= seq![l[0], l[1], l[2]]);
        assert(seq![l[0], l[1], l[2]].drop_last() =~= seq![l[0], l[1]]);
        assert(seq![l[0], l[1]].drop_last() =~= seq![l[0]]);
        assert(seq![l[0]].drop_last() =~= Seq::<PartView>::empty());
        assert(a =~= run(0, 4, 1) + run(4, 4, 1) + run(8, 4, 1) + run(12, 4, 1));
        assert(a[z] == z);
    } else {
        assert(l.drop_last() =~= Seq::<PartView>::empty());
        assert(a =~= run(0, 16, 1));
        assert(a[z] == z);
    }
}

/// The sub-partitions of every type cover each of the four blocks of their quarter exactly
/// once.
pub proof fn law_p_sub_layout_covers_the_quarter(p8: int, sub_type: int, k: int)
    requires
        0 <= p8 < 4,
        0 <= sub_type <= 3,
        0 <= k < 4,
    ensures
        all_blocks(p_sub_layout(p8, sub_type)).len() == 4,
        exists|i: int| 0 <= i < 4 && #[trigger] all_blocks(p_sub_layout(p8, sub_type))[i] == 4 * p8
            + k,
{
    reveal_with_fuel(all_blocks, 5);
    let b = 4 * p8;
    let l = p_sub_layout(p8, sub_type);
    let a = all_blocks(l);
    if sub_type == 0 {
        assert(l.drop_last() =~= Seq::<PartView>::empty());
        assert(a =~= run(b, 4, 1));
        assert(a[k] == b + k);
    } else if sub_type == 1 {
        assert(l.drop_last() =~= seq![l[0]]);
        assert(seq![l[0]].drop_last() =~= Seq::<PartView>::empty());
        assert(a =~= run(b, 2, 1) + run(b + 2, 2, 1));
        assert(a[k] == b + k);
    } else if sub_type == 2 {
        assert(l.drop_last() =~= seq![l[0]]);
        assert(seq![l[0]].drop_last() =~= Seq::<PartView>::empty());
        assert(a =~= run(b, 2, 2) + run(b + 1, 2, 2));
        let i = if k == 1 {
            2
        } else if k == 2 {
            1
        } else {
            k
        };
        assert(a[i] == b + k);
    } else {
        assert(l.drop_last() =~= seq![l[0], l[1], l[2]]);
        assert(seq![l[0], l[1], l[2]].drop_last() =~= seq![l[0], l[1]]);
        assert(seq![l[0], l[1]].drop_last() =~= seq![l[0]]);
        assert(seq![l[0]].drop_last() =~= Seq::<PartView>::empty());
        assert(a =~= run(b, 1, 1) + run(b + 1, 1, 1) + run(b + 2, 1, 1) + run(b + 3, 1, 1));
        assert(a[k] == b + k);
    }
}

/// The list `g` with `v` at the cells that `map` gives the first `n` of `blocks`.
pub open spec fn splat<T>(g: Seq<T>, map: Seq<usize>, blocks: Seq<usize>, n: int, v: T) -> Seq<T>
    decreases n,
{
    if n <= 0 {
        g
    } else {
        splat(g, map, blocks, n - 1, v).update(map[blocks[n - 1] as int] as int, v)
    }
}

/// The motion side of a macroblock while it is coded: all bins so far, the padded caches of
/// differences and references, and what the macroblock exports of both.
pub struct Motion {
    pub bins: Seq<Bin>,
    pub mvdc: Seq<[i16; 2]>,
    pub refc: Seq<i8>,
    pub mmvd: Seq<[i16; 2]>,
    pub mref: Seq<i8>,
}

/// How much the neighbours' differences add up to, component `comp`, at cache cell `s`.
pub open spec fn mvd_sum(m: Motion, s: int, comp: int) -> int {
    (if m.refc[s - 6] >= 0 {
        arith::abs(m.mvdc[s - 6]@[comp] as int)
    } else {
        0
    }) + (if m.refc[s - 1] >= 0 {
        arith::abs(m.mvdc[s - 1]@[comp] as int)
    } else {
        0
    })
}

/// The context step of a difference: 0 below 3, 1 up to 32, else 2.
pub open spec fn mvd_step(sum: int) -> int {
    if sum < 3 {
        0
    } else if sum <= 32 {
        1
    } else {
        2
    }
}

impl Motion {
    /// Code the difference `mvd` of the partition `p` with reference `r`.
    pub open spec fn with_mvd(self, p: PartView, mvd: (i32, i32), r: i8) -> Motion {
        let s = CB_CACHE30[p.idx] as int;
        let v = [mvd.0 as i16, mvd.1 as i16];
        let n = p.blocks.len() as int;
        Motion {
            bins: self.bins + binarize::mvd_bins(0, mvd_step(mvd_sum(self, s, 0)), mvd.0 as int)
                + binarize::mvd_bins(1, mvd_step(mvd_sum(self, s, 1)), mvd.1 as int),
            mvdc: splat(self.mvdc, CB_CACHE30@, p.blocks, n, v),
            refc: splat(self.refc, CB_CACHE30@, p.blocks, n, r),
            mmvd: splat(self.mmvd, CB_G_SCAN4@, p.blocks, n, v),
            mref: splat(self.mref, CB_G_SCAN4@, p.blocks, n, r),
        }
    }

    /// Code the reference `r` of the partition `p`.
    pub open spec fn with_ref(self, p: PartView, r: i32) -> Motion {
        let s = CB_CACHE30[p.idx] as int;
        let ctx = cabac::bit(self.refc[s - 1] > 0) + 2 * cabac::bit(self.refc[s - 6] > 0);
        Motion {
            bins: self.bins + binarize::ref_idx_bins(ctx, r as nat),
            refc: splat(self.refc, CB_CACHE30@, p.blocks, p.blocks.len() as int, r as i8),
            ..self
        }
    }

    /// Code the references of the first `n` partitions.
    pub open spec fn with_refs(self, l: Seq<PartView>, refs: Seq<i32>, n: int) -> Motion
        decreases n,
    {
        if n <= 0 {
            self
        } else {
            self.with_refs(l, refs, n - 1).with_ref(l[n - 1], refs[n - 1])
        }
    }

    /// Code the differences of the first `n` partitions; `mvds` from `k` on.
    pub open spec fn with_mvds(
        self,
        l: Seq<PartView>,
        mvds: Seq<(i32, i32)>,
        k: int,
        refs: spec_fn(int) -> i8,
        n: int,
    ) -> Motion
        decreases n,
    {
        if n <= 0 {
            self
        } else {
            self.with_mvds(l, mvds, k, refs, n - 1).with_mvd(l[n - 1], mvds[k + n - 1], refs(n - 1))
        }
    }

    /// The caches and exports have the sizes they have.
    pub open spec fn sized(self) -> bool {
        self.mvdc.len() == 30 && self.refc.len() == 30 && self.mmvd.len() == 16 && self.mref.len()
            == 16
    }
}

/// The partition's blocks exist and its first block is one of the macroblock.
pub open spec fn part_ok(p: PartView) -> bool {
    &&& 0 <= p.idx < 16
    &&& forall|i: int| 0 <= i < p.blocks.len() ==> #[trigger] p.blocks[i] < 16
}

proof fn lemma_splat_len<T>(g: Seq<T>, map: Seq<usize>, blocks: Seq<usize>, n: int, v: T)
    requires
        n <= blocks.len(),
        forall|i: int| 0 <= i < blocks.len() ==> #[trigger] blocks[i] < 16,
        forall|i: int| 0 <= i < 16 ==> #[trigger] map[i] < g.len(),
    ensures
        splat(g, map, blocks, n, v).len() == g.len(),
    decreases n,
{
    if n > 0 {
        lemma_splat_len(g, map, blocks, n - 1, v);
    }
}

proof fn lemma_maps()
    ensures
        forall|i: int| 0 <= i < 16 ==> 7 <= #[trigger] CB_CACHE30[i] < 30,
        forall|i: int| 0 <= i < 16 ==> #[trigger] CB_G_SCAN4[i] < 16,
{
}

/// The motion state of a macroblock as a mathematical value.
pub open spec fn motion(
    bins: Seq<Bin>,
    mvdc: [[i16; 2]; 30],
    refc: [i8; 30],
    mmvd: [[i16; 2]; 16],
    mref: [i8; 16],
) -> Motion {
    Motion { bins, mvdc: mvdc@, refc: refc@, mmvd: mmvd@, mref: mref@ }
}

fn mvd_ctx(mvdc: &[[i16; 2]; 30], refc: &[i8; 30], s: usize, comp: usize, Ghost(m): Ghost<Motion>) -> (r:
    usize)
    requires
        6 <= s < 30,
        comp < 2,
        m.mvdc == mvdc@,
        m.refc == refc@,
    ensures
        r == mvd_step(mvd_sum(m, s as int, comp as int)),
        r <= 2,
{
    let mut a: u32 = 0;
    if refc[s - 6] >= 0 {
        a = a + abs_i16(mvdc[s - 6][comp]);
    }
    if refc[s - 1] >= 0 {
        a = a + abs_i16(mvdc[s - 1][comp]);
    }
    if a < 3 {
        0
    } else if a <= 32 {
        1
    } else {
        2
    }
}

/// Code one partition's motion-vector difference and put it, with its reference, into the
/// caches and the exports.
pub fn cb_emit_mvd_partition(
    cab: &mut CabacEncoder,
    p: &Part,
    mvdc: &mut [[i16; 2]; 30],
    refc: &mut [i8; 30],
    mmvd: &mut [[i16; 2]; 16],
    mref: &mut [i8; 16],
    mvd: (i32, i32),
    ref_idx: i8,
)
    requires
        part_ok(p@),
    ensures
        motion(final(cab)@, *final(mvdc), *final(refc), *final(mmvd), *final(mref)) == motion(
            old(cab)@,
            *old(mvdc),
            *old(refc),
            *old(mmvd),
            *old(mref),
        ).with_mvd(p@, mvd, ref_idx),
{
    let ghost m0 = motion(cab@, *mvdc, *refc, *mmvd, *mref);
    let s: usize = CB_CACHE30[p.idx];
    proof {
        lemma_maps();
    }
    let c0: usize = mvd_ctx(mvdc, refc, s, 0, Ghost(m0));
    let c1: usize = mvd_ctx(mvdc, refc, s, 1, Ghost(m0));
    cb_mvd(cab, 0, c0, mvd.0);
    cb_mvd(cab, 1, c1, mvd.1);
    #[verifier::truncate]
    let mx: i16 = mvd.0 as i16;
    #[verifier::truncate]
    let my: i16 = mvd.1 as i16;
    let ghost v = [mx, my];
    let mut k: usize = 0;
    while k < p.blocks.len()
        invariant
            k <= p.blocks@.len(),
            part_ok(p@),
            v == [mx, my],
            mvdc@ == splat(old(mvdc)@, CB_CACHE30@, p.blocks@, k as int, v),
            refc@ == splat(old(refc)@, CB_CACHE30@, p.blocks@, k as int, ref_idx),
            mmvd@ == splat(old(mmvd)@, CB_G_SCAN4@, p.blocks@, k as int, v),
            mref@ == splat(old(mref)@, CB_G_SCAN4@, p.blocks@, k as int, ref_idx),
        decreases p.blocks@.len() - k,
    {
        let zb: usize = p.blocks[k];
        assert(p@.blocks[k as int] < 16);
        proof {
            lemma_maps();
        }
        mvdc[CB_CACHE30[zb]] = [mx, my];
        refc[CB_CACHE30[zb]] = ref_idx;
        mmvd[CB_G_SCAN4[zb]] = [mx, my];
        mref[CB_G_SCAN4[zb]] = ref_idx;
        k = k + 1;
    }
    assert(cab@ =~= m0.with_mvd(p@, mvd, ref_idx).bins);
}

/// The cache `old` of one list with the neighbours' exports put in: left column, upper
/// row, upper-left and upper-right corner.
pub open spec fn filled<T>(
    old_cache: Seq<T>,
    exports: spec_fn(int, int) -> T,
    mb_w: int,
    mb_x: int,
    mb_y: int,
) -> Seq<T> {
    let addr = mbcabac::addr_of(mb_w, mb_x, mb_y);
    Seq::new(
        30,
        |c: int|
            if (c == 6 || c == 12 || c == 18 || c == 24) && mb_x > 0 {
                exports(addr - 1, 4 * (c / 6) - 1)
            } else if 1 <= c <= 4 && mb_y > 0 {
                exports(addr - mb_w, 11 + c)
            } else if c == 0 && mb_x > 0 && mb_y > 0 {
                exports(addr - mb_w - 1, 15)
            } else if c == 5 && mb_y > 0 && mb_x + 1 < mb_w {
                exports(addr - mb_w + 1, 12)
            } else {
                old_cache[c]
            },
    )
}

/// Fill one list's motion cache from what the neighbours export.
pub fn cb_fill_inter_cache(
    mb_ref: &Vec<[i8; 16]>,
    mb_mvd: &Vec<[[i16; 2]; 16]>,
    refc: &mut [i8; 30],
    mvdc: &mut [[i16; 2]; 30],
    mb_x: usize,
    mb_y: usize,
    mb_w: usize,
    mb_h: usize,
)
    requires
        mb_x < mb_w,
        mb_y < mb_h,
        mb_ref@.len() == mb_w * mb_h,
        mb_mvd@.len() == mb_w * mb_h,
    ensures
        final(refc)@ == filled(
            old(refc)@,
            |a: int, i: int| mb_ref@[a]@[i],
            mb_w as int,
            mb_x as int,
            mb_y as int,
        ),
        final(mvdc)@ == filled(
            old(mvdc)@,
            |a: int, i: int| mb_mvd@[a]@[i],
            mb_w as int,
            mb_x as int,
            mb_y as int,
        ),
{
    assert(mb_ref.len() == mb_w * mb_h);
    let (addr, top, left): (usize, Option<usize>, Option<usize>) = neighbours(
        mb_w,
        mb_h,
        mb_x,
        mb_y,
    );
    if let Some(l) = left {
        refc[6] = mb_ref[l][3];
        mvdc[6] = mb_mvd[l][3];
        refc[12] = mb_ref[l][7];
        mvdc[12] = mb_mvd[l][7];
        refc[18] = mb_ref[l][11];
        mvdc[18] = mb_mvd[l][11];
        refc[24] = mb_ref[l][15];
        mvdc[24] = mb_mvd[l][15];
    }
    if let Some(t) = top {
        refc[1] = mb_ref[t][12];
        mvdc[1] = mb_mvd[t][12];
        refc[2] = mb_ref[t][13];
        mvdc[2] = mb_mvd[t][13];
        refc[3] = mb_ref[t][14];
        mvdc[3] = mb_mvd[t][14];
        refc[4] = mb_ref[t][15];
        mvdc[4] = mb_mvd[t][15];
    }
    proof {
        if mb_y > 0 {
            assert(mb_y * mb_w == (mb_y - 1) * mb_w + mb_w) by (nonlinear_arith);
            assert((mb_y - 1) * mb_w >= 0) by (nonlinear_arith)
                requires
                    mb_y >= 1,
                    mb_w >= 0,
            ;
        }
    }
    if mb_x > 0 && mb_y > 0 {
        let a: usize = addr - mb_w - 1;
        refc[0] = mb_ref[a][15];
        mvdc[0] = mb_mvd[a][15];
    }
    if mb_y > 0 && mb_x + 1 < mb_w {
        let a: usize = addr - mb_w + 1;
        refc[5] = mb_ref[a][12];
        mvdc[5] = mb_mvd[a][12];
    }
    let ghost er = |a: int, i: int| mb_ref@[a]@[i];
    let ghost em = |a: int, i: int| mb_mvd@[a]@[i];
    assert(refc@ =~= filled(old(refc)@, er, mb_w as int, mb_x as int, mb_y as int));
    assert(mvdc@ =~= filled(old(mvdc)@, em, mb_w as int, mb_x as int, mb_y as int));
}

/// The residual side of an inter macroblock: pattern, transform flag (where luma is coded,
/// the stream allows it and no partition is smaller than 8x8), and, if the pattern is not
/// zero, QP step, luma and chroma. A flag that is not coded counts as zero afterwards.
pub open spec fn inter_code(
    fe: FrameEncoder,
    cs: CabacState,
    p: InterPlan,
    allow8: bool,
    mb_x: int,
    mb_y: int,
) -> MbCode {
    let w = fe.mb_w as int;
    let nzc0 = mbcabac::cache0(cs, w, mb_x, mb_y);
    let ndc = mbcabac::dc_masks(cs, w, mb_x, mb_y);
    let cbp = p.cbp as int;
    let present = cbp % 16 > 0 && fe.transform_8x8 && allow8;
    let delta = fe.qp - fe.cur_qp;
    let luma = mbcabac::luma_blocks(p.q_blocks@, cbp % 16, false);
    let nzc1 = if p.t8x8 {
        mbcabac::eight_put(nzc0, p.q8@, cbp % 16, 4)
    } else {
        luma.put(nzc0, 0, 16)
    };
    let head = mbcabac::mb_cbp_bins(cs, w, mb_x, mb_y, cbp) + (if present {
        seq![Bin::dec(399 + mbcabac::t8_ctx(cs, w, mb_x, mb_y), cabac::bit(p.t8x8))]
    } else {
        Seq::empty()
    });
    if cbp == 0 {
        MbCode {
            bins: head,
            nzc: nzc0,
            mask: 0,
            cbp,
            t8: present && p.t8x8,
            delta: None,
            totals: |z: int| 0u8,
        }
    } else {
        MbCode {
            bins: head + binarize::qp_delta_bins(cs.last_delta_qp as int, delta) + (if p.t8x8 {
                mbcabac::eight_bins(p.q8@, cbp % 16, 4)
            } else {
                luma.bins(nzc0, 0, 16, false, ndc)
            }) + mbcabac::chroma_res_bins(
                nzc1,
                ndc,
                false,
                cbp / 16,
                p.c_dc_levels@,
                p.c_q@,
            ),
            nzc: mbcabac::chroma_nzc(nzc1, cbp / 16, p.c_q@),
            mask: mbcabac::chroma_dc_mask(0, cbp / 16, p.c_dc_levels@),
            cbp,
            t8: present && p.t8x8,
            delta: Some(delta),
            totals: if p.t8x8 {
                |z: int| mbcabac::eight_total(p.q8@, cbp % 16, z / 4)
            } else {
                |z: int| luma.total(z)
            },
        }
    }
}

/// Nothing of the neighbour state that the residual does not touch has changed.
pub open spec fn rest_kept(cs0: CabacState, cs1: CabacState) -> bool {
    &&& cs1.cmode == cs0.cmode
    &&& cs1.cat == cs0.cat
    &&& cs1.mb_mvd == cs0.mb_mvd
    &&& cs1.mb_ref == cs0.mb_ref
    &&& cs1.mb_mvd1 == cs0.mb_mvd1
    &&& cs1.mb_ref1 == cs0.mb_ref1
    &&& cs1.mb_skip == cs0.mb_skip
    &&& cs1.mb_direct == cs0.mb_direct
}

/// Code the pattern and the residual of an inter macroblock.
#[verifier::rlimit(40)]
pub fn cb_emit_inter_residual(
    fe: &mut FrameEncoder,
    cab: &mut CabacEncoder,
    cs: &mut CabacState,
    p: &InterPlan,
    mb_x: usize,
    mb_y: usize,
    allow8: bool,
)
    requires
        old(fe).wf(),
        old(fe).has_mb(mb_x as int, mb_y as int),
        old(cs).wf(old(fe).mb_w * old(fe).mb_h),
        p.wf(),
    ensures
        ({
            let c = inter_code(*old(fe), *old(cs), *p, allow8, mb_x as int, mb_y as int);
            &&& final(cab)@ == old(cab)@ + c.bins
            &&& c.committed(
                p.c_q@,
                *old(fe),
                *final(fe),
                *old(cs),
                *final(cs),
                mb_x as int,
                mb_y as int,
            )
        }),
        rest_kept(*old(cs), *final(cs)),
        final(fe).wf(),
        final(cs).wf(old(fe).mb_w * old(fe).mb_h),
{
    let ghost c = inter_code(*old(fe), *old(cs), *p, allow8, mb_x as int, mb_y as int);
    assert(fe.mb_skip_sad.len() == fe.mb_w * fe.mb_h);
    let (addr, top, left): (usize, Option<usize>, Option<usize>) = neighbours(
        fe.mb_w,
        fe.mb_h,
        mb_x,
        mb_y,
    );
    let cbp: u32 = p.cbp;
    let cbp_luma: u32 = cbp % 16;
    let cbp_chroma: u32 = cbp / 16;
    cb_cbp(cab, get_u8(&cs.mb_cbp, top), get_u8(&cs.mb_cbp, left), cbp);
    cs.mb_cbp[addr] = cbp as u8;
    let present: bool = cbp_luma > 0 && fe.transform_8x8 && allow8;
    if present {
        let t8: usize = count_flag(&cs.mb_t8x8, top, left, true);
        cab.encode_decision(399 + t8, if p.t8x8 { 1 } else { 0 });
    }
    let ghost w = old(fe).mb_w as int;
    let ghost head = mbcabac::mb_cbp_bins(*old(cs), w, mb_x as int, mb_y as int, cbp as int) + (
    if present {
        seq![
            Bin::dec(
                399 + mbcabac::t8_ctx(*old(cs), w, mb_x as int, mb_y as int),
                cabac::bit(p.t8x8),
            ),
        ]
    } else {
        Seq::empty()
    });
    assert(cab@ =~= old(cab)@ + head);
    cs.mb_t8x8[addr] = present && p.t8x8;
    let mut nzc: [u8; 48] = cb_build_nzc(&cs.mb_nzc, top, left);
    let mut cbfdc: u16 = 0;
    let ndc: (Option<u16>, Option<u16>) = (get_u16(&cs.cbf_dc, top), get_u16(&cs.cbf_dc, left));
    if cbp == 0 {
        cs.last_delta_qp = 0;
        clear_luma_counts(fe, mb_x, mb_y);
        assert(c.bins == head);
    } else {
        let delta: i32 = fe.qp_delta();
        cb_mb_qp_delta(cab, &mut cs.last_delta_qp, delta);
        if p.t8x8 {
            cb_luma_eight(
                fe,
                cab,
                &mut nzc,
                &mut cbfdc,
                ndc,
                false,
                &p.q8,
                cbp_luma,
                mb_x,
                mb_y,
            );
        } else {
            cb_luma_blocks(
                fe,
                cab,
                &mut nzc,
                &mut cbfdc,
                ndc,
                false,
                &p.q_blocks,
                cbp_luma,
                false,
                mb_x,
                mb_y,
            );
        }
        cb_emit_chroma_residual(
            cab,
            fe,
            &mut nzc,
            &mut cbfdc,
            ndc,
            false,
            cbp_chroma,
            &p.c_dc_levels,
            &p.c_q,
            mb_x,
            mb_y,
        );
        assert(cab@ =~= old(cab)@ + c.bins);
    }
    cs.cbf_dc[addr] = cbfdc;
    cs.mb_nzc[addr] = cb_export_nzc(&nzc);
}

/// The motion state before a macroblock of list 0 (or list 1 with `second`), behind the
/// bins `bins`, with the references of its own blocks at `own`.
pub open spec fn motion0(
    bins: Seq<Bin>,
    cs: CabacState,
    second: bool,
    own: i8,
    mb_w: int,
    mb_x: int,
    mb_y: int,
) -> Motion {
    Motion {
        bins,
        mvdc: filled(
            Seq::new(30, |c: int| [0i16, 0i16]),
            |a: int, i: int|
                if second {
                    cs.mb_mvd1@[a]@[i]
                } else {
                    cs.mb_mvd@[a]@[i]
                },
            mb_w,
            mb_x,
            mb_y,
        ),
        refc: filled(
            Seq::new(30, |c: int| -1i8),
            |a: int, i: int|
                if second {
                    cs.mb_ref1@[a]@[i]
                } else {
                    cs.mb_ref@[a]@[i]
                },
            mb_w,
            mb_x,
            mb_y,
        ),
        mmvd: Seq::new(16, |c: int| [0i16, 0i16]),
        mref: Seq::new(16, |c: int| own),
    }
}

/// How many differences the first `n` quarters with these types have.
pub open spec fn sub_count(sub_types: Seq<u8>, n: int) -> int
    decreases n,
{
    if n <= 0 {
        0
    } else {
        sub_count(sub_types, n - 1) + p_sub_layout(n - 1, sub_types[n - 1] as int).len()
    }
}

/// The differences of the first `n` quarters, each cut into its sub-partitions.
pub open spec fn with_quarters(m: Motion, p: InterPlan, n: int) -> Motion
    decreases n,
{
    if n <= 0 {
        m
    } else {
        let l = p_sub_layout(n - 1, p.sub_types@[n - 1] as int);
        with_quarters(m, p, n - 1).with_mvds(
            l,
            p.mvds@,
            sub_count(p.sub_types@, n - 1),
            |i: int| p.plan_refs@[n - 1] as i8,
            l.len() as int,
        )
    }
}

/// A quarter is cut into sub-partitions.
pub open spec fn has_sub(sub_types: Seq<u8>) -> bool {
    sub_types[0] != 0 || sub_types[1] != 0 || sub_types[2] != 0 || sub_types[3] != 0
}

/// The motion of a P macroblock: all references first, where there is more than one, then
/// all differences.
pub open spec fn p_motion(m: Motion, p: InterPlan, mode: int, num_refs: int) -> Motion {
    let l = p_layout(mode);
    let m1 = if num_refs > 1 {
        m.with_refs(l, p.plan_refs@, l.len() as int)
    } else {
        m
    };
    if mode == 3 && has_sub(p.sub_types@) {
        with_quarters(m1, p, 4)
    } else {
        m1.with_mvds(l, p.mvds@, 0, |i: int| p.plan_refs@[i] as i8, l.len() as int)
    }
}

/// The type of a P macroblock, with the four sub-types of an 8x8 one.
pub open spec fn p_type_bins(mode: int, sub_types: Seq<u8>) -> Seq<Bin> {
    binarize::mb_type_p_bins(mode) + (if mode == 3 {
        binarize::sub_type_p_bins(sub_types[0] as int) + binarize::sub_type_p_bins(
            sub_types[1] as int,
        ) + binarize::sub_type_p_bins(sub_types[2] as int) + binarize::sub_type_p_bins(
            sub_types[3] as int,
        )
    } else {
        Seq::empty()
    })
}

proof fn lemma_layout_ok(mode: int, i: int)
    requires
        0 <= i < p_layout(mode).len(),
    ensures
        part_ok(p_layout(mode)[i]),
        p_layout(mode).len() <= 4,
{
}

proof fn lemma_sub_layout_ok(p8: int, sub_type: int, i: int)
    requires
        0 <= p8 < 4,
        0 <= i < p_sub_layout(p8, sub_type).len(),
    ensures
        part_ok(p_sub_layout(p8, sub_type)[i]),
        p_sub_layout(p8, sub_type).len() <= 4,
{
}

/// Code the references of all partitions.
fn cb_emit_refs(
    cab: &mut CabacEncoder,
    layout: &Vec<Part>,
    refc: &mut [i8; 30],
    plan_refs: &[i32; 4],
    Ghost(m0): Ghost<Motion>,
)
    requires
        layout@.len() <= 4,
        forall|i: int| 0 <= i < layout@.len() ==> part_ok(#[trigger] layout@[i]@),
        forall|i: int| 0 <= i < 4 ==> 0 <= #[trigger] plan_refs@[i] <= 127,
        m0.bins == old(cab)@,
        m0.refc == old(refc)@,
    ensures
        ({
            let m = m0.with_refs(part_views(layout@), plan_refs@, layout@.len() as int);
            &&& final(cab)@ == m.bins
            &&& final(refc)@ == m.refc
            &&& m.mvdc == m0.mvdc
            &&& m.mmvd == m0.mmvd
            &&& m.mref == m0.mref
        }),
{
    let ghost l = part_views(layout@);
    let mut part: usize = 0;
    while part < layout.len()
        invariant
            part <= layout@.len(),
            layout@.len() <= 4,
            l == part_views(layout@),
            forall|i: int| 0 <= i < layout@.len() ==> part_ok(#[trigger] layout@[i]@),
            forall|i: int| 0 <= i < 4 ==> 0 <= #[trigger] plan_refs@[i] <= 127,
            cab@ == m0.with_refs(l, plan_refs@, part as int).bins,
            refc@ == m0.with_refs(l, plan_refs@, part as int).refc,
            m0.with_refs(l, plan_refs@, part as int).mvdc == m0.mvdc,
            m0.with_refs(l, plan_refs@, part as int).mmvd == m0.mmvd,
            m0.with_refs(l, plan_refs@, part as int).mref == m0.mref,
        decreases layout@.len() - part,
    {
        let ghost m = m0.with_refs(l, plan_refs@, part as int);
        let p: &Part = &layout[part];
        assert(part_ok(layout@[part as int]@));
        assert(l[part as int] == p@);
        let r: i32 = plan_refs[part];
        proof {
            lemma_maps();
        }
        let s: usize = CB_CACHE30[p.idx];
        let ctx0: usize = bit_usize(refc[s - 1] > 0) + 2 * bit_usize(refc[s - 6] > 0);
        cb_ref_idx(cab, ctx0, r as u32);
        let ghost before = refc@;
        let mut k: usize = 0;
        while k < p.blocks.len()
            invariant
                k <= p.blocks@.len(),
                part_ok(p@),
                refc@ == splat(before, CB_CACHE30@, p.blocks@, k as int, r as i8),
            decreases p.blocks@.len() - k,
        {
            let zb: usize = p.blocks[k];
            assert(p@.blocks[k as int] < 16);
            proof {
                lemma_maps();
            }
            refc[CB_CACHE30[zb]] = r as i8;
            k = k + 1;
        }
        assert(m0.with_refs(l, plan_refs@, part + 1) == m.with_ref(p@, r));
        part = part + 1;
    }
}

/// Code the differences of a list of partitions that share a reference rule: partition `i`
/// has the reference `refs[i]`, or `refs[fixed]` if `fixed` is below 4.
fn cb_emit_mvds(
    cab: &mut CabacEncoder,
    layout: &Vec<Part>,
    mvdc: &mut [[i16; 2]; 30],
    refc: &mut [i8; 30],
    mmvd: &mut [[i16; 2]; 16],
    mref: &mut [i8; 16],
    mvds: &[(i32, i32); 16],
    first: usize,
    refs: &[i32; 4],
    fixed: usize,
    Ghost(rule): Ghost<spec_fn(int) -> i8>,
)
    requires
        layout@.len() <= 4,
        first + layout@.len() <= 16,
        forall|i: int| 0 <= i < layout@.len() ==> part_ok(#[trigger] layout@[i]@),
        forall|i: int|
            0 <= i < layout@.len() ==> #[trigger] rule(i) == (if fixed < 4 {
                refs@[fixed as int] as i8
            } else {
                refs@[i] as i8
            }),
    ensures
        motion(final(cab)@, *final(mvdc), *final(refc), *final(mmvd), *final(mref)) == motion(
            old(cab)@,
            *old(mvdc),
            *old(refc),
            *old(mmvd),
            *old(mref),
        ).with_mvds(
            part_views(layout@),
            mvds@,
            first as int,
            rule,
            layout@.len() as int,
        ),
{
    let ghost m0 = motion(cab@, *mvdc, *refc, *mmvd, *mref);
    let ghost l = part_views(layout@);
    let mut i: usize = 0;
    while i < layout.len()
        invariant
            i <= layout@.len(),
            layout@.len() <= 4,
            first + layout@.len() <= 16,
            l == part_views(layout@),
            forall|i: int| 0 <= i < layout@.len() ==> part_ok(#[trigger] layout@[i]@),
            forall|i: int|
                0 <= i < layout@.len() ==> #[trigger] rule(i) == (if fixed < 4 {
                    refs@[fixed as int] as i8
                } else {
                    refs@[i] as i8
                }),
            motion(cab@, *mvdc, *refc, *mmvd, *mref) == m0.with_mvds(
                l,
                mvds@,
                first as int,
                rule,
                i as int,
            ),
        decreases layout@.len() - i,
    {
        let p: &Part = &layout[i];
        assert(part_ok(layout@[i as int]@));
        assert(l[i as int] == p@);
        #[verifier::truncate]
        let r: i8 = if fixed < 4 {
            refs[fixed] as i8
        } else {
            refs[i] as i8
        };
        assert(r == rule(i as int));
        cb_emit_mvd_partition(cab, p, mvdc, refc, mmvd, mref, mvds[first + i], r);
        i = i + 1;
    }
}

/// Code the type of a P macroblock.
fn cb_p_type(cab: &mut CabacEncoder, mode: u8, sub_types: &[u8; 4])
    requires
        forall|i: int| 0 <= i < 4 ==> #[trigger] sub_types@[i] <= 3,
    ensures
        final(cab)@ == old(cab)@ + p_type_bins(mode as int, sub_types@),
{
    cb_mb_type_p_inter(cab, mode);
    if mode == 3 {
        assert(sub_types@[0] <= 3 && sub_types@[1] <= 3 && sub_types@[2] <= 3 && sub_types@[3] <= 3);
        cb_sub_mb_type_p(cab, sub_types[0]);
        cb_sub_mb_type_p(cab, sub_types[1]);
        cb_sub_mb_type_p(cab, sub_types[2]);
        cb_sub_mb_type_p(cab, sub_types[3]);
    }
    proof {
        lemma_five(
            old(cab)@,
            binarize::mb_type_p_bins(mode as int),
            binarize::sub_type_p_bins(sub_types@[0] as int),
            binarize::sub_type_p_bins(sub_types@[1] as int),
            binarize::sub_type_p_bins(sub_types@[2] as int),
            binarize::sub_type_p_bins(sub_types@[3] as int),
        );
    }
}

proof fn lemma_five(
    x: Seq<Bin>,
    a: Seq<Bin>,
    b: Seq<Bin>,
    c: Seq<Bin>,
    d: Seq<Bin>,
    e: Seq<Bin>,
)
    ensures
        x + a + b + c + d + e == x + (a + (b + c + d + e)),
        x + a == x + (a + Seq::<Bin>::empty()),
{
    assert(x + a + b + c + d + e =~= x + (a + (b + c + d + e)));
    assert(x + a =~= x + (a + Seq::<Bin>::empty()));
}

/// Code the motion of a P macroblock and return what it exports.
#[verifier::rlimit(50)]
fn cb_p_motion(
    cab: &mut CabacEncoder,
    cs: &CabacState,
    p: &InterPlan,
    mode: u8,
    num_refs: usize,
    mb_w: usize,
    mb_h: usize,
    mb_x: usize,
    mb_y: usize,
) -> (r: ([[i16; 2]; 16], [i8; 16]))
    requires
        p.wf(),
        mode <= 3,
        mb_x < mb_w,
        mb_y < mb_h,
        cs.wf(mb_w * mb_h),
    ensures
        ({
            let m = p_motion(
                motion0(old(cab)@, *cs, false, 0, mb_w as int, mb_x as int, mb_y as int),
                *p,
                mode as int,
                num_refs as int,
            );
            &&& final(cab)@ == m.bins
            &&& r.0@ == m.mmvd
            &&& r.1@ == m.mref
        }),
{
    let mut mvdc: [[i16; 2]; 30] = [[0i16; 2]; 30];
    let mut refc: [i8; 30] = [-1i8; 30];
    let mut mmvd: [[i16; 2]; 16] = [[0i16; 2]; 16];
    let mut mref: [i8; 16] = [0i8; 16];
    let ghost z30 = Seq::new(30, |c: int| [0i16, 0i16]);
    let ghost m0 = motion0(old(cab)@, *cs, false, 0, mb_w as int, mb_x as int, mb_y as int);
    assert forall|c: int| 0 <= c < 30 implies #[trigger] mvdc@[c] == [0i16, 0i16] by {
        assert(mvdc@[c] =~= [0i16, 0i16]);
    }
    assert forall|c: int| 0 <= c < 16 implies #[trigger] mmvd@[c] == [0i16, 0i16] by {
        assert(mmvd@[c] =~= [0i16, 0i16]);
    }
    assert(mvdc@ =~= z30);
    assert(refc@ =~= Seq::new(30, |c: int| -1i8));
    cb_fill_inter_cache(&cs.mb_ref, &cs.mb_mvd, &mut refc, &mut mvdc, mb_x, mb_y, mb_w, mb_h);
    assert(mvdc@ =~= m0.mvdc);
    assert(refc@ =~= m0.refc);
    assert(mmvd@ =~= m0.mmvd);
    assert(mref@ =~= m0.mref);
    let layout: Vec<Part> = p_partition_layout(mode);
    let ghost l = p_layout(mode as int);
    proof {
        assert forall|i: int| 0 <= i < layout@.len() implies part_ok(#[trigger] layout@[i]@) by {
            lemma_layout_ok(mode as int, i);
            assert(part_views(layout@)[i] == l[i]);
        }
        lemma_layout_ok(mode as int, 0);
        assert(layout@.len() == part_views(layout@).len());
    }
    if num_refs > 1 {
        cb_emit_refs(cab, &layout, &mut refc, &p.plan_refs, Ghost(m0));
    }
    let ghost m1 = motion(cab@, mvdc, refc, mmvd, mref);
    assert(m1 == if num_refs > 1 {
        m0.with_refs(l, p.plan_refs@, l.len() as int)
    } else {
        m0
    });
    if mode == 3 && (p.sub_types[0] != 0 || p.sub_types[1] != 0 || p.sub_types[2] != 0
        || p.sub_types[3] != 0) {
        let mut k: usize = 0;
        let mut p8: usize = 0;
        while p8 < 4
            invariant
                p8 <= 4,
                p.wf(),
                k == sub_count(p.sub_types@, p8 as int),
                k <= 4 * p8,
                motion(cab@, mvdc, refc, mmvd, mref) == with_quarters(m1, *p, p8 as int),
            decreases 4 - p8,
        {
            assert(p.sub_types@[p8 as int] <= 3);
            let sub: Vec<Part> = p_sub_partition_layout(p8, p.sub_types[p8]);
            let ghost sl = p_sub_layout(p8 as int, p.sub_types@[p8 as int] as int);
            proof {
                assert forall|i: int| 0 <= i < sub@.len() implies part_ok(
                    #[trigger] sub@[i]@,
                ) by {
                    lemma_sub_layout_ok(p8 as int, p.sub_types@[p8 as int] as int, i);
                    assert(part_views(sub@)[i] == sl[i]);
                }
                lemma_sub_layout_ok(p8 as int, p.sub_types@[p8 as int] as int, 0);
                assert(sub@.len() == part_views(sub@).len());
            }
            let ghost rule = |i: int| p.plan_refs@[p8 as int] as i8;
            let ghost before = motion(cab@, mvdc, refc, mmvd, mref);
            cb_emit_mvds(
                cab,
                &sub,
                &mut mvdc,
                &mut refc,
                &mut mmvd,
                &mut mref,
                &p.mvds,
                k,
                &p.plan_refs,
                p8,
                Ghost(rule),
            );
            proof {
                let q = |i: int| p.plan_refs@[p8 + 1 - 1] as i8;
                assert(rule =~= q);
            }
            k = k + sub.len();
            p8 = p8 + 1;
        }
    } else {
        let ghost rule = |i: int| p.plan_refs@[i] as i8;
        cb_emit_mvds(
            cab,
            &layout,
            &mut mvdc,
            &mut refc,
            &mut mmvd,
            &mut mref,
            &p.mvds,
            0,
            &p.plan_refs,
            4,
            Ghost(rule),
        );
    }
    (mmvd, mref)
}

/// An inter macroblock of a P slice is coded: the bins, the frame and the neighbour state.
pub open spec fn p_inter_coded(
    fe0: FrameEncoder,
    fe1: FrameEncoder,
    b0: Seq<Bin>,
    b1: Seq<Bin>,
    cs0: CabacState,
    cs1: CabacState,
    mode: u8,
    p: InterPlan,
    mb_x: int,
    mb_y: int,
    num_refs: usize,
) -> bool {
    &&& ({
        let w = fe0.mb_w as int;
        let addr = mbcabac::addr_of(w, mb_x, mb_y);
        let m = p_motion(
            motion0(
                b0 + p_type_bins(mode as int, p.sub_types@),
                cs0,
                false,
                0,
                w,
                mb_x,
                mb_y,
            ),
            p,
            mode as int,
            num_refs as int,
        );
        let c = inter_code(
            fe0,
            cs0,
            p,
            !has_sub(p.sub_types@),
            mb_x,
            mb_y,
        );
        &&& b1 == m.bins + c.bins
        &&& c.committed(
            p.c_q@,
            fe0,
            fe1,
            cs0,
            cs1,
            mb_x,
            mb_y,
        )
        &&& cs1.mb_mvd@ == cs0.mb_mvd@.update(addr, cs1.mb_mvd@[addr])
        &&& cs1.mb_mvd@[addr]@ == m.mmvd
        &&& cs1.mb_ref@ == cs0.mb_ref@.update(addr, cs1.mb_ref@[addr])
        &&& cs1.mb_ref@[addr]@ == m.mref
        &&& cs1.cat@ == cs0.cat@.update(addr, 100u8)
    })
    &&& cs1.cmode == cs0.cmode
    &&& cs1.mb_mvd1 == cs0.mb_mvd1
    &&& cs1.mb_ref1 == cs0.mb_ref1
    &&& cs1.mb_skip == cs0.mb_skip
    &&& cs1.mb_direct == cs0.mb_direct
}

/// Code an inter macroblock of a P slice, behind its skip flag.
pub fn emit_mb_cabac_p_inter(
    fe: &mut FrameEncoder,
    cab: &mut CabacEncoder,
    cs: &mut CabacState,
    mode: u8,
    p: &InterPlan,
    mb_x: usize,
    mb_y: usize,
    num_refs: usize,
)
    requires
        old(fe).wf(),
        old(fe).has_mb(mb_x as int, mb_y as int),
        old(cs).wf(old(fe).mb_w * old(fe).mb_h),
        p.wf(),
        mode <= 3,
    ensures
        p_inter_coded(
            *old(fe),
            *final(fe),
            old(cab)@,
            final(cab)@,
            *old(cs),
            *final(cs),
            mode,
            *p,
            mb_x as int,
            mb_y as int,
            num_refs,
        ),
        final(fe).wf(),
        final(cs).wf(old(fe).mb_w * old(fe).mb_h),
{
    assert(fe.mb_skip_sad.len() == fe.mb_w * fe.mb_h);
    let (addr, top, left): (usize, Option<usize>, Option<usize>) = neighbours(
        fe.mb_w,
        fe.mb_h,
        mb_x,
        mb_y,
    );
    cb_p_type(cab, mode, &p.sub_types);
    let (mmvd, mref): ([[i16; 2]; 16], [i8; 16]) = cb_p_motion(
        cab,
        cs,
        p,
        mode,
        num_refs,
        fe.mb_w,
        fe.mb_h,
        mb_x,
        mb_y,
    );
    cs.mb_mvd[addr] = mmvd;
    cs.mb_ref[addr] = mref;
    cs.cat[addr] = 100;
    let allow8: bool = p.sub_types[0] == 0 && p.sub_types[1] == 0 && p.sub_types[2] == 0
        && p.sub_types[3] == 0;
    cb_emit_inter_residual(fe, cab, cs, p, mb_x, mb_y, allow8);
}

/// The skip-flag step of a macroblock: how many neighbours are there and not skipped.
pub open spec fn skip_ctx(cs: CabacState, w: int, mb_x: int, mb_y: int) -> int {
    mbcabac::clear_ctx(
        cs.mb_skip@,
        mbcabac::top_of(w, mb_x, mb_y),
        mbcabac::left_of(w, mb_x, mb_y),
    )
}

/// Code the skip flag of a macroblock that is not skipped; `base` is 11 in P and 24 in B
/// slices.
pub fn emit_no_skip_cabac(
    cab: &mut CabacEncoder,
    cs: &CabacState,
    base: usize,
    mb_w: usize,
    mb_h: usize,
    mb_x: usize,
    mb_y: usize,
)
    requires
        mb_x < mb_w,
        mb_y < mb_h,
        cs.wf(mb_w * mb_h),
        base <= 1000,
    ensures
        final(cab)@ == old(cab)@.push(
            Bin::dec(base + skip_ctx(*cs, mb_w as int, mb_x as int, mb_y as int), 0),
        ),
{
    assert(cs.mb_skip.len() == mb_w * mb_h);
    let (addr, top, left): (usize, Option<usize>, Option<usize>) = neighbours(
        mb_w,
        mb_h,
        mb_x,
        mb_y,
    );
    let ctx: usize = count_flag(&cs.mb_skip, top, left, false);
    cb_mb_skip(cab, base + ctx, false);
}

/// A skipped macroblock of a P slice is coded.
pub open spec fn p_skip_coded(
    b0: Seq<Bin>,
    b1: Seq<Bin>,
    cs0: CabacState,
    cs1: CabacState,
    mb_w: int,
    mb_x: int,
    mb_y: int,
) -> bool {
    &&& b1 == b0.push(
        Bin::dec(11 + skip_ctx(cs0, mb_w as int, mb_x, mb_y), 1),
    )
    &&& ({
        let addr = mbcabac::addr_of(mb_w as int, mb_x, mb_y);
        cs1 == (CabacState {
            mb_skip: cs1.mb_skip,
            cat: cs1.cat,
            last_delta_qp: 0,
            ..cs0
        }) && cs1.mb_skip@ == cs0.mb_skip@.update(addr, true) && cs1.cat@
            == cs0.cat@.update(addr, 100u8)
    })
}

/// Code a skipped macroblock of a P slice. Its motion export keeps the value it had, so it
/// adds nothing to a later difference's context.
pub fn emit_p_skip_cabac(
    cab: &mut CabacEncoder,
    cs: &mut CabacState,
    mb_w: usize,
    mb_h: usize,
    mb_x: usize,
    mb_y: usize,
)
    requires
        mb_x < mb_w,
        mb_y < mb_h,
        old(cs).wf(mb_w * mb_h),
    ensures
        p_skip_coded(
            old(cab)@,
            final(cab)@,
            *old(cs),
            *final(cs),
            mb_w as int,
            mb_x as int,
            mb_y as int,
        ),
        final(cs).wf(mb_w * mb_h),
{
    assert(cs.mb_skip.len() == mb_w * mb_h);
    let (addr, top, left): (usize, Option<usize>, Option<usize>) = neighbours(
        mb_w,
        mb_h,
        mb_x,
        mb_y,
    );
    let ctx: usize = count_flag(&cs.mb_skip, top, left, false);
    cb_mb_skip(cab, 11 + ctx, true);
    cs.mb_skip[addr] = true;
    cs.cat[addr] = 100;
    cs.last_delta_qp = 0;
}

/// A skipped macroblock of a B slice is coded.
pub open spec fn b_skip_coded(
    b0: Seq<Bin>,
    b1: Seq<Bin>,
    cs0: CabacState,
    cs1: CabacState,
    mb_w: int,
    mb_x: int,
    mb_y: int,
) -> bool {
    &&& b1 == b0.push(
        Bin::dec(24 + skip_ctx(cs0, mb_w as int, mb_x, mb_y), 1),
    )
    &&& ({
        let addr = mbcabac::addr_of(mb_w as int, mb_x, mb_y);
        &&& cs1 == (CabacState {
            mb_skip: cs1.mb_skip,
            cat: cs1.cat,
            mb_direct: cs1.mb_direct,
            mb_ref: cs1.mb_ref,
            mb_ref1: cs1.mb_ref1,
            last_delta_qp: 0,
            ..cs0
        })
        &&& cs1.mb_skip@ == cs0.mb_skip@.update(addr, true)
        &&& cs1.cat@ == cs0.cat@.update(addr, 100u8)
        &&& cs1.mb_direct@ == cs0.mb_direct@.update(addr, true)
        &&& cs1.mb_ref@ == cs0.mb_ref@.update(addr, cs1.mb_ref@[addr])
        &&& cs1.mb_ref@[addr]@ == Seq::new(16, |i: int| 0i8)
        &&& cs1.mb_ref1@ == cs0.mb_ref1@.update(addr, cs1.mb_ref1@[addr])
        &&& cs1.mb_ref1@[addr]@ == Seq::new(16, |i: int| 0i8)
    })
}

/// Code a skipped macroblock of a B slice: direct motion, reference 0 in both lists.
pub fn emit_b_skip_cabac(
    cab: &mut CabacEncoder,
    cs: &mut CabacState,
    mb_w: usize,
    mb_h: usize,
    mb_x: usize,
    mb_y: usize,
)
    requires
        mb_x < mb_w,
        mb_y < mb_h,
        old(cs).wf(mb_w * mb_h),
    ensures
        b_skip_coded(
            old(cab)@,
            final(cab)@,
            *old(cs),
            *final(cs),
            mb_w as int,
            mb_x as int,
            mb_y as int,
        ),
        final(cs).wf(mb_w * mb_h),
{
    assert(cs.mb_skip.len() == mb_w * mb_h);
    let (addr, top, left): (usize, Option<usize>, Option<usize>) = neighbours(
        mb_w,
        mb_h,
        mb_x,
        mb_y,
    );
    let ctx: usize = count_flag(&cs.mb_skip, top, left, false);
    cb_mb_skip(cab, 24 + ctx, true);
    cs.mb_skip[addr] = true;
    cs.cat[addr] = 100;
    cs.mb_direct[addr] = true;
    cs.mb_ref[addr] = [0i8; 16];
    cs.mb_ref1[addr] = [0i8; 16];
    cs.last_delta_qp = 0;
    assert(cs.mb_ref@[addr as int]@ =~= Seq::new(16, |i: int| 0i8));
    assert(cs.mb_ref1@[addr as int]@ =~= Seq::new(16, |i: int| 0i8));
}

/// The rectangles of the two partitions of a B macroblock: 16x8 with `mvmode` 1, else 8x16.
pub open spec fn b_rects(mvmode: int) -> Seq<(usize, usize, usize, usize)> {
    if mvmode == 1 {
        seq![(0usize, 0usize, 16usize, 8usize), (0usize, 8usize, 16usize, 8usize)]
    } else {
        seq![(0usize, 0usize, 8usize, 16usize), (8usize, 0usize, 8usize, 16usize)]
    }
}

/// The blocks of the two partitions of a B macroblock.
pub open spec fn b_layout(mvmode: int) -> Seq<PartView> {
    p_layout(
        if mvmode == 1 {
            1
        } else {
            2
        },
    )
}

/// The rectangles and the blocks of the two partitions of a B macroblock.
pub fn b_part_layout(mvmode: u8) -> (r: ([(usize, usize, usize, usize); 2], Vec<Part>))
    ensures
        r.0@ == b_rects(mvmode as int),
        part_views(r.1@) == b_layout(mvmode as int),
{
    if mvmode == 1 {
        let a: [(usize, usize, usize, usize); 2] = [(0, 0, 16, 8), (0, 8, 16, 8)];
        assert(a@ =~= b_rects(mvmode as int));
        (a, p_partition_layout(1))
    } else {
        let a: [(usize, usize, usize, usize); 2] = [(0, 0, 8, 16), (8, 0, 8, 16)];
        assert(a@ =~= b_rects(mvmode as int));
        (a, p_partition_layout(2))
    }
}

/// A partition with prediction `pred` (1 is list 0, 2 is list 1, 3 is both) uses the list.
pub open spec fn uses(pred: u8, second: bool) -> bool {
    if second {
        pred == 2 || pred == 3
    } else {
        pred == 1 || pred == 3
    }
}

/// How many of the first `n` partitions use the list.
pub open spec fn used_count(preds: Seq<u8>, second: bool, n: int) -> int
    decreases n,
{
    if n <= 0 {
        0
    } else {
        used_count(preds, second, n - 1) + cabac::bit(uses(preds[n - 1], second))
    }
}

impl Motion {
    /// Code the differences of those of the first `n` partitions that use the list; the
    /// differences stand in `mvds` from `k` on.
    pub open spec fn with_used(
        self,
        l: Seq<PartView>,
        preds: Seq<u8>,
        second: bool,
        mvds: Seq<(i32, i32)>,
        k: int,
        n: int,
    ) -> Motion
        decreases n,
    {
        if n <= 0 {
            self
        } else {
            let m = self.with_used(l, preds, second, mvds, k, n - 1);
            if uses(preds[n - 1], second) {
                m.with_mvd(l[n - 1], mvds[k + used_count(preds, second, n - 1)], 0)
            } else {
                m
            }
        }
    }
}

/// How a B macroblock moves: its partitions, their predictions, and the reference that its
/// blocks have in a list they do not code (0 for direct motion, else -1).
pub struct BMotion {
    pub l: Seq<PartView>,
    pub preds: Seq<u8>,
    pub own: i8,
}

/// The motion of a B macroblock of direction `dir` (0 is direct, 1 is list 0, 2 is list 1,
/// 3 is both), or of two partitions.
pub open spec fn b_shape(
    dir: int,
    bsplit: Option<(u8, [(u8, (i32, i32), (i32, i32)); 2])>,
) -> BMotion {
    match bsplit {
        Some((mvmode, parts2)) => BMotion {
            l: b_layout(mvmode as int),
            preds: seq![parts2@[0].0, parts2@[1].0],
            own: -1i8,
        },
        None => if dir == 0 {
            BMotion { l: Seq::empty(), preds: Seq::empty(), own: 0 }
        } else {
            BMotion { l: p_layout(0), preds: seq![dir as u8], own: -1i8 }
        },
    }
}

/// The list-0 and then the list-1 motion of a B macroblock.
pub open spec fn b_motion(
    bins: Seq<Bin>,
    cs: CabacState,
    s: BMotion,
    mvds: Seq<(i32, i32)>,
    mb_w: int,
    mb_x: int,
    mb_y: int,
) -> (Motion, Motion) {
    let n = s.l.len() as int;
    let m0 = motion0(bins, cs, false, s.own, mb_w, mb_x, mb_y).with_used(
        s.l,
        s.preds,
        false,
        mvds,
        0,
        n,
    );
    let m1 = motion0(m0.bins, cs, true, s.own, mb_w, mb_x, mb_y).with_used(
        s.l,
        s.preds,
        true,
        mvds,
        used_count(s.preds, false, n),
        n,
    );
    (m0, m1)
}

/// Code one list's differences of a B macroblock and return what it exports, and how many
/// differences of the plan are used up.
#[verifier::rlimit(50)]
fn cb_b_list(
    cab: &mut CabacEncoder,
    cs: &CabacState,
    second: bool,
    layout: &Vec<Part>,
    preds: &Vec<u8>,
    own: i8,
    mvds: &[(i32, i32); 16],
    first: usize,
    mb_w: usize,
    mb_h: usize,
    mb_x: usize,
    mb_y: usize,
) -> (r: ([[i16; 2]; 16], [i8; 16], usize))
    requires
        mb_x < mb_w,
        mb_y < mb_h,
        cs.wf(mb_w * mb_h),
        layout@.len() <= 2,
        preds@.len() == layout@.len(),
        first <= 2,
        forall|i: int| 0 <= i < layout@.len() ==> part_ok(#[trigger] layout@[i]@),
    ensures
        ({
            let n = layout@.len() as int;
            let m = motion0(
                old(cab)@,
                *cs,
                second,
                own,
                mb_w as int,
                mb_x as int,
                mb_y as int,
            ).with_used(part_views(layout@), preds@, second, mvds@, first as int, n);
            &&& final(cab)@ == m.bins
            &&& r.0@ == m.mmvd
            &&& r.1@ == m.mref
            &&& r.2 == first + used_count(preds@, second, n)
            &&& r.2 <= first + n
        }),
{
    let mut mvdc: [[i16; 2]; 30] = [[0i16; 2]; 30];
    let mut refc: [i8; 30] = [-1i8; 30];
    let mut mmvd: [[i16; 2]; 16] = [[0i16; 2]; 16];
    let mut mref: [i8; 16] = [own; 16];
    let ghost m0 = motion0(
        old(cab)@,
        *cs,
        second,
        own,
        mb_w as int,
        mb_x as int,
        mb_y as int,
    );
    assert forall|c: int| 0 <= c < 30 implies #[trigger] mvdc@[c] == [0i16, 0i16] by {
        assert(mvdc@[c] =~= [0i16, 0i16]);
    }
    assert forall|c: int| 0 <= c < 16 implies #[trigger] mmvd@[c] == [0i16, 0i16] by {
        assert(mmvd@[c] =~= [0i16, 0i16]);
    }
    assert(mvdc@ =~= Seq::new(30, |c: int| [0i16, 0i16]));
    assert(refc@ =~= Seq::new(30, |c: int| -1i8));
    if second {
        cb_fill_inter_cache(&cs.mb_ref1, &cs.mb_mvd1, &mut refc, &mut mvdc, mb_x, mb_y, mb_w, mb_h);
    } else {
        cb_fill_inter_cache(&cs.mb_ref, &cs.mb_mvd, &mut refc, &mut mvdc, mb_x, mb_y, mb_w, mb_h);
    }
    assert(mvdc@ =~= m0.mvdc);
    assert(refc@ =~= m0.refc);
    assert(mmvd@ =~= m0.mmvd);
    assert(mref@ =~= m0.mref);
    let ghost l = part_views(layout@);
    let mut k: usize = first;
    let mut i: usize = 0;
    while i < layout.len()
        invariant
            i <= layout@.len(),
            layout@.len() <= 2,
            preds@.len() == layout@.len(),
            first <= 2,
            l == part_views(layout@),
            forall|i: int| 0 <= i < layout@.len() ==> part_ok(#[trigger] layout@[i]@),
            k == first + used_count(preds@, second, i as int),
            k <= first + i,
            motion(cab@, mvdc, refc, mmvd, mref) == m0.with_used(
                l,
                preds@,
                second,
                mvds@,
                first as int,
                i as int,
            ),
        decreases layout@.len() - i,
    {
        let pred: u8 = preds[i];
        let used: bool = if second {
            pred == 2 || pred == 3
        } else {
            pred == 1 || pred == 3
        };
        if used {
            let p: &Part = &layout[i];
            assert(part_ok(layout@[i as int]@));
            assert(l[i as int] == p@);
            cb_emit_mvd_partition(
                cab,
                p,
                &mut mvdc,
                &mut refc,
                &mut mmvd,
                &mut mref,
                mvds[k],
                0,
            );
            k = k + 1;
        }
        i = i + 1;
    }
    (mmvd, mref, k)
}

/// The type of a B macroblock.
pub open spec fn b_type(dir: int, bsplit: Option<(u8, [(u8, (i32, i32), (i32, i32)); 2])>) -> int {
    match bsplit {
        Some((mvmode, parts2)) => binarize::b_part_type(
            parts2@[0].0 as int,
            parts2@[1].0 as int,
            mvmode as int,
        ),
        None => dir,
    }
}

/// The type of a B macroblock in bins.
pub open spec fn b_type_bins(cs: CabacState, w: int, mb_x: int, mb_y: int, t: int) -> Seq<Bin> {
    binarize::mb_type_b_bins(
        mbcabac::clear_ctx(
            cs.mb_direct@,
            mbcabac::top_of(w, mb_x, mb_y),
            mbcabac::left_of(w, mb_x, mb_y),
        ),
        t,
    )
}

/// An inter macroblock of a B slice is coded.
pub open spec fn b_inter_coded(
    fe0: FrameEncoder,
    fe1: FrameEncoder,
    b0: Seq<Bin>,
    b1: Seq<Bin>,
    cs0: CabacState,
    cs1: CabacState,
    dir: u8,
    bsplit: Option<(u8, [(u8, (i32, i32), (i32, i32)); 2])>,
    p: InterPlan,
    mb_x: int,
    mb_y: int,
) -> bool {
    &&& ({
        let w = fe0.mb_w as int;
        let addr = mbcabac::addr_of(w, mb_x, mb_y);
        let (m0, m1) = b_motion(
            b0 + b_type_bins(
                cs0,
                w,
                mb_x,
                mb_y,
                b_type(dir as int, bsplit),
            ),
            cs0,
            b_shape(dir as int, bsplit),
            p.mvds@,
            w,
            mb_x,
            mb_y,
        );
        let c = inter_code(fe0, cs0, p, false, mb_x, mb_y);
        &&& b1 == m1.bins + c.bins
        &&& c.committed(
            p.c_q@,
            fe0,
            fe1,
            cs0,
            cs1,
            mb_x,
            mb_y,
        )
        &&& cs1.mb_mvd@ == cs0.mb_mvd@.update(addr, cs1.mb_mvd@[addr])
        &&& cs1.mb_mvd@[addr]@ == m0.mmvd
        &&& cs1.mb_ref@ == cs0.mb_ref@.update(addr, cs1.mb_ref@[addr])
        &&& cs1.mb_ref@[addr]@ == m0.mref
        &&& cs1.mb_mvd1@ == cs0.mb_mvd1@.update(addr, cs1.mb_mvd1@[addr])
        &&& cs1.mb_mvd1@[addr]@ == m1.mmvd
        &&& cs1.mb_ref1@ == cs0.mb_ref1@.update(addr, cs1.mb_ref1@[addr])
        &&& cs1.mb_ref1@[addr]@ == m1.mref
        &&& cs1.mb_direct@ == cs0.mb_direct@.update(addr, dir == 0 && bsplit is None)
        &&& cs1.cat@ == cs0.cat@.update(addr, 100u8)
    })
    &&& cs1.cmode == cs0.cmode
    &&& cs1.mb_skip == cs0.mb_skip
}

/// Code an inter macroblock of a B slice, behind its skip flag. Only one reference in each
/// list is in use, so no reference is coded.
#[verifier::rlimit(50)]
pub fn emit_mb_cabac_b(
    fe: &mut FrameEncoder,
    cab: &mut CabacEncoder,
    cs: &mut CabacState,
    dir: u8,
    bsplit: Option<(u8, [(u8, (i32, i32), (i32, i32)); 2])>,
    p: &InterPlan,
    mb_x: usize,
    mb_y: usize,
)
    requires
        old(fe).wf(),
        old(fe).has_mb(mb_x as int, mb_y as int),
        old(cs).wf(old(fe).mb_w * old(fe).mb_h),
        p.wf(),
        dir <= 3,
    ensures
        b_inter_coded(
            *old(fe),
            *final(fe),
            old(cab)@,
            final(cab)@,
            *old(cs),
            *final(cs),
            dir,
            bsplit,
            *p,
            mb_x as int,
            mb_y as int,
        ),
        final(fe).wf(),
        final(cs).wf(old(fe).mb_w * old(fe).mb_h),
{
    assert(fe.mb_skip_sad.len() == fe.mb_w * fe.mb_h);
    let (addr, top, left): (usize, Option<usize>, Option<usize>) = neighbours(
        fe.mb_w,
        fe.mb_h,
        mb_x,
        mb_y,
    );
    let bci: usize = count_flag(&cs.mb_direct, top, left, false);
    let ghost s = b_shape(dir as int, bsplit);
    let mut layout: Vec<Part> = Vec::new();
    let mut preds: Vec<u8> = Vec::new();
    let mut own: i8 = -1;
    let bmt: u32 = match bsplit {
        Some((mvmode, parts2)) => {
            let (_rects, zb): ([(usize, usize, usize, usize); 2], Vec<Part>) = b_part_layout(mvmode);
            layout = zb;
            preds.push(parts2[0].0);
            preds.push(parts2[1].0);
            b_part_mb_type(parts2[0].0, parts2[1].0, mvmode)
        },
        None => {
            if dir == 0 {
                own = 0;
            } else {
                layout = p_partition_layout(0);
                preds.push(dir);
            }
            dir as u32
        },
    };
    proof {
        assert(part_views(layout@) =~= s.l);
        assert(preds@ =~= s.preds);
        assert(own == s.own);
        assert(layout@.len() == part_views(layout@).len());
        assert forall|i: int| 0 <= i < layout@.len() implies part_ok(#[trigger] layout@[i]@) by {
            assert(part_views(layout@)[i] == s.l[i]);
        }
    }
    cb_mb_type_b(cab, bci, bmt);
    let (mmvd0, mref0, k): ([[i16; 2]; 16], [i8; 16], usize) = cb_b_list(
        cab,
        cs,
        false,
        &layout,
        &preds,
        own,
        &p.mvds,
        0,
        fe.mb_w,
        fe.mb_h,
        mb_x,
        mb_y,
    );
    let (mmvd1, mref1, _k): ([[i16; 2]; 16], [i8; 16], usize) = cb_b_list(
        cab,
        cs,
        true,
        &layout,
        &preds,
        own,
        &p.mvds,
        k,
        fe.mb_w,
        fe.mb_h,
        mb_x,
        mb_y,
    );
    cs.mb_mvd[addr] = mmvd0;
    cs.mb_ref[addr] = mref0;
    cs.mb_mvd1[addr] = mmvd1;
    cs.mb_ref1[addr] = mref1;
    cs.mb_direct[addr] = dir == 0 && bsplit.is_none();
    cs.cat[addr] = 100;
    cb_emit_inter_residual(fe, cab, cs, p, mb_x, mb_y, false);
}

/// The bins of `n` skipped macroblocks of a B slice: the skip flag at its lowest context
/// and the terminate bin, which is set for the last one.
pub open spec fn all_skip_bins(n: nat) -> Seq<Bin> {
    Seq::new(
        2 * n,
        |i: int|
            if i % 2 == 0 {
                Bin::dec(24, 1)
            } else {
                Bin::term(i == 2 * n - 1)
            },
    )
}

/// Code a B slice of `n` macroblocks that are all skipped.
pub fn encode_all_skip_b_cabac(cab: &mut CabacEncoder, n: usize)
    ensures
        final(cab)@ == old(cab)@ + all_skip_bins(n as nat),
{
    let ghost whole = all_skip_bins(n as nat);
    let mut i: usize = 0;
    assert(cab@ =~= old(cab)@ + whole.take(0));
    while i < n
        invariant
            i <= n,
            whole == all_skip_bins(n as nat),
            cab@ == old(cab)@ + whole.take(2 * i as int),
        decreases n - i,
    {
        cab.encode_decision(24, 1);
        cab.encode_terminate(i + 1 == n);
        assert(whole[2 * i as int] == Bin::dec(24, 1));
        assert(whole[2 * i + 1] == Bin::term(i + 1 == n));
        assert(cab@ =~= old(cab)@ + whole.take(2 * (i + 1)));
        i = i + 1;
    }
    assert(whole.take(2 * n as int) =~= whole);
}

/// Where all macroblocks before one are skipped, its skip flag has the lowest context: that
/// is why a slice of skipped macroblocks can be coded with one context.
pub proof fn law_skip_ctx_behind_skips(cs: CabacState, mb_w: int, mb_h: int, mb_x: int, mb_y: int)
    requires
        cs.wf(mb_w * mb_h),
        0 <= mb_x < mb_w,
        0 <= mb_y < mb_h,
        forall|a: int|
            0 <= a < mbcabac::addr_of(mb_w, mb_x, mb_y) ==> #[trigger] cs.mb_skip@[a],
    ensures
        skip_ctx(cs, mb_w, mb_x, mb_y) == 0,
{
    crate::grid::lemma_cell(mb_w, mb_h, mb_x, mb_y);
    if mb_y > 0 {
        assert(mb_y * mb_w - mb_w == (mb_y - 1) * mb_w && (mb_y - 1) * mb_w >= 0)
            by (nonlinear_arith)
            requires
                mb_y > 0,
                mb_w >= 0,
        ;
        assert(cs.mb_skip@[mbcabac::addr_of(mb_w, mb_x, mb_y) - mb_w]);
    }
    if mb_x > 0 {
        assert(cs.mb_skip@[mbcabac::addr_of(mb_w, mb_x, mb_y) - 1]);
    }
}

} // verus!
