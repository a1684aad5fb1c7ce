//! Motion-vector prediction and the motion grids.
use vstd::prelude::*;
use crate::arith;
use crate::frame::FrameEncoder;
use crate::grid;
use crate::grid::cell_at;

verus! {

/// What a block knows of a neighbour's motion.
#[derive(Clone, Copy, Debug, PartialEq, Eq)]
pub struct MvNeighbor {
    pub available: bool,
    pub mv: (i32, i32),
    pub ref_idx: i32,
}

impl MvNeighbor {
    /// A neighbour that is not there.
    pub open spec fn none() -> MvNeighbor {
        MvNeighbor { available: false, mv: (0, 0), ref_idx: -1i32 }
    }

    /// A neighbour that is not there.
    pub fn missing() -> (r: Self)
        ensures
            r == Self::none(),
    {
        MvNeighbor { available: false, mv: (0, 0), ref_idx: -1 }
    }
}

/// The middle one of three numbers.
pub open spec fn median(a: int, b: int, c: int) -> int {
    arith::max(arith::min(a, b), arith::min(arith::max(a, b), c))
}

fn median3(a: i32, b: i32, c: i32) -> (r: i32)
    ensures
        r == median(a as int, b as int, c as int),
{
    let lo: i32 = if a <= b {
        a
    } else {
        b
    };
    let hi: i32 = if a >= b {
        a
    } else {
        b
    };
    let m: i32 = if hi <= c {
        hi
    } else {
        c
    };
    if lo >= m {
        lo
    } else {
        m
    }
}

/// The median lies between the smallest and the largest of the three, and is one of them.
pub proof fn law_median(a: int, b: int, c: int)
    ensures
        median(a, b, c) == a || median(a, b, c) == b || median(a, b, c) == c,
        arith::min(a, arith::min(b, c)) <= median(a, b, c) <= arith::max(a, arith::max(b, c)),
        median(a, b, c) == median(b, a, c),
        median(a, b, c) == median(a, c, b),
{
}

/// The predicted vector of a block with reference `r` from its neighbours left (`a`), above
/// (`b`) and above right (`c`). Where only the left one is there it stands for all three.
/// Where exactly one has the reference `r` its vector is taken, else the median.
pub open spec fn predicted(a: MvNeighbor, b: MvNeighbor, c: MvNeighbor, r: int) -> (i32, i32) {
    let only_left = a.available && !b.available && !c.available;
    let b1 = if only_left {
        a
    } else {
        b
    };
    let c1 = if only_left {
        a
    } else {
        c
    };
    let ma = a.ref_idx == r;
    let mb = b1.ref_idx == r;
    let mc = c1.ref_idx == r;
    if ma && !mb && !mc {
        a.mv
    } else if !ma && mb && !mc {
        b1.mv
    } else if !ma && !mb && mc {
        c1.mv
    } else {
        (
            median(a.mv.0 as int, b1.mv.0 as int, c1.mv.0 as int) as i32,
            median(a.mv.1 as int, b1.mv.1 as int, c1.mv.1 as int) as i32,
        )
    }
}

/// The predicted vector of a block.
pub fn predict_mv(a: MvNeighbor, b: MvNeighbor, c: MvNeighbor, r: i32) -> (p: (i32, i32))
    ensures
        p == predicted(a, b, c, r as int),
{
    let only_left: bool = a.available && !b.available && !c.available;
    let b1: MvNeighbor = if only_left {
        a
    } else {
        b
    };
    let c1: MvNeighbor = if only_left {
        a
    } else {
        c
    };
    let ma: bool = a.ref_idx == r;
    let mb: bool = b1.ref_idx == r;
    let mc: bool = c1.ref_idx == r;
    if ma && !mb && !mc {
        a.mv
    } else if !ma && mb && !mc {
        b1.mv
    } else if !ma && !mb && mc {
        c1.mv
    } else {
        (median3(a.mv.0, b1.mv.0, c1.mv.0), median3(a.mv.1, b1.mv.1, c1.mv.1))
    }
}

/// The predicted vector of partition `part` of a macroblock of type `mode`: the halves of
/// 16x8 (1) and 8x16 (2) first look at one neighbour each.
pub open spec fn part_predicted(
    mode: int,
    part: int,
    a: MvNeighbor,
    b: MvNeighbor,
    c: MvNeighbor,
    r: int,
) -> (i32, i32) {
    if mode == 1 && part == 0 && b.ref_idx == r {
        b.mv
    } else if mode == 1 && part == 1 && a.ref_idx == r {
        a.mv
    } else if mode == 2 && part == 0 && a.ref_idx == r {
        a.mv
    } else if mode == 2 && part == 1 && c.ref_idx == r {
        c.mv
    } else {
        predicted(a, b, c, r)
    }
}

/// The predicted vector of a partition.
pub fn predict_partition_mv(
    mode: u8,
    part: usize,
    a: MvNeighbor,
    b: MvNeighbor,
    c: MvNeighbor,
    r: i32,
) -> (p: (i32, i32))
    ensures
        p == part_predicted(mode as int, part as int, a, b, c, r as int),
{
    if mode == 1 && part == 0 && b.ref_idx == r {
        b.mv
    } else if mode == 1 && part == 1 && a.ref_idx == r {
        a.mv
    } else if mode == 2 && part == 0 && a.ref_idx == r {
        a.mv
    } else if mode == 2 && part == 1 && c.ref_idx == r {
        c.mv
    } else {
        predict_mv(a, b, c, r)
    }
}

/// The rectangles `(x, y, width, height)` of the partitions of a P macroblock.
pub open spec fn rects(mode: int) -> Seq<(usize, usize, usize, usize)> {
    if mode == 1 {
        seq![(0usize, 0usize, 16usize, 8usize), (0usize, 8usize, 16usize, 8usize)]
    } else if mode == 2 {
        seq![(0usize, 0usize, 8usize, 16usize), (8usize, 0usize, 8usize, 16usize)]
    } else if mode == 3 {
        seq![
            (0usize, 0usize, 8usize, 8usize),
            (8usize, 0usize, 8usize, 8usize),
            (0usize, 8usize, 8usize, 8usize),
            (8usize, 8usize, 8usize, 8usize),
        ]
    } else {
        seq![(0usize, 0usize, 16usize, 16usize)]
    }
}

/// The rectangles of the partitions of a P macroblock.
pub fn inter_partitions(mode: u8) -> (r: Vec<(usize, usize, usize, usize)>)
    ensures
        r@ == rects(mode as int),
{
    let mut r: Vec<(usize, usize, usize, usize)> = Vec::new();
    if mode == 1 {
        r.push((0, 0, 16, 8));
        r.push((0, 8, 16, 8));
    } else if mode == 2 {
        r.push((0, 0, 8, 16));
        r.push((8, 0, 8, 16));
    } else if mode == 3 {
        r.push((0, 0, 8, 8));
        r.push((8, 0, 8, 8));
        r.push((0, 8, 8, 8));
        r.push((8, 8, 8, 8));
    } else {
        r.push((0, 0, 16, 16));
    }
    assert(r@ =~= rects(mode as int));
    r
}

/// The motion of a frame of `w` by `h` blocks.
#[verifier::ext_equal]
pub struct MotionView {
    pub w: int,
    pub h: int,
    pub mv0: Seq<(i32, i32)>,
    pub ref0: Seq<i32>,
    pub mv1: Seq<(i32, i32)>,
    pub ref1: Seq<i32>,
    pub inter: Seq<bool>,
    pub coded: Seq<bool>,
}

impl FrameEncoder {
    /// The motion of the frame.
    pub open spec fn motion(&self) -> MotionView {
        MotionView {
            w: 4 * self.mb_w,
            h: 4 * self.mb_h,
            mv0: self.mv_y@,
            ref0: self.ref_idx_y@,
            mv1: self.mv1_y@,
            ref1: self.ref_idx1_y@,
            inter: self.inter_y@,
            coded: self.coded_y@,
        }
    }
}

/// The motion of the block at `(bx, by)` in the given list, as a neighbour sees it.
pub open spec fn block_motion(m: MotionView, second: bool, bx: int, by: int) -> MvNeighbor {
    let i = grid::cell(m.w, bx, by);
    MvNeighbor {
        available: true,
        mv: if second {
            m.mv1[i]
        } else {
            m.mv0[i]
        },
        ref_idx: if second {
            m.ref1[i]
        } else {
            m.ref0[i]
        },
    }
}

/// The motion of the block at `(bx, by)`, if it lies in the frame and has been coded.
pub open spec fn coded_motion(m: MotionView, second: bool, bx: int, by: int) -> MvNeighbor {
    if 0 <= bx < m.w && 0 <= by < m.h && m.coded[grid::cell(m.w, bx, by)] {
        block_motion(m, second, bx, by)
    } else {
        MvNeighbor::none()
    }
}

/// The neighbours of a partition whose first block is `(bx, by)` and which is `wb` blocks
/// wide: left, above, and above right or, where that is missing, above left.
pub open spec fn part_neighbours(
    m: MotionView,
    second: bool,
    bx: int,
    by: int,
    wb: int,
) -> (MvNeighbor, MvNeighbor, MvNeighbor) {
    let c = coded_motion(m, second, bx + wb, by - 1);
    (
        coded_motion(m, second, bx - 1, by),
        coded_motion(m, second, bx, by - 1),
        if c.available {
            c
        } else {
            coded_motion(m, second, bx - 1, by - 1)
        },
    )
}

/// The neighbours of a whole macroblock: those of its first block row and column, by the
/// place of the macroblock in the frame alone.
pub open spec fn mb_neighbours(m: MotionView, mb_x: int, mb_y: int) -> (
    MvNeighbor,
    MvNeighbor,
    MvNeighbor,
) {
    let (bx, by) = (4 * mb_x, 4 * mb_y);
    (
        if mb_x > 0 {
            block_motion(m, false, bx - 1, by)
        } else {
            MvNeighbor::none()
        },
        if mb_y > 0 {
            block_motion(m, false, bx, by - 1)
        } else {
            MvNeighbor::none()
        },
        if mb_y > 0 && 4 * (mb_x + 1) < m.w {
            block_motion(m, false, bx + 4, by - 1)
        } else if mb_x > 0 && mb_y > 0 {
            block_motion(m, false, bx - 1, by - 1)
        } else {
            MvNeighbor::none()
        },
    )
}

/// The vector of a skipped P macroblock: zero at the frame's left or upper edge and beside
/// a still neighbour, else the prediction for reference 0.
pub open spec fn p_skip_mv(m: MotionView, mb_x: int, mb_y: int) -> (i32, i32) {
    let (a, b, c) = mb_neighbours(m, mb_x, mb_y);
    if !a.available || !b.available || (a.ref_idx == 0 && a.mv == (0i32, 0i32)) || (b.ref_idx == 0
        && b.mv == (0i32, 0i32)) {
        (0i32, 0i32)
    } else {
        predicted(a, b, c, 0)
    }
}

impl FrameEncoder {
    fn neighbour_at(&self, second: bool, bx: usize, by: usize) -> (r: MvNeighbor)
        requires
            self.wf(),
            bx < 4 * self.mb_w,
            by < 4 * self.mb_h,
        ensures
            r == block_motion(self.motion(), second, bx as int, by as int),
    {
        proof {
            grid::lemma_cell(4 * self.mb_w, 4 * self.mb_h, bx as int, by as int);
        }
        let i: usize = cell_at(4 * self.mb_w, bx, by, self.mv_y.len());
        if second {
            MvNeighbor { available: true, mv: self.mv1_y[i], ref_idx: self.ref_idx1_y[i] }
        } else {
            MvNeighbor { available: true, mv: self.mv_y[i], ref_idx: self.ref_idx_y[i] }
        }
    }

    /// The block `dx` columns right of and `dy` rows below `(bx, by)`, if it is coded.
    fn coded_at(&self, second: bool, bx: usize, by: usize, dx: isize, dy: isize) -> (r: MvNeighbor)
        requires
            self.wf(),
            bx < 4 * self.mb_w,
            by < 4 * self.mb_h,
            -1 <= dx <= 4,
            -1 <= dy <= 0,
        ensures
            r == coded_motion(self.motion(), second, bx + dx, by + dy),
    {
        if (dx < 0 && bx == 0) || (dy < 0 && by == 0) {
            return MvNeighbor::missing();
        }
        let x: usize = if dx < 0 {
            bx - 1
        } else {
            if dx as usize >= 4 * self.mb_w - bx {
                return MvNeighbor::missing();
            }
            bx + dx as usize
        };
        let y: usize = if dy < 0 {
            by - 1
        } else {
            by
        };
        proof {
            grid::lemma_cell(4 * self.mb_w, 4 * self.mb_h, x as int, y as int);
        }
        if self.coded_y[cell_at(4 * self.mb_w, x, y, self.coded_y.len())] {
            self.neighbour_at(second, x, y)
        } else {
            MvNeighbor::missing()
        }
    }

    /// The neighbours of a whole macroblock.
    pub fn mv_neighbors(&self, mb_x: usize, mb_y: usize) -> (r: [MvNeighbor; 3])
        requires
            self.wf(),
            self.has_mb(mb_x as int, mb_y as int),
        ensures
            (r@[0], r@[1], r@[2]) == mb_neighbours(self.motion(), mb_x as int, mb_y as int),
    {
        let bx: usize = 4 * mb_x;
        let by: usize = 4 * mb_y;
        let a: MvNeighbor = if mb_x > 0 {
            self.neighbour_at(false, bx - 1, by)
        } else {
            MvNeighbor::missing()
        };
        let b: MvNeighbor = if mb_y > 0 {
            self.neighbour_at(false, bx, by - 1)
        } else {
            MvNeighbor::missing()
        };
        let c: MvNeighbor = if mb_y > 0 && mb_x + 1 < self.mb_w {
            self.neighbour_at(false, bx + 4, by - 1)
        } else if mb_x > 0 && mb_y > 0 {
            self.neighbour_at(false, bx - 1, by - 1)
        } else {
            MvNeighbor::missing()
        };
        [a, b, c]
    }

    /// The vector of a skipped P macroblock.
    pub fn skip_mv(&self, mb_x: usize, mb_y: usize) -> (r: (i32, i32))
        requires
            self.wf(),
            self.has_mb(mb_x as int, mb_y as int),
        ensures
            r == p_skip_mv(self.motion(), mb_x as int, mb_y as int),
    {
        let n: [MvNeighbor; 3] = self.mv_neighbors(mb_x, mb_y);
        let (a, b, c): (MvNeighbor, MvNeighbor, MvNeighbor) = (n[0], n[1], n[2]);
        if !a.available || !b.available || (a.ref_idx == 0 && a.mv.0 == 0 && a.mv.1 == 0) || (
        b.ref_idx == 0 && b.mv.0 == 0 && b.mv.1 == 0) {
            (0, 0)
        } else {
            predict_mv(a, b, c, 0)
        }
    }

    /// The list-0 neighbours of a partition.
    pub fn mv_neighbors_block(&self, pbx: usize, pby: usize, pwb: usize) -> (r: [MvNeighbor; 3])
        requires
            self.wf(),
            pbx < 4 * self.mb_w,
            pby < 4 * self.mb_h,
            pwb <= 4,
        ensures
            (r@[0], r@[1], r@[2]) == part_neighbours(
                self.motion(),
                false,
                pbx as int,
                pby as int,
                pwb as int,
            ),
    {
        self.mv_neighbors_block_list(pbx, pby, pwb, 0)
    }

    /// The neighbours of a partition in list 0 or 1.
    pub fn mv_neighbors_block_list(
        &self,
        pbx: usize,
        pby: usize,
        pwb: usize,
        list: usize,
    ) -> (r: [MvNeighbor; 3])
        requires
            self.wf(),
            pbx < 4 * self.mb_w,
            pby < 4 * self.mb_h,
            pwb <= 4,
        ensures
            (r@[0], r@[1], r@[2]) == part_neighbours(
                self.motion(),
                list != 0,
                pbx as int,
                pby as int,
                pwb as int,
            ),
    {
        let second: bool = list != 0;
        let a: MvNeighbor = self.coded_at(second, pbx, pby, -1, 0);
        let b: MvNeighbor = self.coded_at(second, pbx, pby, 0, -1);
        let mut c: MvNeighbor = self.coded_at(second, pbx, pby, pwb as isize, -1);
        if !c.available {
            c = self.coded_at(second, pbx, pby, -1, -1);
        }
        [a, b, c]
    }
}

} // verus!
