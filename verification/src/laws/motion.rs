//! What motion prediction takes from the neighbours.
use vstd::prelude::*;
use crate::mbinter;
use crate::motion;
use crate::motion::{MotionView, MvNeighbor};

verus! {

/// At least two of the three numbers are not above `v`, and at least two not below.
pub open spec fn in_the_middle(v: int, a: int, b: int, c: int) -> bool {
    &&& v == a || v == b || v == c
    &&& (a <= v && b <= v) || (a <= v && c <= v) || (b <= v && c <= v)
    &&& (a >= v && b >= v) || (a >= v && c >= v) || (b >= v && c >= v)
}

/// The median is the number in the middle.
pub proof fn law_median_is_in_the_middle(a: int, b: int, c: int)
    ensures
        in_the_middle(motion::median(a, b, c), a, b, c),
{
}

/// The predicted vector: the left neighbour's where only it is there; that of the one neighbour with
/// the reference where there is exactly one; else each component is the middle one.
pub proof fn law_predicted_vector(a: MvNeighbor, b: MvNeighbor, c: MvNeighbor, r: int)
    ensures
        ({
            let v = motion::predicted(a, b, c, r);
            if a.available && !b.available && !c.available {
                v == a.mv
            } else {
                &&& a.ref_idx == r && b.ref_idx != r && c.ref_idx != r ==> v == a.mv
                &&& a.ref_idx != r && b.ref_idx == r && c.ref_idx != r ==> v == b.mv
                &&& a.ref_idx != r && b.ref_idx != r && c.ref_idx == r ==> v == c.mv
                &&& (a.ref_idx == r && b.ref_idx == r) || (a.ref_idx == r && c.ref_idx == r) || (
                b.ref_idx == r && c.ref_idx == r) || (a.ref_idx != r && b.ref_idx != r && c.ref_idx
                    != r) ==> in_the_middle(
                    v.0 as int,
                    a.mv.0 as int,
                    b.mv.0 as int,
                    c.mv.0 as int,
                ) && in_the_middle(v.1 as int, a.mv.1 as int, b.mv.1 as int, c.mv.1 as int)
            }
        }),
{
}

/// A partition's predicted vector: the upper half of 16x8 first looks above, the lower half left, the
/// left half of 8x16 left, the right half above right; where that neighbour has another reference, and in
/// all other partitions, it is the predicted one.
pub proof fn law_partition_vector(
    mode: int,
    part: int,
    a: MvNeighbor,
    b: MvNeighbor,
    c: MvNeighbor,
    r: int,
)
    ensures
        ({
            let v = motion::part_predicted(mode, part, a, b, c, r);
            let p = motion::predicted(a, b, c, r);
            &&& mode == 1 && part == 0 ==> v == (if b.ref_idx == r {
                b.mv
            } else {
                p
            })
            &&& mode == 1 && part == 1 ==> v == (if a.ref_idx == r {
                a.mv
            } else {
                p
            })
            &&& mode == 2 && part == 0 ==> v == (if a.ref_idx == r {
                a.mv
            } else {
                p
            })
            &&& mode == 2 && part == 1 ==> v == (if c.ref_idx == r {
                c.mv
            } else {
                p
            })
            &&& (mode != 1 && mode != 2) || part < 0 || part > 1 ==> v == p
        }),
{
}

/// The block at `(x, y)` is in the frame and has been coded.
pub open spec fn there(m: MotionView, x: int, y: int) -> bool {
    0 <= x && x < m.w && 0 <= y && y < m.h && m.coded[y * m.w + x]
}

/// `n` is the block at `(x, y)` as a neighbour in list 0 or 1.
pub open spec fn stands_for(n: MvNeighbor, m: MotionView, second: bool, x: int, y: int) -> bool {
    if there(m, x, y) {
        n.available && n.mv == (if second {
            m.mv1
        } else {
            m.mv0
        })[y * m.w + x] && n.ref_idx == (if second {
            m.ref1
        } else {
            m.ref0
        })[y * m.w + x]
    } else {
        !n.available && n.mv == (0i32, 0i32) && n.ref_idx == -1
    }
}

/// A partition looks at the block left of its first one, the one above it, and the one above and right
/// of its first row; where that is not there yet, at the one above and left.
pub proof fn law_neighbours(m: MotionView, second: bool, bx: int, by: int, wb: int)
    ensures
        ({
            let (a, b, c) = motion::part_neighbours(m, second, bx, by, wb);
            &&& stands_for(a, m, second, bx - 1, by)
            &&& stands_for(b, m, second, bx, by - 1)
            &&& there(m, bx + wb, by - 1) ==> stands_for(c, m, second, bx + wb, by - 1)
            &&& !there(m, bx + wb, by - 1) ==> stands_for(c, m, second, bx - 1, by - 1)
        }),
{
}

/// A whole macroblock sees the same neighbours as a partition of its size where all macroblocks before
/// it are coded.
pub proof fn law_macroblock_neighbours(m: MotionView, mb_x: int, mb_y: int)
    requires
        m.w % 4 == 0,
        0 <= mb_x,
        0 <= mb_y,
        4 * mb_x < m.w,
        4 * mb_y < m.h,
        mb_x > 0 ==> m.coded[4 * mb_y * m.w + 4 * mb_x - 1],
        mb_y > 0 ==> m.coded[(4 * mb_y - 1) * m.w + 4 * mb_x],
        mb_y > 0 && 4 * mb_x + 4 < m.w ==> m.coded[(4 * mb_y - 1) * m.w + 4 * mb_x + 4],
        mb_y > 0 && mb_x > 0 ==> m.coded[(4 * mb_y - 1) * m.w + 4 * mb_x - 1],
    ensures
        motion::mb_neighbours(m, mb_x, mb_y) == motion::part_neighbours(
            m,
            false,
            4 * mb_x,
            4 * mb_y,
            4,
        ),
{
}

/// A skipped macroblock stands still at the left and the upper edge of the frame, and where the left or
/// the upper neighbour has reference 0 and no motion; elsewhere it moves by the prediction for
/// reference 0.
pub proof fn law_skip_vector(m: MotionView, mb_x: int, mb_y: int)
    requires
        m.w % 4 == 0,
        0 <= mb_x,
        0 <= mb_y,
        4 * mb_x < m.w,
        4 * mb_y < m.h,
    ensures
        ({
            let v = motion::p_skip_mv(m, mb_x, mb_y);
            let (l, u) = (4 * mb_y * m.w + 4 * mb_x - 1, (4 * mb_y - 1) * m.w + 4 * mb_x);
            let (a, b, c) = motion::mb_neighbours(m, mb_x, mb_y);
            &&& mb_x == 0 || mb_y == 0 ==> v == (0i32, 0i32)
            &&& mb_x > 0 && m.ref0[l] == 0 && m.mv0[l] == (0i32, 0i32) ==> v == (0i32, 0i32)
            &&& mb_y > 0 && m.ref0[u] == 0 && m.mv0[u] == (0i32, 0i32) ==> v == (0i32, 0i32)
            &&& mb_x > 0 && mb_y > 0 && (m.ref0[l] != 0 || m.mv0[l] != (0i32, 0i32)) && (m.ref0[u]
                != 0 || m.mv0[u] != (0i32, 0i32)) ==> v == motion::predicted(a, b, c, 0)
        }),
{
}

/// The rectangle of partition `i` holds the samples of exactly the blocks that the layout gives it.
pub proof fn law_rectangles_are_the_layout(mode: int, i: int, z: int)
    requires
        0 <= mode <= 3,
        0 <= i < motion::rects(mode).len(),
        0 <= z < 16,
    ensures
        motion::rects(mode).len() == mbinter::p_layout(mode).len(),
        ({
            let (x, y, w, h) = motion::rects(mode)[i];
            let (bx, by) = (4 * super::contexts::column(z), 4 * super::contexts::row(z));
            &&& mbinter::p_layout(mode)[i].blocks.contains(z as usize) == (x <= bx < x + w && y
                <= by < y + h)
            &&& (z == mbinter::p_layout(mode)[i].idx) == (bx == x && by == y)
        }),
{
    let p = mbinter::p_layout(mode)[i];
    if mode == 2 {
        assert(p.blocks.contains(z as usize) == (exists|k: int|
            0 <= k < p.blocks.len() && p.blocks[k] == z as usize));
        let k = if z < 4 {
            z
        } else if z < 8 {
            z - 4
        } else if z < 12 {
            z - 4
        } else {
            z - 8
        };
        assert(p.blocks.len() == 8);
        if (i == 0) == ((z / 4) % 2 == 0) {
            assert(p.blocks[k] == z);
        }
        assert forall|j: int| 0 <= j < 8 implies (#[trigger] p.blocks[j] / 4) % 2 == i by {}
    } else {
        let k = z - p.idx;
        if 0 <= k < p.blocks.len() {
            assert(p.blocks[k] == z);
        }
        assert forall|j: int| 0 <= j < p.blocks.len() implies #[trigger] p.blocks[j] == p.idx
            + j by {}
    }
}

/// The rectangle of sub-partition `i` of a quarter holds the samples of exactly the blocks that the
/// layout gives it.
pub proof fn law_sub_rectangles_are_the_layout(p8: int, t: int, i: int, z: int)
    requires
        0 <= p8 < 4,
        0 <= t <= 3,
        0 <= i < mbinter::sub_rects(t).len(),
        0 <= z < 4,
    ensures
        mbinter::sub_rects(t).len() == mbinter::p_sub_layout(p8, t).len(),
        ({
            let (x, y, w, h) = mbinter::sub_rects(t)[i];
            let (bx, by) = (4 * (z % 2), 4 * (z / 2));
            let b = 4 * p8 + z;
            &&& mbinter::p_sub_layout(p8, t)[i].blocks.contains(b as usize) == (x <= bx < x + w && y
                <= by < y + h)
            &&& (b == mbinter::p_sub_layout(p8, t)[i].idx) == (bx == x && by == y)
        }),
{
    let p = mbinter::p_sub_layout(p8, t)[i];
    let b = 4 * p8 + z;
    let step: int = if t == 2 {
        2
    } else {
        1
    };
    assert forall|j: int| 0 <= j < p.blocks.len() implies #[trigger] p.blocks[j] == p.idx + step
        * j by {}
    let k = (b - p.idx) / step;
    if 0 <= k < p.blocks.len() && p.idx + step * k == b {
        assert(p.blocks[k] == b);
    }
}

} // verus!
