//! What direct motion is.
use vstd::prelude::*;
use crate::mbstate;
use crate::mbstate::RefFrame;
use crate::motion;
use crate::motion::{MotionView, MvNeighbor};

verus! {

/// One of the three neighbours has a reference.
pub open spec fn any_reference(n: (MvNeighbor, MvNeighbor, MvNeighbor)) -> bool {
    n.0.ref_idx >= 0 || n.1.ref_idx >= 0 || n.2.ref_idx >= 0
}

/// `r` is the smallest reference that one of the three neighbours has.
pub open spec fn smallest_reference(r: i32, n: (MvNeighbor, MvNeighbor, MvNeighbor)) -> bool {
    &&& r >= 0
    &&& r == n.0.ref_idx || r == n.1.ref_idx || r == n.2.ref_idx
    &&& n.0.ref_idx >= 0 ==> r <= n.0.ref_idx
    &&& n.1.ref_idx >= 0 ==> r <= n.1.ref_idx
    &&& n.2.ref_idx >= 0 ==> r <= n.2.ref_idx
}

/// The co-located block at column `x` and row `y` has reference 0 and a vector within one quarter
/// sample; where the picture keeps no motion it has not.
pub open spec fn stands_still(l1: RefFrame, x: int, y: int) -> bool {
    let i = y * l1.w4 + x;
    l1.w4 > 0 && i < l1.ref_idx@.len() && l1.ref_idx@[i] == 0 && (l1.mv@[i].0 == 0 || l1.mv@[i].0
        == 1 || l1.mv@[i].0 == -1) && (l1.mv@[i].1 == 0 || l1.mv@[i].1 == 1 || l1.mv@[i].1 == -1)
}

/// The direct motion of a block. The reference of a list is the smallest that a neighbour has, and
/// negative where none has one but one has one in the other list; where none has one in either list,
/// both references and both vectors are zero. Where a neighbour has a reference, the reference of the
/// list is 0 and the co-located block stands still, the vector of the list is zero; in all other
/// cases it is the predicted one.
pub proof fn law_direct_motion(
    m: MotionView,
    l1: RefFrame,
    mb_x: int,
    mb_y: int,
    sbx: int,
    sby: int,
)
    ensures
        ({
            let n0 = motion::part_neighbours(m, false, 4 * mb_x, 4 * mb_y, 4);
            let n1 = motion::part_neighbours(m, true, 4 * mb_x, 4 * mb_y, 4);
            let still = stands_still(l1, 4 * mb_x + sbx, 4 * mb_y + sby);
            let (ref0, mv0, ref1, mv1) = mbstate::direct_block(m, l1, mb_x, mb_y, sbx, sby);
            if !any_reference(n0) && !any_reference(n1) {
                ref0 == 0 && ref1 == 0 && mv0 == (0i32, 0i32) && mv1 == (0i32, 0i32)
            } else {
                &&& any_reference(n0) ==> smallest_reference(ref0, n0)
                &&& any_reference(n1) ==> smallest_reference(ref1, n1)
                &&& !any_reference(n0) ==> ref0 < 0
                &&& !any_reference(n1) ==> ref1 < 0
                &&& ref0 < 0 ==> mv0 == (0i32, 0i32)
                &&& ref1 < 0 ==> mv1 == (0i32, 0i32)
                &&& ref0 == 0 && still ==> mv0 == (0i32, 0i32)
                &&& ref1 == 0 && still ==> mv1 == (0i32, 0i32)
                &&& ref0 > 0 || (ref0 == 0 && !still) ==> mv0 == motion::predicted(
                    n0.0,
                    n0.1,
                    n0.2,
                    ref0 as int,
                )
                &&& ref1 > 0 || (ref1 == 0 && !still) ==> mv1 == motion::predicted(
                    n1.0,
                    n1.1,
                    n1.2,
                    ref1 as int,
                )
            }
        }),
{
}

} // verus!
