//! Where each coefficient of a block goes.
use vstd::prelude::*;
use crate::mbcavlc;
use crate::scan;
use crate::scan::{CHROMA_4X4_SCAN_XY, LUMA_4X4_SCAN_XY, ZIGZAG_4X4, ZIGZAG_8X8};

verus! {

/// The next place of a walk over the diagonals of an `n` by `n` block that starts to the right.
pub open spec fn diagonal_step(n: int, x: int, y: int) -> (int, int) {
    if (x + y) % 2 == 0 {
        if x == n - 1 {
            (x, y + 1)
        } else if y == 0 {
            (x + 1, y)
        } else {
            (x + 1, y - 1)
        }
    } else {
        if y == n - 1 {
            (x + 1, y)
        } else if x == 0 {
            (x, y + 1)
        } else {
            (x - 1, y + 1)
        }
    }
}

/// The scan of a 4x4 block starts at its first coefficient and walks its diagonals.
pub proof fn law_zigzag4_walks_the_diagonals(i: int)
    requires
        0 <= i < 15,
    ensures
        ZIGZAG_4X4[0] == 0,
        (ZIGZAG_4X4[i + 1] as int % 4, ZIGZAG_4X4[i + 1] as int / 4) == diagonal_step(
            4,
            ZIGZAG_4X4[i] as int % 4,
            ZIGZAG_4X4[i] as int / 4,
        ),
{
}

/// The scan of an 8x8 block starts at its first coefficient and walks its diagonals.
pub proof fn law_zigzag8_walks_the_diagonals(i: int)
    requires
        0 <= i < 63,
    ensures
        ZIGZAG_8X8[0] == 0,
        (ZIGZAG_8X8[i + 1] as int % 8, ZIGZAG_8X8[i + 1] as int / 8) == diagonal_step(
            8,
            ZIGZAG_8X8[i] as int % 8,
            ZIGZAG_8X8[i] as int / 8,
        ),
{
}

/// The scans hold the raster coefficients at the places of the walk: the whole block, the block
/// without its first coefficient, and the 8x8 block.
pub proof fn law_scans_read_the_raster(b: Seq<i32>, c: Seq<i32>, i: int)
    ensures
        scan::zigzag4(b).len() == 16,
        scan::zigzag4_ac(b).len() == 15,
        scan::zigzag8(c).len() == 64,
        0 <= i < 16 ==> scan::zigzag4(b)[i] == b[ZIGZAG_4X4[i] as int],
        0 <= i < 15 ==> scan::zigzag4_ac(b)[i] == b[ZIGZAG_4X4[i + 1] as int],
        0 <= i < 64 ==> scan::zigzag8(c)[i] == c[ZIGZAG_8X8[i] as int],
{
}

/// Four luma blocks make a quarter and four quarters the macroblock, each time left to right and top
/// to bottom; chroma blocks come left to right and top to bottom.
pub proof fn law_blocks_come_by_quarters(z: int)
    requires
        0 <= z < 16,
    ensures
        LUMA_4X4_SCAN_XY[z].0 == z % 2 + 2 * ((z / 4) % 2),
        LUMA_4X4_SCAN_XY[z].1 == (z / 2) % 2 + 2 * (z / 8),
        z < 4 ==> CHROMA_4X4_SCAN_XY[z].0 == z % 2 && CHROMA_4X4_SCAN_XY[z].1 == z / 2,
{
}

/// A decoder puts the 8x8 blocks together again: place `p` of the scan of quarter `k` is coefficient
/// `p / 4` of the residual block `p % 4` of that quarter.
pub proof fn law_eight_by_eight_reassembles(q: Seq<[i32; 64]>, k: int, p: int)
    requires
        q.len() == 4,
        0 <= k < 4,
        0 <= p < 64,
    ensures
        mbcavlc::levels8(q).len() == 16,
        mbcavlc::levels8(q)[4 * k + p % 4].len() == 16,
        mbcavlc::levels8(q)[4 * k + p % 4][p / 4] == q[k]@[ZIGZAG_8X8[p] as int],
{
    assert((4 * k + p % 4) / 4 == k);
    assert((4 * k + p % 4) % 4 == p % 4);
    assert(4 * (p / 4) + p % 4 == p);
}

/// A decoder finds the 4x4 blocks of a macroblock by quarters: place `p` of the scan of the block in
/// column `x` and row `y` is coefficient `p` of its residual block, and coefficient `p - 1` of its
/// residual block where the first ones are coded apart.
pub proof fn law_four_by_four_reassembles(q: Seq<[i32; 16]>, x: int, y: int, p: int)
    requires
        q.len() == 16,
        0 <= x < 4,
        0 <= y < 4,
        0 <= p < 16,
    ensures
        ({
            let z = 8 * (y / 2) + 4 * (x / 2) + 2 * (y % 2) + x % 2;
            &&& mbcavlc::levels4(q).len() == 16
            &&& mbcavlc::levels4(q)[z].len() == 16
            &&& mbcavlc::levels4(q)[z][p] == q[4 * y + x]@[ZIGZAG_4X4[p] as int]
            &&& mbcavlc::levels4_ac(q).len() == 16
            &&& mbcavlc::levels4_ac(q)[z].len() == 15
            &&& p >= 1 ==> mbcavlc::levels4_ac(q)[z][p - 1] == q[4 * y + x]@[ZIGZAG_4X4[p] as int]
        }),
{
    let z = 8 * (y / 2) + 4 * (x / 2) + 2 * (y % 2) + x % 2;
    law_blocks_come_by_quarters(z);
    assert(LUMA_4X4_SCAN_XY[z].0 == x && LUMA_4X4_SCAN_XY[z].1 == y);
    assert(mbcavlc::raster(z) == 4 * y + x);
}

/// A decoder finds the chroma blocks left to right and top to bottom, without their first
/// coefficients.
pub proof fn law_chroma_reassembles(q: Seq<[i32; 16]>, z: int, p: int)
    requires
        q.len() == 4,
        0 <= z < 4,
        1 <= p < 16,
    ensures
        mbcavlc::chroma_ac(q).len() == 4,
        mbcavlc::chroma_ac(q)[z].len() == 15,
        mbcavlc::chroma_ac(q)[z][p - 1] == q[z]@[ZIGZAG_4X4[p] as int],
{
}

} // verus!
