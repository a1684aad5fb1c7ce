//! Raster grids: positions of cells and how a macroblock's blocks fill them.
use vstd::prelude::*;
use crate::scan::{CHROMA_4X4_SCAN_XY, LUMA_4X4_SCAN_XY};

verus! {

/// The raster position of the cell at column `x`, row `y` of a grid `w` cells wide.
pub open spec fn cell(w: int, x: int, y: int) -> int {
    y * w + x
}

/// A cell of a `w` by `h` grid lies in its raster, and tells its column and row.
pub proof fn lemma_cell(w: int, h: int, x: int, y: int)
    requires
        0 <= x < w,
        0 <= y < h,
    ensures
        0 <= y * w,
        0 <= cell(w, x, y) < w * h,
        cell(w, x, y) / w == y,
        cell(w, x, y) % w == x,
{
    assert(0 <= y * w && y * w + x < w * h) by (nonlinear_arith)
        requires
            0 <= x < w,
            0 <= y < h,
    ;
    vstd::arithmetic::div_mod::lemma_fundamental_div_mod_converse(y * w + x, w, y, x);
}

/// The raster position of a cell of a grid with `len` cells.
pub fn cell_at(w: usize, x: usize, y: usize, len: usize) -> (r: usize)
    requires
        x < w,
        cell(w as int, x as int, y as int) < len,
    ensures
        r == cell(w as int, x as int, y as int),
        r < len,
{
    assert(0 <= y * w) by (nonlinear_arith)
        requires
            0 <= y,
            0 <= w,
    ;
    y * w + x
}

/// The cell of the luma block `z` (in coding order) of a macroblock.
pub open spec fn luma_cell(mb_w: int, mb_x: int, mb_y: int, z: int) -> int {
    cell(
        4 * mb_w,
        4 * mb_x + LUMA_4X4_SCAN_XY[z].0,
        4 * mb_y + LUMA_4X4_SCAN_XY[z].1,
    )
}

/// The cell of the chroma block `z` (in coding order) of a macroblock.
pub open spec fn chroma_cell(mb_w: int, mb_x: int, mb_y: int, z: int) -> int {
    cell(
        2 * mb_w,
        2 * mb_x + CHROMA_4X4_SCAN_XY[z].0,
        2 * mb_y + CHROMA_4X4_SCAN_XY[z].1,
    )
}

/// The luma grid `g` with the values `t` of the first `n` blocks of a macroblock put in.
pub open spec fn put_luma<T>(
    g: Seq<T>,
    mb_w: int,
    mb_x: int,
    mb_y: int,
    n: int,
    t: spec_fn(int) -> T,
) -> Seq<T>
    decreases n,
{
    if n <= 0 {
        g
    } else {
        put_luma(g, mb_w, mb_x, mb_y, n - 1, t).update(luma_cell(mb_w, mb_x, mb_y, n - 1), t(n - 1))
    }
}

/// The chroma grid `g` with the values `t` of the first `n` blocks of a macroblock put in.
pub open spec fn put_chroma<T>(
    g: Seq<T>,
    mb_w: int,
    mb_x: int,
    mb_y: int,
    n: int,
    t: spec_fn(int) -> T,
) -> Seq<T>
    decreases n,
{
    if n <= 0 {
        g
    } else {
        put_chroma(g, mb_w, mb_x, mb_y, n - 1, t).update(
            chroma_cell(mb_w, mb_x, mb_y, n - 1),
            t(n - 1),
        )
    }
}

pub proof fn lemma_put_luma_len<T>(
    g: Seq<T>,
    mb_w: int,
    mb_h: int,
    mb_x: int,
    mb_y: int,
    n: int,
    t: spec_fn(int) -> T,
)
    requires
        0 <= mb_x < mb_w,
        0 <= mb_y < mb_h,
        n <= 16,
        g.len() == (4 * mb_w) * (4 * mb_h),
    ensures
        put_luma(g, mb_w, mb_x, mb_y, n, t).len() == g.len(),
    decreases n,
{
    if n > 0 {
        lemma_put_luma_len(g, mb_w, mb_h, mb_x, mb_y, n - 1, t);
        lemma_luma_cell(mb_w, mb_h, mb_x, mb_y, n - 1);
    }
}

pub proof fn lemma_put_chroma_len<T>(
    g: Seq<T>,
    mb_w: int,
    mb_h: int,
    mb_x: int,
    mb_y: int,
    n: int,
    t: spec_fn(int) -> T,
)
    requires
        0 <= mb_x < mb_w,
        0 <= mb_y < mb_h,
        n <= 4,
        g.len() == (2 * mb_w) * (2 * mb_h),
    ensures
        put_chroma(g, mb_w, mb_x, mb_y, n, t).len() == g.len(),
    decreases n,
{
    if n > 0 {
        lemma_put_chroma_len(g, mb_w, mb_h, mb_x, mb_y, n - 1, t);
        lemma_chroma_cell(mb_w, mb_h, mb_x, mb_y, n - 1);
    }
}

/// Only the first `n` values matter to a filled grid.
pub proof fn lemma_put_luma_ext<T>(
    g: Seq<T>,
    mb_w: int,
    mb_x: int,
    mb_y: int,
    n: int,
    t: spec_fn(int) -> T,
    u: spec_fn(int) -> T,
)
    requires
        forall|z: int| 0 <= z < n ==> #[trigger] t(z) == u(z),
    ensures
        put_luma(g, mb_w, mb_x, mb_y, n, t) == put_luma(g, mb_w, mb_x, mb_y, n, u),
    decreases n,
{
    if n > 0 {
        lemma_put_luma_ext(g, mb_w, mb_x, mb_y, n - 1, t, u);
    }
}

/// The luma blocks of a macroblock lie in the grid.
pub proof fn lemma_luma_cell(mb_w: int, mb_h: int, mb_x: int, mb_y: int, z: int)
    requires
        0 <= mb_x < mb_w,
        0 <= mb_y < mb_h,
        0 <= z < 16,
    ensures
        0 <= luma_cell(mb_w, mb_x, mb_y, z) < (4 * mb_w) * (4 * mb_h),
        0 <= (4 * mb_y + LUMA_4X4_SCAN_XY[z].1) * (4 * mb_w),
        LUMA_4X4_SCAN_XY[z].0 < 4,
        LUMA_4X4_SCAN_XY[z].1 < 4,
{
    assert(LUMA_4X4_SCAN_XY[z].0 < 4 && LUMA_4X4_SCAN_XY[z].1 < 4);
    lemma_cell(
        4 * mb_w,
        4 * mb_h,
        4 * mb_x + LUMA_4X4_SCAN_XY[z].0,
        4 * mb_y + LUMA_4X4_SCAN_XY[z].1,
    );
}

/// The chroma blocks of a macroblock lie in the grid.
pub proof fn lemma_chroma_cell(mb_w: int, mb_h: int, mb_x: int, mb_y: int, z: int)
    requires
        0 <= mb_x < mb_w,
        0 <= mb_y < mb_h,
        0 <= z < 4,
    ensures
        0 <= chroma_cell(mb_w, mb_x, mb_y, z) < (2 * mb_w) * (2 * mb_h),
        0 <= (2 * mb_y + CHROMA_4X4_SCAN_XY[z].1) * (2 * mb_w),
        CHROMA_4X4_SCAN_XY[z].0 < 2,
        CHROMA_4X4_SCAN_XY[z].1 < 2,
{
    assert(CHROMA_4X4_SCAN_XY[z].0 < 2 && CHROMA_4X4_SCAN_XY[z].1 < 2);
    lemma_cell(
        2 * mb_w,
        2 * mb_h,
        2 * mb_x + CHROMA_4X4_SCAN_XY[z].0,
        2 * mb_y + CHROMA_4X4_SCAN_XY[z].1,
    );
}

/// A grid of `h` rows is not left before its last cell.
pub proof fn lemma_rows_left(w: int, h: int, y: int, i: int)
    requires
        w >= 1,
        h >= 1,
        y * w <= i,
        0 <= y,
    ensures
        i < w * h ==> y < h,
{
    if y >= h {
        assert(y * w >= h * w) by (nonlinear_arith)
            requires
                y >= h,
                w >= 1,
        ;
        assert(w * h == h * w) by (nonlinear_arith);
    }
}

} // verus!
