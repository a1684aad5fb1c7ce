//! Block orders: z-order of the 4x4 blocks of a macroblock, and zig-zag scans.
use vstd::prelude::*;

verus! {

/// The 4x4 luma blocks of a macroblock as (column, row), in coding order.
pub const LUMA_4X4_SCAN_XY: [(usize, usize); 16] = [
    (0, 0), (1, 0), (0, 1), (1, 1),
    (2, 0), (3, 0), (2, 1), (3, 1),
    (0, 2), (1, 2), (0, 3), (1, 3),
    (2, 2), (3, 2), (2, 3), (3, 3),
];

/// The 4x4 chroma blocks of a macroblock as (column, row), in coding order.
pub const CHROMA_4X4_SCAN_XY: [(usize, usize); 4] = [(0, 0), (1, 0), (0, 1), (1, 1)];

/// Raster position of each coefficient of a 4x4 block in zig-zag order.
pub const ZIGZAG_4X4: [usize; 16] = [0, 1, 4, 8, 5, 2, 3, 6, 9, 12, 13, 10, 7, 11, 14, 15];

/// Raster position of each coefficient of an 8x8 block in zig-zag order.
pub const ZIGZAG_8X8: [usize; 64] = [
    0, 1, 8, 16, 9, 2, 3, 10, 17, 24, 32, 25, 18, 11, 4, 5, 12, 19, 26, 33, 40, 48, 41, 34, 27, 20,
    13, 6, 7, 14, 21, 28, 35, 42, 49, 56, 57, 50, 43, 36, 29, 22, 15, 23, 30, 37, 44, 51, 58, 59,
    52, 45, 38, 31, 39, 46, 53, 60, 61, 54, 47, 55, 62, 63,
];

/// A raster 4x4 block in zig-zag order.
pub open spec fn zigzag4(b: Seq<i32>) -> Seq<i32> {
    Seq::new(16, |i: int| b[ZIGZAG_4X4[i] as int])
}

/// A raster 4x4 block in zig-zag order without its first coefficient.
pub open spec fn zigzag4_ac(b: Seq<i32>) -> Seq<i32> {
    Seq::new(15, |i: int| b[ZIGZAG_4X4[i + 1] as int])
}

/// A raster 8x8 block in zig-zag order.
pub open spec fn zigzag8(b: Seq<i32>) -> Seq<i32> {
    Seq::new(64, |i: int| b[ZIGZAG_8X8[i] as int])
}

/// Zig-zag scan of a raster 4x4 block.
pub fn scan_4x4_dcac(b: &[i32; 16]) -> (r: [i32; 16])
    ensures
        r@ == zigzag4(b@),
{
    let mut r: [i32; 16] = [0; 16];
    let mut i: usize = 0;
    while i < 16
        invariant
            i <= 16,
            forall|j: int| 0 <= j < i ==> r@[j] == b@[ZIGZAG_4X4[j] as int],
        decreases 16 - i,
    {
        assert(ZIGZAG_4X4[i as int] < 16);
        r[i] = b[ZIGZAG_4X4[i]];
        i = i + 1;
    }
    assert(r@ =~= zigzag4(b@));
    r
}

/// Zig-zag scan of a raster 4x4 block of 16-bit levels.
pub fn scan_4x4_dcac_i16(d: &[i16]) -> (r: [i32; 16])
    requires
        d@.len() >= 16,
    ensures
        forall|i: int| 0 <= i < 16 ==> #[trigger] r@[i] == d@[ZIGZAG_4X4[i] as int] as i32,
{
    let mut r: [i32; 16] = [0; 16];
    let mut i: usize = 0;
    while i < 16
        invariant
            i <= 16,
            d@.len() >= 16,
            forall|j: int| 0 <= j < i ==> #[trigger] r@[j] == d@[ZIGZAG_4X4[j] as int] as i32,
        decreases 16 - i,
    {
        assert(ZIGZAG_4X4[i as int] < 16);
        r[i] = d[ZIGZAG_4X4[i]] as i32;
        i = i + 1;
    }
    r
}

/// Zig-zag scan of the AC coefficients of a raster 4x4 block.
pub fn scan_4x4_ac(b: &[i32; 16]) -> (r: [i32; 15])
    ensures
        r@ == zigzag4_ac(b@),
{
    let mut r: [i32; 15] = [0; 15];
    let mut i: usize = 0;
    while i < 15
        invariant
            i <= 15,
            forall|j: int| 0 <= j < i ==> r@[j] == b@[ZIGZAG_4X4[j + 1] as int],
        decreases 15 - i,
    {
        assert(ZIGZAG_4X4[i + 1] < 16);
        r[i] = b[ZIGZAG_4X4[i + 1]];
        i = i + 1;
    }
    assert(r@ =~= zigzag4_ac(b@));
    r
}

/// Zig-zag scan of a raster 8x8 block.
pub fn scan_8x8_fwd(b: &[i32; 64]) -> (r: [i32; 64])
    ensures
        r@ == zigzag8(b@),
{
    let mut r: [i32; 64] = [0; 64];
    let mut i: usize = 0;
    while i < 64
        invariant
            i <= 64,
            forall|j: int| 0 <= j < i ==> r@[j] == b@[ZIGZAG_8X8[j] as int],
        decreases 64 - i,
    {
        assert(ZIGZAG_8X8[i as int] < 64);
        r[i] = b[ZIGZAG_8X8[i]];
        i = i + 1;
    }
    assert(r@ =~= zigzag8(b@));
    r
}

/// The scan positions are a permutation: every raster position of a 4x4 block comes up
/// exactly once.
pub proof fn law_zigzag4_is_a_permutation(p: int)
    requires
        0 <= p < 16,
    ensures
        exists|i: int| 0 <= i < 16 && #[trigger] ZIGZAG_4X4[i] == p,
        forall|i: int, j: int|
            0 <= i < 16 && 0 <= j < 16 && #[trigger] ZIGZAG_4X4[i] == #[trigger] ZIGZAG_4X4[j]
                ==> i == j,
{
    let inv = seq![0int, 1, 5, 6, 2, 4, 7, 12, 3, 8, 11, 13, 9, 10, 14, 15];
    assert(ZIGZAG_4X4[inv[p]] == p);
}

/// The raster coefficients of an 8x8 block can be read back from the scan: the scan keeps
/// every coefficient.
pub proof fn law_zigzag8_is_a_permutation(p: int)
    requires
        0 <= p < 64,
    ensures
        exists|i: int| 0 <= i < 64 && #[trigger] ZIGZAG_8X8[i] == p,
{
    let inv = seq![
        0int, 1, 5, 6, 14, 15, 27, 28,
        2, 4, 7, 13, 16, 26, 29, 42,
        3, 8, 12, 17, 25, 30, 41, 43,
        9, 11, 18, 24, 31, 40, 44, 53,
        10, 19, 23, 32, 39, 45, 52, 54,
        20, 22, 33, 38, 46, 51, 55, 60,
        21, 34, 37, 47, 50, 56, 59, 61,
        35, 36, 48, 49, 57, 58, 62, 63,
    ];
    assert(ZIGZAG_8X8[inv[p]] == p);
}

} // verus!
