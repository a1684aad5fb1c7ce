//! Small integer helpers that several modules share.
use vstd::prelude::*;

verus! {

/// The absolute value of a mathematical integer.
pub open spec fn abs(x: int) -> int {
    if x < 0 {
        -x
    } else {
        x
    }
}

/// The smaller of two mathematical integers.
pub open spec fn min(a: int, b: int) -> int {
    if a <= b {
        a
    } else {
        b
    }
}

/// The larger of two mathematical integers.
pub open spec fn max(a: int, b: int) -> int {
    if a >= b {
        a
    } else {
        b
    }
}

/// `x` limited to `lo ..= hi`.
pub open spec fn clamp(x: int, lo: int, hi: int) -> int {
    if x < lo {
        lo
    } else if x > hi {
        hi
    } else {
        x
    }
}

/// `v` in 32 bits with a sign: itself where it fits, and otherwise what is left of it, as the sums
/// and differences of vectors wrap around.
pub open spec fn wrap(v: int) -> int {
    if i32::MIN <= v <= i32::MAX {
        v
    } else {
        (v + 0x8000_0000) % 0x1_0000_0000 - 0x8000_0000
    }
}

/// A sum or difference of vectors, wrapped around.
pub fn wrapped(v: i64) -> (r: i32)
    requires
        -0x1000_0000_0000_0000 <= v <= 0x1000_0000_0000_0000,
    ensures
        r == wrap(v as int),
{
    if -0x8000_0000 <= v && v <= 0x7fff_ffff {
        v as i32
    } else {
        let u: u64 = (v + 0x4000_0000_8000_0000) as u64;
        assert(u % 0x1_0000_0000 == (v + 0x8000_0000) % 0x1_0000_0000);
        ((u % 0x1_0000_0000) as i64 - 0x8000_0000) as i32
    }
}

/// `|x|`, also for the most negative value.
pub fn abs_i32(x: i32) -> (r: u32)
    ensures
        r == abs(x as int),
{
    if x < 0 {
        (-(x as i64)) as u32
    } else {
        x as u32
    }
}

/// `|x|` of a 16-bit value, also for the most negative one.
pub fn abs_i16(x: i16) -> (r: u32)
    ensures
        r == abs(x as int),
{
    if x < 0 {
        (-(x as i32)) as u32
    } else {
        x as u32
    }
}

/// 1 for `true`, 0 for `false`.
pub fn bit_u32(b: bool) -> (r: u32)
    ensures
        r == crate::cabac::bit(b),
{
    if b {
        1
    } else {
        0
    }
}

/// 1 for `true`, 0 for `false`, as an index.
pub fn bit_usize(b: bool) -> (r: usize)
    ensures
        r == crate::cabac::bit(b),
{
    if b {
        1
    } else {
        0
    }
}

} // verus!
