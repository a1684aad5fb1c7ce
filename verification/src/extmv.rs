//! The motion of another encoder, put in place of the own.
use vstd::prelude::*;
use crate::arith;
use crate::grid;

verus! {

/// Where block `(r, c)` of macroblock `(mb_x, mb_y)` stands in a field of `w4` blocks in a row.
pub open spec fn block_at(w4: int, mb_x: int, mb_y: int, r: int, c: int) -> int {
    grid::cell(w4, 4 * mb_x + c, 4 * mb_y + r)
}

/// The field has the same vector in all blocks of the macroblock.
pub open spec fn is_uniform(field: Seq<(i32, i32)>, w4: int, mb_x: int, mb_y: int) -> bool {
    forall|r: int, c: int|
        0 <= r < 4 && 0 <= c < 4 ==> {
            let i = #[trigger] block_at(w4, mb_x, mb_y, r, c);
            i < field.len() && field[i] == field[block_at(w4, mb_x, mb_y, 0, 0)]
        }
}

/// The vector that a field has for a macroblock, where it has the same in all of its blocks.
pub open spec fn uniform(field: Seq<(i32, i32)>, w4: int, mb_x: int, mb_y: int) -> Option<
    (i32, i32),
> {
    if is_uniform(field, w4, mb_x, mb_y) {
        Some(field[block_at(w4, mb_x, mb_y, 0, 0)])
    } else {
        None
    }
}

/// The vector that a field has for a macroblock. A macroblock that it divides has no single vector
/// to take.
pub fn uniform_at(
    field: &[(i32, i32)],
    w4: usize,
    h4: usize,
    mb_x: usize,
    mb_y: usize,
) -> (r: Option<(i32, i32)>)
    requires
        4 * mb_x + 4 <= w4,
        4 * mb_y + 4 <= h4,
        w4 * h4 <= usize::MAX,
    ensures
        r == uniform(field@, w4 as int, mb_x as int, mb_y as int),
{
    let ghost (w, x, y) = (w4 as int, mb_x as int, mb_y as int);
    let ghost first = block_at(w, x, y, 0, 0);
    let n: usize = w4 * h4;
    let mut k: usize = 0;
    let mut mv: (i32, i32) = (0, 0);
    while k < 16
        invariant
            k <= 16,
            w == w4 && x == mb_x && y == mb_y,
            4 * mb_x + 4 <= w4,
            4 * mb_y + 4 <= h4,
            n == w4 * h4,
            first == block_at(w, x, y, 0, 0),
            k > 0 ==> first < field@.len() && mv == field@[first],
            forall|r: int, c: int|
                0 <= r < 4 && 0 <= c < 4 && 4 * r + c < k ==> {
                    let i = #[trigger] block_at(w, x, y, r, c);
                    i < field@.len() && field@[i] == field@[first]
                },
        decreases 16 - k,
    {
        let (r, c): (usize, usize) = (k / 4, k % 4);
        proof {
            grid::lemma_cell(w, h4 as int, 4 * x + c, 4 * y + r);
        }
        let i: usize = grid::cell_at(w4, 4 * mb_x + c, 4 * mb_y + r, n);
        assert(i == block_at(w, x, y, r as int, c as int));
        if i >= field.len() {
            assert(!is_uniform(field@, w, x, y));
            return None;
        }
        if k == 0 {
            mv = field[i];
        } else if field[i].0 != mv.0 || field[i].1 != mv.1 {
            assert(!is_uniform(field@, w, x, y));
            return None;
        }
        k = k + 1;
    }
    Some(mv)
}

/// The vector that a field has for the first block of a macroblock.
pub open spec fn corner(field: Seq<(i32, i32)>, w4: int, mb_x: int, mb_y: int) -> Option<(i32, i32)> {
    let i = block_at(w4, mb_x, mb_y, 0, 0);
    if i < field.len() {
        Some(field[i])
    } else {
        None
    }
}

/// The vector that a field has for the first block of a macroblock.
pub fn corner_at(
    field: &[(i32, i32)],
    w4: usize,
    h4: usize,
    mb_x: usize,
    mb_y: usize,
) -> (r: Option<(i32, i32)>)
    requires
        4 * mb_x + 4 <= w4,
        4 * mb_y + 4 <= h4,
        w4 * h4 <= usize::MAX,
    ensures
        r == corner(field@, w4 as int, mb_x as int, mb_y as int),
{
    proof {
        grid::lemma_cell(w4 as int, h4 as int, 4 * mb_x as int, 4 * mb_y as int);
    }
    let i: usize = grid::cell_at(w4, 4 * mb_x, 4 * mb_y, w4 * h4);
    if i < field.len() {
        Some(field[i])
    } else {
        None
    }
}

/// What coding macroblocks with the own motion gave, and with that of another encoder.
#[derive(Clone, Copy, PartialEq, Eq, Structural, Debug)]
pub struct MvScore {
    /// How many macroblocks were coded both ways.
    pub n: u64,
    /// The bits of the own motion and of the other.
    pub bits: u64,
    pub other_bits: u64,
    /// The squared differences that they leave.
    pub ssd: u64,
    pub other_ssd: u64,
    /// How often the other cost less.
    pub won: u64,
    /// How often the vectors differed, or the other one was put in place of the own.
    pub differed: u64,
}

/// A sum that goes on from zero behind the highest number.
pub open spec fn sum(a: u64, b: int) -> u64 {
    if a + b <= u64::MAX {
        (a + b) as u64
    } else {
        (a + b - u64::MAX - 1) as u64
    }
}

fn add_up(a: u64, b: u64) -> (r: u64)
    ensures
        r == sum(a, b as int),
{
    if a <= u64::MAX - b {
        a + b
    } else {
        a - (u64::MAX - b) - 1
    }
}

fn not_negative(v: i64) -> (r: u64)
    ensures
        r == arith::max(v as int, 0),
{
    if v > 0 {
        v as u64
    } else {
        0
    }
}

/// One for true.
pub open spec fn one(b: bool) -> int {
    if b {
        1
    } else {
        0
    }
}

impl MvScore {
    /// Nothing was coded.
    pub fn new() -> (r: Self)
        ensures
            r == (MvScore {
                n: 0,
                bits: 0,
                other_bits: 0,
                ssd: 0,
                other_ssd: 0,
                won: 0,
                differed: 0,
            }),
    {
        MvScore { n: 0, bits: 0, other_bits: 0, ssd: 0, other_ssd: 0, won: 0, differed: 0 }
    }

    /// A vector was put in place of the own, or not.
    pub open spec fn placed(self, placed: bool) -> MvScore {
        MvScore { differed: sum(self.differed, one(placed)), ..self }
    }

    /// A macroblock was coded both ways, with these distortions and bits.
    pub open spec fn with(
        self,
        own: (i64, usize),
        other: (i64, usize),
        won: bool,
        differs: bool,
    ) -> MvScore {
        MvScore {
            n: sum(self.n, 1),
            bits: sum(self.bits, own.1 as int),
            other_bits: sum(self.other_bits, other.1 as int),
            ssd: sum(self.ssd, arith::max(own.0 as int, 0)),
            other_ssd: sum(self.other_ssd, arith::max(other.0 as int, 0)),
            won: sum(self.won, one(won)),
            differed: sum(self.differed, one(differs)),
        }
    }

    /// Note that a vector was put in place of the own, or not.
    pub fn place(&mut self, placed: bool)
        ensures
            *final(self) == old(self).placed(placed),
    {
        self.differed = add_up(self.differed, placed as u64);
    }

    /// Note what coding a macroblock both ways gave.
    pub fn count(&mut self, own: (i64, usize), other: (i64, usize), won: bool, differs: bool)
        ensures
            *final(self) == old(self).with(own, other, won, differs),
    {
        self.n = add_up(self.n, 1);
        self.bits = add_up(self.bits, own.1 as u64);
        self.other_bits = add_up(self.other_bits, other.1 as u64);
        self.ssd = add_up(self.ssd, not_negative(own.0));
        self.other_ssd = add_up(self.other_ssd, not_negative(other.0));
        self.won = add_up(self.won, won as u64);
        self.differed = add_up(self.differed, differs as u64);
    }
}

} // verus!
