//! From residuals to levels and back: the refinement of quantised levels, and the coding of
//! the blocks of a macroblock against a prediction.
use vstd::prelude::*;
use crate::arith;
use crate::arith::abs_i32;
use crate::kernels;
use crate::kernels::{add4, add8, cdc, cdc_inv, deq4, fdct4, lower, quant4, quant8, trim, Kernels};
use crate::pixels;
use crate::plan;
use crate::residual;
use crate::scan;
use crate::pixels::{at_spot, residual, sample, ssd_px, At};
use crate::rect::put_rect;
use crate::scan::ZIGZAG_4X4;

verus! {

/// The approximate bits of a coefficient with a level of this magnitude.
pub open spec fn level_rate(m: int) -> int {
    if m == 0 {
        1
    } else if m == 1 {
        3
    } else {
        3 + arith::min(m - 1, 13)
    }
}

/// The approximate bits of a coefficient with a level of this magnitude.
pub fn rdoq_rate(level: i64) -> (r: i64)
    requires
        0 <= level,
    ensures
        r == level_rate(level as int),
        1 <= r <= 16,
{
    if level == 0 {
        1
    } else if level == 1 {
        3
    } else if level - 1 < 13 {
        3 + (level - 1)
    } else {
        16
    }
}

/// A level one step nearer to zero.
pub open spec fn nearer(v: i32) -> i32 {
    if v < 0 {
        (v + 1) as i32
    } else {
        (v - 1) as i32
    }
}

/// The levels `q` of the coefficients `c`, each from scan position `first` on taken one lower
/// where that is better.
pub open spec fn lowered<K: Kernels>(k: K, c: Seq<i32>, qp: u8, first: int, q: Seq<i32>) -> Seq<
    i32,
> {
    Seq::new(
        q.len(),
        |p: int|
            if (p != 0 || first == 0) && q[p] != 0 && kernels::lower_of(
                k,
                qp,
                p as usize,
                c[p],
                arith::abs(q[p] as int) as u32,
            ) {
                nearer(q[p])
            } else {
                q[p]
            },
    )
}

/// The last scan position in `first .. top` whose level is not zero, or -1.
pub open spec fn last_level(q: Seq<i32>, first: int, top: int) -> int
    decreases top,
{
    if top <= first || top <= 0 {
        -1
    } else if q[ZIGZAG_4X4@[top - 1] as int] != 0 {
        top - 1
    } else {
        last_level(q, first, top - 1)
    }
}

/// The bits that are freed when the last level, at scan position `li`, is dropped: its own,
/// its last flag, and the flags back to the level before it.
pub open spec fn freed_bits(q: Seq<i32>, first: int, li: int) -> int {
    let prev = last_level(q, first, li);
    let base = if prev < 0 {
        first
    } else {
        prev + 1
    };
    level_rate(arith::abs(q[ZIGZAG_4X4@[li] as int] as int)) + 1 + (li - base)
}

/// The levels with the last ones, below scan position `top`, dropped as long as that is
/// better.
pub open spec fn trimmed<K: Kernels>(
    k: K,
    c: Seq<i32>,
    qp: u8,
    first: int,
    q: Seq<i32>,
    top: int,
) -> Seq<i32>
    decreases top,
{
    let li = last_level(q, first, top);
    if 0 <= li < top {
        let p = ZIGZAG_4X4@[li] as int;
        if kernels::trim_of(
            k,
            qp,
            p as usize,
            c[p],
            arith::abs(q[p] as int) as u32,
            freed_bits(q, first, li) as i64,
        ) {
            trimmed(k, c, qp, first, q.update(p, 0), li)
        } else {
            q
        }
    } else {
        q
    }
}

/// The levels of the coefficients `c`: quantised and, with `on`, lowered and trimmed from
/// scan position `first` on.
pub open spec fn levels<K: Kernels>(
    k: K,
    on: bool,
    c: Seq<i32>,
    qp: u8,
    dz: u8,
    first: int,
) -> Seq<i32> {
    let hard = kernels::quant4_of(k, c, qp, dz);
    if on {
        trimmed(k, c, qp, first, lowered(k, c, qp, first, hard), 16)
    } else {
        hard
    }
}

fn last_level_of(q: &[i32; 16], first: usize, top: usize) -> (r: Option<usize>)
    requires
        first <= 1,
        top <= 16,
    ensures
        r is None == (last_level(q@, first as int, top as int) < 0),
        r matches Some(i) ==> i == last_level(q@, first as int, top as int) && first <= i < top
            && q@[ZIGZAG_4X4@[i as int] as int] != 0,
{
    let mut t: usize = top;
    while t > first
        invariant
            first <= 1,
            t <= top <= 16,
            last_level(q@, first as int, t as int) == last_level(q@, first as int, top as int),
        decreases t,
    {
        assert(0 <= ZIGZAG_4X4@[t - 1] < 16) by {
            lemma_zigzag(t - 1);
        }
        if q[ZIGZAG_4X4[t - 1]] != 0 {
            return Some(t - 1);
        }
        t = t - 1;
    }
    None
}

proof fn lemma_zigzag(i: int)
    requires
        0 <= i < 16,
    ensures
        0 <= ZIGZAG_4X4@[i] < 16,
{
}

/// `a` lies between zero and `b`.
pub open spec fn toward_zero(a: int, b: int) -> bool {
    if b < 0 {
        b <= a <= 0
    } else {
        0 <= a <= b
    }
}

proof fn lemma_last_level(q: Seq<i32>, first: int, top: int)
    requires
        0 <= first,
    ensures
        last_level(q, first, top) < 0 || first <= last_level(q, first, top) < top,
    decreases top,
{
    if top > first && top > 0 {
        lemma_last_level(q, first, top - 1);
    }
}

proof fn lemma_trimmed<K: Kernels>(k: K, c: Seq<i32>, qp: u8, first: int, q: Seq<i32>, top: int)
    requires
        0 <= first <= 1,
        top <= 16,
        q.len() == 16,
    ensures
        trimmed(k, c, qp, first, q, top).len() == q.len(),
        forall|p: int|
            0 <= p < q.len() ==> {
                ||| #[trigger] trimmed(k, c, qp, first, q, top)[p] == q[p]
                ||| trimmed(k, c, qp, first, q, top)[p] == 0 && (first == 0 || p != 0)
            },
    decreases top,
{
    let li = last_level(q, first, top);
    lemma_last_level(q, first, top);
    if 0 <= li < top {
        lemma_zigzag(li);
        let p = ZIGZAG_4X4@[li] as int;
        assert(li > 0 ==> p != 0);
        lemma_trimmed(k, c, qp, first, q.update(p, 0), li);
    }
}

/// Refining levels only ever moves them towards zero, and leaves the first one alone where it is
/// not the block's own.
pub proof fn law_refining_only_lowers<K: Kernels>(
    k: K,
    on: bool,
    c: Seq<i32>,
    qp: u8,
    dz: u8,
    first: int,
    p: int,
)
    requires
        0 <= first <= 1,
        kernels::quant4_of(k, c, qp, dz).len() == 16,
        0 <= p < 16,
    ensures
        levels(k, on, c, qp, dz, first).len() == 16,
        toward_zero(
            levels(k, on, c, qp, dz, first)[p] as int,
            kernels::quant4_of(k, c, qp, dz)[p] as int,
        ),
        first == 1 && p == 0 ==> levels(k, on, c, qp, dz, first)[p] == kernels::quant4_of(
            k,
            c,
            qp,
            dz,
        )[p],
{
    let hard = kernels::quant4_of(k, c, qp, dz);
    lemma_trimmed(k, c, qp, first, lowered(k, c, qp, first, hard), 16);
}

/// Quantise the coefficients of a block and refine the levels.
#[verifier::rlimit(50)]
pub fn rdoq<K: Kernels>(k: &K, on: bool, c: &[i32; 16], qp: u8, dz: u8, first: usize) -> (r: [i32; 16])
    requires
        kernels::steady(*k),
        first <= 1,
    ensures
        r@ == levels(*k, on, c@, qp, dz, first as int),
{
    let hard: [i32; 16] = quant4(k, c, qp, dz);
    if !on {
        return hard;
    }
    let mut q: [i32; 16] = hard;
    let mut p: usize = 0;
    let ghost low = lowered(*k, c@, qp, first as int, hard@);
    while p < 16
        invariant
            p <= 16,
            kernels::steady(*k),
            low == lowered(*k, c@, qp, first as int, hard@),
            forall|j: int| 0 <= j < p ==> #[trigger] q@[j] == low[j],
            forall|j: int| p <= j < 16 ==> #[trigger] q@[j] == hard@[j],
        decreases 16 - p,
    {
        let v: i32 = q[p];
        assert(v == hard@[p as int]);
        if (p != 0 || first == 0) && v != 0 {
            let m: u32 = abs_i32(v);
            if lower(k, qp, p, c[p], m) {
                q[p] = if v < 0 {
                    v + 1
                } else {
                    v - 1
                };
            }
        }
        p = p + 1;
    }
    assert(q@ =~= low);
    let mut top: usize = 16;
    loop
        invariant
            kernels::steady(*k),
            first <= 1,
            top <= 16,
            trimmed(*k, c@, qp, first as int, q@, top as int) == trimmed(
                *k,
                c@,
                qp,
                first as int,
                low,
                16,
            ),
        ensures
            q@ == trimmed(*k, c@, qp, first as int, low, 16),
        decreases top,
    {
        match last_level_of(&q, first, top) {
            None => {
                break;
            },
            Some(li) => {
                proof {
                    lemma_zigzag(li as int);
                }
                let p: usize = ZIGZAG_4X4[li];
                let m: u32 = abs_i32(q[p]);
                let base: usize = match last_level_of(&q, first, li) {
                    None => first,
                    Some(j) => j + 1,
                };
                let bits: i64 = rdoq_rate(m as i64) + 1 + (li - base) as i64;
                if trim(k, qp, p, c[p], m, bits) {
                    q[p] = 0;
                    top = li;
                } else {
                    break;
                }
            },
        }
    }
    q
}

/// Some level is not zero.
pub open spec fn any_level(s: Seq<i32>, from: int) -> bool {
    exists|i: int| from <= i < s.len() && #[trigger] s[i] != 0
}

/// Whether some level from `from` on is not zero.
pub fn has_level(s: &[i32], from: usize) -> (r: bool)
    ensures
        r == any_level(s@, from as int),
{
    let mut i: usize = from;
    while i < s.len()
        invariant
            from <= i,
            forall|j: int| from <= j < i && j < s@.len() ==> #[trigger] s@[j] == 0,
        decreases s.len() - i,
    {
        if s[i] != 0 {
            assert(s@[i as int] != 0);
            return true;
        }
        i = i + 1;
    }
    false
}

/// How many of the first `n` levels are not zero.
pub open spec fn level_count(s: Seq<i32>, from: int, n: int) -> int
    decreases n,
{
    if n <= from || n <= 0 {
        0
    } else {
        level_count(s, from, n - 1) + if s[n - 1] != 0 {
            1int
        } else {
            0
        }
    }
}

/// How many levels from `from` on are not zero.
pub fn count_levels(s: &[i32], from: usize) -> (r: i64)
    requires
        s@.len() <= 64,
    ensures
        r == level_count(s@, from as int, s@.len() as int),
        0 <= r <= s@.len(),
{
    let mut n: i64 = 0;
    let mut i: usize = from;
    assert(level_count(s@, from as int, from as int) == 0);
    while i < s.len()
        invariant
            from <= i,
            i <= s@.len() || i == from,
            s@.len() <= 64,
            n == level_count(s@, from as int, i as int),
            0 <= n <= i - from,
        decreases s.len() - i,
    {
        if s[i] != 0 {
            n = n + 1;
        }
        i = i + 1;
    }
    proof {
        if from > s@.len() {
            assert(level_count(s@, from as int, s@.len() as int) == 0);
        }
    }
    n
}

/// The approximate bits of the levels that are not zero, among the first `n`.
pub open spec fn rate_sum(s: Seq<i32>, n: int) -> int
    decreases n,
{
    if n <= 0 {
        0
    } else {
        rate_sum(s, n - 1) + if s[n - 1] != 0 {
            level_rate(arith::abs(s[n - 1] as int))
        } else {
            0
        }
    }
}

/// The approximate bits of the levels of a block.
pub fn level_bits(s: &[i32]) -> (r: i64)
    requires
        s@.len() <= 64,
    ensures
        r == rate_sum(s@, s@.len() as int),
        0 <= r <= 1024,
{
    let mut t: i64 = 0;
    let mut i: usize = 0;
    while i < s.len()
        invariant
            i <= s@.len() <= 64,
            t == rate_sum(s@, i as int),
            0 <= t <= 16 * i,
        decreases s.len() - i,
    {
        if s[i] != 0 {
            t = t + rdoq_rate(abs_i32(s[i]) as i64);
        }
        i = i + 1;
    }
    t
}

/// The 4x4 block in column `bx` and row `by` of a dense prediction that is `side` wide.
pub open spec fn pred4(pred: Seq<u8>, side: int, bx: int, by: int) -> Seq<i32> {
    Seq::new(16, |j: int| pred[(4 * by + j / 4) * side + 4 * bx + j % 4] as i32)
}

/// A 4x4 block of the source less its prediction.
pub open spec fn res4(src: Seq<u8>, stride: usize, x0: usize, y0: usize, pred: Seq<i32>) -> Seq<
    i32,
> {
    Seq::new(
        16,
        |j: int| (src[pixels::placed(stride, x0, y0).index(j % 4, j / 4)] - pred[j]) as i32,
    )
}

pub fn pred4_of(pred: &[u8], side: usize, bx: usize, by: usize) -> (r: [i32; 16])
    requires
        side == 8 || side == 16,
        pred@.len() == side * side,
        4 * bx < side,
        4 * by < side,
    ensures
        r@ == pred4(pred@, side as int, bx as int, by as int),
        forall|j: int| 0 <= j < 16 ==> 0 <= #[trigger] r@[j] <= 255,
{
    let mut r: [i32; 16] = [0; 16];
    let mut j: usize = 0;
    while j < 16
        invariant
            j <= 16,
            side == 8 || side == 16,
            pred@.len() == side * side,
            4 * bx < side,
            4 * by < side,
            forall|i: int|
                0 <= i < j ==> #[trigger] r@[i] == pred@[(4 * by + i / 4) * side + 4 * bx + i % 4],
        decreases 16 - j,
    {
        let y: usize = 4 * by + j / 4;
        let x: usize = 4 * bx + j % 4;
        assert(0 <= y * side && y * side + x < side * side) by (nonlinear_arith)
            requires
                0 <= y < side,
                0 <= x < side,
        ;
        r[j] = pred[y * side + x] as i32;
        j = j + 1;
    }
    assert(r@ =~= pred4(pred@, side as int, bx as int, by as int));
    r
}

fn res4_of(src: &[u8], stride: usize, x0: usize, y0: usize, pred: &[i32; 16]) -> (r: [i32; 16])
    requires
        pixels::block_fits(stride as int, x0 as int, y0 as int, 4, 4, src@.len() as int),
        forall|j: int| 0 <= j < 16 ==> 0 <= #[trigger] pred@[j] <= 255,
    ensures
        r@ == res4(src@, stride, x0, y0, pred@),
{
    let r: [i32; 16] = residual(src, stride, x0, y0, pred);
    assert(r@ =~= res4(src@, stride, x0, y0, pred@));
    r
}

/// The samples that the levels of a 4x4 block stand for.
pub open spec fn rec4<K: Kernels>(k: K, q: Seq<i32>, qp: u8, pred: Seq<i32>) -> Seq<u8> {
    kernels::add4_of(k, kernels::deq4_of(k, q, qp), pred)
}

/// The same with the DC coefficient replaced.
pub open spec fn rec4_dc<K: Kernels>(k: K, q: Seq<i32>, qp: u8, dc: i32, pred: Seq<i32>) -> Seq<u8> {
    kernels::add4_of(k, kernels::deq4_of(k, q, qp).update(0, dc), pred)
}

/// A dense square of `side` samples made of 4x4 blocks, given in raster order.
pub open spec fn tiled(side: int, block: spec_fn(int) -> Seq<u8>) -> Seq<u8> {
    Seq::new(
        (side * side) as nat,
        |s: int| {
            let (x, y) = (s % side, s / side);
            block((y / 4) * (side / 4) + x / 4)[(y % 4) * 4 + x % 4]
        },
    )
}

/// The block of the source at the raster position `i` of blocks, `n` in a row, of the square
/// at `(x, y)` fits.
pub open spec fn square_fits(src: Seq<u8>, stride: usize, x: usize, y: usize, side: int) -> bool {
    &&& x + side <= stride
    &&& pixels::block_fits(stride as int, x as int, y as int, side, side, src.len() as int)
}

proof fn lemma_square(src: Seq<u8>, stride: usize, x: usize, y: usize, side: int, bx: int, by: int)
    requires
        square_fits(src, stride, x, y, side),
        side == 8 || side == 16,
        0 <= bx && 4 * bx + 4 <= side,
        0 <= by && 4 * by + 4 <= side,
        src.len() <= usize::MAX,
    ensures
        x + 4 * bx <= usize::MAX,
        y + 4 * by <= usize::MAX,
        pixels::block_fits(
            stride as int,
            x + 4 * bx,
            y + 4 * by,
            4,
            4,
            src.len() as int,
        ),
{
    assert((y + 4 * by) * stride + 3 * stride <= y * stride + (side - 1) * stride) by (
        nonlinear_arith)
        requires
            4 * by + 3 <= side - 1,
            stride >= 0,
    ;
    assert((y + 4 * by) * stride >= y + 4 * by) by (nonlinear_arith)
        requires
            stride >= 1,
            y + 4 * by >= 0,
    ;
}

/// The levels of block `i` of a luma macroblock.
pub open spec fn luma_levels<K: Kernels>(
    k: K,
    on: bool,
    sy: Seq<u8>,
    cw: usize,
    lx: usize,
    ly: usize,
    pred: Seq<u8>,
    qp: u8,
    dz: u8,
    i: int,
) -> Seq<i32> {
    let (bx, by) = (i % 4, i / 4);
    levels(
        k,
        on,
        luma_coefs(k, sy, cw, lx, ly, pred, i),
        qp,
        dz,
        0,
    )
}

/// The transform of the residual of block `i` of a luma macroblock.
pub open spec fn luma_coefs<K: Kernels>(
    k: K,
    sy: Seq<u8>,
    cw: usize,
    lx: usize,
    ly: usize,
    pred: Seq<u8>,
    i: int,
) -> Seq<i32> {
    let (bx, by) = (i % 4, i / 4);
    kernels::fdct4_of(
        k,
        res4(sy, cw, (lx + 4 * bx) as usize, (ly + 4 * by) as usize, pred4(pred, 16, bx, by)),
    )
}

pub fn luma_coefs_of<K: Kernels>(
    k: &K,
    sy: &[u8],
    cw: usize,
    lx: usize,
    ly: usize,
    pred: &[u8; 256],
    i: usize,
) -> (r: [i32; 16])
    requires
        kernels::steady(*k),
        square_fits(sy@, cw, lx, ly, 16),
        i < 16,
    ensures
        r@ == luma_coefs(*k, sy@, cw, lx, ly, pred@, i as int),
{
    let (bx, by): (usize, usize) = (i % 4, i / 4);
    assert(sy.len() == sy@.len());
    proof {
        lemma_square(sy@, cw, lx, ly, 16, bx as int, by as int);
    }
    let pb: [i32; 16] = pred4_of(pred, 16, bx, by);
    let rb: [i32; 16] = res4_of(sy, cw, lx + 4 * bx, ly + 4 * by, &pb);
    fdct4(k, &rb)
}

/// The levels of all blocks of a luma macroblock.
pub fn code_luma<K: Kernels>(
    k: &K,
    on: bool,
    sy: &[u8],
    cw: usize,
    lx: usize,
    ly: usize,
    pred: &[u8; 256],
    qp: u8,
    dz: u8,
) -> (q: [[i32; 16]; 16])
    requires
        kernels::steady(*k),
        square_fits(sy@, cw, lx, ly, 16),
    ensures
        forall|i: int|
            0 <= i < 16 ==> (#[trigger] q@[i])@ == luma_levels(
                *k,
                on,
                sy@,
                cw,
                lx,
                ly,
                pred@,
                qp,
                dz,
                i,
            ),
{
    let mut q: [[i32; 16]; 16] = [[0; 16]; 16];
    let mut i: usize = 0;
    while i < 16
        invariant
            i <= 16,
            kernels::steady(*k),
            square_fits(sy@, cw, lx, ly, 16),
            forall|j: int|
                0 <= j < i ==> (#[trigger] q@[j])@ == luma_levels(
                    *k,
                    on,
                    sy@,
                    cw,
                    lx,
                    ly,
                    pred@,
                    qp,
                    dz,
                    j,
                ),
        decreases 16 - i,
    {
        let c: [i32; 16] = luma_coefs_of(k, sy, cw, lx, ly, pred, i);
        q[i] = rdoq(k, on, &c, qp, dz, 0);
        i = i + 1;
    }
    q
}

/// The four blocks of quarter `b` in the raster of sixteen.
pub open spec fn quarter_coded(q: Seq<[i32; 16]>, b: int) -> bool {
    let i = 8 * (b / 2) + 2 * (b % 2);
    any_level(q[i]@, 0) || any_level(q[i + 1]@, 0) || any_level(q[i + 4]@, 0) || any_level(
        q[i + 5]@,
        0,
    )
}

/// The number whose low four bits are these.
pub open spec fn pattern(a: bool, b: bool, c: bool, d: bool) -> int {
    (if a {
        1int
    } else {
        0
    }) + (if b {
        2int
    } else {
        0
    }) + (if c {
        4int
    } else {
        0
    }) + (if d {
        8int
    } else {
        0
    })
}

pub fn pattern_of(a: bool, b: bool, c: bool, d: bool) -> (r: u32)
    ensures
        r == pattern(a, b, c, d),
        r < 16,
{
    (if a {
        1u32
    } else {
        0
    }) + (if b {
        2u32
    } else {
        0
    }) + (if c {
        4u32
    } else {
        0
    }) + (if d {
        8u32
    } else {
        0
    })
}

/// The luma pattern of sixteen blocks.
pub open spec fn luma_pattern(q: Seq<[i32; 16]>) -> int {
    pattern(quarter_coded(q, 0), quarter_coded(q, 1), quarter_coded(q, 2), quarter_coded(q, 3))
}

fn is_quarter_coded(q: &[[i32; 16]; 16], b: usize) -> (r: bool)
    requires
        b < 4,
    ensures
        r == quarter_coded(q@, b as int),
{
    let i: usize = 8 * (b / 2) + 2 * (b % 2);
    has_level(&q[i], 0) || has_level(&q[i + 1], 0) || has_level(&q[i + 4], 0) || has_level(
        &q[i + 5],
        0,
    )
}

/// The luma pattern of sixteen blocks.
pub fn luma_pattern_of(q: &[[i32; 16]; 16]) -> (r: u32)
    ensures
        r == luma_pattern(q@),
        r < 16,
{
    pattern_of(
        is_quarter_coded(q, 0),
        is_quarter_coded(q, 1),
        is_quarter_coded(q, 2),
        is_quarter_coded(q, 3),
    )
}

/// The samples of a luma macroblock from the levels of its blocks.
pub open spec fn luma_samples<K: Kernels>(
    k: K,
    q: Seq<[i32; 16]>,
    qp: u8,
    pred: Seq<u8>,
) -> Seq<u8> {
    tiled(16, |i: int| rec4(k, q[i]@, qp, pred4(pred, 16, i % 4, i / 4)))
}

/// Write a 4x4 block into a dense square.
pub fn put4(acc: &mut Vec<u8>, side: usize, bx: usize, by: usize, s: &[u8; 16])
    requires
        side == 8 || side == 16,
        old(acc)@.len() == side * side,
        4 * bx + 4 <= side,
        4 * by + 4 <= side,
    ensures
        final(acc)@.len() == side * side,
        forall|t: int|
            0 <= t < side * side ==> #[trigger] final(acc)@[t] == (if (t % (side as int)) / 4 == bx
                && (t / (side as int)) / 4 == by {
                s@[((t / (side as int)) % 4) * 4 + (t % (side as int)) % 4]
            } else {
                old(acc)@[t]
            }),
{
    put_rect(acc, side, side, 4 * bx, 4 * by, 4, 4, s);
}

/// A dense square from its 4x4 blocks.
pub fn zeros_of(n: usize) -> (r: Vec<u8>)
    ensures
        r@.len() == n,
{
    let mut r: Vec<u8> = Vec::new();
    while r.len() < n
        invariant
            r@.len() <= n,
        decreases n - r@.len(),
    {
        r.push(0);
    }
    r
}

/// The samples of a luma macroblock from the levels of its blocks.
pub fn luma_samples_of<K: Kernels>(
    k: &K,
    q: &[[i32; 16]; 16],
    qp: u8,
    pred: &[u8; 256],
) -> (r: Vec<u8>)
    requires
        kernels::steady(*k),
    ensures
        r@ == luma_samples(*k, q@, qp, pred@),
        r@.len() == 256,
{
    let mut acc: Vec<u8> = zeros_of(256);
    let ghost f = |i: int| rec4(*k, q@[i]@, qp, pred4(pred@, 16, i % 4, i / 4));
    let mut i: usize = 0;
    while i < 16
        invariant
            i <= 16,
            kernels::steady(*k),
            acc@.len() == 256,
            f == (|i: int| rec4(*k, q@[i]@, qp, pred4(pred@, 16, i % 4, i / 4))),
            forall|t: int|
                0 <= t < 256 && ((t / 16) / 4) * 4 + (t % 16) / 4 < i ==> #[trigger] acc@[t]
                    == tiled(16, f)[t],
        decreases 16 - i,
    {
        let (bx, by): (usize, usize) = (i % 4, i / 4);
        let pb: [i32; 16] = pred4_of(pred, 16, bx, by);
        let d: [i32; 16] = deq4(k, &q[i], qp);
        let s: [u8; 16] = add4(k, &d, &pb);
        assert(s@ == f(i as int));
        put4(&mut acc, 16, bx, by, &s);
        i = i + 1;
    }
    assert(acc@ =~= tiled(16, f));
    assert(luma_samples(*k, q@, qp, pred@) =~= tiled(16, f));
    acc
}

/// The 8x8 block `b` of a dense 16x16 prediction.
pub open spec fn pred8(pred: Seq<u8>, b: int) -> Seq<i32> {
    Seq::new(64, |j: int| pred[(8 * (b / 2) + j / 8) * 16 + 8 * (b % 2) + j % 8] as i32)
}

/// An 8x8 block of the source less its prediction.
pub open spec fn res8(src: Seq<u8>, stride: usize, x0: usize, y0: usize, pred: Seq<i32>) -> Seq<
    i32,
> {
    Seq::new(
        64,
        |j: int| (src[pixels::placed(stride, x0, y0).index(j % 8, j / 8)] - pred[j]) as i32,
    )
}

/// An 8x8 block of the source less its prediction.
pub fn res8_of(src: &[u8], stride: usize, x0: usize, y0: usize, pred: &[i32; 64]) -> (r: [i32; 64])
    requires
        pixels::block_fits(stride as int, x0 as int, y0 as int, 8, 8, src@.len() as int),
        forall|j: int| 0 <= j < 64 ==> 0 <= #[trigger] pred@[j] <= 255,
    ensures
        r@ == res8(src@, stride, x0, y0, pred@),
{
    proof {
        pixels::lemma_spot(stride, x0, y0, 8, 8, src@.len() as int);
    }
    assert(src.len() == src@.len());
    let at: At = at_spot(stride, x0, y0);
    let mut r: [i32; 64] = [0; 64];
    let mut j: usize = 0;
    while j < 64
        invariant
            j <= 64,
            at == pixels::placed(stride, x0, y0),
            at.holds(8, 8, src@.len() as int),
            forall|i: int| 0 <= i < 64 ==> 0 <= #[trigger] pred@[i] <= 255,
            forall|i: int|
                0 <= i < j ==> #[trigger] r@[i] == src@[at.index(i % 8, i / 8)] - pred@[i],
        decreases 64 - j,
    {
        proof {
            pixels::lemma_holds(at, 8, 8, src@.len() as int, j as int % 8, j as int / 8);
        }
        r[j] = sample(src, at, j % 8, j / 8) as i32 - pred[j];
        j = j + 1;
    }
    assert(r@ =~= res8(src@, stride, x0, y0, pred@));
    r
}

fn pred8_of(pred: &[u8; 256], b: usize) -> (r: [i32; 64])
    requires
        b < 4,
    ensures
        r@ == pred8(pred@, b as int),
        forall|j: int| 0 <= j < 64 ==> 0 <= #[trigger] r@[j] <= 255,
{
    let mut r: [i32; 64] = [0; 64];
    let mut j: usize = 0;
    while j < 64
        invariant
            j <= 64,
            b < 4,
            forall|i: int|
                0 <= i < j ==> #[trigger] r@[i] == pred@[(8 * (b as int / 2) + i / 8) * 16 + 8 * (b as int
                    % 2) + i % 8],
        decreases 64 - j,
    {
        r[j] = pred[(8 * (b / 2) + j / 8) * 16 + 8 * (b % 2) + j % 8] as i32;
        j = j + 1;
    }
    assert(r@ =~= pred8(pred@, b as int));
    r
}

/// The levels of the 8x8 block `b` of a luma macroblock.
pub open spec fn luma8_levels<K: Kernels>(
    k: K,
    sy: Seq<u8>,
    cw: usize,
    lx: usize,
    ly: usize,
    pred: Seq<u8>,
    qp: u8,
    dz: u8,
    b: int,
) -> Seq<i32> {
    kernels::quant8_of(
        k,
        res8(
            sy,
            cw,
            (lx + 8 * (b % 2)) as usize,
            (ly + 8 * (b / 2)) as usize,
            pred8(pred, b),
        ),
        qp,
        dz,
    )
}

/// A dense 16x16 square made of 8x8 blocks.
pub open spec fn tiled8(block: spec_fn(int) -> Seq<u8>) -> Seq<u8> {
    Seq::new(
        256,
        |s: int| {
            let (x, y) = (s % 16, s / 16);
            block((y / 8) * 2 + x / 8)[(y % 8) * 8 + x % 8]
        },
    )
}

/// The samples of a luma macroblock from the levels of its 8x8 blocks.
pub open spec fn luma8_samples<K: Kernels>(
    k: K,
    q: Seq<[i32; 64]>,
    qp: u8,
    pred: Seq<u8>,
) -> Seq<u8> {
    tiled8(|b: int| kernels::add8_of(k, q[b]@, qp, pred8(pred, b)))
}

/// The luma pattern of four 8x8 blocks.
pub open spec fn luma8_pattern(q: Seq<[i32; 64]>) -> int {
    pattern(
        any_level(q[0]@, 0),
        any_level(q[1]@, 0),
        any_level(q[2]@, 0),
        any_level(q[3]@, 0),
    )
}

/// The approximate bits of the levels of the first `n` 8x8 blocks.
pub open spec fn luma8_rate(q: Seq<[i32; 64]>, n: int) -> int
    decreases n,
{
    if n <= 0 {
        0
    } else {
        luma8_rate(q, n - 1) + rate_sum(q[n - 1]@, 64)
    }
}

/// The approximate bits of the levels of the first `n` 4x4 blocks.
pub open spec fn luma_rate(q: Seq<[i32; 16]>, n: int) -> int
    decreases n,
{
    if n <= 0 {
        0
    } else {
        luma_rate(q, n - 1) + rate_sum(q[n - 1]@, 16)
    }
}

/// The approximate bits of the levels of sixteen 4x4 blocks.
pub fn luma_bits(q: &[[i32; 16]; 16]) -> (r: i64)
    ensures
        r == luma_rate(q@, 16),
        0 <= r <= 16384,
{
    let mut t: i64 = 0;
    let mut i: usize = 0;
    while i < 16
        invariant
            i <= 16,
            t == luma_rate(q@, i as int),
            0 <= t <= 1024 * i,
        decreases 16 - i,
    {
        t = t + level_bits(&q[i]);
        i = i + 1;
    }
    t
}

/// The luma of a macroblock coded by 8x8 transforms: levels, pattern, approximate bits,
/// samples.
pub struct Luma8 {
    pub q: [[i32; 64]; 4],
    pub cbp: u32,
    pub rate: i64,
    pub rec: Vec<u8>,
    pub ssd: i64,
}

/// The samples of a luma macroblock from the levels of its 8x8 blocks.
pub fn luma8_samples_of<K: Kernels>(
    k: &K,
    q: &[[i32; 64]; 4],
    qp: u8,
    pred: &[u8; 256],
) -> (r: Vec<u8>)
    requires
        kernels::steady(*k),
    ensures
        r@ == luma8_samples(*k, q@, qp, pred@),
        r@.len() == 256,
{
    let mut acc: Vec<u8> = zeros_of(256);
    let ghost f = |b: int| kernels::add8_of(*k, q@[b]@, qp, pred8(pred@, b));
    let mut b: usize = 0;
    while b < 4
        invariant
            b <= 4,
            kernels::steady(*k),
            acc@.len() == 256,
            f == (|b: int| kernels::add8_of(*k, q@[b]@, qp, pred8(pred@, b))),
            forall|t: int|
                0 <= t < 256 && ((t / 16) / 8) * 2 + (t % 16) / 8 < b ==> #[trigger] acc@[t]
                    == tiled8(f)[t],
        decreases 4 - b,
    {
        let pb: [i32; 64] = pred8_of(pred, b);
        let s: [u8; 64] = add8(k, &q[b], qp, &pb);
        assert(s@ == f(b as int));
        put_rect(&mut acc, 16, 16, 8 * (b % 2), 8 * (b / 2), 8, 8, &s);
        b = b + 1;
    }
    assert(acc@ =~= tiled8(f));
    assert(luma8_samples(*k, q@, qp, pred@) =~= tiled8(f));
    acc
}

/// Code the luma of an inter macroblock by 8x8 transforms.
pub fn plan_inter8_luma<K: Kernels>(
    k: &K,
    sy: &[u8],
    cw: usize,
    lx: usize,
    ly: usize,
    pred: &[u8; 256],
    qp: u8,
) -> (r: Luma8)
    requires
        kernels::steady(*k),
        square_fits(sy@, cw, lx, ly, 16),
    ensures
        forall|b: int|
            0 <= b < 4 ==> (#[trigger] r.q@[b])@ == luma8_levels(
                *k,
                sy@,
                cw,
                lx,
                ly,
                pred@,
                qp,
                6,
                b,
            ),
        r.cbp == luma8_pattern(r.q@),
        r.cbp < 16,
        r.rate == luma8_rate(r.q@, 4),
        0 <= r.rate <= 4096,
        r.rec@ == luma8_samples(*k, r.q@, qp, pred@),
        r.rec@.len() == 256,
        r.ssd == pixels::ssd(r.rec@, pixels::dense(16), sy@, pixels::placed(cw, lx, ly), 16, 256),
        0 <= r.ssd <= 65025 * 256,
{
    let mut q: [[i32; 64]; 4] = [[0; 64]; 4];
    let mut rate: i64 = 0;
    let mut b: usize = 0;
    assert(sy.len() == sy@.len());
    while b < 4
        invariant
            b <= 4,
            kernels::steady(*k),
            square_fits(sy@, cw, lx, ly, 16),
            sy@.len() <= usize::MAX,
            forall|j: int|
                0 <= j < b ==> (#[trigger] q@[j])@ == luma8_levels(
                    *k,
                    sy@,
                    cw,
                    lx,
                    ly,
                    pred@,
                    qp,
                    6,
                    j,
                ),
            rate == luma8_rate(q@, b as int),
            0 <= rate <= 1024 * b,
        decreases 4 - b,
    {
        proof {
            lemma_quarter_fits(sy@, cw, lx, ly, b as int);
        }
        let pb: [i32; 64] = pred8_of(pred, b);
        let rb: [i32; 64] = res8_of(sy, cw, lx + 8 * (b % 2), ly + 8 * (b / 2), &pb);
        let ghost before = q@;
        q[b] = quant8(k, &rb, qp, 6);
        proof {
            lemma_luma8_rate_ext(before, q@, b as int);
        }
        rate = rate + level_bits(&q[b]);
        b = b + 1;
    }
    let cbp: u32 = pattern_of(
        has_level(&q[0], 0),
        has_level(&q[1], 0),
        has_level(&q[2], 0),
        has_level(&q[3], 0),
    );
    let rec: Vec<u8> = luma8_samples_of(k, &q, qp, pred);
    let ssd: i64 = square_ssd(&rec, sy, cw, lx, ly);
    Luma8 { q, cbp, rate, rec, ssd }
}

proof fn lemma_luma8_rate_ext(a: Seq<[i32; 64]>, b: Seq<[i32; 64]>, n: int)
    requires
        forall|i: int| 0 <= i < n ==> #[trigger] a[i] == b[i],
    ensures
        luma8_rate(a, n) == luma8_rate(b, n),
    decreases n,
{
    if n > 0 {
        lemma_luma8_rate_ext(a, b, n - 1);
    }
}

/// A quarter of a macroblock of the source fits.
pub proof fn lemma_quarter_fits(sy: Seq<u8>, cw: usize, lx: usize, ly: usize, b: int)
    requires
        square_fits(sy, cw, lx, ly, 16),
        0 <= b < 4,
        sy.len() <= usize::MAX,
    ensures
        lx + 8 * (b % 2) <= usize::MAX,
        ly + 8 * (b / 2) <= usize::MAX,
        pixels::block_fits(cw as int, lx + 8 * (b % 2), ly + 8 * (b / 2), 8, 8, sy.len() as int),
{
    let d = 8 * (b / 2);
    assert((ly + d) * cw + 7 * cw <= ly * cw + 15 * cw) by (nonlinear_arith)
        requires
            d + 7 <= 15,
            cw >= 0,
    ;
    assert((ly + d) * cw >= ly + d) by (nonlinear_arith)
        requires
            cw >= 1,
            ly + d >= 0,
    ;
}

/// The squared distance of 256 dense samples to the source.
pub fn square_ssd(rec: &Vec<u8>, sy: &[u8], cw: usize, lx: usize, ly: usize) -> (r: i64)
    requires
        rec@.len() == 256,
        square_fits(sy@, cw, lx, ly, 16),
    ensures
        r == pixels::ssd(rec@, pixels::dense(16), sy@, pixels::placed(cw, lx, ly), 16, 256),
        0 <= r <= 65025 * 256,
{
    proof {
        pixels::lemma_spot(cw, lx, ly, 16, 16, sy@.len() as int);
    }
    assert(sy.len() == sy@.len());
    ssd_px(rec, At { base: 0, stride: 16 }, sy, at_spot(cw, lx, ly), 16, 16)
}

/// The transform of the residual of block `i` of a chroma plane.
pub open spec fn chroma_coefs<K: Kernels>(
    k: K,
    src: Seq<u8>,
    ccw: usize,
    cx: usize,
    cy: usize,
    pred: Seq<u8>,
    i: int,
) -> Seq<i32> {
    let (bx, by) = (i % 2, i / 2);
    kernels::fdct4_of(
        k,
        res4(src, ccw, (cx + 4 * bx) as usize, (cy + 4 * by) as usize, pred4(pred, 8, bx, by)),
    )
}

/// The coefficients of chroma block `i` of a macroblock.
pub fn chroma_coefs_of<K: Kernels>(
    k: &K,
    src: &[u8],
    ccw: usize,
    cx: usize,
    cy: usize,
    pred: &[u8; 64],
    i: usize,
) -> (r: [i32; 16])
    requires
        kernels::steady(*k),
        square_fits(src@, ccw, cx, cy, 8),
        i < 4,
    ensures
        r@ == chroma_coefs(*k, src@, ccw, cx, cy, pred@, i as int),
{
    assert(src.len() == src@.len());
    let (bx, by): (usize, usize) = (i % 2, i / 2);
    proof {
        lemma_square(src@, ccw, cx, cy, 8, bx as int, by as int);
    }
    let pb: [i32; 16] = pred4_of(pred, 8, bx, by);
    let rb: [i32; 16] = res4_of(src, ccw, cx + 4 * bx, cy + 4 * by, &pb);
    fdct4(k, &rb)
}

/// How a chroma plane is coded.
#[derive(Clone, Copy)]
pub struct ChromaWay {
    pub on: bool,
    pub qpc: u8,
    pub dz: u8,
    pub intra: bool,
}

/// The AC levels of block `i` of a chroma plane.
pub open spec fn chroma_levels<K: Kernels>(
    k: K,
    way: ChromaWay,
    src: Seq<u8>,
    ccw: usize,
    cx: usize,
    cy: usize,
    pred: Seq<u8>,
    i: int,
) -> Seq<i32> {
    levels(
        k,
        way.on,
        chroma_coefs(k, src, ccw, cx, cy, pred, i),
        way.qpc,
        way.dz,
        1,
    ).update(0, 0)
}

/// The first level of each of the first `n` blocks is zero: it is coded with those of the others.
pub open spec fn ac_only(q: Seq<[i32; 16]>, n: int) -> bool {
    forall|i: int| 0 <= i < n ==> (#[trigger] q[i])@[0] == 0
}

/// The DC levels of a chroma plane.
pub open spec fn chroma_dc<K: Kernels>(
    k: K,
    way: ChromaWay,
    src: Seq<u8>,
    ccw: usize,
    cx: usize,
    cy: usize,
    pred: Seq<u8>,
) -> Seq<i32> {
    kernels::cdc_of(
        k,
        Seq::new(4, |i: int| chroma_coefs(k, src, ccw, cx, cy, pred, i)[0]),
        way.qpc,
        way.intra,
    )
}

/// The samples of a chroma plane from its levels.
pub open spec fn chroma_samples<K: Kernels>(
    k: K,
    qpc: u8,
    dc: Seq<i32>,
    q: Seq<[i32; 16]>,
    pred: Seq<u8>,
) -> Seq<u8> {
    tiled(
        8,
        |i: int|
            rec4_dc(
                k,
                q[i]@,
                qpc,
                kernels::cdc_inv_of(k, dc, qpc)[i],
                pred4(pred, 8, i % 2, i / 2),
            ),
    )
}

/// A coded chroma plane.
pub struct ChromaCode {
    pub dc: [i32; 4],
    pub q: [[i32; 16]; 4],
    pub rec: Vec<u8>,
}

impl ChromaCode {
    /// Some AC level is not zero.
    pub open spec fn any_ac(self) -> bool {
        any_level(self.q@[0]@, 1) || any_level(self.q@[1]@, 1) || any_level(self.q@[2]@, 1)
            || any_level(self.q@[3]@, 1)
    }

    /// Whether some AC level is not zero.
    pub fn has_ac(&self) -> (r: bool)
        ensures
            r == self.any_ac(),
    {
        has_level(&self.q[0], 1) || has_level(&self.q[1], 1) || has_level(&self.q[2], 1)
            || has_level(&self.q[3], 1)
    }

    /// This is what comes of coding a plane of the source against its prediction.
    pub open spec fn codes<K: Kernels>(
        self,
        k: K,
        way: ChromaWay,
        src: Seq<u8>,
        ccw: usize,
        cx: usize,
        cy: usize,
        pred: Seq<u8>,
    ) -> bool {
        &&& self.dc@ == chroma_dc(k, way, src, ccw, cx, cy, pred)
        &&& forall|i: int|
            0 <= i < 4 ==> (#[trigger] self.q@[i])@ == chroma_levels(
                k,
                way,
                src,
                ccw,
                cx,
                cy,
                pred,
                i,
            )
        &&& ac_only(self.q@, 4)
        &&& self.rec@ == chroma_samples(k, way.qpc, self.dc@, self.q@, pred)
        &&& self.rec@.len() == 64
    }
}

/// Code a chroma plane of a macroblock against its prediction.
pub fn code_chroma<K: Kernels>(
    k: &K,
    way: ChromaWay,
    src: &[u8],
    ccw: usize,
    cx: usize,
    cy: usize,
    pred: &[u8; 64],
) -> (r: ChromaCode)
    requires
        kernels::steady(*k),
        square_fits(src@, ccw, cx, cy, 8),
    ensures
        r.codes(*k, way, src@, ccw, cx, cy, pred@),
{
    assert(src.len() == src@.len());
    let mut dcs: [i32; 4] = [0; 4];
    let mut q: [[i32; 16]; 4] = [[0; 16]; 4];
    let mut i: usize = 0;
    while i < 4
        invariant
            i <= 4,
            kernels::steady(*k),
            square_fits(src@, ccw, cx, cy, 8),
            src@.len() <= usize::MAX,
            forall|j: int|
                0 <= j < i ==> #[trigger] dcs@[j] == chroma_coefs(
                    *k,
                    src@,
                    ccw,
                    cx,
                    cy,
                    pred@,
                    j,
                )[0],
            forall|j: int|
                0 <= j < i ==> (#[trigger] q@[j])@ == chroma_levels(
                    *k,
                    way,
                    src@,
                    ccw,
                    cx,
                    cy,
                    pred@,
                    j,
                ),
            ac_only(q@, i as int),
        decreases 4 - i,
    {
        let c: [i32; 16] = chroma_coefs_of(k, src, ccw, cx, cy, pred, i);
        dcs[i] = c[0];
        let mut l: [i32; 16] = rdoq(k, way.on, &c, way.qpc, way.dz, 1);
        l[0] = 0;
        q[i] = l;
        i = i + 1;
    }
    assert(dcs@ =~= Seq::new(4, |i: int| chroma_coefs(*k, src@, ccw, cx, cy, pred@, i)[0]));
    let dc: [i32; 4] = cdc(k, &dcs, way.qpc, way.intra);
    let rec: Vec<u8> = chroma_samples_of(k, way.qpc, &dc, &q, pred);
    ChromaCode { dc, q, rec }
}

/// The samples of a chroma plane from its levels.
fn chroma_samples_of<K: Kernels>(
    k: &K,
    qpc: u8,
    dc: &[i32; 4],
    q: &[[i32; 16]; 4],
    pred: &[u8; 64],
) -> (r: Vec<u8>)
    requires
        kernels::steady(*k),
    ensures
        r@ == chroma_samples(*k, qpc, dc@, q@, pred@),
        r@.len() == 64,
{
    let inv: [i32; 4] = cdc_inv(k, dc, qpc);
    let mut acc: Vec<u8> = zeros_of(64);
    let ghost f = |i: int|
        rec4_dc(
            *k,
            q@[i]@,
            qpc,
            kernels::cdc_inv_of(*k, dc@, qpc)[i],
            pred4(pred@, 8, i % 2, i / 2),
        );
    let mut i: usize = 0;
    while i < 4
        invariant
            i <= 4,
            kernels::steady(*k),
            inv@ == kernels::cdc_inv_of(*k, dc@, qpc),
            acc@.len() == 64,
            f == (|i: int|
                rec4_dc(
                    *k,
                    q@[i]@,
                    qpc,
                    kernels::cdc_inv_of(*k, dc@, qpc)[i],
                    pred4(pred@, 8, i % 2, i / 2),
                )),
            forall|t: int|
                0 <= t < 64 && ((t / 8) / 4) * 2 + (t % 8) / 4 < i ==> #[trigger] acc@[t] == tiled(
                    8,
                    f,
                )[t],
        decreases 4 - i,
    {
        let (bx, by): (usize, usize) = (i % 2, i / 2);
        let pb: [i32; 16] = pred4_of(pred, 8, bx, by);
        let mut d: [i32; 16] = deq4(k, &q[i], qpc);
        d[0] = inv[i];
        let s: [u8; 16] = add4(k, &d, &pb);
        assert(s@ == f(i as int));
        put4(&mut acc, 8, bx, by, &s);
        i = i + 1;
    }
    assert(acc@ =~= tiled(8, f));
    assert(chroma_samples(*k, qpc, dc@, q@, pred@) =~= tiled(8, f));
    acc
}

/// The chroma pattern: 2 with an AC level, 1 with a DC level only, else 0.
pub open spec fn chroma_pattern(u: ChromaCode, v: ChromaCode) -> int {
    if u.any_ac() || v.any_ac() {
        2
    } else if any_level(u.dc@, 0) || any_level(v.dc@, 0) {
        1
    } else {
        0
    }
}

/// The chroma pattern.
pub fn chroma_pattern_of(u: &ChromaCode, v: &ChromaCode) -> (r: u32)
    ensures
        r == chroma_pattern(*u, *v),
        r <= 2,
{
    if u.has_ac() || v.has_ac() {
        2
    } else if has_level(&u.dc, 0) || has_level(&v.dc, 0) {
        1
    } else {
        0
    }
}

/// Every coefficient of an 8x8 block is in its scan, so a block with a level has a last one.
pub proof fn lemma_marked(q: Seq<[i32; 64]>)
    ensures
        plan::marked_blocks_coded(q, luma8_pattern(q)),
{
    let cbp = luma8_pattern(q);
    assert forall|b: int| 0 <= b < 4 && #[trigger] plan::cbp_bit(cbp, b) implies residual::last_nz(
        scan::zigzag8(q[b]@),
        64,
    ) >= 0 by {
        assert(any_level(q[b]@, 0));
        let p = choose|p: int| 0 <= p < q[b]@.len() && #[trigger] q[b]@[p] != 0;
        scan::law_zigzag8_is_a_permutation(p);
        let i = choose|i: int| 0 <= i < 64 && #[trigger] scan::ZIGZAG_8X8[i] == p;
        let z = scan::zigzag8(q[b]@);
        assert(z[i] == q[b]@[p]);
        residual::lemma_last_nz(z, 64);
    }
}

} // verus!
