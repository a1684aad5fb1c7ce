//! CABAC residual blocks: the coded-block flag, the significance map and the levels.
use vstd::prelude::*;
use crate::arith;
use crate::arith::{abs_i32, bit_u32, bit_usize};
use crate::binarize;
use crate::binarize::cb_ueg_level;
use crate::cabac;
use crate::cabac::{Bin, CabacEncoder};

verus! {

/// The cell of each 4x4 block in the padded count cache: sixteen luma blocks in
/// z-order, four Cb blocks, four Cr blocks. The row stride is 8; the cell above a block
/// is 8 before its own, the cell left of it 1 before.
pub const CB_NZC_CACHE: [usize; 24] = [
    9,
    10,
    17,
    18,
    11,
    12,
    19,
    20,
    25,
    26,
    33,
    34,
    27,
    28,
    35,
    36,
    14,
    15,
    22,
    23,
    38,
    39,
    46,
    47,
];

/// The last scan position of each residual kind.
pub const CB_RES_MAXPOS: [usize; 11] = [0, 15, 14, 15, 3, 14, 63, 3, 3, 14, 14];

/// The largest context step of the levels above one, for each residual kind.
pub const CB_RES_MAXC2: [usize; 11] = [0, 4, 4, 4, 3, 4, 4, 3, 3, 4, 4];

/// The offset of the coded-block-flag contexts of each residual kind.
pub const CB_RES_CBF: [usize; 11] = [0, 0, 4, 8, 12, 16, 0, 12, 12, 16, 16];

/// The offset of the significance contexts of each residual kind.
pub const CB_RES_MAP: [usize; 11] = [0, 0, 15, 29, 44, 47, 0, 44, 44, 47, 47];

/// The offset of the level contexts of each residual kind.
pub const CB_RES_ONE: [usize; 11] = [0, 0, 10, 20, 30, 39, 199, 30, 30, 39, 39];

/// The significance context step of each position of an 8x8 block.
pub const SIG8X8: [u8; 63] = [
    0, 1, 2, 3, 4, 5, 5, 4, 4, 3, 3, 4, 4, 4, 5, 5,
    4, 4, 4, 4, 3, 3, 6, 7, 7, 7, 8, 9, 10, 9, 8, 7,
    7, 6, 11, 12, 13, 11, 6, 7, 8, 9, 14, 10, 9, 8, 6, 11,
    12, 13, 11, 6, 9, 14, 10, 9, 11, 12, 13, 11, 14, 10, 12,
];

/// The last-coefficient context step of each position of an 8x8 block.
pub const LAST8X8: [u8; 63] = [
    0, 1, 1, 1, 1, 1, 1, 1, 1, 1, 1, 1, 1, 1, 1, 1,
    2, 2, 2, 2, 2, 2, 2, 2, 2, 2, 2, 2, 2, 2, 2, 2,
    3, 3, 3, 3, 3, 3, 3, 3, 4, 4, 4, 4, 4, 4, 4, 4,
    5, 5, 5, 5, 6, 6, 6, 6, 7, 7, 7, 7, 8, 8, 8,
];

/// Residual kind: DC of an `I_16x16` macroblock.
pub const CB_RP_I16_DC: usize = 1;

/// Residual kind: AC of an `I_16x16` macroblock.
pub const CB_RP_I16_AC: usize = 2;

/// Residual kind: a whole luma 4x4 block.
pub const CB_RP_LUMA_4X4: usize = 3;

/// Residual kind: a whole luma 8x8 block.
pub const CB_RP_LUMA_8X8: usize = 6;

/// Residual kind: chroma DC (Cb; Cr is the next kind).
pub const CB_RP_CHROMA_DC: usize = 7;

/// Residual kind: chroma AC (Cb; Cr is the next kind).
pub const CB_RP_CHROMA_AC: usize = 9;

/// The kinds whose coded-block flag is kept in the per-macroblock DC mask.
pub open spec fn is_dc_kind(rp: int) -> bool {
    rp == 1 || rp == 7 || rp == 8
}

/// The context of the significance flag at scan position `i`.
pub open spec fn sig_ctx(rp: int, i: int) -> int {
    if rp == 6 {
        402 + SIG8X8[i]
    } else {
        105 + CB_RES_MAP[rp] + i
    }
}

/// The context of the last-coefficient flag at scan position `i`.
pub open spec fn last_ctx(rp: int, i: int) -> int {
    if rp == 6 {
        417 + LAST8X8[i]
    } else {
        166 + CB_RES_MAP[rp] + i
    }
}

/// How many of the first `n` coefficients are not zero.
pub open spec fn count_nz(co: Seq<i32>, n: int) -> nat
    decreases n,
{
    if n <= 0 {
        0
    } else {
        count_nz(co, n - 1) + (if co[n - 1] != 0 {
            1nat
        } else {
            0
        })
    }
}

/// The position of the last of the first `n` coefficients that is not zero, or -1.
pub open spec fn last_nz(co: Seq<i32>, n: int) -> int
    decreases n,
{
    if n <= 0 {
        -1
    } else if co[n - 1] != 0 {
        n - 1
    } else {
        last_nz(co, n - 1)
    }
}

/// The significance map from position `i` on: a flag for each position before the last
/// one of the kind, and behind each set flag whether `last` is reached.
pub open spec fn sig_bins(co: Seq<i32>, rp: int, i: int, last: int) -> Seq<Bin>
    decreases CB_RES_MAXPOS[rp] - i,
{
    if i >= CB_RES_MAXPOS[rp] {
        Seq::empty()
    } else if co[i] == 0 {
        seq![Bin::dec(sig_ctx(rp, i), 0)] + sig_bins(co, rp, i + 1, last)
    } else if i == last {
        seq![Bin::dec(sig_ctx(rp, i), 1), Bin::dec(last_ctx(rp, i), 1)]
    } else {
        seq![Bin::dec(sig_ctx(rp, i), 1), Bin::dec(last_ctx(rp, i), 0)] + sig_bins(
            co,
            rp,
            i + 1,
            last,
        )
    }
}

/// One level: whether its magnitude exceeds one, the rest of the magnitude, the sign.
pub open spec fn level_one_bins(rp: int, v: int, c1: int, c2: int) -> Seq<Bin> {
    let av = arith::abs(v);
    seq![Bin::dec(227 + CB_RES_ONE[rp] + c1, cabac::bit(av > 1))] + (if av > 1 {
        binarize::ueg_level_bins(232 + CB_RES_ONE[rp] + c2, (av - 2) as nat)
    } else {
        Seq::empty()
    }) + seq![Bin::byp(cabac::bit(v < 0))]
}

/// The context step of the next level's first bin.
pub open spec fn next_c1(v: int, c1: int) -> int {
    if arith::abs(v) > 1 {
        0
    } else if c1 != 0 {
        arith::min(c1 + 1, 4)
    } else {
        0
    }
}

/// The context step of the next level's magnitude.
pub open spec fn next_c2(rp: int, v: int, c2: int) -> int {
    if arith::abs(v) > 1 {
        arith::min(c2 + 1, CB_RES_MAXC2[rp] as int)
    } else {
        c2
    }
}

/// The levels of the first `n` coefficients, last one first.
pub open spec fn level_bins(co: Seq<i32>, rp: int, n: int, c1: int, c2: int) -> Seq<Bin>
    decreases n,
{
    if n <= 0 {
        Seq::empty()
    } else if co[n - 1] == 0 {
        level_bins(co, rp, n - 1, c1, c2)
    } else {
        let v = co[n - 1] as int;
        level_one_bins(rp, v, c1, c2) + level_bins(
            co,
            rp,
            n - 1,
            next_c1(v, c1),
            next_c2(rp, v, c2),
        )
    }
}

/// One residual block of kind `rp`: the coded-block flag at step `inc` (the 8x8 kind has
/// none), then, if a coefficient is not zero, the significance map and the levels.
pub open spec fn residual_bins(co: Seq<i32>, rp: int, inc: int) -> Seq<Bin> {
    let n = CB_RES_MAXPOS[rp] + 1;
    let coded = last_nz(co, n) >= 0;
    (if rp == 6 {
        Seq::empty()
    } else {
        seq![Bin::dec(85 + CB_RES_CBF[rp] + inc, cabac::bit(coded))]
    }) + (if coded {
        sig_bins(co, rp, 0, last_nz(co, n)) + level_bins(co, rp, n, 1, 0)
    } else {
        Seq::empty()
    })
}

/// Whether the block of a neighbour counts as coded: a cell of 0xff is no neighbour and
/// counts as `intra`.
pub open spec fn cell_coded(cell: u8, intra: bool) -> int {
    if cell != 0xff {
        cabac::bit(cell != 0)
    } else {
        cabac::bit(intra)
    }
}

/// Whether the DC block of kind `rp` of a neighbour macroblock is coded.
pub open spec fn mask_coded(mask: Option<u16>, rp: int, intra: bool) -> int {
    match mask {
        Some(m) => ((m >> (rp as u16)) & 1) as int,
        None => cabac::bit(intra),
    }
}

/// The context step of a coded-block flag: 1 for the left neighbour, 2 for the upper one.
/// `ndc` holds the DC masks of the upper and the left macroblock.
pub open spec fn cbf_inc(
    nzc: Seq<u8>,
    iz: int,
    rp: int,
    intra: bool,
    ndc: (Option<u16>, Option<u16>),
) -> int {
    if is_dc_kind(rp) {
        mask_coded(ndc.1, rp, intra) + 2 * mask_coded(ndc.0, rp, intra)
    } else {
        cell_coded(nzc[CB_NZC_CACHE[iz] - 1], intra) + 2 * cell_coded(
            nzc[CB_NZC_CACHE[iz] - 8],
            intra,
        )
    }
}

/// The count cache behind a block with `total` coefficients: an 8x8 block fills the four
/// cells it covers, a 4x4 block its own, a DC block none.
pub open spec fn nzc_after(nzc: Seq<u8>, iz: int, rp: int, total: u8) -> Seq<u8> {
    if rp == 6 {
        nzc.update(CB_NZC_CACHE[iz] as int, total).update(
            CB_NZC_CACHE[arith::min(iz + 1, 23)] as int,
            total,
        ).update(CB_NZC_CACHE[arith::min(iz + 2, 23)] as int, total).update(
            CB_NZC_CACHE[arith::min(iz + 3, 23)] as int,
            total,
        )
    } else if is_dc_kind(rp) {
        nzc
    } else {
        nzc.update(CB_NZC_CACHE[iz] as int, total)
    }
}

/// The DC mask behind a block: a coded DC block sets the bit of its kind.
pub open spec fn dc_mask_after(mask: u16, rp: int, coded: bool) -> u16 {
    if is_dc_kind(rp) && coded {
        mask | (1u16 << (rp as u16))
    } else {
        mask
    }
}

pub proof fn lemma_last_nz(co: Seq<i32>, n: int)
    requires
        0 <= n <= co.len(),
    ensures
        -1 <= last_nz(co, n) < n || (n == 0 && last_nz(co, n) == -1),
        last_nz(co, n) >= 0 ==> co[last_nz(co, n)] != 0,
        forall|i: int| last_nz(co, n) < i < n ==> co[i] == 0,
        (last_nz(co, n) >= 0) == (count_nz(co, n) > 0),
        count_nz(co, n) <= n,
    decreases n,
{
    if n > 0 {
        lemma_last_nz(co, n - 1);
    }
}

/// How many coefficients at the start of `coeffs`, up to `maxpos`, are not zero, and where
/// the last of them stands.
fn scan_nz(coeffs: &[i32], maxpos: usize) -> (r: (u32, usize))
    requires
        maxpos <= 63,
        maxpos < coeffs@.len(),
    ensures
        r.0 == count_nz(coeffs@, maxpos + 1),
        r.0 > 0 ==> r.1 == last_nz(coeffs@, maxpos + 1),
        r.0 <= 64,
{
    let mut n: u32 = 0;
    let mut last: usize = 0;
    let mut i: usize = 0;
    while i <= maxpos
        invariant
            maxpos <= 63,
            maxpos < coeffs@.len(),
            i <= maxpos + 1,
            n <= i,
            n == count_nz(coeffs@, i as int),
            n > 0 ==> last == last_nz(coeffs@, i as int),
        decreases maxpos + 1 - i,
    {
        proof {
            lemma_last_nz(coeffs@, i as int);
        }
        if coeffs[i] != 0 {
            n = n + 1;
            last = i;
        }
        i = i + 1;
    }
    (n, last)
}

/// Append the significance map.
fn cb_sig_map(cab: &mut CabacEncoder, rp: usize, coeffs: &[i32], last: usize)
    requires
        rp <= 10,
        CB_RES_MAXPOS[rp as int] < coeffs@.len(),
        last == last_nz(coeffs@, CB_RES_MAXPOS[rp as int] + 1),
    ensures
        final(cab)@ == old(cab)@ + sig_bins(coeffs@, rp as int, 0, last as int),
{
    let maxpos: usize = CB_RES_MAXPOS[rp];
    let map: usize = 105 + CB_RES_MAP[rp];
    let lst: usize = 166 + CB_RES_MAP[rp];
    let ghost whole = sig_bins(coeffs@, rp as int, 0, last as int);
    let ghost start = cab@;
    let mut i: usize = 0;
    assert(cab@ + sig_bins(coeffs@, rp as int, i as int, last as int) == start + whole);
    while i < maxpos
        invariant_except_break
            cab@ + sig_bins(coeffs@, rp as int, i as int, last as int) == start + whole,
        invariant
            rp <= 10,
            maxpos == CB_RES_MAXPOS[rp as int],
            maxpos <= 63,
            maxpos < coeffs@.len(),
            map == 105 + CB_RES_MAP[rp as int],
            lst == 166 + CB_RES_MAP[rp as int],
            CB_RES_MAP[rp as int] <= 47,
            i <= maxpos,
        ensures
            cab@ == start + whole,
        decreases maxpos - i,
    {
        let ghost before = cab@;
        let sctx: usize = if rp == CB_RP_LUMA_8X8 {
            402 + SIG8X8[i] as usize
        } else {
            map + i
        };
        let lctx: usize = if rp == CB_RP_LUMA_8X8 {
            417 + LAST8X8[i] as usize
        } else {
            lst + i
        };
        let s: bool = coeffs[i] != 0;
        cab.encode_decision(sctx, bit_u32(s));
        if s {
            let is_last: bool = i == last;
            cab.encode_decision(lctx, bit_u32(is_last));
            if is_last {
                assert(cab@ =~= before + sig_bins(coeffs@, rp as int, i as int, last as int));
                break ;
            }
        }
        assert(cab@ + sig_bins(coeffs@, rp as int, i + 1, last as int) =~= before + sig_bins(
            coeffs@,
            rp as int,
            i as int,
            last as int,
        ));
        i = i + 1;
    }
}

/// Append the levels, last coefficient first.
#[verifier::rlimit(50)]
fn cb_levels(cab: &mut CabacEncoder, rp: usize, coeffs: &[i32])
    requires
        rp <= 10,
        CB_RES_MAXPOS[rp as int] < coeffs@.len(),
    ensures
        final(cab)@ == old(cab)@ + level_bins(
            coeffs@,
            rp as int,
            CB_RES_MAXPOS[rp as int] + 1,
            1,
            0,
        ),
{
    let maxpos: usize = CB_RES_MAXPOS[rp];
    let one: usize = 227 + CB_RES_ONE[rp];
    let abs: usize = 232 + CB_RES_ONE[rp];
    let maxc2: usize = CB_RES_MAXC2[rp];
    let mut c1: usize = 1;
    let mut c2: usize = 0;
    let ghost whole = level_bins(coeffs@, rp as int, maxpos + 1, 1, 0);
    let ghost start = cab@;
    let mut n: usize = maxpos + 1;
    while n > 0
        invariant
            rp <= 10,
            maxpos == CB_RES_MAXPOS[rp as int],
            maxpos < coeffs@.len(),
            one == 227 + CB_RES_ONE[rp as int],
            abs == 232 + CB_RES_ONE[rp as int],
            CB_RES_ONE[rp as int] <= 199,
            maxc2 == CB_RES_MAXC2[rp as int],
            maxc2 <= 4,
            n <= maxpos + 1,
            c1 <= 4,
            c2 <= 4,
            cab@ + level_bins(coeffs@, rp as int, n as int, c1 as int, c2 as int) == start + whole,
        decreases n,
    {
        let ghost before = cab@;
        let ghost left = level_bins(coeffs@, rp as int, n as int, c1 as int, c2 as int);
        let c: i32 = coeffs[n - 1];
        if c != 0 {
            let ghost c10 = c1;
            let ghost c20 = c2;
            let av: u32 = abs_i32(c);
            let gt1: bool = av > 1;
            cab.encode_decision(one + c1, bit_u32(gt1));
            if gt1 {
                cb_ueg_level(cab, abs + c2, av - 2);
                c2 = if c2 + 1 < maxc2 {
                    c2 + 1
                } else {
                    maxc2
                };
                c1 = 0;
            } else if c1 != 0 {
                c1 = if c1 + 1 < 4 {
                    c1 + 1
                } else {
                    4
                };
            }
            cab.encode_bypass(bit_u32(c < 0));
            assert(cab@ =~= before + level_one_bins(rp as int, c as int, c10 as int, c20 as int));
            assert(before + left =~= cab@ + level_bins(
                coeffs@,
                rp as int,
                n - 1,
                c1 as int,
                c2 as int,
            ));
        }
        n = n - 1;
    }
    assert(cab@ =~= start + whole);
}

/// The cell `i`, or the last one.
fn last_cell(i: usize) -> (r: usize)
    ensures
        r == arith::min(i as int, 23),
{
    if i < 23 {
        i
    } else {
        23
    }
}

/// Append one residual block of kind `rp` and return how many of its coefficients are not
/// zero. `coeffs` is in scan order. The count cache and the DC mask are brought up to date.
/// The 8x8 kind has no coded-block flag, so its block must not be all zero.
#[verifier::rlimit(50)]
pub fn cb_residual(
    cab: &mut CabacEncoder,
    nzc: &mut [u8; 48],
    cbf_dc: &mut u16,
    iz: usize,
    rp: usize,
    is_intra: bool,
    ndc: (Option<u16>, Option<u16>),
    coeffs: &[i32],
) -> (total: u32)
    requires
        iz <= 23,
        rp <= 10,
        CB_RES_MAXPOS[rp as int] < coeffs@.len(),
        rp == 6 ==> last_nz(coeffs@, 64) >= 0,
    ensures
        final(cab)@ == old(cab)@ + residual_bins(
            coeffs@,
            rp as int,
            cbf_inc(old(nzc)@, iz as int, rp as int, is_intra, ndc),
        ),
        total == count_nz(coeffs@, CB_RES_MAXPOS[rp as int] + 1),
        total <= 64,
        final(nzc)@ == nzc_after(old(nzc)@, iz as int, rp as int, total as u8),
        *final(cbf_dc) == dc_mask_after(*old(cbf_dc), rp as int, total > 0),
{
    let is8: bool = rp == CB_RP_LUMA_8X8;
    let is_dc: bool = rp == CB_RP_I16_DC || rp == CB_RP_CHROMA_DC || rp == CB_RP_CHROMA_DC + 1;
    let scan: usize = CB_NZC_CACHE[iz];
    let mut na: usize = bit_usize(is_intra);
    let mut nb: usize = bit_usize(is_intra);
    if is_dc {
        if let Some(t) = ndc.0 {
            let b: u16 = (t >> (rp as u16)) & 1;
            assert((t >> (rp as u16)) & 1 <= 1) by (bit_vector);
            nb = b as usize;
        }
        if let Some(l) = ndc.1 {
            let b: u16 = (l >> (rp as u16)) & 1;
            assert((l >> (rp as u16)) & 1 <= 1) by (bit_vector);
            na = b as usize;
        }
    } else {
        if nzc[scan - 8] != 0xff {
            nb = bit_usize(nzc[scan - 8] != 0);
        }
        if nzc[scan - 1] != 0xff {
            na = bit_usize(nzc[scan - 1] != 0);
        }
    }
    let ghost inc = cbf_inc(nzc@, iz as int, rp as int, is_intra, ndc);
    assert(inc == na + 2 * nb);
    let maxpos: usize = CB_RES_MAXPOS[rp];
    let (coeff_num, lastnz): (u32, usize) = scan_nz(coeffs, maxpos);
    proof {
        lemma_last_nz(coeffs@, maxpos + 1);
    }
    let ghost start = cab@;
    let ghost whole = residual_bins(coeffs@, rp as int, inc);
    if !is8 {
        let cctx: usize = 85 + CB_RES_CBF[rp] + na + 2 * nb;
        cab.encode_decision(cctx, bit_u32(coeff_num != 0));
        if coeff_num == 0 {
            assert(cab@ =~= start + whole);
            if !is_dc {
                nzc[scan] = 0;
            }
            return 0;
        }
    }
    let ghost mid = cab@;
    if is_dc {
        *cbf_dc = *cbf_dc | (1u16 << (rp as u16));
    }
    cb_sig_map(cab, rp, coeffs, lastnz);
    cb_levels(cab, rp, coeffs);
    assert(cab@ =~= start + whole);
    if is8 {
        nzc[CB_NZC_CACHE[iz]] = coeff_num as u8;
        nzc[CB_NZC_CACHE[last_cell(iz + 1)]] = coeff_num as u8;
        nzc[CB_NZC_CACHE[last_cell(iz + 2)]] = coeff_num as u8;
        nzc[CB_NZC_CACHE[last_cell(iz + 3)]] = coeff_num as u8;
    } else if !is_dc {
        nzc[scan] = coeff_num as u8;
    }
    coeff_num
}

} // verus!
