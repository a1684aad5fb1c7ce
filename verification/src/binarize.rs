//! CABAC binarisations: one function per syntax element.
//!
//! Each function appends exactly the bins that the spec function beside it
//! gives. For each there is a reader, a spec function that walks a bin sequence
//! as a decoder does, and a law that the reader gets the value back.
use vstd::prelude::*;
use vstd::arithmetic::power2::*;
use vstd::bits::*;
use crate::arith;
use crate::arith::{abs_i32, bit_u32, bit_usize};
use crate::cabac;
use crate::cabac::{Bin, CabacEncoder};

verus! {

/// `n` equal decisions of one context.
pub open spec fn ones_bins(ctx: int, n: nat) -> Seq<Bin> {
    Seq::new(n, |i: int| Bin::dec(ctx, 1))
}

/// Unary code: the first bin at `ctx`, all others at `ctx + off`.
pub open spec fn unary_bins(ctx: int, off: int, value: nat) -> Seq<Bin> {
    if value == 0 {
        seq![Bin::dec(ctx, 0)]
    } else {
        seq![Bin::dec(ctx, 1)] + ones_bins(ctx + off, (value - 1) as nat).push(Bin::dec(ctx + off, 0))
    }
}

/// Append `value` in unary: a bin at `ctx`, then, for `value >= 1`, `value - 1` ones
/// and a closing zero at `ctx + off`.
pub fn cb_unary(cab: &mut CabacEncoder, ctx: usize, off: usize, value: u32)
    requires
        ctx + off <= usize::MAX,
    ensures
        final(cab)@ == old(cab)@ + unary_bins(ctx as int, off as int, value as nat),
{
    if value == 0 {
        cab.encode_decision(ctx, 0);
        return;
    }
    cab.encode_decision(ctx, 1);
    let ghost start = cab@;
    let mut i: u32 = 0;
    while i < value - 1
        invariant
            value >= 1,
            i <= value - 1,
            ctx + off <= usize::MAX,
            cab@ == start + ones_bins(ctx + off, i as nat),
        decreases value - 1 - i,
    {
        cab.encode_decision(ctx + off, 1);
        i = i + 1;
    }
    cab.encode_decision(ctx + off, 0);
}

/// The low `k` bits of `n`, most significant first, as bypass bins.
pub open spec fn fixed_bins(n: nat, k: nat) -> Seq<Bin> {
    Seq::new(k, |i: int| Bin::byp(((n / pow2((k - 1 - i) as nat)) % 2) as int))
}

/// Exp-Golomb code of order `k` in bypass bins.
pub open spec fn exp_bins(k: nat, n: nat) -> Seq<Bin>
    decreases n,
{
    if n >= pow2(k) && pow2(k) > 0 {
        seq![Bin::byp(1)] + exp_bins(k + 1, (n - pow2(k)) as nat)
    } else {
        seq![Bin::byp(0)] + fixed_bins(n, k)
    }
}

/// Append `n` as an order-`k` Exp-Golomb code in bypass bins.
#[verifier::rlimit(50)]
pub fn cb_exp_bypass(cab: &mut CabacEncoder, k: i32, n: u32)
    requires
        0 <= k <= 31,
        n + pow2(k as nat) < 0x1_0000_0000,
    ensures
        final(cab)@ == old(cab)@ + exp_bins(k as nat, n as nat),
{
    let ghost start = cab@;
    let ghost whole = exp_bins(k as nat, n as nat);
    let mut kk: u32 = k as u32;
    let mut m: u32 = n;
    proof {
        lemma_u32_pow2(kk);
    }
    while m >= (1u32 << kk)
        invariant
            kk <= 31,
            m + pow2(kk as nat) < 0x1_0000_0000,
            (1u32 << kk) == pow2(kk as nat),
            cab@ + exp_bins(kk as nat, m as nat) == start + whole,
        decreases m,
    {
        let ghost before = cab@;
        proof {
            lemma_pow2_unfold((kk + 1) as nat);
            lemma_pow2_pos(kk as nat);
            if kk == 31 {
                lemma_u32_pow2(31);
                assert(1u32 << 31u32 == 0x8000_0000u32) by (bit_vector);
            }
        }
        cab.encode_bypass(1);
        m = m - (1u32 << kk);
        kk = kk + 1;
        proof {
            lemma_u32_pow2(kk);
            assert(cab@ + exp_bins(kk as nat, m as nat) =~= before + (seq![Bin::byp(1)] + exp_bins(
                kk as nat,
                m as nat,
            )));
        }
    }
    let ghost before = cab@;
    cab.encode_bypass(0);
    let ghost k0 = kk as nat;
    assert(cab@ =~= before + seq![Bin::byp(0)]);
    let ghost mid = cab@;
    while kk > 0
        invariant
            kk <= 31,
            kk <= k0,
            k0 <= 31,
            cab@ == mid + fixed_bins(m as nat, k0).take(k0 - kk),
        decreases kk,
    {
        kk = kk - 1;
        let v: u32 = (m >> kk) & 1;
        proof {
            lemma_u32_shr_is_div(m, kk);
            let q = m >> kk;
            assert(q & 1 == q % 2) by (bit_vector);
            let f = fixed_bins(m as nat, k0);
            assert(f[k0 - 1 - kk] == Bin::byp(v as int));
            assert(f.take(k0 - kk) =~= f.take(k0 - 1 - kk).push(f[k0 - 1 - kk]));
        }
        cab.encode_bypass(v);
    }
    proof {
        let f = fixed_bins(m as nat, k0);
        assert(f.take(k0 as int) =~= f);
        assert(cab@ =~= before + (seq![Bin::byp(0)] + f));
        assert(start + whole =~= before + exp_bins(k0, m as nat));
    }
}

/// A shifted one is a power of two.
pub proof fn lemma_u32_pow2(k: u32)
    requires
        k <= 31,
    ensures
        (1u32 << k) == pow2(k as nat),
{
    vstd::arithmetic::power2::lemma2_to64();
    vstd::arithmetic::power2::lemma_pow2_strictly_increases(k as nat, 32);
    lemma_u32_shl_is_mul(1, k);
}

/// Truncated-unary prefix (at most 13) at `ctx` with an order-0 Exp-Golomb suffix.
pub open spec fn ueg_level_bins(ctx: int, value: nat) -> Seq<Bin> {
    if value < 13 {
        ones_bins(ctx, value).push(Bin::dec(ctx, 0))
    } else {
        ones_bins(ctx, 13) + exp_bins(0, (value - 13) as nat)
    }
}

/// Append the `coeff_abs_level_minus1` tail `value` at context `ctx`.
pub fn cb_ueg_level(cab: &mut CabacEncoder, ctx: usize, value: u32)
    ensures
        final(cab)@ == old(cab)@ + ueg_level_bins(ctx as int, value as nat),
{
    if value == 0 {
        cab.encode_decision(ctx, 0);
        assert(cab@ =~= old(cab)@ + ueg_level_bins(ctx as int, value as nat));
        return;
    }
    let ones: u32 = if value < 13 {
        value
    } else {
        13
    };
    let ghost start = cab@;
    let mut i: u32 = 0;
    while i < ones
        invariant
            i <= ones,
            cab@ == start + ones_bins(ctx as int, i as nat),
        decreases ones - i,
    {
        cab.encode_decision(ctx, 1);
        i = i + 1;
        assert(cab@ =~= start + ones_bins(ctx as int, i as nat));
    }
    if value < 13 {
        cab.encode_decision(ctx, 0);
        assert(cab@ =~= start + ueg_level_bins(ctx as int, value as nat));
    } else {
        proof {
            vstd::arithmetic::power2::lemma2_to64();
        }
        cb_exp_bypass(cab, 0, value - 13);
        assert(cab@ =~= start + ueg_level_bins(ctx as int, value as nat));
    }
}

/// `mb_qp_delta`: contexts from 60 on, the first one raised when the last delta was not zero.
pub open spec fn qp_delta_bins(last: int, delta: int) -> Seq<Bin> {
    let c = 60 + cabac::bit(last != 0);
    if delta == 0 {
        seq![Bin::dec(c, 0)]
    } else {
        seq![Bin::dec(c, 1)] + unary_bins(62, 1, (qp_delta_code(delta) - 1) as nat)
    }
}

/// The unsigned code of a signed delta: 1, -1, 2, -2, .. map to 1, 2, 3, 4, ..
pub open spec fn qp_delta_code(delta: int) -> int {
    2 * arith::abs(delta) - cabac::bit(delta > 0)
}

/// Append `mb_qp_delta` and remember it as the last delta.
pub fn cb_mb_qp_delta(cab: &mut CabacEncoder, last_delta_qp: &mut i32, delta: i32)
    requires
        delta != i32::MIN,
    ensures
        final(cab)@ == old(cab)@ + qp_delta_bins(*old(last_delta_qp) as int, delta as int),
        *final(last_delta_qp) == delta,
{
    let ctx_inc: usize = if *last_delta_qp != 0 {
        1
    } else {
        0
    };
    if delta == 0 {
        cab.encode_decision(60 + ctx_inc, 0);
    } else {
        cab.encode_decision(60 + ctx_inc, 1);
        let code: u32 = 2 * abs_i32(delta) - bit_u32(delta > 0);
        cb_unary(cab, 62, 1, code - 1);
    }
    *last_delta_qp = delta;
    assert(cab@ =~= old(cab)@ + qp_delta_bins(*old(last_delta_qp) as int, delta as int));
}

/// `intra_chroma_pred_mode`, truncated unary with at most three ones.
pub open spec fn chroma_mode_bins(ctx_inc: int, mode: int) -> Seq<Bin> {
    if mode == 0 {
        seq![Bin::dec(64 + ctx_inc, 0)]
    } else if mode == 1 {
        seq![Bin::dec(64 + ctx_inc, 1), Bin::dec(67, 0)]
    } else if mode == 2 {
        seq![Bin::dec(64 + ctx_inc, 1), Bin::dec(67, 1), Bin::dec(67, 0)]
    } else {
        seq![Bin::dec(64 + ctx_inc, 1), Bin::dec(67, 1), Bin::dec(67, 1)]
    }
}

/// Append `intra_chroma_pred_mode`.
pub fn cb_chroma_pred_mode(cab: &mut CabacEncoder, ctx_inc: usize, mode: u8)
    requires
        64 + ctx_inc <= usize::MAX,
    ensures
        final(cab)@ == old(cab)@ + chroma_mode_bins(ctx_inc as int, mode as int),
{
    if mode == 0 {
        cab.encode_decision(64 + ctx_inc, 0);
    } else {
        cab.encode_decision(64 + ctx_inc, 1);
        if mode == 1 {
            cab.encode_decision(67, 0);
        } else if mode == 2 {
            cab.encode_decision(67, 1);
            cab.encode_decision(67, 0);
        } else {
            cab.encode_decision(67, 1);
            cab.encode_decision(67, 1);
        }
    }
    assert(cab@ =~= old(cab)@ + chroma_mode_bins(ctx_inc as int, mode as int));
}

/// What an intra macroblock type carries: `I_NxN`, or `I_16x16` with its prediction
/// mode, its chroma pattern and whether its luma AC is coded.
pub struct IntraType {
    pub nxn: bool,
    pub i16_mode: int,
    pub cbp_chroma: int,
    pub cbp_luma15: bool,
}

/// I-slice `mb_type`: contexts from 3 on.
pub open spec fn mb_type_i_bins(ctx_inc: int, t: IntraType) -> Seq<Bin> {
    if t.nxn {
        seq![Bin::dec(3 + ctx_inc, 0)]
    } else {
        seq![
            Bin::dec(3 + ctx_inc, 1),
            Bin::term(false),
            Bin::dec(6, cabac::bit(t.cbp_luma15)),
        ] + (if t.cbp_chroma != 0 {
            seq![Bin::dec(7, 1), Bin::dec(8, cabac::bit(t.cbp_chroma == 2))]
        } else {
            seq![Bin::dec(7, 0)]
        }) + seq![Bin::dec(9, (t.i16_mode / 2) % 2), Bin::dec(10, t.i16_mode % 2)]
    }
}

/// Append the I-slice `mb_type`.
pub fn cb_mb_type_i(
    cab: &mut CabacEncoder,
    ctx_inc: usize,
    use_i4: bool,
    i16_mode: u32,
    cbp_chroma: u32,
    cbp_luma15: bool,
)
    requires
        3 + ctx_inc <= usize::MAX,
    ensures
        final(cab)@ == old(cab)@ + mb_type_i_bins(
            ctx_inc as int,
            (IntraType {
                nxn: use_i4,
                i16_mode: i16_mode as int,
                cbp_chroma: cbp_chroma as int,
                cbp_luma15,
            }),
        ),
{
    let ghost t = IntraType {
        nxn: use_i4,
        i16_mode: i16_mode as int,
        cbp_chroma: cbp_chroma as int,
        cbp_luma15,
    };
    if use_i4 {
        cab.encode_decision(3 + ctx_inc, 0);
        return ;
    }
    cab.encode_decision(3 + ctx_inc, 1);
    cab.encode_terminate(false);
    cab.encode_decision(6, bit_u32(cbp_luma15));
    if cbp_chroma != 0 {
        cab.encode_decision(7, 1);
        cab.encode_decision(8, bit_u32(cbp_chroma == 2));
    } else {
        cab.encode_decision(7, 0);
    }
    cab.encode_decision(9, (i16_mode / 2) % 2);
    cab.encode_decision(10, i16_mode % 2);
    assert(cab@ =~= old(cab)@ + mb_type_i_bins(ctx_inc as int, t));
}

/// The intra types inside a P slice: contexts from 14 on.
pub open spec fn mb_type_p_intra_bins(t: IntraType) -> Seq<Bin> {
    if t.nxn {
        seq![Bin::dec(14, 1), Bin::dec(17, 0)]
    } else {
        seq![
            Bin::dec(14, 1),
            Bin::dec(17, 1),
            Bin::term(false),
            Bin::dec(18, cabac::bit(t.cbp_luma15)),
        ] + (if t.cbp_chroma != 0 {
            seq![Bin::dec(19, 1), Bin::dec(19, cabac::bit(t.cbp_chroma == 2))]
        } else {
            seq![Bin::dec(19, 0)]
        }) + seq![Bin::dec(20, (t.i16_mode / 2) % 2), Bin::dec(20, t.i16_mode % 2)]
    }
}

/// Append the P-slice `mb_type` of an intra macroblock.
pub fn cb_mb_type_p_intra(
    cab: &mut CabacEncoder,
    use_i4: bool,
    i16_mode: u32,
    cbp_chroma: u32,
    cbp_luma15: bool,
)
    ensures
        final(cab)@ == old(cab)@ + mb_type_p_intra_bins(
            (IntraType {
                nxn: use_i4,
                i16_mode: i16_mode as int,
                cbp_chroma: cbp_chroma as int,
                cbp_luma15,
            }),
        ),
{
    let ghost t = IntraType {
        nxn: use_i4,
        i16_mode: i16_mode as int,
        cbp_chroma: cbp_chroma as int,
        cbp_luma15,
    };
    cab.encode_decision(14, 1);
    if use_i4 {
        cab.encode_decision(17, 0);
        assert(cab@ =~= old(cab)@ + mb_type_p_intra_bins(t));
        return ;
    }
    cab.encode_decision(17, 1);
    cab.encode_terminate(false);
    cab.encode_decision(18, bit_u32(cbp_luma15));
    if cbp_chroma != 0 {
        cab.encode_decision(19, 1);
        cab.encode_decision(19, bit_u32(cbp_chroma == 2));
    } else {
        cab.encode_decision(19, 0);
    }
    cab.encode_decision(20, (i16_mode / 2) % 2);
    cab.encode_decision(20, i16_mode % 2);
    assert(cab@ =~= old(cab)@ + mb_type_p_intra_bins(t));
}

/// One intra luma prediction mode against its predicted value.
pub open spec fn i4_mode_bins(predicted: int, actual: int) -> Seq<Bin> {
    if actual == predicted {
        seq![Bin::dec(68, 1)]
    } else {
        let rem = if actual < predicted {
            actual
        } else {
            actual - 1
        };
        seq![
            Bin::dec(68, 0),
            Bin::dec(69, rem % 2),
            Bin::dec(69, (rem / 2) % 2),
            Bin::dec(69, (rem / 4) % 2),
        ]
    }
}

/// Append one intra luma prediction mode.
pub fn cb_intra4x4_pred_mode(cab: &mut CabacEncoder, predicted: u8, actual: u8)
    ensures
        final(cab)@ == old(cab)@ + i4_mode_bins(predicted as int, actual as int),
{
    if actual == predicted {
        cab.encode_decision(68, 1);
    } else {
        cab.encode_decision(68, 0);
        let rem: u32 = if actual < predicted {
            actual as u32
        } else {
            (actual - 1) as u32
        };
        cab.encode_decision(69, rem % 2);
        cab.encode_decision(69, (rem / 2) % 2);
        cab.encode_decision(69, (rem / 4) % 2);
    }
    assert(cab@ =~= old(cab)@ + i4_mode_bins(predicted as int, actual as int));
}

/// A neighbour is there and the luma bit of weight `w` in its pattern is clear.
pub open spec fn cbp_clear(n: Option<u8>, w: int) -> int {
    match n {
        Some(c) => cabac::bit((c as int / w) % 2 == 0),
        None => 0,
    }
}

/// A neighbour is there and has coded chroma.
pub open spec fn cbp_chroma_any(n: Option<u8>) -> int {
    match n {
        Some(c) => cabac::bit(c as int / 16 != 0),
        None => 0,
    }
}

/// A neighbour is there and has coded chroma AC.
pub open spec fn cbp_chroma_ac(n: Option<u8>) -> int {
    match n {
        Some(c) => cabac::bit(c as int / 16 == 2),
        None => 0,
    }
}

/// The luma bins of `coded_block_pattern`, from context 73 on, each with the patterns
/// of the blocks left of and above it.
pub open spec fn cbp_luma_bins(top: Option<u8>, left: Option<u8>, cbp: int) -> Seq<Bin> {
    let b0 = cbp % 2;
    let b1 = (cbp / 2) % 2;
    let b2 = (cbp / 4) % 2;
    let b3 = (cbp / 8) % 2;
    seq![
        Bin::dec(73 + cbp_clear(left, 2) + 2 * cbp_clear(top, 4), b0),
        Bin::dec(73 + cabac::bit(b0 == 0) + 2 * cbp_clear(top, 8), b1),
        Bin::dec(73 + cbp_clear(left, 8) + 2 * cabac::bit(b0 == 0), b2),
        Bin::dec(73 + cabac::bit(b2 == 0) + 2 * cabac::bit(b1 == 0), b3),
    ]
}

/// The chroma bins of `coded_block_pattern`, `chroma` being 0 (none), 1 (DC) or 2 (AC).
pub open spec fn cbp_chroma_bins(top: Option<u8>, left: Option<u8>, chroma: int) -> Seq<Bin> {
    let any = Bin::dec(
        77 + cbp_chroma_any(left) + 2 * cbp_chroma_any(top),
        cabac::bit(chroma != 0),
    );
    if chroma != 0 {
        seq![
            any,
            Bin::dec(81 + cbp_chroma_ac(left) + 2 * cbp_chroma_ac(top), cabac::bit(chroma == 2)),
        ]
    } else {
        seq![any]
    }
}

/// `coded_block_pattern`: the luma bins, then the chroma bins.
pub open spec fn cbp_bins(top: Option<u8>, left: Option<u8>, cbp: int) -> Seq<Bin> {
    cbp_luma_bins(top, left, cbp) + cbp_chroma_bins(top, left, cbp / 16)
}

fn clear_at(n: Option<u8>, w: u8) -> (r: usize)
    requires
        w > 0,
    ensures
        r == cbp_clear(n, w as int),
        r <= 1,
{
    match n {
        Some(c) => bit_usize((c / w) % 2 == 0),
        None => 0,
    }
}

fn chroma_any(n: Option<u8>) -> (r: usize)
    ensures
        r == cbp_chroma_any(n),
        r <= 1,
{
    match n {
        Some(c) => bit_usize(c / 16 != 0),
        None => 0,
    }
}

fn chroma_ac(n: Option<u8>) -> (r: usize)
    ensures
        r == cbp_chroma_ac(n),
        r <= 1,
{
    match n {
        Some(c) => bit_usize(c / 16 == 2),
        None => 0,
    }
}

fn cb_cbp_luma(cab: &mut CabacEncoder, top: Option<u8>, left: Option<u8>, cbp: u32)
    ensures
        final(cab)@ == old(cab)@ + cbp_luma_bins(top, left, cbp as int),
{
    let b0: u32 = cbp % 2;
    let b1: u32 = (cbp / 2) % 2;
    let b2: u32 = (cbp / 4) % 2;
    let b3: u32 = (cbp / 8) % 2;
    let c0: usize = 73 + clear_at(left, 2) + 2 * clear_at(top, 4);
    let c1: usize = 73 + bit_usize(b0 == 0) + 2 * clear_at(top, 8);
    let c2: usize = 73 + clear_at(left, 8) + 2 * bit_usize(b0 == 0);
    let c3: usize = 73 + bit_usize(b2 == 0) + 2 * bit_usize(b1 == 0);
    cab.encode_decision(c0, b0);
    cab.encode_decision(c1, b1);
    cab.encode_decision(c2, b2);
    cab.encode_decision(c3, b3);
    assert(cab@ =~= old(cab)@ + cbp_luma_bins(top, left, cbp as int));
}

fn cb_cbp_chroma(cab: &mut CabacEncoder, top: Option<u8>, left: Option<u8>, chroma: u32)
    ensures
        final(cab)@ == old(cab)@ + cbp_chroma_bins(top, left, chroma as int),
{
    let c0: usize = 77 + chroma_any(left) + 2 * chroma_any(top);
    cab.encode_decision(c0, bit_u32(chroma != 0));
    if chroma != 0 {
        let c1: usize = 81 + chroma_ac(left) + 2 * chroma_ac(top);
        cab.encode_decision(c1, bit_u32(chroma == 2));
    }
    assert(cab@ =~= old(cab)@ + cbp_chroma_bins(top, left, chroma as int));
}

/// Append `coded_block_pattern`.
pub fn cb_cbp(cab: &mut CabacEncoder, top: Option<u8>, left: Option<u8>, cbp: u32)
    ensures
        final(cab)@ == old(cab)@ + cbp_bins(top, left, cbp as int),
{
    cb_cbp_luma(cab, top, left, cbp);
    cb_cbp_chroma(cab, top, left, cbp / 16);
    assert(cab@ =~= old(cab)@ + cbp_bins(top, left, cbp as int));
}

/// `n` ones of a motion-vector prefix: the contexts climb from `base` to `base + 3`.
pub open spec fn mv_prefix_bins(base: int, n: nat) -> Seq<Bin> {
    Seq::new(n, |i: int| Bin::dec(base + arith::min(i, 3), 1))
}

/// Motion-vector magnitude: a unary prefix of at most eight ones, then an order-3
/// Exp-Golomb suffix.
pub open spec fn ueg_mv_bins(base: int, v: nat) -> Seq<Bin> {
    if v <= 7 {
        mv_prefix_bins(base, v).push(Bin::dec(base + arith::min(v as int, 3), 0))
    } else {
        mv_prefix_bins(base, 8) + exp_bins(3, (v - 8) as nat)
    }
}

/// Append a motion-vector magnitude `v`.
pub fn cb_ueg_mv(cab: &mut CabacEncoder, base: usize, v: u32)
    requires
        base + 3 <= usize::MAX,
    ensures
        final(cab)@ == old(cab)@ + ueg_mv_bins(base as int, v as nat),
{
    let ones: u32 = if v <= 7 {
        v
    } else {
        8
    };
    let mut i: u32 = 0;
    while i < ones
        invariant
            i <= ones <= 8,
            base + 3 <= usize::MAX,
            cab@ == old(cab)@ + mv_prefix_bins(base as int, i as nat),
        decreases ones - i,
    {
        let inc: usize = if i < 3 {
            i as usize
        } else {
            3
        };
        cab.encode_decision(base + inc, 1);
        i = i + 1;
        assert(cab@ =~= old(cab)@ + mv_prefix_bins(base as int, i as nat));
    }
    if v <= 7 {
        let inc: usize = if v < 3 {
            v as usize
        } else {
            3
        };
        cab.encode_decision(base + inc, 0);
    } else {
        proof {
            lemma2_to64();
        }
        cb_exp_bypass(cab, 3, v - 8);
    }
    assert(cab@ =~= old(cab)@ + ueg_mv_bins(base as int, v as nat));
}

/// One motion-vector-difference component: `comp` 0 is x (contexts from 40), 1 is y
/// (contexts from 47).
pub open spec fn mvd_bins(comp: int, ctx_inc: int, d: int) -> Seq<Bin> {
    let base = 40 + comp * 7;
    if d == 0 {
        seq![Bin::dec(base + ctx_inc, 0)]
    } else {
        seq![Bin::dec(base + ctx_inc, 1)] + ueg_mv_bins(
            base + 3,
            (arith::abs(d) - 1) as nat,
        ).push(Bin::byp(cabac::bit(d < 0)))
    }
}

/// Append one motion-vector-difference component.
pub fn cb_mvd(cab: &mut CabacEncoder, comp: usize, ctx_inc: usize, d: i32)
    requires
        comp <= 1,
        ctx_inc <= 2,
    ensures
        final(cab)@ == old(cab)@ + mvd_bins(comp as int, ctx_inc as int, d as int),
{
    let base: usize = 40 + comp * 7;
    if d == 0 {
        cab.encode_decision(base + ctx_inc, 0);
        return ;
    }
    cab.encode_decision(base + ctx_inc, 1);
    cb_ueg_mv(cab, base + 3, abs_i32(d) - 1);
    cab.encode_bypass(bit_u32(d < 0));
    assert(cab@ =~= old(cab)@ + mvd_bins(comp as int, ctx_inc as int, d as int));
}

/// Append `mb_skip_flag` at the context `ctx`.
pub fn cb_mb_skip(cab: &mut CabacEncoder, ctx: usize, skip: bool)
    ensures
        final(cab)@ == old(cab)@.push(Bin::dec(ctx as int, cabac::bit(skip))),
{
    cab.encode_decision(ctx, bit_u32(skip));
}

/// The context of the `i`-th bin of a reference index.
pub open spec fn ref_ctx(ctx0: int, i: int) -> int {
    54 + (if i == 0 {
        ctx0
    } else if i == 1 {
        4
    } else {
        5
    })
}

/// A reference index in unary.
pub open spec fn ref_idx_bins(ctx0: int, r: nat) -> Seq<Bin> {
    Seq::new(r + 1, |i: int| Bin::dec(ref_ctx(ctx0, i), cabac::bit(i < r)))
}

/// Append a reference index.
pub fn cb_ref_idx(cab: &mut CabacEncoder, ctx0: usize, r: u32)
    requires
        54 + ctx0 <= usize::MAX,
    ensures
        final(cab)@ == old(cab)@ + ref_idx_bins(ctx0 as int, r as nat),
{
    let ghost whole = ref_idx_bins(ctx0 as int, r as nat);
    let mut i: u32 = 0;
    while i < r
        invariant
            i <= r,
            54 + ctx0 <= usize::MAX,
            whole == ref_idx_bins(ctx0 as int, r as nat),
            cab@ == old(cab)@ + whole.take(i as int),
        decreases r - i,
    {
        let ctx: usize = if i == 0 {
            ctx0
        } else if i == 1 {
            4
        } else {
            5
        };
        cab.encode_decision(54 + ctx, 1);
        assert(whole.take(i + 1) =~= whole.take(i as int).push(whole[i as int]));
        i = i + 1;
    }
    let ctx: usize = if r == 0 {
        ctx0
    } else if r == 1 {
        4
    } else {
        5
    };
    cab.encode_decision(54 + ctx, 0);
    assert(whole =~= whole.take(r as int).push(whole[r as int]));
    assert(cab@ =~= old(cab)@ + whole);
}

/// P-slice inter `mb_type`: 0 is 16x16, 1 is 16x8, 3 is 8x8, any other is 8x16.
pub open spec fn mb_type_p_bins(mode: int) -> Seq<Bin> {
    if mode == 0 {
        seq![Bin::dec(14, 0), Bin::dec(15, 0), Bin::dec(16, 0)]
    } else if mode == 3 {
        seq![Bin::dec(14, 0), Bin::dec(15, 0), Bin::dec(16, 1)]
    } else if mode == 1 {
        seq![Bin::dec(14, 0), Bin::dec(15, 1), Bin::dec(17, 1)]
    } else {
        seq![Bin::dec(14, 0), Bin::dec(15, 1), Bin::dec(17, 0)]
    }
}

/// Append the P-slice inter `mb_type`.
pub fn cb_mb_type_p_inter(cab: &mut CabacEncoder, mode: u8)
    ensures
        final(cab)@ == old(cab)@ + mb_type_p_bins(mode as int),
{
    cab.encode_decision(14, 0);
    if mode == 0 {
        cab.encode_decision(15, 0);
        cab.encode_decision(16, 0);
    } else if mode == 3 {
        cab.encode_decision(15, 0);
        cab.encode_decision(16, 1);
    } else if mode == 1 {
        cab.encode_decision(15, 1);
        cab.encode_decision(17, 1);
    } else {
        cab.encode_decision(15, 1);
        cab.encode_decision(17, 0);
    }
    assert(cab@ =~= old(cab)@ + mb_type_p_bins(mode as int));
}

/// P `sub_mb_type`: 0 is 8x8, 1 is 8x4, 2 is 4x8, 3 is 4x4.
pub open spec fn sub_type_p_bins(sub_type: int) -> Seq<Bin> {
    if sub_type == 0 {
        seq![Bin::dec(21, 1)]
    } else if sub_type == 1 {
        seq![Bin::dec(21, 0), Bin::dec(22, 0)]
    } else if sub_type == 2 {
        seq![Bin::dec(21, 0), Bin::dec(22, 1), Bin::dec(23, 1)]
    } else {
        seq![Bin::dec(21, 0), Bin::dec(22, 1), Bin::dec(23, 0)]
    }
}

/// Append a P `sub_mb_type`.
pub fn cb_sub_mb_type_p(cab: &mut CabacEncoder, sub_type: u8)
    requires
        sub_type <= 3,
    ensures
        final(cab)@ == old(cab)@ + sub_type_p_bins(sub_type as int),
{
    if sub_type == 0 {
        cab.encode_decision(21, 1);
    } else if sub_type == 1 {
        cab.encode_decision(21, 0);
        cab.encode_decision(22, 0);
    } else if sub_type == 2 {
        cab.encode_decision(21, 0);
        cab.encode_decision(22, 1);
        cab.encode_decision(23, 1);
    } else {
        cab.encode_decision(21, 0);
        cab.encode_decision(22, 1);
        cab.encode_decision(23, 0);
    }
    assert(cab@ =~= old(cab)@ + sub_type_p_bins(sub_type as int));
}

/// B `mb_type` of a two-partition macroblock, by the prediction of its partitions
/// (1 is list 0, 2 is list 1, 3 is both) and the split (2 is 8x16).
pub open spec fn b_part_type(p0: int, p1: int, mvmode: int) -> int {
    (if p0 == 1 && p1 == 1 {
        4int
    } else if p0 == 2 && p1 == 2 {
        6
    } else if p0 == 1 && p1 == 2 {
        8
    } else if p0 == 2 && p1 == 1 {
        10
    } else if p0 == 1 && p1 == 3 {
        12
    } else if p0 == 2 && p1 == 3 {
        14
    } else if p0 == 3 && p1 == 1 {
        16
    } else if p0 == 3 && p1 == 2 {
        18
    } else {
        20
    }) + (if mvmode == 2 {
        1int
    } else {
        0
    })
}

/// The B `mb_type` of a two-partition macroblock.
pub fn b_part_mb_type(p0: u8, p1: u8, mvmode: u8) -> (r: u32)
    ensures
        r == b_part_type(p0 as int, p1 as int, mvmode as int),
{
    let base: u32 = match (p0, p1) {
        (1, 1) => 4,
        (2, 2) => 6,
        (1, 2) => 8,
        (2, 1) => 10,
        (1, 3) => 12,
        (2, 3) => 14,
        (3, 1) => 16,
        (3, 2) => 18,
        _ => 20,
    };
    base + if mvmode == 2 {
        1
    } else {
        0
    }
}

/// The four-bit code of a B `mb_type` above 2.
pub open spec fn b_type_m4(mb_type: int) -> int {
    if mb_type <= 10 {
        mb_type - 3
    } else if mb_type == 11 {
        14
    } else if mb_type == 22 {
        15
    } else {
        (mb_type + 4) / 2
    }
}

/// B-slice `mb_type`: contexts from 27 on.
pub open spec fn mb_type_b_bins(ctx_inc: int, mb_type: int) -> Seq<Bin> {
    if mb_type == 0 {
        seq![Bin::dec(27 + ctx_inc, 0)]
    } else if mb_type <= 2 {
        seq![Bin::dec(27 + ctx_inc, 1), Bin::dec(30, 0), Bin::dec(32, mb_type - 1)]
    } else {
        let m4 = b_type_m4(mb_type);
        seq![
            Bin::dec(27 + ctx_inc, 1),
            Bin::dec(30, 1),
            Bin::dec(31, (m4 / 8) % 2),
            Bin::dec(32, (m4 / 4) % 2),
            Bin::dec(32, (m4 / 2) % 2),
            Bin::dec(32, m4 % 2),
        ] + (if 12 <= mb_type && mb_type != 22 {
            seq![Bin::dec(32, mb_type % 2)]
        } else {
            Seq::<Bin>::empty()
        })
    }
}

/// Append the B-slice `mb_type`, over its whole range 0 ..= 22.
pub fn cb_mb_type_b(cab: &mut CabacEncoder, ctx_inc: usize, mb_type: u32)
    requires
        27 + ctx_inc <= usize::MAX,
        mb_type <= 22,
    ensures
        final(cab)@ == old(cab)@ + mb_type_b_bins(ctx_inc as int, mb_type as int),
{
    if mb_type == 0 {
        cab.encode_decision(27 + ctx_inc, 0);
        return ;
    }
    cab.encode_decision(27 + ctx_inc, 1);
    if mb_type <= 2 {
        cab.encode_decision(30, 0);
        cab.encode_decision(32, mb_type - 1);
        assert(cab@ =~= old(cab)@ + mb_type_b_bins(ctx_inc as int, mb_type as int));
        return ;
    }
    cab.encode_decision(30, 1);
    let m4: u32 = if mb_type <= 10 {
        mb_type - 3
    } else if mb_type == 11 {
        14
    } else if mb_type == 22 {
        15
    } else {
        (mb_type + 4) / 2
    };
    cab.encode_decision(31, (m4 / 8) % 2);
    cab.encode_decision(32, (m4 / 4) % 2);
    cab.encode_decision(32, (m4 / 2) % 2);
    cab.encode_decision(32, m4 % 2);
    if mb_type >= 12 && mb_type != 22 {
        cab.encode_decision(32, (mb_type + 4) % 2);
    }
    assert(cab@ =~= old(cab)@ + mb_type_b_bins(ctx_inc as int, mb_type as int));
}

} // verus!
