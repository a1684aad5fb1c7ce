//! Reading bins back: for each binarisation the reader of a decoder, as a spec function,
//! and the law that it recovers the value that was written.
//!
//! A reader gets the bins `s` of a slice and a position `p`. It gives the value and the
//! position behind it, or nothing where the bins at `p` are not what it expects (another
//! context, another kind of bin, the end). So a law also says that writer and reader agree
//! on every context.
use vstd::prelude::*;
use vstd::arithmetic::power2::*;
use vstd::arithmetic::div_mod::*;
use crate::arith;
use crate::binarize;
use crate::cabac;
use crate::cabac::Bin;
use crate::residual;

verus! {

/// Count ones of context `ctx`, up to the zero behind them or up to `m` of them.
pub open spec fn read_run(s: Seq<Bin>, p: int, ctx: int, m: nat) -> Option<(nat, int)>
    decreases m,
{
    if m == 0 {
        Some((0, p))
    } else {
        match cabac::dec_at(s, p, ctx) {
            None => None,
            Some(b) => if b == 0 {
                Some((0, p + 1))
            } else {
                match read_run(s, p + 1, ctx, (m - 1) as nat) {
                    None => None,
                    Some((n, q)) => Some((n + 1, q)),
                }
            },
        }
    }
}

proof fn lemma_run(s: Seq<Bin>, p: int, ctx: int, n: nat, m: nat)
    requires
        0 <= ctx <= usize::MAX,
        n < m,
        cabac::stands_at(s, p, binarize::ones_bins(ctx, n).push(Bin::dec(ctx, 0))),
    ensures
        read_run(s, p, ctx, m) == Some((n, p + n + 1)),
    decreases n,
{
    let b = binarize::ones_bins(ctx, n).push(Bin::dec(ctx, 0));
    assert(s[p + 0] == b[0]);
    if n > 0 {
        let n1 = (n - 1) as nat;
        let b1 = binarize::ones_bins(ctx, n1).push(Bin::dec(ctx, 0));
        assert forall|i: int| 0 <= i < b1.len() implies #[trigger] s[p + 1 + i] == b1[i] by {
            assert(s[p + (1 + i)] == b[1 + i]);
        }
        lemma_run(s, p + 1, ctx, n1, (m - 1) as nat);
    }
}

proof fn lemma_run_full(s: Seq<Bin>, p: int, ctx: int, m: nat)
    requires
        0 <= ctx <= usize::MAX,
        cabac::stands_at(s, p, binarize::ones_bins(ctx, m)),
    ensures
        read_run(s, p, ctx, m) == Some((m, p + m)),
    decreases m,
{
    if m > 0 {
        let b = binarize::ones_bins(ctx, m);
        assert(s[p + 0] == b[0]);
        let m1 = (m - 1) as nat;
        let b1 = binarize::ones_bins(ctx, m1);
        assert forall|i: int| 0 <= i < b1.len() implies #[trigger] s[p + 1 + i] == b1[i] by {
            assert(s[p + (1 + i)] == b[1 + i]);
        }
        lemma_run_full(s, p + 1, ctx, m1);
    }
}

/// The reader of a unary code.
pub open spec fn read_unary(s: Seq<Bin>, p: int, ctx: int, off: int) -> Option<(nat, int)> {
    match cabac::dec_at(s, p, ctx) {
        None => None,
        Some(b) => if b == 0 {
            Some((0, p + 1))
        } else {
            match read_run(s, p + 1, ctx + off, s.len()) {
                None => None,
                Some((n, q)) => Some((n + 1, q)),
            }
        },
    }
}

/// A unary code reads back.
pub proof fn law_unary(s: Seq<Bin>, p: int, ctx: int, off: int, value: nat)
    requires
        0 <= ctx,
        0 <= off,
        ctx + off <= usize::MAX,
        cabac::stands_at(s, p, binarize::unary_bins(ctx, off, value)),
    ensures
        read_unary(s, p, ctx, off) == Some(
            (value, p + binarize::unary_bins(ctx, off, value).len()),
        ),
{
    let b = binarize::unary_bins(ctx, off, value);
    assert(s[p + 0] == b[0]);
    if value > 0 {
        let n = (value - 1) as nat;
        cabac::lemma_stands_at_concat(
            s,
            p,
            seq![Bin::dec(ctx, 1)],
            binarize::ones_bins(ctx + off, n).push(Bin::dec(ctx + off, 0)),
        );
        lemma_run(s, p + 1, ctx + off, n, s.len());
    }
}

/// Read `k` bypass bins as a number, the first one most significant.
pub open spec fn read_fixed(s: Seq<Bin>, p: int, k: nat) -> Option<nat>
    decreases k,
{
    if k == 0 {
        Some(0)
    } else {
        match (read_fixed(s, p, (k - 1) as nat), cabac::byp_at(s, p + k - 1)) {
            (Some(v), Some(b)) => Some((2 * v + b) as nat),
            _ => None,
        }
    }
}

proof fn lemma_fixed(s: Seq<Bin>, p: int, n: nat, k: nat)
    requires
        n < pow2(k),
        cabac::stands_at(s, p, binarize::fixed_bins(n, k)),
    ensures
        read_fixed(s, p, k) == Some(n),
    decreases k,
{
    if k == 0 {
        lemma2_to64();
    } else {
        let k1 = (k - 1) as nat;
        let h = n / 2;
        let b = binarize::fixed_bins(n, k);
        let b1 = binarize::fixed_bins(h, k1);
        lemma_pow2_unfold(k);
        lemma2_to64();
        assert forall|i: int| 0 <= i < b1.len() implies #[trigger] s[p + i] == b1[i] by {
            let e = (k1 - 1 - i) as nat;
            lemma_pow2_unfold(e + 1);
            lemma_pow2_pos(e);
            lemma_div_denominator(n as int, 2, pow2(e) as int);
            assert(b[i] == b1[i]);
        }
        lemma_fixed(s, p, h, k1);
        assert(s[p + (k - 1)] == b[k - 1]);
        lemma_div_by_one(n as int);
    }
}

proof fn lemma_div_by_one(n: int)
    ensures
        n / 1 == n,
{
}

/// The reader of an order-`k` Exp-Golomb code in bypass bins.
pub open spec fn read_exp(s: Seq<Bin>, p: int, k: nat) -> Option<(nat, int)>
    decreases s.len() - p,
{
    match cabac::byp_at(s, p) {
        None => None,
        Some(b) => if b == 0 {
            match read_fixed(s, p + 1, k) {
                None => None,
                Some(v) => Some((v, p + 1 + k)),
            }
        } else {
            match read_exp(s, p + 1, k + 1) {
                None => None,
                Some((v, q)) => Some((v + pow2(k), q)),
            }
        },
    }
}

/// An Exp-Golomb bypass code reads back.
pub proof fn law_exp(s: Seq<Bin>, p: int, k: nat, n: nat)
    requires
        cabac::stands_at(s, p, binarize::exp_bins(k, n)),
    ensures
        read_exp(s, p, k) == Some((n, p + binarize::exp_bins(k, n).len())),
    decreases n,
{
    let b = binarize::exp_bins(k, n);
    lemma_pow2_pos(k);
    assert(s[p + 0] == b[0]);
    if n >= pow2(k) {
        let n1 = (n - pow2(k)) as nat;
        cabac::lemma_stands_at_concat(s, p, seq![Bin::byp(1)], binarize::exp_bins(k + 1, n1));
        law_exp(s, p + 1, k + 1, n1);
    } else {
        cabac::lemma_stands_at_concat(s, p, seq![Bin::byp(0)], binarize::fixed_bins(n, k));
        lemma_fixed(s, p + 1, n, k);
    }
}

/// The reader of a `coeff_abs_level_minus1` tail.
pub open spec fn read_ueg_level(s: Seq<Bin>, p: int, ctx: int) -> Option<(nat, int)> {
    match read_run(s, p, ctx, 13) {
        None => None,
        Some((n, q)) => if n < 13 {
            Some((n, q))
        } else {
            match read_exp(s, q, 0) {
                None => None,
                Some((v, r)) => Some((v + 13, r)),
            }
        },
    }
}

/// A `coeff_abs_level_minus1` tail reads back.
pub proof fn law_ueg_level(s: Seq<Bin>, p: int, ctx: int, value: nat)
    requires
        0 <= ctx <= usize::MAX,
        cabac::stands_at(s, p, binarize::ueg_level_bins(ctx, value)),
    ensures
        read_ueg_level(s, p, ctx) == Some(
            (value, p + binarize::ueg_level_bins(ctx, value).len()),
        ),
{
    if value < 13 {
        lemma_run(s, p, ctx, value, 13);
    } else {
        let e = binarize::exp_bins(0, (value - 13) as nat);
        cabac::lemma_stands_at_concat(s, p, binarize::ones_bins(ctx, 13), e);
        lemma_run_full(s, p, ctx, 13);
        law_exp(s, p + 13, 0, (value - 13) as nat);
    }
}

/// The reader of `mb_qp_delta` behind a delta `last`.
pub open spec fn read_qp_delta(s: Seq<Bin>, p: int, last: int) -> Option<(int, int)> {
    match cabac::dec_at(s, p, 60 + cabac::bit(last != 0)) {
        None => None,
        Some(b) => if b == 0 {
            Some((0, p + 1))
        } else {
            match read_unary(s, p + 1, 62, 1) {
                None => None,
                Some((u, q)) => {
                    let code = u as int + 1;
                    if code % 2 == 1 {
                        Some(((code + 1) / 2, q))
                    } else {
                        Some((-(code / 2), q))
                    }
                },
            }
        },
    }
}

/// `mb_qp_delta` reads back.
pub proof fn law_qp_delta(s: Seq<Bin>, p: int, last: int, delta: int)
    requires
        cabac::stands_at(s, p, binarize::qp_delta_bins(last, delta)),
    ensures
        read_qp_delta(s, p, last) == Some(
            (delta, p + binarize::qp_delta_bins(last, delta).len()),
        ),
{
    let b = binarize::qp_delta_bins(last, delta);
    assert(s[p + 0] == b[0]);
    if delta != 0 {
        let u = (binarize::qp_delta_code(delta) - 1) as nat;
        cabac::lemma_stands_at_concat(
            s,
            p,
            seq![Bin::dec(60 + cabac::bit(last != 0), 1)],
            binarize::unary_bins(62, 1, u),
        );
        law_unary(s, p + 1, 62, 1, u);
    }
}

/// The reader of `intra_chroma_pred_mode`.
pub open spec fn read_chroma_mode(s: Seq<Bin>, p: int, ctx_inc: int) -> Option<(int, int)> {
    match cabac::dec_at(s, p, 64 + ctx_inc) {
        None => None,
        Some(b) => if b == 0 {
            Some((0, p + 1))
        } else {
            match read_run(s, p + 1, 67, 2) {
                None => None,
                Some((n, q)) => Some((n as int + 1, q)),
            }
        },
    }
}

/// A chroma prediction mode reads back.
pub proof fn law_chroma_mode(s: Seq<Bin>, p: int, ctx_inc: int, mode: int)
    requires
        0 <= ctx_inc <= 2,
        0 <= mode <= 3,
        cabac::stands_at(s, p, binarize::chroma_mode_bins(ctx_inc, mode)),
    ensures
        read_chroma_mode(s, p, ctx_inc) == Some(
            (mode, p + binarize::chroma_mode_bins(ctx_inc, mode).len()),
        ),
{
    let b = binarize::chroma_mode_bins(ctx_inc, mode);
    assert(s[p + 0] == b[0]);
    reveal_with_fuel(read_run, 3);
    if mode >= 1 {
        assert(s[p + 1] == b[1]);
    }
    if mode >= 2 {
        assert(s[p + 2] == b[2]);
    }
}

/// The tail of an `I_16x16` type behind its terminate bin: luma AC, chroma pattern,
/// prediction mode, each at its context.
pub open spec fn read_i16_tail(
    s: Seq<Bin>,
    p: int,
    c_luma: int,
    c_chroma: int,
    c_chroma2: int,
    c_mode: int,
    c_mode2: int,
) -> Option<(binarize::IntraType, int)> {
    match (cabac::dec_at(s, p, c_luma), cabac::dec_at(s, p + 1, c_chroma)) {
        (Some(l), Some(c)) => {
            let q = if c == 0 {
                p + 2
            } else {
                p + 3
            };
            match (
                cabac::dec_at(s, p + 2, c_chroma2),
                cabac::dec_at(s, q, c_mode),
                cabac::dec_at(s, q + 1, c_mode2),
            ) {
                (ac, Some(m1), Some(m0)) => {
                    if c == 1 && ac is None {
                        None
                    } else {
                        Some(
                            (
                                binarize::IntraType {
                                    nxn: false,
                                    i16_mode: 2 * m1 + m0,
                                    cbp_chroma: if c == 0 {
                                        0
                                    } else {
                                        1 + ac->0
                                    },
                                    cbp_luma15: l == 1,
                                },
                                q + 2,
                            ),
                        )
                    }
                },
                _ => None,
            }
        },
        _ => None,
    }
}

/// The value that a reader gives for `I_NxN`.
pub open spec fn nxn_type() -> binarize::IntraType {
    binarize::IntraType { nxn: true, i16_mode: 0, cbp_chroma: 0, cbp_luma15: false }
}

/// The reader of the I-slice `mb_type`.
pub open spec fn read_mb_type_i(s: Seq<Bin>, p: int, ctx_inc: int) -> Option<
    (binarize::IntraType, int),
> {
    match cabac::dec_at(s, p, 3 + ctx_inc) {
        None => None,
        Some(b) => if b == 0 {
            Some((nxn_type(), p + 1))
        } else if cabac::term_at(s, p + 1) == Some(false) {
            read_i16_tail(s, p + 2, 6, 7, 8, 9, 10)
        } else {
            None
        },
    }
}

/// An I-slice `mb_type` reads back.
pub proof fn law_mb_type_i(s: Seq<Bin>, p: int, ctx_inc: int, t: binarize::IntraType)
    requires
        0 <= ctx_inc <= 2,
        t.nxn ==> t == nxn_type(),
        0 <= t.i16_mode <= 3,
        0 <= t.cbp_chroma <= 2,
        cabac::stands_at(s, p, binarize::mb_type_i_bins(ctx_inc, t)),
    ensures
        read_mb_type_i(s, p, ctx_inc) == Some(
            (t, p + binarize::mb_type_i_bins(ctx_inc, t).len()),
        ),
{
    let b = binarize::mb_type_i_bins(ctx_inc, t);
    assert(s[p + 0] == b[0]);
    if !t.nxn {
        assert(s[p + 1] == b[1]);
        assert(s[p + 2] == b[2]);
        assert(s[p + 3] == b[3]);
        assert(s[p + 4] == b[4]);
        assert(s[p + 5] == b[5]);
        if t.cbp_chroma != 0 {
            assert(s[p + 6] == b[6]);
        }
    }
}

/// The reader of a P-slice intra `mb_type`.
pub open spec fn read_mb_type_p_intra(s: Seq<Bin>, p: int) -> Option<(binarize::IntraType, int)> {
    if cabac::dec_at(s, p, 14) == Some(1int) {
        match cabac::dec_at(s, p + 1, 17) {
            None => None,
            Some(b) => if b == 0 {
                Some((nxn_type(), p + 2))
            } else if cabac::term_at(s, p + 2) == Some(false) {
                read_i16_tail(s, p + 3, 18, 19, 19, 20, 20)
            } else {
                None
            },
        }
    } else {
        None
    }
}

/// A P-slice intra `mb_type` reads back.
pub proof fn law_mb_type_p_intra(s: Seq<Bin>, p: int, t: binarize::IntraType)
    requires
        t.nxn ==> t == nxn_type(),
        0 <= t.i16_mode <= 3,
        0 <= t.cbp_chroma <= 2,
        cabac::stands_at(s, p, binarize::mb_type_p_intra_bins(t)),
    ensures
        read_mb_type_p_intra(s, p) == Some((t, p + binarize::mb_type_p_intra_bins(t).len())),
{
    let b = binarize::mb_type_p_intra_bins(t);
    assert(s[p + 0] == b[0]);
    assert(s[p + 1] == b[1]);
    if !t.nxn {
        assert(s[p + 2] == b[2]);
        assert(s[p + 3] == b[3]);
        assert(s[p + 4] == b[4]);
        assert(s[p + 5] == b[5]);
        assert(s[p + 6] == b[6]);
        if t.cbp_chroma != 0 {
            assert(s[p + 7] == b[7]);
        }
    }
}

/// The reader of an intra luma prediction mode.
pub open spec fn read_i4_mode(s: Seq<Bin>, p: int, predicted: int) -> Option<(int, int)> {
    match cabac::dec_at(s, p, 68) {
        None => None,
        Some(b) => if b == 1 {
            Some((predicted, p + 1))
        } else {
            match (
                cabac::dec_at(s, p + 1, 69),
                cabac::dec_at(s, p + 2, 69),
                cabac::dec_at(s, p + 3, 69),
            ) {
                (Some(b0), Some(b1), Some(b2)) => {
                    let rem = b0 + 2 * b1 + 4 * b2;
                    Some(
                        (
                            if rem < predicted {
                                rem
                            } else {
                                rem + 1
                            },
                            p + 4,
                        ),
                    )
                },
                _ => None,
            }
        },
    }
}

/// An intra luma prediction mode reads back.
pub proof fn law_i4_mode(s: Seq<Bin>, p: int, predicted: int, actual: int)
    requires
        0 <= predicted <= 8,
        0 <= actual <= 8,
        cabac::stands_at(s, p, binarize::i4_mode_bins(predicted, actual)),
    ensures
        read_i4_mode(s, p, predicted) == Some(
            (actual, p + binarize::i4_mode_bins(predicted, actual).len()),
        ),
{
    let b = binarize::i4_mode_bins(predicted, actual);
    assert(s[p + 0] == b[0]);
    if actual != predicted {
        assert(s[p + 1] == b[1]);
        assert(s[p + 2] == b[2]);
        assert(s[p + 3] == b[3]);
    }
}

/// The reader of the chroma part of `coded_block_pattern`.
pub open spec fn read_cbp_chroma(
    s: Seq<Bin>,
    p: int,
    top: Option<u8>,
    left: Option<u8>,
) -> Option<(int, int)> {
    match cabac::dec_at(
        s,
        p,
        77 + binarize::cbp_chroma_any(left) + 2 * binarize::cbp_chroma_any(top),
    ) {
        None => None,
        Some(b) => if b == 0 {
            Some((0, p + 1))
        } else {
            match cabac::dec_at(
                s,
                p + 1,
                81 + binarize::cbp_chroma_ac(left) + 2 * binarize::cbp_chroma_ac(top),
            ) {
                None => None,
                Some(ac) => Some((1 + ac, p + 2)),
            }
        },
    }
}

/// The reader of the luma part of `coded_block_pattern`; each context uses the bits that
/// were read before.
pub open spec fn read_cbp_luma(
    s: Seq<Bin>,
    p: int,
    top: Option<u8>,
    left: Option<u8>,
) -> Option<int> {
    match cabac::dec_at(s, p, 73 + binarize::cbp_clear(left, 2) + 2 * binarize::cbp_clear(top, 4)) {
        None => None,
        Some(b0) => match (
            cabac::dec_at(s, p + 1, 73 + cabac::bit(b0 == 0) + 2 * binarize::cbp_clear(top, 8)),
            cabac::dec_at(s, p + 2, 73 + binarize::cbp_clear(left, 8) + 2 * cabac::bit(b0 == 0)),
        ) {
            (Some(b1), Some(b2)) => match cabac::dec_at(
                s,
                p + 3,
                73 + cabac::bit(b2 == 0) + 2 * cabac::bit(b1 == 0),
            ) {
                Some(b3) => Some(b0 + 2 * b1 + 4 * b2 + 8 * b3),
                None => None,
            },
            _ => None,
        },
    }
}

/// The reader of `coded_block_pattern`.
pub open spec fn read_cbp(s: Seq<Bin>, p: int, top: Option<u8>, left: Option<u8>) -> Option<
    (int, int),
> {
    match (read_cbp_luma(s, p, top, left), read_cbp_chroma(s, p + 4, top, left)) {
        (Some(l), Some((c, q))) => Some((l + 16 * c, q)),
        _ => None,
    }
}

/// `coded_block_pattern` reads back.
pub proof fn law_cbp(s: Seq<Bin>, p: int, top: Option<u8>, left: Option<u8>, cbp: int)
    requires
        0 <= cbp <= 47,
        cabac::stands_at(s, p, binarize::cbp_bins(top, left, cbp)),
    ensures
        read_cbp(s, p, top, left) == Some((cbp, p + binarize::cbp_bins(top, left, cbp).len())),
{
    let l = binarize::cbp_luma_bins(top, left, cbp);
    let c = binarize::cbp_chroma_bins(top, left, cbp / 16);
    cabac::lemma_stands_at_concat(s, p, l, c);
    lemma_cbp_luma(s, p, top, left, cbp);
    lemma_cbp_chroma(s, p + 4, top, left, cbp / 16);
}

proof fn lemma_dec_at(s: Seq<Bin>, p: int, ctx: int, b: int)
    requires
        0 <= p < s.len(),
        s[p] == Bin::dec(ctx, b),
        0 <= ctx <= 1023,
        0 <= b <= 1,
    ensures
        cabac::dec_at(s, p, ctx) == Some(b),
{
}

proof fn lemma_cbp_clear(n: Option<u8>, w: int)
    ensures
        0 <= binarize::cbp_clear(n, w) <= 1,
{
}

proof fn lemma_cbp_luma(s: Seq<Bin>, p: int, top: Option<u8>, left: Option<u8>, cbp: int)
    requires
        0 <= cbp <= 47,
        cabac::stands_at(s, p, binarize::cbp_luma_bins(top, left, cbp)),
    ensures
        read_cbp_luma(s, p, top, left) == Some(cbp % 16),
{
    let l = binarize::cbp_luma_bins(top, left, cbp);
    lemma_cbp_clear(left, 2);
    lemma_cbp_clear(left, 8);
    lemma_cbp_clear(top, 4);
    lemma_cbp_clear(top, 8);
    let (l2, l8) = (binarize::cbp_clear(left, 2), binarize::cbp_clear(left, 8));
    let (t4, t8) = (binarize::cbp_clear(top, 4), binarize::cbp_clear(top, 8));
    let (b0, b1, b2, b3) = (cbp % 2, (cbp / 2) % 2, (cbp / 4) % 2, (cbp / 8) % 2);
    assert(s[p + 0] == l[0]);
    assert(s[p + 1] == l[1]);
    assert(s[p + 2] == l[2]);
    assert(s[p + 3] == l[3]);
    lemma_dec_at(s, p, 73 + l2 + 2 * t4, b0);
    lemma_dec_at(s, p + 1, 73 + cabac::bit(b0 == 0) + 2 * t8, b1);
    lemma_dec_at(s, p + 2, 73 + l8 + 2 * cabac::bit(b0 == 0), b2);
    lemma_dec_at(s, p + 3, 73 + cabac::bit(b2 == 0) + 2 * cabac::bit(b1 == 0), b3);
    assert(b0 + 2 * b1 + 4 * b2 + 8 * b3 == cbp % 16);
}

proof fn lemma_cbp_chroma(s: Seq<Bin>, p: int, top: Option<u8>, left: Option<u8>, chroma: int)
    requires
        0 <= chroma <= 2,
        cabac::stands_at(s, p, binarize::cbp_chroma_bins(top, left, chroma)),
    ensures
        read_cbp_chroma(s, p, top, left) == Some(
            (chroma, p + binarize::cbp_chroma_bins(top, left, chroma).len()),
        ),
{
    let c = binarize::cbp_chroma_bins(top, left, chroma);
    assert(s[p + 0] == c[0]);
    if chroma != 0 {
        assert(s[p + 1] == c[1]);
    }
}

/// Count motion prefix ones from the `i`-th on, up to a zero or up to `m` of them.
pub open spec fn read_mv_run(s: Seq<Bin>, p: int, base: int, i: int, m: nat) -> Option<(nat, int)>
    decreases m,
{
    if m == 0 {
        Some((0, p))
    } else {
        match cabac::dec_at(s, p, base + arith::min(i, 3)) {
            None => None,
            Some(b) => if b == 0 {
                Some((0, p + 1))
            } else {
                match read_mv_run(s, p + 1, base, i + 1, (m - 1) as nat) {
                    None => None,
                    Some((n, q)) => Some((n + 1, q)),
                }
            },
        }
    }
}

/// The reader of a motion-vector magnitude.
pub open spec fn read_ueg_mv(s: Seq<Bin>, p: int, base: int) -> Option<(nat, int)> {
    match read_mv_run(s, p, base, 0, 8) {
        None => None,
        Some((n, q)) => if n < 8 {
            Some((n, q))
        } else {
            match read_exp(s, q, 3) {
                None => None,
                Some((v, r)) => Some((v + 8, r)),
            }
        },
    }
}

proof fn lemma_mv_run(s: Seq<Bin>, p: int, base: int, i: nat, v: nat, m: nat)
    requires
        0 <= base,
        base + 3 <= usize::MAX,
        i <= v,
        v - i < m,
        0 <= p,
        p + (v - i) < s.len(),
        forall|j: int| i <= j < v ==> #[trigger] s[p - i + j] == Bin::dec(base + arith::min(j, 3), 1),
        s[p - i + v] == Bin::dec(base + arith::min(v as int, 3), 0),
    ensures
        read_mv_run(s, p, base, i as int, m) == Some(((v - i) as nat, p + (v - i) + 1)),
    decreases v - i,
{
    if i < v {
        assert(s[p - i + i] == Bin::dec(base + arith::min(i as int, 3), 1));
        assert forall|j: int| i + 1 <= j < v implies #[trigger] s[p + 1 - (i + 1) + j] == Bin::dec(
            base + arith::min(j, 3),
            1,
        ) by {
            assert(s[p - i + j] == Bin::dec(base + arith::min(j, 3), 1));
        }
        lemma_mv_run(s, p + 1, base, i + 1, v, (m - 1) as nat);
    }
}

proof fn lemma_mv_run_full(s: Seq<Bin>, p: int, base: int, i: nat, m: nat)
    requires
        0 <= base,
        base + 3 <= usize::MAX,
        0 <= p,
        p + m <= s.len(),
        forall|j: int| i <= j < i + m ==> #[trigger] s[p - i + j] == Bin::dec(base + arith::min(j, 3), 1),
    ensures
        read_mv_run(s, p, base, i as int, m) == Some((m, p + m)),
    decreases m,
{
    if m > 0 {
        assert(s[p - i + i] == Bin::dec(base + arith::min(i as int, 3), 1));
        assert forall|j: int| i + 1 <= j < i + m implies #[trigger] s[p + 1 - (i + 1) + j]
            == Bin::dec(base + arith::min(j, 3), 1) by {
            assert(s[p - i + j] == Bin::dec(base + arith::min(j, 3), 1));
        }
        lemma_mv_run_full(s, p + 1, base, i + 1, (m - 1) as nat);
    }
}

/// A motion-vector magnitude reads back.
pub proof fn law_ueg_mv(s: Seq<Bin>, p: int, base: int, v: nat)
    requires
        0 <= base,
        base + 3 <= usize::MAX,
        cabac::stands_at(s, p, binarize::ueg_mv_bins(base, v)),
    ensures
        read_ueg_mv(s, p, base) == Some((v, p + binarize::ueg_mv_bins(base, v).len())),
{
    let b = binarize::ueg_mv_bins(base, v);
    if v <= 7 {
        assert forall|j: int| 0 <= j < v implies #[trigger] s[p - 0 + j] == Bin::dec(
            base + arith::min(j, 3),
            1,
        ) by {
            assert(s[p + j] == b[j]);
        }
        assert(s[p + v] == b[v as int]);
        lemma_mv_run(s, p, base, 0, v, 8);
    } else {
        let pre = binarize::mv_prefix_bins(base, 8);
        let e = binarize::exp_bins(3, (v - 8) as nat);
        cabac::lemma_stands_at_concat(s, p, pre, e);
        assert forall|j: int| 0 <= j < 0 + 8 implies #[trigger] s[p - 0 + j] == Bin::dec(
            base + arith::min(j, 3),
            1,
        ) by {
            assert(s[p + j] == pre[j]);
        }
        lemma_mv_run_full(s, p, base, 0, 8);
        law_exp(s, p + 8, 3, (v - 8) as nat);
    }
}

/// The reader of one motion-vector-difference component.
pub open spec fn read_mvd(s: Seq<Bin>, p: int, comp: int, ctx_inc: int) -> Option<(int, int)> {
    let base = 40 + comp * 7;
    match cabac::dec_at(s, p, base + ctx_inc) {
        None => None,
        Some(b) => if b == 0 {
            Some((0, p + 1))
        } else {
            match read_ueg_mv(s, p + 1, base + 3) {
                None => None,
                Some((v, q)) => match cabac::byp_at(s, q) {
                    None => None,
                    Some(sign) => Some(
                        (
                            if sign == 1 {
                                -(v as int + 1)
                            } else {
                                v as int + 1
                            },
                            q + 1,
                        ),
                    ),
                },
            }
        },
    }
}

/// A motion-vector-difference component reads back.
pub proof fn law_mvd(s: Seq<Bin>, p: int, comp: int, ctx_inc: int, d: int)
    requires
        0 <= comp <= 1,
        0 <= ctx_inc <= 2,
        cabac::stands_at(s, p, binarize::mvd_bins(comp, ctx_inc, d)),
    ensures
        read_mvd(s, p, comp, ctx_inc) == Some(
            (d, p + binarize::mvd_bins(comp, ctx_inc, d).len()),
        ),
{
    let b = binarize::mvd_bins(comp, ctx_inc, d);
    assert(s[p + 0] == b[0]);
    if d != 0 {
        let base = 40 + comp * 7;
        let v = (arith::abs(d) - 1) as nat;
        let u = binarize::ueg_mv_bins(base + 3, v);
        let sign = seq![Bin::byp(cabac::bit(d < 0))];
        assert(u.push(Bin::byp(cabac::bit(d < 0))) =~= u + sign);
        cabac::lemma_stands_at_concat(s, p, seq![Bin::dec(base + ctx_inc, 1)], u + sign);
        cabac::lemma_stands_at_concat(s, p + 1, u, sign);
        law_ueg_mv(s, p + 1, base + 3, v);
        assert(s[p + 1 + u.len() + 0] == sign[0]);
    }
}

/// The reader of a reference index, from its `i`-th bin on.
pub open spec fn read_ref_idx(s: Seq<Bin>, p: int, ctx0: int, i: int) -> Option<(nat, int)>
    decreases s.len() - p,
{
    match cabac::dec_at(s, p, binarize::ref_ctx(ctx0, i)) {
        None => None,
        Some(b) => if b == 0 {
            Some((0, p + 1))
        } else {
            match read_ref_idx(s, p + 1, ctx0, i + 1) {
                None => None,
                Some((n, q)) => Some((n + 1, q)),
            }
        },
    }
}

proof fn lemma_ref_idx(s: Seq<Bin>, p: int, ctx0: int, r: nat, i: nat)
    requires
        0 <= ctx0 <= 3,
        i <= r,
        cabac::stands_at(s, p, binarize::ref_idx_bins(ctx0, r)),
    ensures
        read_ref_idx(s, p + i, ctx0, i as int) == Some(((r - i) as nat, p + r + 1)),
    decreases r - i,
{
    let b = binarize::ref_idx_bins(ctx0, r);
    assert(s[p + i] == b[i as int]);
    if i < r {
        lemma_ref_idx(s, p, ctx0, r, i + 1);
    }
}

/// A reference index reads back.
pub proof fn law_ref_idx(s: Seq<Bin>, p: int, ctx0: int, r: nat)
    requires
        0 <= ctx0 <= 3,
        cabac::stands_at(s, p, binarize::ref_idx_bins(ctx0, r)),
    ensures
        read_ref_idx(s, p, ctx0, 0) == Some((r, p + binarize::ref_idx_bins(ctx0, r).len())),
{
    lemma_ref_idx(s, p, ctx0, r, 0);
}

/// The reader of a P-slice inter `mb_type`.
pub open spec fn read_mb_type_p(s: Seq<Bin>, p: int) -> Option<(int, int)> {
    match (cabac::dec_at(s, p, 14), cabac::dec_at(s, p + 1, 15)) {
        (Some(intra), Some(b1)) => if intra == 1 {
            None
        } else if b1 == 0 {
            match cabac::dec_at(s, p + 2, 16) {
                Some(b) => Some((3 * b, p + 3)),
                None => None,
            }
        } else {
            match cabac::dec_at(s, p + 2, 17) {
                Some(b) => Some((2 - b, p + 3)),
                None => None,
            }
        },
        _ => None,
    }
}

/// A P-slice inter `mb_type` reads back.
pub proof fn law_mb_type_p(s: Seq<Bin>, p: int, mode: int)
    requires
        0 <= mode <= 3,
        cabac::stands_at(s, p, binarize::mb_type_p_bins(mode)),
    ensures
        read_mb_type_p(s, p) == Some((mode, p + binarize::mb_type_p_bins(mode).len())),
{
    let b = binarize::mb_type_p_bins(mode);
    assert(s[p + 0] == b[0]);
    assert(s[p + 1] == b[1]);
    assert(s[p + 2] == b[2]);
}

/// The reader of a P `sub_mb_type`.
pub open spec fn read_sub_type_p(s: Seq<Bin>, p: int) -> Option<(int, int)> {
    match cabac::dec_at(s, p, 21) {
        None => None,
        Some(b) => if b == 1 {
            Some((0, p + 1))
        } else {
            match cabac::dec_at(s, p + 1, 22) {
                None => None,
                Some(b1) => if b1 == 0 {
                    Some((1, p + 2))
                } else {
                    match cabac::dec_at(s, p + 2, 23) {
                        None => None,
                        Some(b2) => Some((3 - b2, p + 3)),
                    }
                },
            }
        },
    }
}

/// A P `sub_mb_type` reads back.
pub proof fn law_sub_type_p(s: Seq<Bin>, p: int, sub_type: int)
    requires
        0 <= sub_type <= 3,
        cabac::stands_at(s, p, binarize::sub_type_p_bins(sub_type)),
    ensures
        read_sub_type_p(s, p) == Some(
            (sub_type, p + binarize::sub_type_p_bins(sub_type).len()),
        ),
{
    let b = binarize::sub_type_p_bins(sub_type);
    assert(s[p + 0] == b[0]);
    if sub_type >= 1 {
        assert(s[p + 1] == b[1]);
    }
    if sub_type >= 2 {
        assert(s[p + 2] == b[2]);
    }
}

/// The reader of a B-slice `mb_type`: the code 13 is the escape to the intra types, which
/// this reader does not follow.
pub open spec fn read_mb_type_b(s: Seq<Bin>, p: int, ctx_inc: int) -> Option<(int, int)> {
    match cabac::dec_at(s, p, 27 + ctx_inc) {
        None => None,
        Some(b) => if b == 0 {
            Some((0, p + 1))
        } else {
            match cabac::dec_at(s, p + 1, 30) {
                None => None,
                Some(c) => if c == 0 {
                    match cabac::dec_at(s, p + 2, 32) {
                        None => None,
                        Some(d) => Some((1 + d, p + 3)),
                    }
                } else {
                    match (
                        cabac::dec_at(s, p + 2, 31),
                        cabac::dec_at(s, p + 3, 32),
                        cabac::dec_at(s, p + 4, 32),
                        cabac::dec_at(s, p + 5, 32),
                    ) {
                        (Some(m3), Some(m2), Some(m1), Some(m0)) => {
                            let m = 8 * m3 + 4 * m2 + 2 * m1 + m0;
                            if m < 8 {
                                Some((m + 3, p + 6))
                            } else if m == 13 {
                                None
                            } else if m == 14 {
                                Some((11, p + 6))
                            } else if m == 15 {
                                Some((22, p + 6))
                            } else {
                                match cabac::dec_at(s, p + 6, 32) {
                                    None => None,
                                    Some(e) => Some((2 * m + e - 4, p + 7)),
                                }
                            }
                        },
                        _ => None,
                    }
                },
            }
        },
    }
}

/// Every B-slice `mb_type` reads back.
pub proof fn law_mb_type_b(s: Seq<Bin>, p: int, ctx_inc: int, mb_type: int)
    requires
        0 <= ctx_inc <= 2,
        0 <= mb_type <= 22,
        cabac::stands_at(s, p, binarize::mb_type_b_bins(ctx_inc, mb_type)),
    ensures
        read_mb_type_b(s, p, ctx_inc) == Some(
            (mb_type, p + binarize::mb_type_b_bins(ctx_inc, mb_type).len()),
        ),
{
    let b = binarize::mb_type_b_bins(ctx_inc, mb_type);
    assert(s[p + 0] == b[0]);
    if mb_type >= 1 {
        assert(s[p + 1] == b[1]);
        assert(s[p + 2] == b[2]);
    }
    if mb_type >= 3 {
        assert(s[p + 3] == b[3]);
        assert(s[p + 4] == b[4]);
        assert(s[p + 5] == b[5]);
        if 12 <= mb_type && mb_type != 22 {
            assert(s[p + 6] == b[6]);
        }
    }
}

/// The B `mb_type` of a two-partition macroblock tells its two predictions and its split
/// apart, and never collides with the one-partition types or with 8x8.
pub proof fn law_b_part_type(p0: int, p1: int, m: int, q0: int, q1: int, n: int)
    requires
        1 <= p0 <= 3,
        1 <= p1 <= 3,
        1 <= m <= 2,
        1 <= q0 <= 3,
        1 <= q1 <= 3,
        1 <= n <= 2,
    ensures
        4 <= binarize::b_part_type(p0, p1, m) <= 21,
        binarize::b_part_type(p0, p1, m) == binarize::b_part_type(q0, q1, n) ==> p0 == q0 && p1
            == q1 && m == n,
{
}

/// The reader of a significance map, for the positions from `i` to the last one of the
/// kind: position by position a flag, and behind a set flag whether it was the last. Where
/// no flag was the last, the last position is significant.
pub open spec fn read_sig(s: Seq<Bin>, p: int, rp: int, i: int) -> Option<(Seq<bool>, int)>
    decreases residual::CB_RES_MAXPOS[rp] - i,
{
    let maxpos = residual::CB_RES_MAXPOS[rp] as int;
    if i >= maxpos {
        Some((seq![true], p))
    } else {
        match cabac::dec_at(s, p, residual::sig_ctx(rp, i)) {
            None => None,
            Some(b) => if b == 0 {
                match read_sig(s, p + 1, rp, i + 1) {
                    None => None,
                    Some((f, q)) => Some((seq![false] + f, q)),
                }
            } else {
                match cabac::dec_at(s, p + 1, residual::last_ctx(rp, i)) {
                    None => None,
                    Some(l) => if l == 1 {
                        Some((seq![true] + Seq::new((maxpos - i) as nat, |j: int| false), p + 2))
                    } else {
                        match read_sig(s, p + 2, rp, i + 1) {
                            None => None,
                            Some((f, q)) => Some((seq![true] + f, q)),
                        }
                    },
                }
            },
        }
    }
}

/// The reader of one level.
pub open spec fn read_level(s: Seq<Bin>, p: int, rp: int, c1: int, c2: int) -> Option<(int, int)> {
    match cabac::dec_at(s, p, 227 + residual::CB_RES_ONE[rp] + c1) {
        None => None,
        Some(gt) => {
            let tail = if gt == 0 {
                Some((1nat, p + 1))
            } else {
                match read_ueg_level(s, p + 1, 232 + residual::CB_RES_ONE[rp] + c2) {
                    None => None,
                    Some((v, q)) => Some((v + 2, q)),
                }
            };
            match tail {
                None => None,
                Some((av, q)) => match cabac::byp_at(s, q) {
                    None => None,
                    Some(sign) => Some(
                        (
                            if sign == 1 {
                                -(av as int)
                            } else {
                                av as int
                            },
                            q + 1,
                        ),
                    ),
                },
            }
        },
    }
}

/// The reader of the levels of the first `n` positions, last one first, where `f` tells
/// which of them are significant.
pub open spec fn read_levels(
    s: Seq<Bin>,
    p: int,
    f: Seq<bool>,
    rp: int,
    n: int,
    c1: int,
    c2: int,
) -> Option<(Seq<int>, int)>
    decreases n,
{
    if n <= 0 {
        Some((Seq::empty(), p))
    } else if !f[n - 1] {
        match read_levels(s, p, f, rp, n - 1, c1, c2) {
            None => None,
            Some((v, q)) => Some((v.push(0), q)),
        }
    } else {
        match read_level(s, p, rp, c1, c2) {
            None => None,
            Some((x, q)) => match read_levels(
                s,
                q,
                f,
                rp,
                n - 1,
                residual::next_c1(x, c1),
                residual::next_c2(rp, x, c2),
            ) {
                None => None,
                Some((v, r)) => Some((v.push(x), r)),
            },
        }
    }
}

/// The reader of a residual block of kind `rp` at coded-block-flag step `inc`.
pub open spec fn read_residual(s: Seq<Bin>, p: int, rp: int, inc: int) -> Option<
    (Seq<int>, int),
> {
    let n = residual::CB_RES_MAXPOS[rp] + 1;
    let flag = if rp == 6 {
        Some(1int)
    } else {
        cabac::dec_at(s, p, 85 + residual::CB_RES_CBF[rp] + inc)
    };
    let q = if rp == 6 {
        p
    } else {
        p + 1
    };
    match flag {
        None => None,
        Some(c) => if c == 0 {
            Some((Seq::new(n as nat, |j: int| 0int), q))
        } else {
            match read_sig(s, q, rp, 0) {
                None => None,
                Some((f, r)) => read_levels(s, r, f, rp, n, 1, 0),
            }
        },
    }
}

/// Which positions from `i` to the last one of the kind are not zero.
pub open spec fn flags(co: Seq<i32>, rp: int, i: int) -> Seq<bool> {
    Seq::new((residual::CB_RES_MAXPOS[rp] + 1 - i) as nat, |j: int| co[i + j] != 0)
}

proof fn lemma_ctx_ranges(rp: int, i: int)
    requires
        0 <= rp <= 10,
        0 <= i < residual::CB_RES_MAXPOS[rp],
    ensures
        0 <= residual::sig_ctx(rp, i) <= 1023,
        0 <= residual::last_ctx(rp, i) <= 1023,
{
    assert(residual::CB_RES_MAXPOS[rp] <= 63);
    assert(residual::CB_RES_MAP[rp] <= 47);
}

proof fn lemma_sig(s: Seq<Bin>, p: int, co: Seq<i32>, rp: int, i: int)
    requires
        0 <= rp <= 10,
        residual::CB_RES_MAXPOS[rp] < co.len(),
        0 <= i <= residual::last_nz(co, residual::CB_RES_MAXPOS[rp] + 1),
        cabac::stands_at(
            s,
            p,
            residual::sig_bins(co, rp, i, residual::last_nz(co, residual::CB_RES_MAXPOS[rp] + 1)),
        ),
    ensures
        read_sig(s, p, rp, i) == Some(
            (
                flags(co, rp, i),
                p + residual::sig_bins(
                    co,
                    rp,
                    i,
                    residual::last_nz(co, residual::CB_RES_MAXPOS[rp] + 1),
                ).len(),
            ),
        ),
    decreases residual::CB_RES_MAXPOS[rp] - i,
{
    let maxpos = residual::CB_RES_MAXPOS[rp] as int;
    let last = residual::last_nz(co, maxpos + 1);
    residual::lemma_last_nz(co, maxpos + 1);
    let b = residual::sig_bins(co, rp, i, last);
    if i >= maxpos {
        assert(flags(co, rp, i) =~= seq![true]);
    } else {
        lemma_ctx_ranges(rp, i);
        let sc = residual::sig_ctx(rp, i);
        let lc = residual::last_ctx(rp, i);
        assert(s[p + 0] == b[0]);
        if co[i] == 0 {
            cabac::lemma_stands_at_concat(
                s,
                p,
                seq![Bin::dec(sc, 0)],
                residual::sig_bins(co, rp, i + 1, last),
            );
            lemma_dec_at(s, p, sc, 0);
            lemma_sig(s, p + 1, co, rp, i + 1);
            assert(flags(co, rp, i) =~= seq![false] + flags(co, rp, i + 1));
        } else if i == last {
            assert(s[p + 1] == b[1]);
            lemma_dec_at(s, p, sc, 1);
            lemma_dec_at(s, p + 1, lc, 1);
            assert(flags(co, rp, i) =~= seq![true] + Seq::new((maxpos - i) as nat, |j: int| false));
        } else {
            cabac::lemma_stands_at_concat(
                s,
                p,
                seq![Bin::dec(sc, 1), Bin::dec(lc, 0)],
                residual::sig_bins(co, rp, i + 1, last),
            );
            assert(s[p + 1] == b[1]);
            lemma_dec_at(s, p, sc, 1);
            lemma_dec_at(s, p + 1, lc, 0);
            lemma_sig(s, p + 2, co, rp, i + 1);
            assert(flags(co, rp, i) =~= seq![true] + flags(co, rp, i + 1));
        }
    }
}

/// One level reads back.
pub proof fn law_level(s: Seq<Bin>, p: int, rp: int, v: int, c1: int, c2: int)
    requires
        0 <= rp <= 10,
        v != 0,
        0 <= c1 <= 4,
        0 <= c2 <= 4,
        cabac::stands_at(s, p, residual::level_one_bins(rp, v, c1, c2)),
    ensures
        read_level(s, p, rp, c1, c2) == Some(
            (v, p + residual::level_one_bins(rp, v, c1, c2).len()),
        ),
{
    let av = arith::abs(v);
    let one = 227 + residual::CB_RES_ONE[rp];
    assert(residual::CB_RES_ONE[rp] <= 199);
    let a = seq![Bin::dec(one + c1, cabac::bit(av > 1))];
    let m = if av > 1 {
        binarize::ueg_level_bins(232 + residual::CB_RES_ONE[rp] + c2, (av - 2) as nat)
    } else {
        Seq::empty()
    };
    let z = seq![Bin::byp(cabac::bit(v < 0))];
    cabac::lemma_stands_at_concat(s, p, a + m, z);
    cabac::lemma_stands_at_concat(s, p, a, m);
    assert(s[p + 0] == a[0]);
    lemma_dec_at(s, p, one + c1, cabac::bit(av > 1));
    if av > 1 {
        law_ueg_level(s, p + 1, 232 + residual::CB_RES_ONE[rp] + c2, (av - 2) as nat);
    }
    let q = p + 1 + m.len();
    assert((a + m).len() == 1 + m.len());
    assert(s[q + 0] == z[0]);
}

proof fn lemma_levels(
    s: Seq<Bin>,
    p: int,
    co: Seq<i32>,
    f: Seq<bool>,
    rp: int,
    n: int,
    c1: int,
    c2: int,
)
    requires
        0 <= rp <= 10,
        0 <= n <= co.len(),
        n <= f.len(),
        forall|i: int| 0 <= i < n ==> #[trigger] f[i] == (co[i] != 0),
        0 <= c1 <= 4,
        0 <= c2 <= 4,
        cabac::stands_at(s, p, residual::level_bins(co, rp, n, c1, c2)),
    ensures
        read_levels(s, p, f, rp, n, c1, c2) == Some(
            (
                co.take(n).map_values(|x: i32| x as int),
                p + residual::level_bins(co, rp, n, c1, c2).len(),
            ),
        ),
    decreases n,
{
    let vals = co.take(n).map_values(|x: i32| x as int);
    if n == 0 {
        assert(vals =~= Seq::<int>::empty());
    } else {
        let prev = co.take(n - 1).map_values(|x: i32| x as int);
        assert(vals =~= prev.push(co[n - 1] as int));
        assert(f[n - 1] == (co[n - 1] != 0));
        if co[n - 1] == 0 {
            lemma_levels(s, p, co, f, rp, n - 1, c1, c2);
        } else {
            let v = co[n - 1] as int;
            assert(residual::CB_RES_MAXC2[rp] <= 4);
            let a = residual::level_one_bins(rp, v, c1, c2);
            let d1 = residual::next_c1(v, c1);
            let d2 = residual::next_c2(rp, v, c2);
            cabac::lemma_stands_at_concat(s, p, a, residual::level_bins(co, rp, n - 1, d1, d2));
            law_level(s, p, rp, v, c1, c2);
            lemma_levels(s, p + a.len(), co, f, rp, n - 1, d1, d2);
        }
    }
}

/// A residual block reads back, coefficient for coefficient.
pub proof fn law_residual(s: Seq<Bin>, p: int, co: Seq<i32>, rp: int, inc: int)
    requires
        0 <= rp <= 10,
        0 <= inc <= 3,
        residual::CB_RES_MAXPOS[rp] < co.len(),
        rp == 6 ==> residual::last_nz(co, 64) >= 0,
        cabac::stands_at(s, p, residual::residual_bins(co, rp, inc)),
    ensures
        read_residual(s, p, rp, inc) == Some(
            (
                co.take(residual::CB_RES_MAXPOS[rp] + 1).map_values(|x: i32| x as int),
                p + residual::residual_bins(co, rp, inc).len(),
            ),
        ),
{
    let maxpos = residual::CB_RES_MAXPOS[rp] as int;
    let n = maxpos + 1;
    let last = residual::last_nz(co, n);
    let coded = last >= 0;
    residual::lemma_last_nz(co, n);
    assert(residual::CB_RES_CBF[rp] <= 16);
    assert(rp == 6 ==> n == 64);
    let fb = Bin::dec(85 + residual::CB_RES_CBF[rp] + inc, cabac::bit(coded));
    let head = if rp == 6 {
        Seq::empty()
    } else {
        seq![fb]
    };
    let sig = residual::sig_bins(co, rp, 0, last);
    let lev = residual::level_bins(co, rp, n, 1, 0);
    let body = if coded {
        sig + lev
    } else {
        Seq::empty()
    };
    cabac::lemma_stands_at_concat(s, p, head, body);
    if rp != 6 {
        assert(s[p + 0] == head[0]);
        lemma_dec_at(s, p, 85 + residual::CB_RES_CBF[rp] + inc, cabac::bit(coded));
    }
    let q = p + head.len();
    if coded {
        cabac::lemma_stands_at_concat(s, q, sig, lev);
        lemma_sig(s, q, co, rp, 0);
        lemma_levels(s, q + sig.len(), co, flags(co, rp, 0), rp, n, 1, 0);
        assert(residual::residual_bins(co, rp, inc).len() == head.len() + (sig.len() + lev.len()));
    } else {
        assert(co.take(n).map_values(|x: i32| x as int) =~= Seq::new(n as nat, |j: int| 0int));
    }
}

} // verus!
