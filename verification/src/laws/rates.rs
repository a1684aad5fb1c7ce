//! What the rate of a vector depends on.
use vstd::prelude::*;
use crate::arith;
use crate::bits;
use crate::kernels;
use crate::kernels::{Kernels, Phase, Price};
use crate::search::{MvRate, Pricer};

verus! {

/// Wrapping keeps a number up to multiples of the range, and lands in the range.
proof fn lemma_wrap(v: int)
    ensures
        i32::MIN <= arith::wrap(v) <= i32::MAX,
        arith::wrap(v) == v - 0x1_0000_0000 * ((v + 0x8000_0000) / 0x1_0000_0000),
{
}

/// Numbers that differ by a multiple of the range wrap to the same.
pub proof fn law_wrap(u: int, v: int, k: int)
    requires
        u == v + 0x1_0000_0000 * k,
    ensures
        arith::wrap(u) == arith::wrap(v),
        i32::MIN <= v <= i32::MAX ==> arith::wrap(u) == v,
{
    lemma_wrap(u);
    lemma_wrap(v);
}

/// A difference stays the same where both numbers move by the same amount, also where they wrap.
pub proof fn law_differences_move_along(x: int, c: int, d: int)
    ensures
        arith::wrap(arith::wrap(x + d) - arith::wrap(c + d)) == arith::wrap(x - c),
{
    lemma_wrap(x + d);
    lemma_wrap(c + d);
    let a = (x + d + 0x8000_0000) / 0x1_0000_0000;
    let b = (c + d + 0x8000_0000) / 0x1_0000_0000;
    law_wrap(arith::wrap(x + d) - arith::wrap(c + d), x - c, b - a);
}

/// The predictor itself is charged two zero differences, wherever it lies: two bits where differences
/// are charged by their codes.
pub proof fn law_rate_of_the_predictor<K: Kernels>(p: Pricer<K>)
    ensures
        p.rate_at(p.center.0 as int, p.center.1 as int) == 2 * p.rate.bits(0),
        *p.rate is Golomb ==> p.rate_at(p.center.0 as int, p.center.1 as int) == 2,
        p.cost_at(false, p.center.0 as int, p.center.1 as int) - crate::distortion::mv_dist(
            p.fe.by_sad(),
            *p.k,
            p.reference.y@,
            p.sy@,
            p.fe.cw,
            (16 * p.fe.mb_h) as usize,
            p.lx,
            p.ly,
            p.rw,
            p.rh,
            crate::distortion::luma_job(p.list, p.refi, p.lx, p.ly, p.rw, p.rh, p.center),
        ) == kernels::price_of(
            *p.k,
            (Price {
                phase: Phase::Fine,
                bits: (2 * p.rate.bits(0)) as u32,
                loud: p.fe.mb_loud,
            }),
        ),
{
    reveal_with_fuel(bits::bit_len, 3);
    vstd::arithmetic::power2::lemma2_to64();
}

/// Moving a vector and its predictor by the same amount leaves the rate as it was.
pub proof fn law_rate_moves_along<K: Kernels, L: Kernels>(
    p: Pricer<K>,
    q: Pricer<L>,
    x: int,
    y: int,
    dx: int,
    dy: int,
)
    requires
        *p.rate == *q.rate,
        q.center.0 == arith::wrap(p.center.0 + dx),
        q.center.1 == arith::wrap(p.center.1 + dy),
    ensures
        q.rate_at(arith::wrap(x + dx), arith::wrap(y + dy)) == p.rate_at(x, y),
{
    law_differences_move_along(x, p.center.0 as int, dx);
    law_differences_move_along(y, p.center.1 as int, dy);
}

/// The two components are charged alike, and each for itself: exchanging them exchanges nothing in
/// the rate, and the rate is the sum of what each would cost beside a component that is met exactly.
pub proof fn law_rate_is_a_sum<K: Kernels, L: Kernels>(p: Pricer<K>, q: Pricer<L>, x: int, y: int)
    requires
        *p.rate == *q.rate,
        q.center == (p.center.1, p.center.0),
    ensures
        q.rate_at(y, x) == p.rate_at(x, y),
        p.rate_at(x, y) + p.rate_at(p.center.0 as int, p.center.1 as int) == p.rate_at(
            x,
            p.center.1 as int,
        ) + p.rate_at(p.center.0 as int, y),
{
}

proof fn lemma_bit_len_rises(a: nat, b: nat)
    requires
        a <= b,
    ensures
        bits::bit_len(a) <= bits::bit_len(b),
    decreases b,
{
    if a > 0 {
        lemma_bit_len_rises(a / 2, b / 2);
    }
}

/// A difference and its opposite are charged alike, and a larger difference is never charged less by
/// its code. The most negative number, whose code does not fit, is left out.
pub proof fn law_golomb_rate(d: int, e: int)
    requires
        i32::MIN < d <= i32::MAX,
        i32::MIN < e <= i32::MAX,
    ensures
        MvRate::Golomb.bits(d) == MvRate::Golomb.bits(-d),
        arith::abs(d) <= arith::abs(e) ==> MvRate::Golomb.bits(d) <= MvRate::Golomb.bits(e),
        MvRate::Golomb.bits(d) % 2 == 1,
        (MvRate::Golomb.bits(d) == 1) == (d == 0),
        MvRate::Golomb.bits(d) == bits::se(d).len(),
{
    let code = |v: int| bits::se_code(v);
    let (a, b) = (arith::abs(d) as nat, arith::abs(e) as nat);
    reveal_with_fuel(bits::bit_len, 2);
    if a > 0 {
        assert((2 * a) / 2 == a && (2 * a + 1) as nat / 2 == a);
        assert(bits::bit_len((2 * a) as nat) == 1 + bits::bit_len(a));
        assert(bits::bit_len((2 * a + 1) as nat) == 1 + bits::bit_len(a));
    }
    if b > 0 {
        assert((2 * b) / 2 == b && (2 * b + 1) as nat / 2 == b);
        assert(bits::bit_len((2 * b) as nat) == 1 + bits::bit_len(b));
        assert(bits::bit_len((2 * b + 1) as nat) == 1 + bits::bit_len(b));
    }
    if a <= b {
        lemma_bit_len_rises(a, b);
    }
}

/// A table charges a difference and its opposite alike, by its magnitude, and all that lie beyond its
/// end like the last one.
pub proof fn law_table_rate(r: MvRate, d: int)
    requires
        r.wf(),
        r is Table,
    ensures
        r.bits(d) == r.bits(-d),
        0 <= d < 4096 ==> r.bits(d) == r->Table_0@[d],
        d >= 4095 ==> r.bits(d) == r->Table_0@[4095],
{
}

} // verus!
