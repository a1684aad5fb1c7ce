//! Writing bits: fixed-width numbers, Exp-Golomb codes and the trailing bits of a payload.
//!
//! A writer's view is the sequence of its bits in stream order. For each kind of code
//! there is a reader, a spec function that walks the bits as a decoder does, and a law
//! that the reader gets the value back.
use vstd::prelude::*;
use vstd::arithmetic::div_mod::*;
use vstd::arithmetic::power2::*;
use crate::arith;

verus! {

/// The low `n` bits of `v`, most significant first.
pub open spec fn fixed(v: nat, n: nat) -> Seq<bool> {
    Seq::new(n, |i: int| (v / pow2((n - 1 - i) as nat)) % 2 == 1)
}

/// How many binary digits `v` has; zero has none.
pub open spec fn bit_len(v: nat) -> nat
    decreases v,
{
    if v == 0 {
        0
    } else {
        1 + bit_len(v / 2)
    }
}

/// `n` zero bits.
pub open spec fn zeros(n: nat) -> Seq<bool> {
    Seq::new(n, |i: int| false)
}

/// Unsigned Exp-Golomb code: as many zeros as `v + 1` has digits behind its first, then
/// its digits.
pub open spec fn ue(v: nat) -> Seq<bool> {
    zeros((bit_len(v + 1) - 1) as nat) + fixed(v + 1, bit_len(v + 1))
}

/// The number that stands for a signed value: 0, 1, -1, 2, -2, .. become 0, 1, 2, 3, 4, ..
pub open spec fn se_code(v: int) -> nat {
    if v > 0 {
        (2 * v - 1) as nat
    } else {
        (-2 * v) as nat
    }
}

/// Signed Exp-Golomb code.
pub open spec fn se(v: int) -> Seq<bool> {
    ue(se_code(v))
}

/// A stop bit and zeros up to the next byte, behind `len` bits.
pub open spec fn trailing(len: int) -> Seq<bool> {
    seq![true] + zeros(((7 - len % 8) % 8) as nat)
}

/// The bits of whole bytes.
pub open spec fn byte_bits(b: Seq<u8>) -> Seq<bool> {
    Seq::new(8 * b.len(), |i: int| (b[i / 8] as nat / pow2((7 - i % 8) as nat)) % 2 == 1)
}

/// One more digit behind `v`.
pub proof fn lemma_fixed_push(v: nat, n: nat, b: bool)
    ensures
        fixed((2 * v + (if b {
            1nat
        } else {
            0
        })) as nat, n + 1) == fixed(v, n).push(b),
{
    let d = if b {
        1nat
    } else {
        0
    };
    let w = (2 * v + d) as nat;
    let l = fixed(w, n + 1);
    let r = fixed(v, n).push(b);
    lemma2_to64();
    assert forall|i: int| 0 <= i < n + 1 implies l[i] == r[i] by {
        if i == n {
            assert(w / 1 == w);
        } else {
            let e = (n - 1 - i) as nat;
            lemma_pow2_unfold(e + 1);
            lemma_pow2_pos(e);
            lemma_div_denominator(w as int, 2, pow2(e) as int);
            assert(w / 2 == v);
        }
    }
    assert(l =~= r);
}

/// A writer of single bits and codes.
#[derive(Debug)]
pub struct BitWriter {
    /// The whole bytes.
    pub bytes: Vec<u8>,
    /// The bits behind them, as a number.
    pub cur: u8,
    /// How many bits there are behind the whole bytes.
    pub n: u8,
}

impl View for BitWriter {
    type V = Seq<bool>;

    open spec fn view(&self) -> Seq<bool> {
        byte_bits(self.bytes@) + fixed(self.cur as nat, self.n as nat)
    }
}

impl BitWriter {
    /// Fewer than eight bits stand behind the whole bytes.
    pub open spec fn wf(&self) -> bool {
        self.n < 8 && (self.cur as nat) < pow2(self.n as nat)
    }

    /// A writer without bits.
    pub fn new() -> (r: Self)
        ensures
            r.wf(),
            r@ == Seq::<bool>::empty(),
    {
        proof {
            lemma2_to64();
        }
        let r = BitWriter { bytes: Vec::new(), cur: 0, n: 0 };
        assert(r@ =~= Seq::<bool>::empty());
        r
    }

    /// Append one bit.
    pub fn write_bit(&mut self, b: bool)
        requires
            old(self).wf(),
        ensures
            final(self).wf(),
            final(self)@ == old(self)@.push(b),
    {
        proof {
            lemma_fixed_push(self.cur as nat, self.n as nat, b);
            lemma_pow2_unfold((self.n + 1) as nat);
            lemma2_to64();
            if self.n < 7 {
                lemma_pow2_strictly_increases((self.n + 1) as nat, 8);
            }
        }
        let d: u8 = if b {
            1
        } else {
            0
        };
        let v: u8 = 2 * self.cur + d;
        if self.n == 7 {
            self.bytes.push(v);
            self.cur = 0;
            self.n = 0;
            proof {
                let b0 = old(self).bytes@;
                let b1 = self.bytes@;
                let l = self@;
                let r = byte_bits(b0) + fixed(v as nat, 8);
                assert forall|i: int| 0 <= i < l.len() implies l[i] == r[i] by {
                    if i >= 8 * b0.len() {
                        assert(i / 8 == b0.len());
                        assert(i % 8 == i - 8 * b0.len());
                    } else {
                        assert(b1[i / 8] == b0[i / 8]);
                    }
                }
                assert(l =~= r);
                assert(r =~= old(self)@.push(b));
            }
        } else {
            self.cur = v;
            self.n = self.n + 1;
            assert(self@ =~= old(self)@.push(b));
        }
    }

    /// Append the low `n` bits of `v`, most significant first.
    pub fn write_bits(&mut self, v: u32, n: u32)
        requires
            old(self).wf(),
            n <= 32,
        ensures
            final(self).wf(),
            final(self)@ == old(self)@ + fixed(v as nat, n as nat),
    {
        let ghost whole = fixed(v as nat, n as nat);
        let mut i: u32 = 0;
        assert(self@ =~= old(self)@ + whole.take(0));
        while i < n
            invariant
                i <= n <= 32,
                self.wf(),
                whole == fixed(v as nat, n as nat),
                self@ == old(self)@ + whole.take(i as int),
            decreases n - i,
        {
            let s: u32 = n - 1 - i;
            proof {
                vstd::bits::lemma_u32_shr_is_div(v, s);
                let q = v >> s;
                assert(q & 1 == q % 2) by (bit_vector);
                assert(whole.take(i + 1) =~= whole.take(i as int).push(whole[i as int]));
            }
            let bit: u32 = (v >> s) & 1;
            self.write_bit(bit == 1);
            assert(self@ =~= old(self)@ + whole.take(i + 1));
            i = i + 1;
        }
        assert(whole.take(n as int) =~= whole);
    }

    /// Append an unsigned Exp-Golomb code.
    pub fn write_ue(&mut self, v: u32)
        requires
            old(self).wf(),
            v < u32::MAX,
        ensures
            final(self).wf(),
            final(self)@ == old(self)@ + ue(v as nat),
    {
        let len: u32 = digits(v + 1);
        self.write_zeros(len - 1);
        self.write_bits(v + 1, len);
        assert(self@ =~= old(self)@ + ue(v as nat));
    }

    fn write_zeros(&mut self, n: u32)
        requires
            old(self).wf(),
        ensures
            final(self).wf(),
            final(self)@ == old(self)@ + zeros(n as nat),
    {
        let mut i: u32 = 0;
        assert(self@ =~= old(self)@ + zeros(0));
        while i < n
            invariant
                i <= n,
                self.wf(),
                self@ == old(self)@ + zeros(i as nat),
            decreases n - i,
        {
            self.write_bit(false);
            i = i + 1;
            assert(self@ =~= old(self)@ + zeros(i as nat));
        }
    }

    /// Append a signed Exp-Golomb code.
    pub fn write_se(&mut self, v: i32)
        requires
            old(self).wf(),
            v != i32::MIN,
        ensures
            final(self).wf(),
            final(self)@ == old(self)@ + se(v as int),
    {
        let code: u32 = if v > 0 {
            2 * (v as u32) - 1
        } else {
            2 * arith::abs_i32(v)
        };
        self.write_ue(code);
    }

    /// Append the stop bit and fill up the byte.
    #[verifier::spinoff_prover]
    #[verifier::rlimit(60)]
    pub fn rbsp_trailing_bits(&mut self)
        requires
            old(self).wf(),
        ensures
            final(self).wf(),
            final(self)@ == old(self)@ + trailing(old(self)@.len() as int),
            final(self)@.len() % 8 == 0,
    {
        self.write_bit(true);
        let k: u32 = if self.n == 0 {
            0
        } else {
            8 - self.n as u32
        };
        assert(self@.len() == 8 * self.bytes@.len() + self.n);
        self.write_zeros(k);
        assert(self@ =~= old(self)@ + trailing(old(self)@.len() as int));
    }

    /// Whether the bits fill whole bytes.
    pub fn is_byte_aligned(&self) -> (r: bool)
        requires
            self.wf(),
        ensures
            r == (self@.len() % 8 == 0),
    {
        self.n == 0
    }

    /// How many bits there are.
    pub fn bit_len(&self) -> (r: usize)
        requires
            self.wf(),
            self@.len() <= usize::MAX,
        ensures
            r == self@.len(),
    {
        assert(self@.len() == 8 * self.bytes@.len() + self.n);
        8 * self.bytes.len() + self.n as usize
    }

    /// Append all bits of another writer.
    pub fn append(&mut self, other: &BitWriter)
        requires
            old(self).wf(),
            other.wf(),
        ensures
            final(self).wf(),
            final(self)@ == old(self)@ + other@,
    {
        let ghost bb = byte_bits(other.bytes@);
        let mut i: usize = 0;
        assert(self@ =~= old(self)@ + bb.take(0));
        while i < other.bytes.len()
            invariant
                i <= other.bytes@.len(),
                self.wf(),
                bb == byte_bits(other.bytes@),
                self@ == old(self)@ + bb.take(8 * i as int),
            decreases other.bytes@.len() - i,
        {
            let b: u8 = other.bytes[i];
            let ghost before = self@;
            self.write_bits(b as u32, 8);
            proof {
                let f = fixed(b as nat, 8);
                let l = bb.take(8 * (i + 1));
                let r = bb.take(8 * i as int) + f;
                assert forall|j: int| 0 <= j < l.len() implies l[j] == r[j] by {
                    if j >= 8 * i {
                        assert(j / 8 == i);
                        assert(j % 8 == j - 8 * i);
                    }
                }
                assert(l =~= r);
                assert(self@ =~= old(self)@ + l);
            }
            i = i + 1;
        }
        assert(bb.take(8 * other.bytes@.len() as int) =~= bb);
        self.write_bits(other.cur as u32, other.n as u32);
        assert(self@ =~= old(self)@ + other@);
    }

    /// The bytes of a writer whose bits fill whole bytes.
    pub fn into_bytes(self) -> (r: Vec<u8>)
        requires
            self.wf(),
            self@.len() % 8 == 0,
        ensures
            byte_bits(r@) == self@,
    {
        assert(self.n == 0) by {
            assert(self@.len() == 8 * self.bytes@.len() + self.n);
        }
        assert(byte_bits(self.bytes@) =~= self@);
        self.bytes
    }
}

/// How many binary digits `v` has.
pub fn digits(v: u32) -> (r: u32)
    ensures
        r == bit_len(v as nat),
        r <= 32,
        v > 0 ==> r >= 1,
{
    let mut n: u32 = 0;
    let mut x: u32 = v;
    proof {
        lemma2_to64();
        lemma2_to64_rest();
    }
    while x > 0
        invariant
            n <= 32,
            n + bit_len(x as nat) == bit_len(v as nat),
            (x as nat) * pow2(n as nat) <= v,
            pow2(32) == 0x1_0000_0000,
        decreases x,
    {
        proof {
            let y = (x / 2) as nat;
            lemma_pow2_unfold((n + 1) as nat);
            lemma_pow2_pos(n as nat);
            let p = pow2(n as nat);
            assert(y * (2 * p) <= x * p) by (nonlinear_arith)
                requires
                    2 * y <= x,
                    p >= 0,
            ;
            if n == 32 {
                assert(x * p >= p) by (nonlinear_arith)
                    requires
                        x >= 1,
                        p >= 0,
                ;
            }
            assert(pow2((n + 1) as nat) == 2 * p);
        }
        x = x / 2;
        n = n + 1;
    }
    n
}

/// A positive number has as many digits as the power of two above it says.
pub proof fn lemma_bit_len(v: nat)
    requires
        v > 0,
    ensures
        bit_len(v) >= 1,
        pow2((bit_len(v) - 1) as nat) <= v < pow2(bit_len(v)),
    decreases v,
{
    lemma2_to64();
    reveal_with_fuel(bit_len, 2);
    if v > 1 {
        lemma_bit_len(v / 2);
        lemma_pow2_unfold(bit_len(v));
        lemma_pow2_unfold((bit_len(v) - 1) as nat);
    }
}

/// The bits `b` stand in `s` from position `p` on.
pub open spec fn stands_at(s: Seq<bool>, p: int, b: Seq<bool>) -> bool {
    &&& 0 <= p
    &&& p + b.len() <= s.len()
    &&& forall|i: int| 0 <= i < b.len() ==> #[trigger] s[p + i] == b[i]
}

/// A concatenation stands where its two parts stand one behind the other.
pub proof fn lemma_stands_at_concat(s: Seq<bool>, p: int, a: Seq<bool>, b: Seq<bool>)
    requires
        stands_at(s, p, a + b),
    ensures
        stands_at(s, p, a),
        stands_at(s, p + a.len(), b),
{
    let ab = a + b;
    assert forall|i: int| 0 <= i < a.len() implies #[trigger] s[p + i] == a[i] by {
        assert(ab[i] == a[i]);
    }
    assert forall|i: int| 0 <= i < b.len() implies #[trigger] s[p + a.len() + i] == b[i] by {
        assert(s[p + (a.len() + i)] == ab[a.len() + i]);
    }
}

/// The reader of a fixed-width number.
pub open spec fn read_fixed(s: Seq<bool>, p: int, n: nat) -> nat
    decreases n,
{
    if n == 0 {
        0
    } else {
        2 * read_fixed(s, p, (n - 1) as nat) + (if s[p + n - 1] {
            1nat
        } else {
            0
        })
    }
}

/// A fixed-width number reads back.
pub proof fn law_fixed(s: Seq<bool>, p: int, v: nat, n: nat)
    requires
        v < pow2(n),
        stands_at(s, p, fixed(v, n)),
    ensures
        read_fixed(s, p, n) == v,
    decreases n,
{
    lemma2_to64();
    if n > 0 {
        let m = (n - 1) as nat;
        let b = v % 2 == 1;
        lemma_fixed_push(v / 2, m, b);
        lemma_pow2_unfold(n);
        assert(2 * (v / 2) + (if b {
            1nat
        } else {
            0
        }) == v);
        let f = fixed(v, n);
        assert(f =~= fixed(v / 2, m) + seq![b]);
        lemma_stands_at_concat(s, p, fixed(v / 2, m), seq![b]);
        law_fixed(s, p, v / 2, m);
        assert(s[p + m + 0] == seq![b][0]);
    }
}

/// How many zeros stand in `s` from `p` on, up to the next one bit.
pub open spec fn leading(s: Seq<bool>, p: int) -> Option<nat>
    decreases s.len() - p,
{
    if p < 0 || p >= s.len() {
        None
    } else if s[p] {
        Some(0)
    } else {
        match leading(s, p + 1) {
            None => None,
            Some(n) => Some(n + 1),
        }
    }
}

/// The reader of an unsigned Exp-Golomb code.
pub open spec fn read_ue(s: Seq<bool>, p: int) -> Option<(nat, int)> {
    match leading(s, p) {
        None => None,
        Some(z) => if p + 2 * z + 1 <= s.len() {
            Some(((read_fixed(s, p + z, z + 1) - 1) as nat, p + 2 * z + 1))
        } else {
            None
        },
    }
}

proof fn lemma_leading(s: Seq<bool>, p: int, n: nat)
    requires
        0 <= p,
        p + n < s.len(),
        forall|i: int| 0 <= i < n ==> !#[trigger] s[p + i],
        s[p + n],
    ensures
        leading(s, p) == Some(n),
    decreases n,
{
    if n > 0 {
        assert(!s[p + 0]);
        assert forall|i: int| 0 <= i < n - 1 implies !#[trigger] s[p + 1 + i] by {
            assert(!s[p + (1 + i)]);
        }
        lemma_leading(s, p + 1, (n - 1) as nat);
    }
}

/// An unsigned Exp-Golomb code reads back.
pub proof fn law_ue(s: Seq<bool>, p: int, v: nat)
    requires
        stands_at(s, p, ue(v)),
    ensures
        read_ue(s, p) == Some((v, p + ue(v).len())),
{
    let l = bit_len(v + 1);
    lemma_bit_len(v + 1);
    let z = (l - 1) as nat;
    let f = fixed(v + 1, l);
    lemma_stands_at_concat(s, p, zeros(z), f);
    assert forall|i: int| 0 <= i < z implies !#[trigger] s[p + i] by {
        assert(s[p + i] == zeros(z)[i]);
    }
    assert(s[p + z + 0] == f[0]);
    lemma_pow2_unfold(l);
    lemma_fundamental_div_mod_converse((v + 1) as int, pow2(z) as int, 1, v + 1 - pow2(z));
    lemma_leading(s, p, z);
    law_fixed(s, p + z, v + 1, l);
}

/// The reader of a signed Exp-Golomb code.
pub open spec fn read_se(s: Seq<bool>, p: int) -> Option<(int, int)> {
    match read_ue(s, p) {
        None => None,
        Some((c, q)) => if c % 2 == 1 {
            Some(((c as int + 1) / 2, q))
        } else {
            Some((-(c as int / 2), q))
        },
    }
}

/// A signed Exp-Golomb code reads back.
pub proof fn law_se(s: Seq<bool>, p: int, v: int)
    requires
        stands_at(s, p, se(v)),
    ensures
        read_se(s, p) == Some((v, p + se(v).len())),
{
    law_ue(s, p, se_code(v));
}

/// The rate of one component of a motion-vector difference: how many bits its signed Exp-Golomb code
/// has. The code of the most negative number does not fit; its low bits are those of the shortest
/// code, and that is what it is charged.
pub open spec fn mvd_rate(d: int) -> int {
    if d == i32::MIN {
        1
    } else {
        se(d).len() as int
    }
}

/// The rate of one component of a motion-vector difference.
pub fn mvd_bits(d: i32) -> (r: u32)
    ensures
        r == mvd_rate(d as int),
        1 <= r <= 63,
{
    if d == i32::MIN {
        return 1;
    }
    let code: u32 = if d > 0 {
        2 * (d as u32) - 1
    } else {
        2 * arith::abs_i32(d)
    };
    proof {
        lemma_bit_len((code + 1) as nat);
    }
    1 + 2 * (digits(code + 1) - 1)
}

/// How many bits a reference index is charged: none for a single reference, one for two,
/// else the length of its Exp-Golomb code.
pub open spec fn ref_rate(r: int, num_refs: int) -> int {
    if num_refs <= 1 {
        0
    } else if num_refs == 2 {
        1
    } else {
        ue(r as nat).len() as int
    }
}

/// The rate of a reference index.
pub fn ref_bits(r: usize, num_refs: usize) -> (n: u32)
    requires
        r < u32::MAX,
    ensures
        n == ref_rate(r as int, num_refs as int),
        n <= 63,
{
    if num_refs <= 1 {
        0
    } else if num_refs == 2 {
        1
    } else {
        proof {
            lemma_bit_len((r + 1) as nat);
        }
        2 * digits(r as u32 + 1) - 1
    }
}

/// One element of a syntax table.
#[derive(Clone, Copy, Debug, PartialEq, Eq, Structural)]
pub enum Syn {
    /// A number of fixed width.
    U { v: u32, n: u32 },
    /// A flag.
    Flag(bool),
    /// An unsigned Exp-Golomb code.
    Ue(u32),
    /// A signed Exp-Golomb code.
    Se(i32),
}

impl Syn {
    /// The bits of the element.
    pub open spec fn bits(self) -> Seq<bool> {
        match self {
            Syn::U { v, n } => fixed(v as nat, n as nat),
            Syn::Flag(b) => seq![b],
            Syn::Ue(v) => ue(v as nat),
            Syn::Se(v) => se(v as int),
        }
    }

    /// The element's value can be coded.
    pub open spec fn ok(self) -> bool {
        match self {
            Syn::U { v, n } => n <= 32,
            Syn::Flag(b) => true,
            Syn::Ue(v) => v < u32::MAX,
            Syn::Se(v) => v != i32::MIN,
        }
    }

    /// No digit of the element's value is cut off.
    pub open spec fn exact(self) -> bool {
        match self {
            Syn::U { v, n } => (v as nat) < pow2(n as nat),
            _ => true,
        }
    }
}

/// The bits of a list of elements.
pub open spec fn table_bits(l: Seq<Syn>) -> Seq<bool>
    decreases l.len(),
{
    if l.len() == 0 {
        Seq::empty()
    } else {
        table_bits(l.drop_last()) + l.last().bits()
    }
}

/// Append one element.
pub fn write_syn(w: &mut BitWriter, e: Syn)
    requires
        old(w).wf(),
        e.ok(),
    ensures
        final(w).wf(),
        final(w)@ == old(w)@ + e.bits(),
{
    match e {
        Syn::U { v, n } => w.write_bits(v, n),
        Syn::Flag(b) => w.write_bit(b),
        Syn::Ue(v) => w.write_ue(v),
        Syn::Se(v) => w.write_se(v),
    }
    assert(w@ =~= old(w)@ + e.bits());
}

/// Append a list of elements.
pub fn write_table(w: &mut BitWriter, l: &Vec<Syn>)
    requires
        old(w).wf(),
        forall|i: int| 0 <= i < l@.len() ==> (#[trigger] l@[i]).ok(),
    ensures
        final(w).wf(),
        final(w)@ == old(w)@ + table_bits(l@),
{
    let mut i: usize = 0;
    assert(l@.take(0) =~= Seq::<Syn>::empty());
    assert(w@ =~= old(w)@ + table_bits(l@.take(0)));
    while i < l.len()
        invariant
            i <= l@.len(),
            w.wf(),
            forall|i: int| 0 <= i < l@.len() ==> (#[trigger] l@[i]).ok(),
            w@ == old(w)@ + table_bits(l@.take(i as int)),
        decreases l@.len() - i,
    {
        write_syn(w, l[i]);
        assert(l@.take(i + 1).drop_last() =~= l@.take(i as int));
        assert(w@ =~= old(w)@ + table_bits(l@.take(i + 1)));
        i = i + 1;
    }
    assert(l@.take(i as int) =~= l@);
}

/// Where element `i` of a list starts, behind position `p`.
pub open spec fn offset(l: Seq<Syn>, p: int, i: int) -> int
    decreases i,
{
    if i <= 0 {
        p
    } else {
        offset(l, p, i - 1) + l[i - 1].bits().len()
    }
}

/// What a reader of this kind of element finds at `p`, and where it ends.
pub open spec fn read_syn(kind: Syn, s: Seq<bool>, p: int) -> Option<(Syn, int)> {
    match kind {
        Syn::U { v, n } => if p + n <= s.len() {
            Some((Syn::U { v: read_fixed(s, p, n as nat) as u32, n }, p + n))
        } else {
            None
        },
        Syn::Flag(b) => if p < s.len() {
            Some((Syn::Flag(s[p]), p + 1))
        } else {
            None
        },
        Syn::Ue(v) => match read_ue(s, p) {
            Some((c, q)) => Some((Syn::Ue(c as u32), q)),
            None => None,
        },
        Syn::Se(v) => match read_se(s, p) {
            Some((c, q)) => Some((Syn::Se(c as i32), q)),
            None => None,
        },
    }
}

pub proof fn lemma_table_split(s: Seq<bool>, p: int, l: Seq<Syn>)
    requires
        stands_at(s, p, table_bits(l)),
    ensures
        offset(l, p, l.len() as int) == p + table_bits(l).len(),
        forall|i: int|
            0 <= i < l.len() ==> stands_at(s, #[trigger] offset(l, p, i), l[i].bits()),
    decreases l.len(),
{
    if l.len() > 0 {
        let d = l.drop_last();
        let n = d.len() as int;
        lemma_stands_at_concat(s, p, table_bits(d), l.last().bits());
        lemma_table_split(s, p, d);
        lemma_offset_prefix(l, p, n);
        assert forall|i: int| 0 <= i < l.len() implies stands_at(
            s,
            #[trigger] offset(l, p, i),
            l[i].bits(),
        ) by {
            lemma_offset_prefix(l, p, i);
            if i < n {
                assert(d[i] == l[i]);
            }
        }
    }
}

proof fn lemma_offset_prefix(l: Seq<Syn>, p: int, i: int)
    requires
        0 <= i < l.len(),
    ensures
        offset(l, p, i) == offset(l.drop_last(), p, i),
    decreases i,
{
    if i > 0 {
        lemma_offset_prefix(l, p, i - 1);
    }
}

/// Every element of a syntax table reads back, each where the one before it ends.
pub proof fn law_table(s: Seq<bool>, p: int, l: Seq<Syn>, i: int)
    requires
        stands_at(s, p, table_bits(l)),
        l[i].ok(),
        l[i].exact(),
        0 <= i < l.len(),
    ensures
        offset(l, p, 0) == p,
        read_syn(l[i], s, offset(l, p, i)) == Some((l[i], offset(l, p, i + 1))),
        offset(l, p, l.len() as int) == p + table_bits(l).len(),
{
    lemma_table_split(s, p, l);
    let q = offset(l, p, i);
    assert(stands_at(s, q, l[i].bits()));
    match l[i] {
        Syn::U { v, n } => {
            law_fixed(s, q, v as nat, n as nat);
        },
        Syn::Flag(b) => {
            assert(s[q + 0] == seq![b][0]);
        },
        Syn::Ue(v) => {
            law_ue(s, q, v as nat);
        },
        Syn::Se(v) => {
            law_se(s, q, v as int);
        },
    }
}

} // verus!
