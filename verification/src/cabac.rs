//! The bin sink that CABAC syntax is written to.
//!
//! A binarisation is a sequence of *bins*. Each bin is a context-coded decision,
//! an equiprobable bypass bin or a terminate bin. The sink keeps the sequence in
//! coding order; an arithmetic coder turns that sequence into bytes.
use vstd::prelude::*;

verus! {

/// One bin handed to the arithmetic coder.
#[derive(Clone, Copy, Debug, PartialEq, Eq, Structural)]
pub enum Bin {
    /// A decision coded with the context `ctx`.
    Decision { ctx: usize, bin: u32 },
    /// An equiprobable bin.
    Bypass { bin: u32 },
    /// The `end_of_slice` / `I_PCM` terminate bin.
    Terminate { end: bool },
}

impl Bin {
    /// A context-coded decision as a mathematical value.
    pub open spec fn dec(ctx: int, bin: int) -> Bin {
        Bin::Decision { ctx: ctx as usize, bin: bin as u32 }
    }

    /// A bypass bin as a mathematical value.
    pub open spec fn byp(bin: int) -> Bin {
        Bin::Bypass { bin: bin as u32 }
    }

    /// A terminate bin as a mathematical value.
    pub open spec fn term(bin: bool) -> Bin {
        Bin::Terminate { end: bin }
    }
}

/// 1 for `true`, 0 for `false`.
pub open spec fn bit(b: bool) -> int {
    if b {
        1
    } else {
        0
    }
}

/// The bin sequence `b` stands in `s` from position `p` on.
pub open spec fn stands_at(s: Seq<Bin>, p: int, b: Seq<Bin>) -> bool {
    &&& 0 <= p
    &&& p + b.len() <= s.len()
    &&& forall|i: int| 0 <= i < b.len() ==> #[trigger] s[p + i] == b[i]
}

/// What a reader that expects a decision of context `ctx` finds at `p`.
pub open spec fn dec_at(s: Seq<Bin>, p: int, ctx: int) -> Option<int> {
    if 0 <= p < s.len() {
        match s[p] {
            Bin::Decision { ctx: c, bin } => if c == ctx && bin <= 1 {
                Some(bin as int)
            } else {
                None
            },
            _ => None,
        }
    } else {
        None
    }
}

/// What a reader that expects a bypass bin finds at `p`.
pub open spec fn byp_at(s: Seq<Bin>, p: int) -> Option<int> {
    if 0 <= p < s.len() {
        match s[p] {
            Bin::Bypass { bin } => if bin <= 1 {
                Some(bin as int)
            } else {
                None
            },
            _ => None,
        }
    } else {
        None
    }
}

/// What a reader that expects a terminate bin finds at `p`.
pub open spec fn term_at(s: Seq<Bin>, p: int) -> Option<bool> {
    if 0 <= p < s.len() {
        match s[p] {
            Bin::Terminate { end } => Some(end),
            _ => None,
        }
    } else {
        None
    }
}

/// A concatenation stands where its two parts stand one behind the other.
pub proof fn lemma_stands_at_concat(s: Seq<Bin>, p: int, a: Seq<Bin>, b: Seq<Bin>)
    requires
        stands_at(s, p, a + b),
    ensures
        stands_at(s, p, a),
        stands_at(s, p + a.len(), b),
{
    let ab = a + b;
    assert forall|i: int| 0 <= i < a.len() implies #[trigger] s[p + i] == a[i] by {
        assert(ab[i] == a[i]);
    }
    assert forall|i: int| 0 <= i < b.len() implies #[trigger] s[p + a.len() + i] == b[i] by {
        assert(s[p + (a.len() + i)] == ab[a.len() + i]);
    }
}

/// The sink: the bins of a slice in coding order.
#[derive(Debug)]
pub struct CabacEncoder {
    pub bins: Vec<Bin>,
}

impl View for CabacEncoder {
    type V = Seq<Bin>;

    open spec fn view(&self) -> Seq<Bin> {
        self.bins@
    }
}

impl CabacEncoder {
    /// An empty sink.
    pub fn new() -> (r: Self)
        ensures
            r@ == Seq::<Bin>::empty(),
    {
        CabacEncoder { bins: Vec::new() }
    }

    /// Append one context-coded decision.
    pub fn encode_decision(&mut self, ctx: usize, bin: u32)
        ensures
            final(self)@ == old(self)@.push(Bin::dec(ctx as int, bin as int)),
    {
        self.bins.push(Bin::Decision { ctx, bin });
    }

    /// Append one bypass bin.
    pub fn encode_bypass(&mut self, bin: u32)
        ensures
            final(self)@ == old(self)@.push(Bin::byp(bin as int)),
    {
        self.bins.push(Bin::Bypass { bin });
    }

    /// Append one terminate bin.
    pub fn encode_terminate(&mut self, bin: bool)
        ensures
            final(self)@ == old(self)@.push(Bin::term(bin)),
    {
        self.bins.push(Bin::Terminate { end: bin });
    }

    /// The number of bins written so far.
    pub fn pos(&self) -> (n: usize)
        ensures
            n == self@.len(),
    {
        self.bins.len()
    }
}

} // verus!
