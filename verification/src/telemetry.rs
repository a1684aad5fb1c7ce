//! A tap on the context-coded bins of slices: what the coder knew before each bin, and the bin.
use vstd::prelude::*;

verus! {

/// A context-coded bin.
#[derive(Debug, Clone, Copy, PartialEq, Eq, Structural)]
pub struct CabacBin {
    /// The index of the context.
    pub ctx_idx: u16,
    /// The state of the context before the bin.
    pub state: u8,
    /// The most probable symbol before the bin.
    pub mps: u8,
    /// The bin.
    pub bin: u8,
}

/// The bins of a slice in coding order, with what its contexts started from.
#[derive(Debug, Clone, PartialEq, Eq)]
pub struct SliceTap {
    pub qp: i32,
    pub init_idc: u32,
    pub is_i: bool,
    pub bins: Vec<CabacBin>,
}

/// A slice on the tap.
#[verifier::ext_equal]
pub struct SliceView {
    pub qp: i32,
    pub init_idc: u32,
    pub is_i: bool,
    pub bins: Seq<CabacBin>,
}

impl View for SliceTap {
    type V = SliceView;

    open spec fn view(&self) -> SliceView {
        SliceView { qp: self.qp, init_idc: self.init_idc, is_i: self.is_i, bins: self.bins@ }
    }
}

/// The slices of a list.
pub open spec fn slices(v: Seq<SliceTap>) -> Seq<SliceView> {
    Seq::new(v.len(), |i: int| v[i]@)
}

/// The tap: whether it records, and the slices recorded since they were last taken.
pub struct Tap {
    enabled: bool,
    slices: Vec<SliceTap>,
}

/// The tap as a value.
#[verifier::ext_equal]
pub struct TapView {
    pub enabled: bool,
    pub slices: Seq<SliceView>,
}

impl View for Tap {
    type V = TapView;

    closed spec fn view(&self) -> TapView {
        TapView { enabled: self.enabled, slices: slices(self.slices@) }
    }
}

impl TapView {
    /// A slice is opened.
    pub open spec fn opened(self, qp: i32, init_idc: u32, is_i: bool) -> TapView {
        if self.enabled {
            TapView {
                slices: self.slices.push(SliceView { qp, init_idc, is_i, bins: Seq::empty() }),
                ..self
            }
        } else {
            self
        }
    }

    /// A bin is recorded under the slice opened last.
    pub open spec fn recorded(self, b: CabacBin) -> TapView {
        if self.enabled && self.slices.len() > 0 {
            let s = self.slices.last();
            TapView {
                slices: self.slices.update(
                    self.slices.len() - 1,
                    SliceView { bins: s.bins.push(b), ..s },
                ),
                ..self
            }
        } else {
            self
        }
    }
}

/// A tap that does not record.
pub fn new_tap() -> (t: Tap)
    ensures
        t@ == (TapView { enabled: false, slices: Seq::empty() }),
{
    let t: Tap = Tap { enabled: false, slices: Vec::new() };
    assert(t@.slices =~= Seq::empty());
    t
}

/// Turn recording on or off. Off also drops what was recorded.
pub fn enable(t: &mut Tap, on: bool)
    ensures
        final(t)@ == (TapView {
            enabled: on,
            slices: if on {
                old(t)@.slices
            } else {
                Seq::empty()
            },
        }),
{
    t.enabled = on;
    if !on {
        t.slices = Vec::new();
        assert(t@.slices =~= Seq::empty());
    }
}

/// Take all slices recorded since they were last taken.
pub fn take(t: &mut Tap) -> (v: Vec<SliceTap>)
    ensures
        slices(v@) == old(t)@.slices,
        final(t)@ == (TapView { slices: Seq::empty(), ..old(t)@ }),
{
    let mut v: Vec<SliceTap> = Vec::new();
    v.append(&mut t.slices);
    assert(slices(v@) =~= old(t)@.slices);
    assert(t@.slices =~= Seq::empty());
    v
}

/// Open a slice.
pub fn begin_slice(t: &mut Tap, qp: i32, init_idc: u32, is_i: bool)
    ensures
        final(t)@ == old(t)@.opened(qp, init_idc, is_i),
{
    if t.enabled {
        t.slices.push(SliceTap { qp, init_idc, is_i, bins: Vec::new() });
        assert(t@.slices =~= old(t)@.opened(qp, init_idc, is_i).slices);
    }
}

/// Record a bin under the slice opened last.
pub fn record(t: &mut Tap, ctx_idx: u16, state: u8, mps: u8, bin: u8)
    ensures
        final(t)@ == old(t)@.recorded(CabacBin { ctx_idx, state, mps, bin }),
{
    if t.enabled {
        let last: Option<SliceTap> = t.slices.pop();
        if let Some(mut s) = last {
            s.bins.push(CabacBin { ctx_idx, state, mps, bin });
            t.slices.push(s);
        }
        assert(t@.slices =~= old(t)@.recorded(CabacBin { ctx_idx, state, mps, bin }).slices);
    }
}

/// A tap that is off records nothing.
pub proof fn law_disabled_records_nothing(
    t: TapView,
    qp: i32,
    init_idc: u32,
    is_i: bool,
    b: CabacBin,
)
    requires
        !t.enabled,
    ensures
        t.opened(qp, init_idc, is_i) == t,
        t.recorded(b) == t,
{
}

/// A bin goes to the slice opened last, and to no other.
pub proof fn law_bins_go_to_the_open_slice(
    t: TapView,
    qp: i32,
    init_idc: u32,
    is_i: bool,
    b: CabacBin,
)
    requires
        t.enabled,
    ensures
        ({
            let u = t.opened(qp, init_idc, is_i).recorded(b);
            &&& u.slices.len() == t.slices.len() + 1
            &&& u.slices.last() == (SliceView { qp, init_idc, is_i, bins: Seq::empty().push(b) })
            &&& u.slices.drop_last() == t.slices
        }),
{
    let u = t.opened(qp, init_idc, is_i).recorded(b);
    assert(u.slices.drop_last() =~= t.slices);
}

/// The probability of the less probable symbol, in parts of 4 * 205920: the mean, over the four
/// quarters of the coder's range, of its width in the middle of that quarter (288, 352, 416 and
/// 480).
pub open spec fn lps_parts(lps: [u8; 4]) -> int {
    715 * lps@[0] + 585 * lps@[1] + 495 * lps@[2] + 429 * lps@[3]
}

/// The probability of a bin 0, in 256ths and rounded, but never 0 or 256. It is never half-way
/// between two of them, as twice the parts are counted in the odd number of 6435.
pub open spec fn zero_share(lps: [u8; 4], mps: u8) -> int {
    let less = 2 * lps_parts(lps);
    let zero = if mps == 0 {
        256 * 6435 - less
    } else {
        less
    };
    let near = (2 * zero + 6435) / 12870;
    if near < 1 {
        1
    } else if near > 255 {
        255
    } else {
        near
    }
}

/// The deepest state that a context adapts to. The one behind it ends a slice.
pub const STATE_MAX: u8 = 62;

/// The row of the coder's table for a state, that of the deepest one for any behind it.
pub open spec fn row_of(table: Seq<[u8; 4]>, state: u8) -> [u8; 4] {
    table[if state < STATE_MAX {
        state as int
    } else {
        STATE_MAX as int
    }]
}

/// The probability of a bin 0, in 256ths, of a context in this state with this most probable
/// symbol, given the coder's table: for each state the widths of the less probable symbol in the
/// four quarters of the range.
pub fn p_zero_q8(table: &[[u8; 4]], state: u8, mps: u8) -> (r: u8)
    requires
        table@.len() > STATE_MAX,
    ensures
        r == zero_share(row_of(table@, state), mps),
        1 <= r <= 255,
{
    let lps: [u8; 4] = table[if state < STATE_MAX {
        state as usize
    } else {
        STATE_MAX as usize
    }];
    let less: u32 = 2 * (715 * lps[0] as u32 + 585 * lps[1] as u32 + 495 * lps[2] as u32 + 429
        * lps[3] as u32);
    let zero: u32 = if mps == 0 {
        256 * 6435 - less
    } else {
        less
    };
    let near: u32 = (2 * zero + 6435) / 12870;
    if near < 1 {
        1
    } else if near > 255 {
        255
    } else {
        near as u8
    }
}

/// The state behind the deepest one, and any number that is no state, has the probability of the
/// deepest one.
pub proof fn law_states_end(table: Seq<[u8; 4]>, state: u8, mps: u8)
    requires
        state >= STATE_MAX,
    ensures
        zero_share(row_of(table, state), mps) == zero_share(row_of(table, STATE_MAX), mps),
{
}

/// The wider the less probable symbol, the nearer to a half the probability: of a context whose
/// most probable symbol is 0, a bin 0 is at most as probable; of another, at least.
pub proof fn law_wider_is_less_sure(a: [u8; 4], b: [u8; 4], mps: u8)
    requires
        forall|q: int| 0 <= q < 4 ==> #[trigger] a@[q] <= b@[q],
    ensures
        mps == 0 ==> zero_share(a, mps) >= zero_share(b, mps),
        mps != 0 ==> zero_share(a, mps) <= zero_share(b, mps),
{
    assert(a@[0] <= b@[0] && a@[1] <= b@[1] && a@[2] <= b@[2] && a@[3] <= b@[3]);
}

proof fn lemma_mirrored(n: int)
    requires
        0 <= n <= 256 * 6435,
    ensures
        (2 * (256 * 6435 - n) + 6435) / 12870 == 256 - (2 * n + 6435) / 12870,
{
    let q = (2 * n + 6435) / 12870;
    let r = (2 * n + 6435) % 12870;
    assert(2 * n + 6435 == 12870 * q + r);
    assert(r % 2 == 1);
    vstd::arithmetic::div_mod::lemma_fundamental_div_mod_converse(
        2 * (256 * 6435 - n) + 6435,
        12870,
        256 - q,
        12870 - r,
    );
}

/// The other most probable symbol mirrors the probability.
pub proof fn law_shares_mirror(lps: [u8; 4], mps: u8)
    requires
        mps != 0,
    ensures
        zero_share(lps, 0) + zero_share(lps, mps) == 256,
{
    assert(0 <= lps_parts(lps) <= 128 * 6435);
    lemma_mirrored(2 * lps_parts(lps));
}

/// The widths of the less probable symbol in the first state.
pub const FIRST_ROW: [u8; 4] = [128, 176, 208, 240];

/// The widths of the less probable symbol in the deepest state.
pub const DEEPEST_ROW: [u8; 4] = [6, 7, 8, 9];

/// With a table that has the coder's first and deepest rows, a bin 0 is about as probable as a bin 1
/// in the first state, whichever symbol is the more probable; in the deepest state the less
/// probable symbol is rare. Every probability is between 1 and 255 parts.
pub proof fn law_states_run_from_even_to_sure(table: Seq<[u8; 4]>, state: u8, mps: u8)
    requires
        table.len() > STATE_MAX,
        table[0]@ == FIRST_ROW@,
        table[STATE_MAX as int]@ == DEEPEST_ROW@,
    ensures
        120 <= zero_share(row_of(table, 0), mps) <= 136,
        mps != 0 ==> zero_share(row_of(table, STATE_MAX), mps) <= 8,
        mps == 0 ==> zero_share(row_of(table, STATE_MAX), mps) >= 248,
        1 <= zero_share(row_of(table, state), mps) <= 255,
{
    let (a, b) = (row_of(table, 0), row_of(table, STATE_MAX));
    assert(a@[0] == 128 && a@[1] == 176 && a@[2] == 208 && a@[3] == 240);
    assert(b@[0] == 6 && b@[1] == 7 && b@[2] == 8 && b@[3] == 9);
}

} // verus!
