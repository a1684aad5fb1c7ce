//! How often each gate of the encoder was asked, and how often it fired.
use vstd::prelude::*;

verus! {

/// The number of gates.
pub const N: usize = 9;

/// The number of counters of work.
pub const WN: usize = 4;

/// Adaptive quantisation was given up for grain.
pub const AQ_GRAIN: usize = 0;

/// The macroblock tree was given up for grain.
pub const MBTREE_GRAIN: usize = 1;

/// The macroblock tree was given up for want of a residual.
pub const MBTREE_BACKOFF: usize = 2;

/// The search in parts of quarters was given up for grain.
pub const SUB8_GRAIN: usize = 3;

/// A quarter was divided.
pub const SUB8_SPLIT: usize = 4;

/// The rate took back the division of quarters.
pub const SUB8_RD_REVERT: usize = 5;

/// The rate took back the choice between intra and inter.
pub const INTRA_RD_FLIP: usize = 6;

/// The rate took back the choice of a shape.
pub const SHAPE_RD_FLIP: usize = 7;

/// The macroblock tree was given up because its offsets differ too little.
pub const MBTREE_SPREAD_LATCH: usize = 8;

/// Searches of partitions.
pub const W_BEST_PART: usize = 0;

/// Plans of macroblocks.
pub const W_MB_PLAN: usize = 1;

/// Macroblocks that were coded.
pub const W_MB_CODED: usize = 2;

/// Searches in one reference.
pub const W_REF_SEARCH: usize = 3;

/// The counts. Those that a macroblock brings are held back until its transform size is known.
pub struct Census {
    on: bool,
    fired: [u64; 9],
    seen: [u64; 9],
    pending: Vec<(usize, bool)>,
    fired4: [u64; 9],
    seen4: [u64; 9],
    fired8: [u64; 9],
    seen8: [u64; 9],
    done: [u64; 4],
}

/// Two rows of counts, for how often gates fired and were asked.
#[verifier::ext_equal]
pub struct Tally {
    pub fired: Seq<u64>,
    pub seen: Seq<u64>,
}

/// The counts as a value.
#[verifier::ext_equal]
pub struct CensusView {
    pub on: bool,
    pub all: Tally,
    /// What was asked since a macroblock was last committed.
    pub pending: Seq<(usize, bool)>,
    /// The counts of macroblocks with the 4x4 transform, and with the 8x8 transform.
    pub by4: Tally,
    pub by8: Tally,
    pub done: Seq<u64>,
}

/// A count one higher; behind the highest comes zero.
pub open spec fn up(n: u64) -> u64 {
    if n < u64::MAX {
        (n + 1) as u64
    } else {
        0
    }
}

/// The gates that are asked of a macroblock or a quarter of one. The others are asked of a frame
/// or a group of frames.
pub open spec fn of_a_macroblock(i: int) -> bool {
    i == SUB8_SPLIT || i == SUB8_RD_REVERT || i == INTRA_RD_FLIP || i == SHAPE_RD_FLIP
}

impl Tally {
    /// There is a counter for every gate in both rows.
    pub open spec fn wf(self) -> bool {
        self.fired.len() == N && self.seen.len() == N
    }

    /// Gate `i` was asked.
    pub open spec fn asked(self, i: int, fired: bool) -> Tally {
        Tally {
            seen: self.seen.update(i, up(self.seen[i])),
            fired: if fired {
                self.fired.update(i, up(self.fired[i]))
            } else {
                self.fired
            },
        }
    }

    /// The first `k` of a list of questions were asked.
    pub open spec fn asked_all(self, p: Seq<(usize, bool)>, k: int) -> Tally
        decreases k,
    {
        if k <= 0 {
            self
        } else {
            self.asked_all(p, k - 1).asked(p[k - 1].0 as int, p[k - 1].1)
        }
    }

    /// All counts are zero.
    pub open spec fn zero() -> Tally {
        Tally { fired: Seq::new(9, |i: int| 0u64), seen: Seq::new(9, |i: int| 0u64) }
    }
}

impl View for Census {
    type V = CensusView;

    closed spec fn view(&self) -> CensusView {
        CensusView {
            on: self.on,
            all: Tally { fired: self.fired@, seen: self.seen@ },
            pending: self.pending@,
            by4: Tally { fired: self.fired4@, seen: self.seen4@ },
            by8: Tally { fired: self.fired8@, seen: self.seen8@ },
            done: self.done@,
        }
    }
}

impl CensusView {
    /// Nothing was counted.
    pub open spec fn empty(on: bool) -> CensusView {
        CensusView {
            on,
            all: Tally::zero(),
            pending: Seq::empty(),
            by4: Tally::zero(),
            by8: Tally::zero(),
            done: Seq::new(4, |i: int| 0u64),
        }
    }

    /// Every row has its counters, and the questions held back are of macroblocks.
    pub open spec fn wf(self) -> bool {
        &&& self.all.wf()
        &&& self.by4.wf()
        &&& self.by8.wf()
        &&& self.done.len() == WN
        &&& forall|i: int|
            0 <= i < self.pending.len() ==> of_a_macroblock((#[trigger] self.pending[i]).0 as int)
    }

    /// Gate `i` was asked. A gate of a frame or a group is not held back for a macroblock.
    pub open spec fn bumped(self, i: usize, fired: bool) -> CensusView {
        if self.on {
            CensusView {
                all: self.all.asked(i as int, fired),
                pending: if of_a_macroblock(i as int) {
                    self.pending.push((i, fired))
                } else {
                    self.pending
                },
                ..self
            }
        } else {
            self
        }
    }

    /// A macroblock with this transform size is over.
    pub open spec fn committed(self, t8: bool) -> CensusView {
        let p = self.pending;
        if self.on {
            CensusView {
                pending: Seq::empty(),
                by4: if t8 {
                    self.by4
                } else {
                    self.by4.asked_all(p, p.len() as int)
                },
                by8: if t8 {
                    self.by8.asked_all(p, p.len() as int)
                } else {
                    self.by8
                },
                ..self
            }
        } else {
            self
        }
    }

    /// A piece of work was done.
    pub open spec fn worked(self, i: usize) -> CensusView {
        if self.on {
            CensusView { done: self.done.update(i as int, up(self.done[i as int])), ..self }
        } else {
            self
        }
    }
}

fn raise(a: &mut [u64; 9], i: usize)
    requires
        i < 9,
    ensures
        final(a)@ == old(a)@.update(i as int, up(old(a)@[i as int])),
{
    let v: u64 = a[i];
    a[i] = if v < u64::MAX {
        v + 1
    } else {
        0
    };
}

/// A census, which counts only if it is on.
pub fn new_census(on: bool) -> (c: Census)
    ensures
        c@ == CensusView::empty(on),
        c@.wf(),
{
    let c: Census = Census {
        on,
        fired: [0; 9],
        seen: [0; 9],
        pending: Vec::new(),
        fired4: [0; 9],
        seen4: [0; 9],
        fired8: [0; 9],
        seen8: [0; 9],
        done: [0; 4],
    };
    assert(c@ =~= CensusView::empty(on));
    c
}

/// Gate `i` is asked, and fires or does not. What a macroblock's gate says is held back until its
/// transform size is known; that of a frame or a group is counted as a whole only.
pub fn bump(c: &mut Census, i: usize, fired: bool)
    requires
        i < N,
        old(c)@.wf(),
    ensures
        final(c)@ == old(c)@.bumped(i, fired),
        final(c)@.wf(),
{
    if !c.on {
        return;
    }
    raise(&mut c.seen, i);
    if fired {
        raise(&mut c.fired, i);
    }
    if i == SUB8_SPLIT || i == SUB8_RD_REVERT || i == INTRA_RD_FLIP || i == SHAPE_RD_FLIP {
        c.pending.push((i, fired));
    }
    proof {
        assert(c@ =~= old(c)@.bumped(i, fired));
        assert forall|j: int| 0 <= j < c@.pending.len() implies of_a_macroblock(
            (#[trigger] c@.pending[j]).0 as int,
        ) by {
            if j < old(c)@.pending.len() {
                assert(of_a_macroblock(old(c)@.pending[j].0 as int));
            }
        }
    }
}

/// A macroblock is over: what was held back counts for its transform size.
pub fn commit_mb(c: &mut Census, t8: bool)
    requires
        old(c)@.wf(),
    ensures
        final(c)@ == old(c)@.committed(t8),
        final(c)@.wf(),
{
    if !c.on {
        return;
    }
    let ghost c0 = c@;
    let ghost p = c@.pending;
    let n: usize = c.pending.len();
    let mut i: usize = 0;
    while i < n
        invariant
            i <= n,
            n == p.len(),
            c0.wf(),
            p == c0.pending,
            c@.pending == p,
            c.pending@ == p,
            c@ == (CensusView { by4: c@.by4, by8: c@.by8, ..c0 }),
            c@.by4.wf(),
            c@.by8.wf(),
            c@.by4 == if t8 {
                c0.by4
            } else {
                c0.by4.asked_all(p, i as int)
            },
            c@.by8 == if t8 {
                c0.by8.asked_all(p, i as int)
            } else {
                c0.by8
            },
        decreases n - i,
    {
        let (g, fired): (usize, bool) = c.pending[i];
        assert(p[i as int] == (g, fired));
        assert(of_a_macroblock(c0.pending[i as int].0 as int));
        let ghost before = c@;
        if t8 {
            raise(&mut c.seen8, g);
            if fired {
                raise(&mut c.fired8, g);
            }
            assert(c@.by8 =~= before.by8.asked(g as int, fired));
        } else {
            raise(&mut c.seen4, g);
            if fired {
                raise(&mut c.fired4, g);
            }
            assert(c@.by4 =~= before.by4.asked(g as int, fired));
        }
        i = i + 1;
    }
    c.pending = Vec::new();
    assert(c@.pending =~= Seq::empty());
}

fn pairs(f: &[u64; 9], s: &[u64; 9]) -> (r: [(u64, u64); 9])
    ensures
        forall|i: int| 0 <= i < 9 ==> #[trigger] r@[i] == (f@[i], s@[i]),
{
    let mut r: [(u64, u64); 9] = [(0, 0); 9];
    let mut i: usize = 0;
    while i < 9
        invariant
            i <= 9,
            forall|j: int| 0 <= j < i ==> #[trigger] r@[j] == (f@[j], s@[j]),
        decreases 9 - i,
    {
        r[i] = (f[i], s[i]);
        i = i + 1;
    }
    r
}

impl CensusView {
    /// The first `k` of a list of questions were asked.
    pub open spec fn bumped_all(self, p: Seq<(usize, bool)>, k: int) -> CensusView
        decreases k,
    {
        if k <= 0 {
            self
        } else {
            self.bumped_all(p, k - 1).bumped(p[k - 1].0, p[k - 1].1)
        }
    }

    /// The first `n` macroblocks were reported: what their gates were asked, which ends at `ends`,
    /// and their transform sizes.
    pub open spec fn reported(
        self,
        p: Seq<(usize, bool)>,
        ends: Seq<usize>,
        t8: Seq<bool>,
        n: int,
    ) -> CensusView
        decreases n,
    {
        if n <= 0 {
            self
        } else {
            let from = if n == 1 {
                0
            } else {
                ends[n - 2] as int
            };
            let own = p.subrange(from, ends[n - 1] as int);
            self.reported(p, ends, t8, n - 1).bumped_all(own, own.len() as int).committed(t8[n - 1])
        }
    }
}

/// Ask all that the gates of the macroblocks of a slice were asked, and commit each macroblock.
pub fn report(c: &mut Census, p: &[(usize, bool)], ends: &[usize], t8: &[bool])
    requires
        old(c)@.wf(),
        forall|i: int| 0 <= i < p@.len() ==> (#[trigger] p@[i]).0 < N,
        forall|i: int, j: int| 0 <= i <= j < ends@.len() ==> ends@[i] <= ends@[j],
        ends@.len() > 0 ==> ends@.last() <= p@.len(),
        t8@.len() == ends@.len(),
    ensures
        final(c)@ == old(c)@.reported(p@, ends@, t8@, ends@.len() as int),
        final(c)@.wf(),
{
    let ghost c0 = c@;
    let mut n: usize = 0;
    let mut k: usize = 0;
    while n < ends.len()
        invariant
            c@.wf(),
            n <= ends@.len(),
            k == (if n == 0 {
                0usize
            } else {
                ends@[n - 1]
            }),
            k <= p@.len(),
            forall|i: int| 0 <= i < p@.len() ==> (#[trigger] p@[i]).0 < N,
            forall|i: int, j: int| 0 <= i <= j < ends@.len() ==> ends@[i] <= ends@[j],
            ends@.len() > 0 ==> ends@.last() <= p@.len(),
            t8@.len() == ends@.len(),
            c@ == c0.reported(p@, ends@, t8@, n as int),
        decreases ends@.len() - n,
    {
        let end: usize = ends[n];
        let ghost from = k as int;
        let ghost own = p@.subrange(from, end as int);
        let ghost c1 = c@;
        assert(ends@[n as int] <= ends@[ends@.len() - 1]);
        assert(c1.bumped_all(own, 0) == c1);
        while k < end
            invariant
                c@.wf(),
                0 <= from <= k <= end <= p@.len(),
                own == p@.subrange(from, end as int),
                forall|i: int| 0 <= i < p@.len() ==> (#[trigger] p@[i]).0 < N,
                c@ == c1.bumped_all(own, k - from),
            decreases end - k,
        {
            let (g, fired): (usize, bool) = p[k];
            assert(own[k - from] == p@[k as int]);
            bump(c, g, fired);
            k = k + 1;
        }
        commit_mb(c, t8[n]);
        n = n + 1;
    }
}

/// How often each gate fired and was asked.
pub fn snapshot(c: &Census) -> (r: [(u64, u64); 9])
    ensures
        forall|i: int| 0 <= i < 9 ==> #[trigger] r@[i] == (c@.all.fired[i], c@.all.seen[i]),
{
    pairs(&c.fired, &c.seen)
}

/// How often each gate fired and was asked in macroblocks with the 4x4 transform, and in those
/// with the 8x8 transform.
pub fn snapshot_by_t8(c: &Census) -> (r: [[(u64, u64); 9]; 2])
    ensures
        forall|i: int| 0 <= i < 9 ==> #[trigger] r@[0]@[i] == (c@.by4.fired[i], c@.by4.seen[i]),
        forall|i: int| 0 <= i < 9 ==> #[trigger] r@[1]@[i] == (c@.by8.fired[i], c@.by8.seen[i]),
{
    [pairs(&c.fired4, &c.seen4), pairs(&c.fired8, &c.seen8)]
}

/// Count a piece of work.
pub fn work(c: &mut Census, i: usize)
    requires
        i < WN,
    ensures
        final(c)@ == old(c)@.worked(i),
        old(c)@.wf() ==> final(c)@.wf(),
{
    if !c.on {
        return;
    }
    let v: u64 = c.done[i];
    c.done[i] = if v < u64::MAX {
        v + 1
    } else {
        0
    };
    assert(c@ =~= old(c)@.worked(i));
}

/// The counts of work.
pub fn work_snapshot(c: &Census) -> (r: [u64; 4])
    ensures
        r@ == c@.done,
{
    c.done
}

/// Set all counts to zero, and drop what is held back.
pub fn reset(c: &mut Census)
    ensures
        final(c)@ == CensusView::empty(old(c)@.on),
        final(c)@.wf(),
{
    let on: bool = c.on;
    *c = new_census(on);
}

/// A gate that is asked once in a macroblock counts once for the macroblock's transform size.
pub proof fn law_one_question_counts_once(t: Tally, i: usize, fired: bool)
    ensures
        t.asked_all(Seq::empty().push((i, fired)), 1) == t.asked(i as int, fired),
{
    reveal_with_fuel(Tally::asked_all, 2);
}

/// A call that changes a census.
pub enum Call {
    Bump { i: usize, fired: bool },
    CommitMb { t8: bool },
    Work { i: usize },
    Reset,
}

impl CensusView {
    /// The census after a call.
    pub open spec fn called(self, e: Call) -> CensusView {
        match e {
            Call::Bump { i, fired } => self.bumped(i, fired),
            Call::CommitMb { t8 } => self.committed(t8),
            Call::Work { i } => self.worked(i),
            Call::Reset => CensusView::empty(self.on),
        }
    }
}

/// A new census after the first `k` of a list of calls.
pub open spec fn after(on: bool, l: Seq<Call>, k: int) -> CensusView
    decreases k,
{
    if k <= 0 {
        CensusView::empty(on)
    } else {
        after(on, l, k - 1).called(l[k - 1])
    }
}

/// Calls name gates and pieces of work that there are.
pub open spec fn calls_ok(l: Seq<Call>) -> bool {
    forall|j: int|
        0 <= j < l.len() ==> match #[trigger] l[j] {
            Call::Bump { i, .. } => i < N,
            Call::Work { i } => i < WN,
            _ => true,
        }
}

/// How many of the first `k` questions are of gate `i`, or with `only`, those of them that fired.
spec fn held(p: Seq<(usize, bool)>, i: int, only: bool, k: int) -> nat
    decreases k,
{
    if k <= 0 {
        0
    } else {
        held(p, i, only, k - 1) + (if p[k - 1].0 == i && (p[k - 1].1 || !only) {
            1nat
        } else {
            0
        })
    }
}

proof fn lemma_held(p: Seq<(usize, bool)>, q: (usize, bool), i: int, only: bool, k: int)
    requires
        0 <= k <= p.len(),
    ensures
        held(p.push(q), i, only, k) == held(p, i, only, k),
        held(p, i, true, k) <= held(p, i, false, k),
        (forall|j: int| 0 <= j < p.len() ==> of_a_macroblock((#[trigger] p[j]).0 as int))
            && !of_a_macroblock(i) ==> held(p, i, false, k) == 0,
    decreases k,
{
    if k > 0 {
        lemma_held(p, q, i, only, k - 1);
        assert(p.push(q)[k - 1] == p[k - 1]);
    }
}

proof fn lemma_asked_all(t: Tally, p: Seq<(usize, bool)>, i: int, k: int)
    requires
        t.wf(),
        0 <= i < N,
        0 <= k <= p.len(),
        forall|j: int| 0 <= j < p.len() ==> of_a_macroblock((#[trigger] p[j]).0 as int),
        t.seen[i] + held(p, i, false, k) <= u64::MAX,
        t.fired[i] + held(p, i, true, k) <= u64::MAX,
    ensures
        t.asked_all(p, k).wf(),
        t.asked_all(p, k).seen[i] == t.seen[i] + held(p, i, false, k),
        t.asked_all(p, k).fired[i] == t.fired[i] + held(p, i, true, k),
    decreases k,
{
    if k > 0 {
        lemma_asked_all(t, p, i, k - 1);
        assert(of_a_macroblock(p[k - 1].0 as int));
    }
}

/// What holds of gate `i` after `n` calls.
spec fn steady_at(v: CensusView, i: int, n: int) -> bool {
    let p = v.pending;
    &&& v.all.fired[i] <= v.all.seen[i] <= n
    &&& v.by4.fired[i] <= v.by4.seen[i]
    &&& v.by8.fired[i] <= v.by8.seen[i]
    &&& v.by4.seen[i] + v.by8.seen[i] + held(p, i, false, p.len() as int) <= v.all.seen[i]
    &&& v.by4.fired[i] + v.by8.fired[i] + held(p, i, true, p.len() as int) <= v.all.fired[i]
    &&& !of_a_macroblock(i) ==> v.by4.seen[i] == 0 && v.by8.seen[i] == 0
}

proof fn lemma_called(v: CensusView, e: Call, i: int, n: int)
    requires
        v.wf(),
        0 <= i < N,
        0 <= n < u64::MAX,
        steady_at(v, i, n),
        calls_ok(seq![e]),
    ensures
        v.called(e).wf(),
        steady_at(v.called(e), i, n + 1),
{
    let p = v.pending;
    assert(seq![e][0] == e);
    lemma_held(p, (0, false), i, true, p.len() as int);
    lemma_held(p, (0, false), i, false, p.len() as int);
    match e {
        Call::Bump { i: g, fired } => {
            lemma_held(p, (g, fired), i, true, p.len() as int);
            lemma_held(p, (g, fired), i, false, p.len() as int);
            let q = v.called(e).pending;
            assert forall|j: int| 0 <= j < q.len() implies of_a_macroblock(
                (#[trigger] q[j]).0 as int,
            ) by {
                if j < p.len() {
                    assert(q[j] == p[j]);
                }
            }
        },
        Call::CommitMb { t8 } => {
            lemma_asked_all(
                if t8 {
                    v.by8
                } else {
                    v.by4
                },
                p,
                i,
                p.len() as int,
            );
        },
        _ => {},
    }
}

proof fn lemma_after(on: bool, l: Seq<Call>, i: int, k: int)
    requires
        calls_ok(l),
        0 <= k <= l.len() <= u64::MAX,
        0 <= i < N,
    ensures
        after(on, l, k).wf(),
        steady_at(after(on, l, k), i, k),
    decreases k,
{
    if k > 0 {
        lemma_after(on, l, i, k - 1);
        assert(calls_ok(seq![l[k - 1]])) by {
            assert(l[k - 1] == l[k - 1]);
        }
        lemma_called(after(on, l, k - 1), l[k - 1], i, k - 1);
    }
}

/// Whatever is called, as long as no counter can be full: no gate has fired more often than it
/// was asked, and the counts by transform size stay within those of the whole.
pub proof fn law_parts_stay_within_the_whole(on: bool, l: Seq<Call>, i: int)
    requires
        calls_ok(l),
        l.len() <= u64::MAX,
        0 <= i < N,
    ensures
        ({
            let v = after(on, l, l.len() as int);
            &&& v.all.fired[i] <= v.all.seen[i]
            &&& v.by4.fired[i] <= v.by4.seen[i]
            &&& v.by8.fired[i] <= v.by8.seen[i]
            &&& v.by4.seen[i] + v.by8.seen[i] <= v.all.seen[i]
            &&& v.by4.fired[i] + v.by8.fired[i] <= v.all.fired[i]
        }),
{
    lemma_after(on, l, i, l.len() as int);
}

/// Whatever is called, a gate of a frame or a group counts for no transform size.
pub proof fn law_wide_gates_count_for_no_size(on: bool, l: Seq<Call>, i: int)
    requires
        calls_ok(l),
        l.len() <= u64::MAX,
        0 <= i < N,
        !of_a_macroblock(i),
    ensures
        ({
            let v = after(on, l, l.len() as int);
            &&& v.by4.seen[i] == 0 && v.by4.fired[i] == 0
            &&& v.by8.seen[i] == 0 && v.by8.fired[i] == 0
        }),
{
    lemma_after(on, l, i, l.len() as int);
}

/// Asking one gate leaves the counts of all others alone, and those by transform size.
pub proof fn law_gates_count_apart(v: CensusView, i: usize, fired: bool, j: int)
    requires
        v.wf(),
        i < N,
        0 <= j < N,
        j != i,
    ensures
        ({
            let w = v.bumped(i, fired);
            &&& w.all.seen[j] == v.all.seen[j] && w.all.fired[j] == v.all.fired[j]
            &&& w.by4 == v.by4 && w.by8 == v.by8 && w.done == v.done
        }),
{
}

} // verus!
