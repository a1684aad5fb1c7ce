//! The macroblocks of B slices as CABAC bins.
use vstd::prelude::*;
use crate::bslice;
use crate::bslice::{BAct, BChoice, BCounts, BEnv};
use crate::bstats;
use crate::bstats::{BStats, Which};
use crate::cabac::{Bin, CabacEncoder};
use crate::frame::FrameEncoder;
use crate::grid;
use crate::interplan;
use crate::kernels::Kernels;
use crate::mbcabac::CabacState;
use crate::mbinter;
use crate::mbinter::{emit_b_skip_cabac, emit_mb_cabac_b, emit_no_skip_cabac};
use crate::mbstate;
use crate::partition::BInter;
use crate::pcabac;
use crate::plan::InterPlan;
use crate::pslice;
use crate::search::MeState;
use crate::trial;

verus! {

/// The coding of a B slice so far, with the macroblocks as bins.
pub struct BCState {
    pub fe: FrameEncoder,
    pub me: MeState,
    pub counts: BCounts,
    /// How macroblocks were coded, in all slices that are counted.
    pub stats: BStats,
    pub cab: CabacEncoder,
    pub cs: CabacState,
}

impl BCState {
    /// The state after `n` macroblocks.
    pub open spec fn wf(self, n: int) -> bool {
        &&& pslice::frame_ok(self.fe)
        &&& self.me.wf()
        &&& self.counts.wf()
        &&& self.counts.seen == n
        &&& self.cs.wf(self.fe.mb_w * self.fe.mb_h)
    }
}

/// The end of a macroblock: whether it is the last.
pub open spec fn ended(s: BCState, i: int, bins: Seq<Bin>) -> Seq<Bin> {
    bins.push(Bin::term(i + 1 == s.fe.mb_w * s.fe.mb_h))
}

impl<'a, K: Kernels> BEnv<'a, K> {
    /// The counters behind a macroblock that was decided. A division counts if it was searched for,
    /// not if it was forced.
    pub open spec fn tallied(&self, b: BStats, n: BCounts, n1: BCounts, act: BAct) -> BStats {
        if n1.free > n.free {
            b.bumped(Which::Skip)
        } else {
            let coded = b.bumped(Which::Coded);
            let c = if n1.dirwin > n.dirwin {
                coded.bumped(Which::DirWin)
            } else {
                coded
            };
            match act {
                BAct::Skip => c.bumped(Which::Skip),
                BAct::Code(x) => if x.split is Some && !(self.b.force > 0 && x.dir != 0) {
                    c.bumped(Which::Split)
                } else {
                    c
                },
            }
        }
    }

    fn tally(&self, b: &mut BStats, n: &BCounts, n1: &BCounts, act: &BAct)
        ensures
            *final(b) == self.tallied(*old(b), *n, *n1, *act),
    {
        if n1.free > n.free {
            bstats::bump(b, Which::Skip);
            return;
        }
        bstats::bump(b, Which::Coded);
        if n1.dirwin > n.dirwin {
            bstats::bump(b, Which::DirWin);
        }
        match act {
            BAct::Skip => bstats::bump(b, Which::Skip),
            BAct::Code(x) => {
                if x.split.is_some() && !(self.b.force > 0 && x.dir != 0) {
                    bstats::bump(b, Which::Split);
                }
            },
        }
    }

    /// A macroblock is skipped.
    pub open spec fn skip_bins(
        &self,
        a: FrameEncoder,
        s: BCState,
        t: BCState,
        mb_x: int,
        mb_y: int,
    ) -> bool {
        exists|bins: Seq<Bin>|
            {
                &&& mbstate::direct_committed(
                    a,
                    t.fe,
                    mb_x,
                    mb_y,
                    self.direct_motion(a, mb_x, mb_y),
                )
                &&& #[trigger] mbinter::b_skip_coded(
                    s.cab@,
                    bins,
                    s.cs,
                    t.cs,
                    a.mb_w as int,
                    mb_x,
                    mb_y,
                )
                &&& t.cab@ == ended(s, grid::cell(a.mb_w as int, mb_x, mb_y), bins)
            }
    }

    /// The bins behind the flag that a macroblock is not skipped.
    pub open spec fn flagged(&self, s: BCState, mb_x: int, mb_y: int) -> Seq<Bin> {
        s.cab@.push(Bin::dec(24 + mbinter::skip_ctx(s.cs, s.fe.mb_w as int, mb_x, mb_y), 0))
    }

    /// A macroblock is coded with a choice.
    pub open spec fn choice_bins(
        &self,
        a: FrameEncoder,
        s: BCState,
        t: BCState,
        mb_x: int,
        mb_y: int,
        c: BChoice,
    ) -> bool {
        let i = grid::cell(a.mb_w as int, mb_x, mb_y);
        exists|bi: BInter, cs: CabacState, m: FrameEncoder, p: InterPlan, bins: Seq<Bin>|
            {
                &&& c.describes(bi)
                &&& pcabac::not_skipped(s.cs, cs, i)
                &&& #[trigger] interplan::inter_planned(
                    *self.k,
                    a,
                    m,
                    self.future@[0],
                    self.sy@,
                    self.su@,
                    self.sv@,
                    mb_x,
                    mb_y,
                    0,
                    Seq::empty(),
                    Some(bi),
                    trial::whole_quarters(),
                    p,
                )
                &&& #[trigger] mbinter::b_inter_coded(
                    m,
                    t.fe,
                    self.flagged(s, mb_x, mb_y),
                    bins,
                    cs,
                    t.cs,
                    c.dir,
                    c.split,
                    p,
                    mb_x,
                    mb_y,
                )
                &&& t.cab@ == ended(s, i, bins)
            }
    }

    /// A macroblock is coded or skipped.
    pub open spec fn acted_bins(
        &self,
        a: FrameEncoder,
        s: BCState,
        t: BCState,
        mb_x: int,
        mb_y: int,
        act: BAct,
    ) -> bool {
        match act {
            BAct::Skip => self.skip_bins(a, s, t, mb_x, mb_y),
            BAct::Code(c) => self.choice_bins(a, s, t, mb_x, mb_y, c),
        }
    }

    /// Macroblock `(mb_x, mb_y)` is decided, and coded or skipped.
    pub open spec fn bins_step(&self, s: BCState, t: BCState, mb_x: int, mb_y: int) -> bool {
        let a = self.at_mb(s.fe, mb_x, mb_y);
        exists|act: BAct|
            {
                &&& #[trigger] self.decided(
                    &a,
                    s.counts,
                    s.me,
                    mb_x,
                    mb_y,
                    act,
                    t.counts,
                    t.me,
                )
                &&& t.stats == self.tallied(s.stats, s.counts, t.counts, act)
                &&& self.acted_bins(a, s, t, mb_x, mb_y, act)
            }
    }

    /// Skip a macroblock.
    fn skip_now(
        &self,
        s: &mut BCState,
        mb_x: usize,
        mb_y: usize,
        motion: &[(i32, (i32, i32), i32, (i32, i32)); 16],
        Ghost(n): Ghost<int>,
    )
        requires
            old(s).wf(n),
            old(s).fe.has_mb(mb_x as int, mb_y as int),
            motion@ == self.direct_motion(old(s).fe, mb_x as int, mb_y as int),
        ensures
            self.skip_bins(old(s).fe, *old(s), *final(s), mb_x as int, mb_y as int),
            final(s).wf(n),
            final(s).me == old(s).me,
            final(s).counts == old(s).counts,
            final(s).stats == old(s).stats,
            final(s).fe.mb_w == old(s).fe.mb_w && final(s).fe.mb_h == old(s).fe.mb_h,
    {
        let ghost s0 = *s;
        let ghost (gx, gy) = (mb_x as int, mb_y as int);
        s.fe.commit_direct_motion(mb_x, mb_y, motion);
        proof {
            bslice::lemma_skipped_ok(s0.fe, s.fe, self.future@[0], gx, gy);
            grid::lemma_cell(s.fe.mb_w as int, s.fe.mb_h as int, gx, gy);
        }
        let (w, h): (usize, usize) = (s.fe.mb_w, s.fe.mb_h);
        emit_b_skip_cabac(&mut s.cab, &mut s.cs, w, h, mb_x, mb_y);
        let ghost bins = s.cab@;
        let total: usize = s.cs.mb_skip.len();
        let i: usize = grid::cell_at(w, mb_x, mb_y, total);
        s.cab.encode_terminate(i + 1 == total);
        assert(mbinter::b_skip_coded(s0.cab@, bins, s0.cs, s.cs, s0.fe.mb_w as int, gx, gy));
    }

    /// Code a choice.
    #[verifier::rlimit(50)]
    fn code_choice(
        &self,
        s: &mut BCState,
        mb_x: usize,
        mb_y: usize,
        c: &BChoice,
        Ghost(n): Ghost<int>,
    )
        requires
            old(s).wf(n),
            self.wf(old(s).fe),
            old(s).fe.has_mb(mb_x as int, mb_y as int),
            c.wf(),
        ensures
            self.choice_bins(old(s).fe, *old(s), *final(s), mb_x as int, mb_y as int, *c),
            final(s).wf(n),
            final(s).me == old(s).me,
            final(s).counts == old(s).counts,
            final(s).stats == old(s).stats,
            final(s).fe.mb_w == old(s).fe.mb_w && final(s).fe.mb_h == old(s).fe.mb_h,
    {
        let ghost s0 = *s;
        let ghost (gx, gy) = (mb_x as int, mb_y as int);
        let ghost gi = grid::cell(s.fe.mb_w as int, gx, gy);
        proof {
            grid::lemma_cell(s.fe.mb_w as int, s.fe.mb_h as int, gx, gy);
        }
        let (w, h): (usize, usize) = (s.fe.mb_w, s.fe.mb_h);
        emit_no_skip_cabac(&mut s.cab, &s.cs, 24, w, h, mb_x, mb_y);
        let total: usize = s.cs.mb_skip.len();
        let i: usize = grid::cell_at(w, mb_x, mb_y, total);
        s.cs.mb_skip.set(i, false);
        let ghost cs = s.cs;
        let bi: BInter = c.describe();
        let parts: Vec<(i32, (i32, i32))> = Vec::new();
        let subs: [u8; 4] = [0, 0, 0, 0];
        assert(parts@ =~= Seq::empty());
        assert(subs@ =~= trial::whole_quarters());
        let p: InterPlan = s.fe.plan_inter_mb(
            self.k,
            &self.future[0],
            self.sy,
            self.su,
            self.sv,
            mb_x,
            mb_y,
            0,
            &parts,
            Some(bi),
            subs,
        );
        let ghost m = s.fe;
        proof {
            bslice::lemma_b_planned_ok(
                *self.k,
                s0.fe,
                m,
                self.future@[0],
                self.sy@,
                self.su@,
                self.sv@,
                gx,
                gy,
                *c,
                bi,
                p,
            );
        }
        emit_mb_cabac_b(&mut s.fe, &mut s.cab, &mut s.cs, c.dir, c.split, &p, mb_x, mb_y);
        let ghost bins = s.cab@;
        let ghost b = s.fe;
        proof {
            pcabac::lemma_inter_counts(m, b, cs, s.cs, p, false, gx, gy);
        }
        s.cab.encode_terminate(i + 1 == total);
        assert(c.describes(bi));
        assert(pcabac::not_skipped(s0.cs, cs, gi));
        assert(interplan::inter_planned(
            *self.k,
            s0.fe,
            m,
            self.future@[0],
            self.sy@,
            self.su@,
            self.sv@,
            gx,
            gy,
            0,
            Seq::empty(),
            Some(bi),
            trial::whole_quarters(),
            p,
        ));
        assert(mbinter::b_inter_coded(
            m,
            s.fe,
            self.flagged(s0, gx, gy),
            bins,
            cs,
            s.cs,
            c.dir,
            c.split,
            p,
            gx,
            gy,
        ));
        assert(s.cab@ == ended(s0, gi, bins));
    }

    /// Code or skip a macroblock.
    fn bins_mb(&self, s: &mut BCState, mb_x: usize, mb_y: usize, Ghost(n): Ghost<int>)
        requires
            old(s).wf(n),
            self.wf(old(s).fe),
            old(s).fe.has_mb(mb_x as int, mb_y as int),
            n < 0xffff_ffff,
        ensures
            self.bins_step(*old(s), *final(s), mb_x as int, mb_y as int),
            final(s).wf(n + 1),
            self.wf(final(s).fe),
            final(s).fe.mb_w == old(s).fe.mb_w && final(s).fe.mb_h == old(s).fe.mb_h,
    {
        let ghost s0 = *s;
        let ghost (gx, gy) = (mb_x as int, mb_y as int);
        self.begin(&mut s.fe, mb_x, mb_y);
        let ghost a = s.fe;
        let n0: BCounts = s.counts;
        let (act, motion): (BAct, [(i32, (i32, i32), i32, (i32, i32)); 16]) = self.decide(
            &s.fe,
            &mut s.counts,
            &mut s.me,
            mb_x,
            mb_y,
        );
        self.tally(&mut s.stats, &n0, &s.counts, &act);
        let ghost s1 = *s;
        assert(self.decided(&a, s0.counts, s0.me, gx, gy, act, s.counts, s.me));
        match act {
            BAct::Skip => {
                self.skip_now(s, mb_x, mb_y, &motion, Ghost(n + 1));
                proof {
                    self.lemma_skip_bins_same(a, s1, s0, *s, gx, gy);
                }
            },
            BAct::Code(c) => {
                self.code_choice(s, mb_x, mb_y, &c, Ghost(n + 1));
                proof {
                    self.lemma_choice_bins_same(a, s1, s0, *s, gx, gy, c);
                }
            },
        }
        proof {
            self.lemma_same_size(a, s.fe);
            assert(self.acted_bins(a, s0, *s, gx, gy, act));
        }
        assert(self.decided(&a, s0.counts, s0.me, gx, gy, act, s.counts, s.me));
    }

    /// A skip does not depend on what the decision has changed.
    proof fn lemma_skip_bins_same(
        &self,
        a: FrameEncoder,
        s: BCState,
        s0: BCState,
        t: BCState,
        mb_x: int,
        mb_y: int,
    )
        requires
            self.skip_bins(a, s, t, mb_x, mb_y),
            s.cab == s0.cab,
            s.cs == s0.cs,
            s.fe.mb_w == s0.fe.mb_w,
            s.fe.mb_h == s0.fe.mb_h,
        ensures
            self.skip_bins(a, s0, t, mb_x, mb_y),
    {
        let i = grid::cell(a.mb_w as int, mb_x, mb_y);
        assert(forall|bins: Seq<Bin>| #[trigger] ended(s, i, bins) == ended(s0, i, bins));
    }

    /// A choice does not depend on what the decision has changed.
    proof fn lemma_choice_bins_same(
        &self,
        a: FrameEncoder,
        s: BCState,
        s0: BCState,
        t: BCState,
        mb_x: int,
        mb_y: int,
        c: BChoice,
    )
        requires
            self.choice_bins(a, s, t, mb_x, mb_y, c),
            s.cab == s0.cab,
            s.cs == s0.cs,
            s.fe.mb_w == s0.fe.mb_w,
            s.fe.mb_h == s0.fe.mb_h,
        ensures
            self.choice_bins(a, s0, t, mb_x, mb_y, c),
    {
        let i = grid::cell(a.mb_w as int, mb_x, mb_y);
        assert(forall|bins: Seq<Bin>| #[trigger] ended(s, i, bins) == ended(s0, i, bins));
        assert(self.flagged(s, mb_x, mb_y) == self.flagged(s0, mb_x, mb_y));
    }
}

impl<'a, K: Kernels> BEnv<'a, K> {
    /// Behind every macroblock stands the bin that ends the slice or does not, and only that of the
    /// last macroblock ends it.
    pub proof fn law_only_the_last_b_macroblock_ends_the_slice(
        &self,
        s: BCState,
        t: BCState,
        mb_x: int,
        mb_y: int,
    )
        requires
            self.bins_step(s, t, mb_x, mb_y),
        ensures
            t.cab@.len() > 0,
            t.cab@.last() == Bin::term(
                grid::cell(s.fe.mb_w as int, mb_x, mb_y) + 1 == s.fe.mb_w * s.fe.mb_h,
            ),
    {
        let i = grid::cell(s.fe.mb_w as int, mb_x, mb_y);
        assert(exists|bins: Seq<Bin>| t.cab@ == #[trigger] ended(s, i, bins));
        let bins = choose|bins: Seq<Bin>| t.cab@ == #[trigger] ended(s, i, bins);
        assert(t.cab@.len() == bins.len() + 1);
    }
}

/// The macroblocks of a B slice one after the other, each from the state before it.
pub open spec fn b_bins_traced<'a, K: Kernels>(
    env: BEnv<'a, K>,
    trace: Seq<BCState>,
    n: int,
) -> bool {
    &&& trace.len() == n + 1
    &&& forall|i: int| 0 <= i < n ==> #[trigger] b_bins_at(env, trace, i)
}

/// Macroblock `i` goes from one state of the trace to the next.
pub open spec fn b_bins_at<'a, K: Kernels>(env: BEnv<'a, K>, trace: Seq<BCState>, i: int) -> bool {
    let w = trace[i].fe.mb_w as int;
    env.bins_step(trace[i], trace[i + 1], i % w, i / w)
}

/// Code all macroblocks of a B slice in raster order, as bins.
#[verifier::rlimit(50)]
pub fn encode_slice_data_cabac_b<'a, K: Kernels>(env: &BEnv<'a, K>, s: &mut BCState)
    requires
        old(s).wf(0),
        env.wf(old(s).fe),
    ensures
        exists|trace: Seq<BCState>|
            {
                &&& #[trigger] b_bins_traced(*env, trace, old(s).fe.mb_w * old(s).fe.mb_h)
                &&& trace[0] == *old(s)
                &&& trace.last() == *final(s)
            },
        pslice::frame_ok(final(s).fe),
{
    let ghost s0 = *s;
    let (w, h): (usize, usize) = (s.fe.mb_w, s.fe.mb_h);
    let ghost mut trace: Seq<BCState> = seq![*s];
    let n: usize = env.qps.len();
    let mut i: usize = 0;
    let (mut x, mut y): (usize, usize) = (0, 0);
    while i < n
        invariant
            s0 == *old(s),
            w == s.fe.mb_w && h == s.fe.mb_h,
            w == s0.fe.mb_w && h == s0.fe.mb_h,
            w >= 1 && h >= 1,
            n == w * h,
            n <= 0xffff_ffff,
            i <= n,
            x < w,
            y <= h,
            i == grid::cell(w as int, x as int, y as int),
            i < n ==> y < h,
            s.wf(i as int),
            env.wf(s.fe),
            b_bins_traced(*env, trace, i as int),
            trace[0] == s0,
            trace.last() == *s,
        decreases n - i,
    {
        proof {
            grid::lemma_cell(w as int, h as int, x as int, y as int);
        }
        let ghost before = *s;
        env.bins_mb(s, x, y, Ghost(i as int));
        proof {
            let old_trace = trace;
            trace = trace.push(*s);
            assert forall|j: int| 0 <= j < i + 1 implies #[trigger] b_bins_at(*env, trace, j) by {
                if j < i {
                    assert(b_bins_at(*env, old_trace, j));
                    assert(trace[j] == old_trace[j] && trace[j + 1] == old_trace[j + 1]);
                } else {
                    assert(trace[j] == before && trace[j + 1] == *s);
                }
            }
        }
        i = i + 1;
        if x + 1 < w {
            x = x + 1;
        } else {
            x = 0;
            y = y + 1;
            assert(y * w == (y - 1) * w + w) by (nonlinear_arith);
        }
        proof {
            grid::lemma_rows_left(w as int, h as int, y as int, i as int);
        }
    }
}

} // verus!
