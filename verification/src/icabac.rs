//! The macroblocks of I slices as CABAC bins.
use vstd::prelude::*;
use crate::cabac::{Bin, CabacEncoder};
use crate::frame::FrameEncoder;
use crate::grid;
use crate::interplan;
use crate::intraplan::plan_mb;
use crate::kernels;
use crate::kernels::Kernels;
use crate::mbcabac;
use crate::mbcabac::{emit_mb_cabac_i, CabacState};
use crate::mbcavlc;
use crate::plan::MbPlan;
use crate::pslice;
use crate::setup::chroma_qp;

verus! {

/// What the macroblocks of an I slice are coded with.
pub struct IEnv<'a, K: Kernels> {
    pub k: &'a K,
    pub sy: &'a [u8],
    pub su: &'a [u8],
    pub sv: &'a [u8],
    /// The QP of each macroblock.
    pub qps: &'a [u8],
}

/// The coding of an I slice so far.
pub struct IState {
    pub fe: FrameEncoder,
    /// The QP that each macroblock was coded with.
    pub qpy: Vec<u8>,
    pub cab: CabacEncoder,
    pub cs: CabacState,
}

impl IState {
    pub open spec fn wf(self) -> bool {
        &&& self.fe.wf()
        &&& self.qpy@.len() == self.fe.mb_w * self.fe.mb_h
        &&& self.cs.wf(self.fe.mb_w * self.fe.mb_h)
    }
}

impl<'a, K: Kernels> IEnv<'a, K> {
    pub open spec fn wf(&self, fe: FrameEncoder) -> bool {
        &&& kernels::steady(*self.k)
        &&& interplan::source_ok(fe, self.sy@, self.su@, self.sv@)
        &&& self.qps@.len() == fe.mb_w * fe.mb_h
        &&& forall|i: int| 0 <= i < self.qps@.len() ==> #[trigger] self.qps@[i] <= 51
    }

    /// Macroblock `(mb_x, mb_y)` is planned with its QP and coded; its QP is noted, and the end
    /// of the slice is signalled or not.
    pub open spec fn step(&self, s: IState, t: IState, mb_x: int, mb_y: int) -> bool {
        let i = grid::cell(s.fe.mb_w as int, mb_x, mb_y);
        let a = pslice::begun(s.fe, self.qps@[i]);
        exists|m: FrameEncoder, p: MbPlan, bins: Seq<Bin>|
            {
                &&& #[trigger] mbcavlc::intra_planned(
                    *self.k,
                    a,
                    m,
                    self.sy@,
                    self.su@,
                    self.sv@,
                    mb_x,
                    mb_y,
                    p,
                )
                &&& #[trigger] mbcabac::i_coded(m, t.fe, s.cab@, bins, s.cs, t.cs, p, mb_x, mb_y)
                &&& t.qpy@ == s.qpy@.update(i, t.fe.cur_qp)
                &&& t.cab@ == bins.push(Bin::term(i + 1 == s.fe.mb_w * s.fe.mb_h))
            }
    }

    /// Code a macroblock.
    fn one_mb(&self, s: &mut IState, mb_x: usize, mb_y: usize)
        requires
            old(s).wf(),
            self.wf(old(s).fe),
            old(s).fe.has_mb(mb_x as int, mb_y as int),
        ensures
            self.step(*old(s), *final(s), mb_x as int, mb_y as int),
            final(s).wf(),
            self.wf(final(s).fe),
            final(s).fe.mb_w == old(s).fe.mb_w && final(s).fe.mb_h == old(s).fe.mb_h,
    {
        let ghost s0 = *s;
        let ghost (gx, gy) = (mb_x as int, mb_y as int);
        proof {
            grid::lemma_cell(s.fe.mb_w as int, s.fe.mb_h as int, gx, gy);
        }
        let n: usize = s.qpy.len();
        let i: usize = grid::cell_at(s.fe.mb_w, mb_x, mb_y, n);
        let q: u8 = self.qps[i];
        s.fe.qp = q;
        s.fe.qpc = chroma_qp(q);
        let ghost a = s.fe;
        let p: MbPlan = plan_mb(self.k, &mut s.fe, mb_x, mb_y, self.sy, self.su, self.sv);
        let ghost m = s.fe;
        emit_mb_cabac_i(&mut s.fe, &mut s.cab, &mut s.cs, &p, mb_x, mb_y);
        let ghost bins = s.cab@;
        let c: u8 = s.fe.cur_qp;
        s.qpy.set(i, c);
        s.cab.encode_terminate(i + 1 == n);
        assert(mbcavlc::intra_planned(
            *self.k,
            a,
            m,
            self.sy@,
            self.su@,
            self.sv@,
            gx,
            gy,
            p,
        ));
        assert(mbcabac::i_coded(m, s.fe, s0.cab@, bins, s0.cs, s.cs, p, gx, gy));
        assert(a == pslice::begun(s0.fe, q));
        assert(s.qpy@ == s0.qpy@.update(i as int, s.fe.cur_qp));
        assert(s.cab@ == bins.push(Bin::term(i + 1 == s0.fe.mb_w * s0.fe.mb_h)));
    }
}

impl<'a, K: Kernels> IEnv<'a, K> {
    /// Behind every macroblock stands the bin that ends the slice or does not, and only that of the
    /// last macroblock ends it.
    pub proof fn law_only_the_last_i_macroblock_ends_the_slice(
        &self,
        s: IState,
        t: IState,
        mb_x: int,
        mb_y: int,
    )
        requires
            self.step(s, t, mb_x, mb_y),
        ensures
            t.cab@.len() > 0,
            t.cab@.last() == Bin::term(
                grid::cell(s.fe.mb_w as int, mb_x, mb_y) + 1 == s.fe.mb_w * s.fe.mb_h,
            ),
    {
    }
}

/// The macroblocks of an I slice one after the other, each from the state before it.
pub open spec fn i_traced<'a, K: Kernels>(env: IEnv<'a, K>, trace: Seq<IState>, n: int) -> bool {
    &&& trace.len() == n + 1
    &&& forall|i: int| 0 <= i < n ==> #[trigger] i_traced_at(env, trace, i)
}

/// Macroblock `i` goes from one state of the trace to the next.
pub open spec fn i_traced_at<'a, K: Kernels>(env: IEnv<'a, K>, trace: Seq<IState>, i: int) -> bool {
    let w = trace[i].fe.mb_w as int;
    env.step(trace[i], trace[i + 1], i % w, i / w)
}

/// Code all macroblocks of an I slice in raster order.
pub fn encode_slice_data_cabac_intra<'a, K: Kernels>(env: &IEnv<'a, K>, s: &mut IState)
    requires
        old(s).wf(),
        env.wf(old(s).fe),
    ensures
        exists|trace: Seq<IState>|
            {
                &&& #[trigger] i_traced(*env, trace, old(s).fe.mb_w * old(s).fe.mb_h)
                &&& trace[0] == *old(s)
                &&& trace.last() == *final(s)
            },
        final(s).wf(),
{
    let ghost s0 = *s;
    let (w, h): (usize, usize) = (s.fe.mb_w, s.fe.mb_h);
    let ghost mut trace: Seq<IState> = seq![*s];
    let n: usize = s.qpy.len();
    let mut i: usize = 0;
    let (mut x, mut y): (usize, usize) = (0, 0);
    while i < n
        invariant
            s0 == *old(s),
            w == s.fe.mb_w && h == s.fe.mb_h,
            w == s0.fe.mb_w && h == s0.fe.mb_h,
            w >= 1 && h >= 1,
            n == w * h,
            i <= n,
            x < w,
            y <= h,
            i == grid::cell(w as int, x as int, y as int),
            i < n ==> y < h,
            s.wf(),
            env.wf(s.fe),
            i_traced(*env, trace, i as int),
            trace[0] == s0,
            trace.last() == *s,
        decreases n - i,
    {
        proof {
            grid::lemma_cell(w as int, h as int, x as int, y as int);
        }
        let ghost before = *s;
        env.one_mb(s, x, y);
        proof {
            let old_trace = trace;
            trace = trace.push(*s);
            assert forall|j: int| 0 <= j < i + 1 implies #[trigger] i_traced_at(
                *env,
                trace,
                j,
            ) by {
                if j < i {
                    assert(i_traced_at(*env, old_trace, j));
                    assert(trace[j] == old_trace[j] && trace[j + 1] == old_trace[j + 1]);
                } else {
                    assert(trace[j] == before && trace[j + 1] == *s);
                }
            }
        }
        i = i + 1;
        if x + 1 < w {
            x = x + 1;
        } else {
            x = 0;
            y = y + 1;
            assert(y * w == (y - 1) * w + w) by (nonlinear_arith);
        }
        proof {
            grid::lemma_rows_left(w as int, h as int, y as int, i as int);
        }
    }
}

} // verus!
