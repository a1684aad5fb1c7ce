//! How much of a frame is drawn rather than filmed: long runs of equal samples, and few different
//! ones.
use vstd::prelude::*;
use crate::arith;
use crate::signals::FrameSignals;

verus! {

/// Sample `k` of every fourth row.
pub open spec fn sampled(sy: Seq<u8>, cw: int, k: int) -> u8 {
    sy[4 * (k / cw) * cw + k % cw]
}

/// Sample `k` starts a run: it stands first in its row, or differs from the one before.
pub open spec fn starts(sy: Seq<u8>, cw: int, k: int) -> bool {
    k % cw == 0 || sampled(sy, cw, k) != sampled(sy, cw, k - 1)
}

/// How many of the first `k` samples start a run.
pub open spec fn runs(sy: Seq<u8>, cw: int, k: int) -> int
    decreases k,
{
    if k <= 0 {
        0
    } else {
        runs(sy, cw, k - 1) + if starts(sy, cw, k - 1) {
            1int
        } else {
            0
        }
    }
}

/// How many of the first `k` samples have the value `v`.
pub open spec fn having(sy: Seq<u8>, cw: int, v: int, k: int) -> int
    decreases k,
{
    if k <= 0 {
        0
    } else {
        having(sy, cw, v, k - 1) + if sampled(sy, cw, k - 1) == v {
            1int
        } else {
            0
        }
    }
}

/// Where the first greatest of the first `k` entries stands.
pub open spec fn peak(h: Seq<u64>, k: int) -> int
    decreases k,
{
    if k <= 1 {
        0
    } else {
        let p = peak(h, k - 1);
        if h[k - 1] > h[p] {
            k - 1
        } else {
            p
        }
    }
}

/// The sum of the `n` greatest entries.
pub open spec fn greatest(h: Seq<u64>, n: int) -> int
    decreases n,
{
    if n <= 0 {
        0
    } else {
        let p = peak(h, h.len() as int);
        h[p] + greatest(h.update(p, 0), n - 1)
    }
}

/// What was counted of a frame: the samples of every fourth row, the runs of equal ones, and the
/// samples that have one of the sixteen most frequent values.
#[derive(Clone, Copy)]
pub struct Drawn {
    pub samples: u64,
    pub runs: u64,
    pub top16: u64,
}

impl Drawn {
    /// The frame is drawn: runs of four samples or more on average, and half of the samples in
    /// sixteen values.
    pub open spec fn screen(self) -> bool {
        &&& self.samples >= 4 * arith::max(1, self.runs as int)
        &&& 2 * self.top16 >= arith::max(1, self.samples as int)
    }

    /// Whether the frame is drawn.
    pub fn is_screen(&self) -> (r: bool)
        ensures
            r == self.screen(),
    {
        let q: u128 = if self.runs > 1 {
            self.runs as u128
        } else {
            1
        };
        let n: u128 = if self.samples > 1 {
            self.samples as u128
        } else {
            1
        };
        self.samples as u128 >= 4 * q && 2 * (self.top16 as u128) >= n
    }
}

/// No entry is greater than the one at the peak.
pub proof fn law_peak_is_the_greatest(h: Seq<u64>, k: int)
    requires
        1 <= k <= h.len(),
    ensures
        0 <= peak(h, k) < k,
        forall|i: int| 0 <= i < k ==> #[trigger] h[i] <= h[peak(h, k)],
    decreases k,
{
    if k > 1 {
        law_peak_is_the_greatest(h, k - 1);
    }
}

fn peak_at(h: &[u64; 256]) -> (p: usize)
    ensures
        p == peak(h@, 256),
        p < 256,
{
    let mut p: usize = 0;
    let mut k: usize = 1;
    while k < 256
        invariant
            1 <= k <= 256,
            p < k,
            p == peak(h@, k as int),
        decreases 256 - k,
    {
        if h[k] > h[p] {
            p = k;
        }
        k = k + 1;
    }
    p
}

fn sum_greatest(h: [u64; 256], n: usize) -> (s: u64)
    requires
        n <= 16,
        forall|i: int| 0 <= i < 256 ==> #[trigger] h@[i] <= 0x3ff_ffff_ffff_ffff,
    ensures
        s == greatest(h@, n as int),
{
    let mut h: [u64; 256] = h;
    let mut s: u64 = 0;
    let mut i: usize = 0;
    let ghost goal = greatest(h@, n as int);
    while i < n
        invariant
            i <= n,
            n <= 16,
            forall|j: int| 0 <= j < 256 ==> #[trigger] h@[j] <= 0x3ff_ffff_ffff_ffff,
            s <= 0x3ff_ffff_ffff_ffff * i,
            goal == s + greatest(h@, n - i),
        decreases n - i,
    {
        let p: usize = peak_at(&h);
        s = s + h[p];
        h[p] = 0;
        i = i + 1;
    }
    s
}

impl<'a> FrameSignals<'a> {
    /// What is counted of the frame.
    pub open spec fn drawn(&self, d: Drawn) -> bool {
        let n = self.cw * (4 * self.mb_h);
        &&& d.samples == n
        &&& d.runs == runs(self.sy@, self.cw as int, n)
        &&& exists|h: Seq<u64>|
            {
                &&& h.len() == 256
                &&& forall|v: int|
                    0 <= v < 256 ==> #[trigger] h[v] == having(self.sy@, self.cw as int, v, n)
                &&& d.top16 == #[trigger] greatest(h, 16)
            }
    }

    /// Count the runs and values of the frame.
    #[verifier::rlimit(50)]
    pub fn flat_hist(&self) -> (d: Drawn)
        requires
            self.wf(),
        ensures
            self.drawn(d),
    {
        let cw: usize = self.cw;
        let len: usize = self.sy.len();
        let ghost ch = 4 * self.mb_h;
        let ghost total = self.cw * ch;
        let mut h: [u64; 256] = [0; 256];
        let mut q: u64 = 0;
        let mut px: u64 = 0;
        let mut y: usize = 0;
        proof {
            assert(0 * cw == 0);
            assert(self.cw * ch == ch * self.cw) by (nonlinear_arith);
            assert(ch * self.cw <= 0x3fff_ffff * ch) by (nonlinear_arith)
                requires
                    self.cw <= 0x3fff_ffff,
                    ch >= 0,
            ;
        }
        while y < 4 * self.mb_h
            invariant
                self.wf(),
                cw == self.cw,
                ch == 4 * self.mb_h,
                len == self.sy@.len(),
                y <= ch,
                px == y * cw,
                px <= 0x3fff_ffff * y,
                q == runs(self.sy@, cw as int, px as int),
                q <= px,
                forall|v: int|
                    0 <= v < 256 ==> #[trigger] h@[v] == having(
                        self.sy@,
                        cw as int,
                        v,
                        px as int,
                    ) && h@[v] <= px,
            decreases ch - y,
        {
            let ghost px0 = px as int;
            proof {
                assert(0 <= 4 * y * cw && 4 * y * cw + cw <= cw * (16 * self.mb_h))
                    by (nonlinear_arith)
                    requires
                        4 * y + 1 <= 16 * self.mb_h,
                        0 <= y,
                        0 <= cw,
                ;
            }
            let base: usize = 4 * y * cw;
            let mut prev: u32 = 0x100;
            let mut x: usize = 0;
            while x < cw
                invariant
                    self.wf(),
                    cw == self.cw,
                    len == self.sy@.len(),
                    ch == 4 * self.mb_h,
                    y < ch,
                    x <= cw,
                    px0 == y * cw,
                    px0 <= 0x3fff_ffff * y,
                    px == px0 + x,
                    base == 4 * y * cw,
                    base + cw <= len,
                    x == 0 ==> prev == 0x100,
                    x > 0 ==> prev == sampled(self.sy@, cw as int, px - 1),
                    q == runs(self.sy@, cw as int, px as int),
                    q <= px,
                    forall|v: int|
                        0 <= v < 256 ==> #[trigger] h@[v] == having(
                            self.sy@,
                            cw as int,
                            v,
                            px as int,
                        ) && h@[v] <= px,
                decreases cw - x,
            {
                proof {
                    vstd::arithmetic::div_mod::lemma_fundamental_div_mod_converse(
                        y * cw + x,
                        cw as int,
                        y as int,
                        x as int,
                    );
                }
                let p: u8 = self.sy[base + x];
                assert(p == sampled(self.sy@, cw as int, px as int));
                let ghost h0 = h@;
                let c: u64 = h[p as usize];
                h[p as usize] = c + 1;
                if p as u32 != prev {
                    q = q + 1;
                    prev = p as u32;
                }
                px = px + 1;
                x = x + 1;
                assert forall|v: int| 0 <= v < 256 implies #[trigger] h@[v] == having(
                    self.sy@,
                    cw as int,
                    v,
                    px as int,
                ) && h@[v] <= px by {
                    assert(h0[v] == having(self.sy@, cw as int, v, px - 1));
                }
            }
            y = y + 1;
            proof {
                assert(y * cw == (y - 1) * cw + cw) by (nonlinear_arith);
            }
        }
        let ghost hv = h@;
        let top16: u64 = sum_greatest(h, 16);
        proof {
            assert(hv.len() == 256);
            assert(top16 == greatest(hv, 16));
        }
        Drawn { samples: px, runs: q, top16 }
    }

    /// Whether the frame is drawn rather than filmed.
    pub fn is_screen(&self) -> (r: bool)
        requires
            self.wf(),
        ensures
            exists|d: Drawn| #[trigger] self.drawn(d) && r == d.screen(),
    {
        let d: Drawn = self.flat_hist();
        assert(self.drawn(d));
        d.is_screen()
    }
}

} // verus!
