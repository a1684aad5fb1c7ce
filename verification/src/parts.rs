//! The search over references and over the shapes that a macroblock is divided into.
use vstd::prelude::*;
use crate::bits;
use crate::bits::ref_bits;
use crate::frame::FrameEncoder;
use crate::kernels;
use crate::kernels::{price, Kernels, Phase, Price};
use crate::mbinter;
use crate::mbstate::RefFrame;
use crate::motion;
use crate::motion::{predict_mv, MvNeighbor};
use crate::pixels;
use crate::search::{Found, MeOptions, MeState, MvRate, Pricer, Spot, COST_MAX};
use crate::trial;

verus! {

/// The best reference and vector of a partition, and what they cost.
#[derive(Clone, Copy)]
pub struct PartFound {
    pub refi: i32,
    pub mv: (i32, i32),
    pub cost: i64,
}

/// The largest cost of a partition.
pub const PART_MAX: i64 = 0x400_0000_0000;

/// The largest cost of a shape.
pub const SHAPE_MAX: i64 = 0x1_0000_0000_0000;

/// The vectors that a search of a partition starts from: the predicted one, and others.
pub open spec fn seeds_of(nb: Seq<MvNeighbor>, r: int, extra: Seq<(i32, i32)>) -> Seq<(i32, i32)> {
    seq![motion::predicted(nb[0], nb[1], nb[2], r)] + extra
}

/// What is searched with what.
pub struct Searcher<'a, K: Kernels> {
    pub fe: &'a FrameEncoder,
    pub k: &'a K,
    pub rate: &'a MvRate,
    pub refs: &'a [RefFrame],
    pub sy: &'a [u8],
    pub o: &'a MeOptions,
    /// The list that the references belong to.
    pub list: u8,
}

impl<'a, K: Kernels> Searcher<'a, K> {
    pub open spec fn wf(&self) -> bool {
        &&& self.fe.wf()
        &&& self.fe.cw <= 0x3fff_ffff
        &&& 16 * self.fe.mb_h <= 0x3fff_ffff
        &&& kernels::steady(*self.k)
        &&& kernels::modest(*self.k)
        &&& self.rate.wf()
        &&& self.sy@.len() == self.fe.rec_y@.len()
        &&& 1 <= self.refs@.len() <= 127
        &&& forall|r: int|
            0 <= r < self.refs@.len() ==> (#[trigger] self.refs@[r]).y@.len() == self.fe.rec_y@.len()
    }

    /// The rectangle can be searched for.
    pub open spec fn region(&self, x: int, y: int, w: int, h: int) -> bool {
        &&& w == 4 || w == 8 || w == 16
        &&& h == 4 || h == 8 || h == 16
        &&& 0 <= x
        &&& 0 <= y
        &&& x + w <= self.fe.cw
        &&& y + h <= 16 * self.fe.mb_h
    }

    /// The prices of a search in reference `r`.
    pub open spec fn pricer(
        &self,
        r: int,
        x: int,
        y: int,
        w: int,
        h: int,
        center: (i32, i32),
        refining: bool,
    ) -> Pricer<'a, K> {
        Pricer {
            fe: self.fe,
            k: self.k,
            rate: self.rate,
            reference: &self.refs@[r],
            sy: self.sy,
            list: self.list,
            refi: r as i32,
            lx: x as usize,
            ly: y as usize,
            rw: w as usize,
            rh: h as usize,
            center,
            sadfp: !self.fe.fast && !refining && self.o.sadfp,
        }
    }

    /// What a search finds, and what the frame has learned then.
    #[verifier::opaque]
    pub open spec fn found(
        &self,
        st: MeState,
        r: int,
        x: int,
        y: int,
        w: int,
        h: int,
        preds: Seq<(i32, i32)>,
        start: Option<(i32, i32)>,
    ) -> (Spot, MeState) {
        self.pricer(r, x, y, w, h, preds[0], start is Some).searched(*self.o, st, preds, start)
    }

    /// Search one partition in one reference.
    pub fn motion(
        &self,
        st: &mut MeState,
        r: usize,
        x: usize,
        y: usize,
        w: usize,
        h: usize,
        preds: &[(i32, i32)],
        start: Option<(i32, i32)>,
    ) -> (f: Found)
        requires
            self.wf(),
            old(st).wf(),
            r < self.refs@.len(),
            self.region(x as int, y as int, w as int, h as int),
            preds@.len() >= 1,
        ensures
            (f.spot(), *final(st)) == self.found(
                *old(st),
                r as int,
                x as int,
                y as int,
                w as int,
                h as int,
                preds@,
                start,
            ),
            final(st).wf(),
            0 <= f.cost <= COST_MAX,
    {
        let p: Pricer<'a, K> = Pricer {
            fe: self.fe,
            k: self.k,
            rate: self.rate,
            reference: &self.refs[r],
            sy: self.sy,
            list: self.list,
            refi: r as i32,
            lx: x,
            ly: y,
            rw: w,
            rh: h,
            center: preds[0],
            sadfp: !self.fe.fast && start.is_none() && self.o.sadfp,
        };
        assert(pixels::block_fits(
            self.fe.cw as int,
            x as int,
            y as int,
            w as int,
            h as int,
            self.sy@.len() as int,
        )) by {
            assert(y * self.fe.cw + x + (h - 1) * self.fe.cw + w <= self.fe.cw * (16 * self.fe.mb_h))
                by (nonlinear_arith)
                requires
                    x + w <= self.fe.cw,
                    y + h <= 16 * self.fe.mb_h,
                    0 <= x,
                    0 <= y,
                    w >= 1,
                    h >= 1,
                    0 <= self.fe.cw,
            ;
        }
        reveal(Searcher::found);
        p.motion_search(self.o, st, preds, start)
    }

    /// What naming a reference is charged.
    pub open spec fn ref_price(&self, r: int, num_refs: int) -> int {
        kernels::price_of(
            *self.k,
            Price {
                phase: Phase::Plain,
                bits: bits::ref_rate(r, num_refs) as u32,
                loud: self.fe.mb_loud,
            },
        ) as int
    }

    /// The best of `best` and what references `r` and on give.
    pub open spec fn best_from(
        &self,
        st: MeState,
        nb: Seq<MvNeighbor>,
        num_refs: int,
        x: int,
        y: int,
        w: int,
        h: int,
        extra: Seq<(i32, i32)>,
        r: int,
        best: PartFound,
    ) -> (PartFound, MeState)
        decreases num_refs - r,
    {
        if r >= num_refs {
            (best, st)
        } else {
            let (s, st1) = self.found(st, r, x, y, w, h, seeds_of(nb, r, extra), None);
            let c = s.c + self.ref_price(r, num_refs);
            self.best_from(
                st1,
                nb,
                num_refs,
                x,
                y,
                w,
                h,
                extra,
                r + 1,
                if c < best.cost {
                    PartFound { refi: r as i32, mv: (s.x as i32, s.y as i32), cost: c as i64 }
                } else {
                    best
                },
            )
        }
    }

    /// The best reference and vector of a partition: the cheapest one, the first of equals.
    #[verifier::opaque]
    pub open spec fn best_of(
        &self,
        st: MeState,
        nb: Seq<MvNeighbor>,
        num_refs: int,
        x: int,
        y: int,
        w: int,
        h: int,
        extra: Seq<(i32, i32)>,
    ) -> (PartFound, MeState) {
        self.best_from(
            st,
            nb,
            num_refs,
            x,
            y,
            w,
            h,
            extra,
            0,
            PartFound { refi: 0, mv: (0, 0), cost: i64::MAX },
        )
    }

    /// What the frame has learned when references below `r` have been searched.
    pub open spec fn learned_before(
        &self,
        st: MeState,
        nb: Seq<MvNeighbor>,
        x: int,
        y: int,
        w: int,
        h: int,
        extra: Seq<(i32, i32)>,
        r: int,
    ) -> MeState
        decreases r,
    {
        if r <= 0 {
            st
        } else {
            self.found(
                self.learned_before(st, nb, x, y, w, h, extra, r - 1),
                r - 1,
                x,
                y,
                w,
                h,
                seeds_of(nb, r - 1, extra),
                None,
            ).1
        }
    }

    /// What reference `r` costs when its turn comes.
    pub open spec fn ref_cost(
        &self,
        st: MeState,
        nb: Seq<MvNeighbor>,
        num_refs: int,
        x: int,
        y: int,
        w: int,
        h: int,
        extra: Seq<(i32, i32)>,
        r: int,
    ) -> int {
        self.found(
                self.learned_before(st, nb, x, y, w, h, extra, r),
                r,
                x,
                y,
                w,
                h,
                seeds_of(nb, r, extra),
                None,
            ).0.c + self.ref_price(r, num_refs)
    }

    proof fn lemma_best_from(
        &self,
        st: MeState,
        nb: Seq<MvNeighbor>,
        num_refs: int,
        x: int,
        y: int,
        w: int,
        h: int,
        extra: Seq<(i32, i32)>,
        r: int,
        best: PartFound,
    )
        requires
            0 <= r <= num_refs,
            forall|j: int|
                0 <= j < num_refs ==> i64::MIN <= #[trigger] self.ref_cost(
                    st,
                    nb,
                    num_refs,
                    x,
                    y,
                    w,
                    h,
                    extra,
                    j,
                ),
        ensures
            ({
                let (f, t) = self.best_from(
                    self.learned_before(st, nb, x, y, w, h, extra, r),
                    nb,
                    num_refs,
                    x,
                    y,
                    w,
                    h,
                    extra,
                    r,
                    best,
                );
                &&& f.cost <= best.cost
                &&& t == self.learned_before(st, nb, x, y, w, h, extra, num_refs)
                &&& forall|j: int|
                    r <= j < num_refs ==> f.cost <= #[trigger] self.ref_cost(
                        st,
                        nb,
                        num_refs,
                        x,
                        y,
                        w,
                        h,
                        extra,
                        j,
                    )
            }),
        decreases num_refs - r,
    {
        if r < num_refs {
            let before = self.learned_before(st, nb, x, y, w, h, extra, r);
            let (s, st1) = self.found(before, r, x, y, w, h, seeds_of(nb, r, extra), None);
            let c = self.ref_cost(st, nb, num_refs, x, y, w, h, extra, r);
            assert(st1 == self.learned_before(st, nb, x, y, w, h, extra, r + 1));
            let next = if c < best.cost {
                PartFound { refi: r as i32, mv: (s.x as i32, s.y as i32), cost: c as i64 }
            } else {
                best
            };
            self.lemma_best_from(st, nb, num_refs, x, y, w, h, extra, r + 1, next);
        }
    }

    /// A partition is predicted from the reference that costs least when its turn comes.
    pub proof fn law_best_reference_is_cheapest(
        &self,
        st: MeState,
        nb: Seq<MvNeighbor>,
        num_refs: int,
        x: int,
        y: int,
        w: int,
        h: int,
        extra: Seq<(i32, i32)>,
        r: int,
    )
        requires
            0 <= r < num_refs,
            forall|j: int|
                0 <= j < num_refs ==> i64::MIN <= #[trigger] self.ref_cost(
                    st,
                    nb,
                    num_refs,
                    x,
                    y,
                    w,
                    h,
                    extra,
                    j,
                ),
        ensures
            self.best_of(st, nb, num_refs, x, y, w, h, extra).0.cost <= self.ref_cost(
                st,
                nb,
                num_refs,
                x,
                y,
                w,
                h,
                extra,
                r,
            ),
    {
        reveal(Searcher::best_of);
        self.lemma_best_from(
            st,
            nb,
            num_refs,
            x,
            y,
            w,
            h,
            extra,
            0,
            PartFound { refi: 0, mv: (0, 0), cost: i64::MAX },
        );
    }

    /// Find the best reference and vector of a partition.
    pub fn best_part(
        &self,
        st: &mut MeState,
        nb: &[MvNeighbor; 3],
        num_refs: usize,
        rx: usize,
        ry: usize,
        rw: usize,
        rh: usize,
        extra: &[(i32, i32)],
    ) -> (f: PartFound)
        requires
            self.wf(),
            old(st).wf(),
            1 <= num_refs <= self.refs@.len(),
            self.region(rx as int, ry as int, rw as int, rh as int),
        ensures
            (f, *final(st)) == self.best_of(
                *old(st),
                nb@,
                num_refs as int,
                rx as int,
                ry as int,
                rw as int,
                rh as int,
                extra@,
            ),
            final(st).wf(),
            0 <= f.cost <= PART_MAX,
            0 <= f.refi < num_refs,
    {
        reveal(Searcher::best_of);
        let ghost (x, y, w, h) = (rx as int, ry as int, rw as int, rh as int);
        let mut best: PartFound = PartFound { refi: 0, mv: (0, 0), cost: i64::MAX };
        let ghost st0 = *st;
        let mut r: usize = 0;
        while r < num_refs
            invariant
                r <= num_refs <= self.refs@.len(),
                self.wf(),
                st.wf(),
                x == rx && y == ry && w == rw && h == rh,
                self.region(x, y, w, h),
                self.best_from(*st, nb@, num_refs as int, x, y, w, h, extra@, r as int, best)
                    == self.best_of(st0, nb@, num_refs as int, x, y, w, h, extra@),
                r == 0 ==> best.cost == i64::MAX,
                r > 0 ==> 0 <= best.cost <= PART_MAX,
                best.refi == 0 || 0 <= best.refi < r,
            decreases num_refs - r,
        {
            let mut seeds: Vec<(i32, i32)> = Vec::new();
            seeds.push(predict_mv(nb[0], nb[1], nb[2], r as i32));
            let mut j: usize = 0;
            while j < extra.len()
                invariant
                    j <= extra@.len(),
                    seeds@ == seq![motion::predicted(nb@[0], nb@[1], nb@[2], r as int)]
                        + extra@.take(j as int),
                decreases extra@.len() - j,
            {
                seeds.push(extra[j]);
                j = j + 1;
                assert(extra@.take(j as int) =~= extra@.take(j - 1).push(extra@[j - 1]));
            }
            assert(seeds@ =~= seeds_of(nb@, r as int, extra@)) by {
                assert(extra@.take(extra@.len() as int) =~= extra@);
            }
            let f: Found = self.motion(st, r, rx, ry, rw, rh, &seeds, None);
            let n: u32 = ref_bits(r, num_refs);
            let w: i64 = price(
                self.k,
                Price { phase: Phase::Plain, bits: n, loud: self.fe.mb_loud },
            );
            let c: i64 = f.cost + w;
            if c < best.cost {
                best = PartFound { refi: r as i32, mv: f.mv, cost: c };
            }
            r = r + 1;
        }
        best
    }

    /// What the refinement of a found partition gives.
    #[verifier::opaque]
    pub open spec fn refined_of(
        &self,
        st: MeState,
        nb: Seq<MvNeighbor>,
        num_refs: int,
        x: int,
        y: int,
        w: int,
        h: int,
        r: int,
        mv: (i32, i32),
    ) -> (PartFound, MeState) {
        let (s, st1) = self.found(
            st,
            r,
            x,
            y,
            w,
            h,
            seq![motion::predicted(nb[0], nb[1], nb[2], r)],
            Some(mv),
        );
        (
            PartFound {
                refi: r as i32,
                mv: (s.x as i32, s.y as i32),
                cost: (s.c + self.ref_price(r, num_refs)) as i64,
            },
            st1,
        )
    }

    /// Refine a partition whose reference and vector have been chosen.
    pub fn refine_part(
        &self,
        st: &mut MeState,
        nb: &[MvNeighbor; 3],
        num_refs: usize,
        rx: usize,
        ry: usize,
        rw: usize,
        rh: usize,
        r: i32,
        mv: (i32, i32),
    ) -> (f: PartFound)
        requires
            self.wf(),
            old(st).wf(),
            num_refs <= self.refs@.len(),
            0 <= r < num_refs,
            self.region(rx as int, ry as int, rw as int, rh as int),
        ensures
            (f, *final(st)) == self.refined_of(
                *old(st),
                nb@,
                num_refs as int,
                rx as int,
                ry as int,
                rw as int,
                rh as int,
                r as int,
                mv,
            ),
            final(st).wf(),
            0 <= f.cost <= PART_MAX,
            f.refi == r,
    {
        reveal(Searcher::refined_of);
        let seeds: [(i32, i32); 1] = [predict_mv(nb[0], nb[1], nb[2], r)];
        assert(seeds@ =~= seq![motion::predicted(nb@[0], nb@[1], nb@[2], r as int)]);
        let f: Found = self.motion(st, r as usize, rx, ry, rw, rh, &seeds, Some(mv));
        let n: u32 = ref_bits(r as usize, num_refs);
        let w: i64 = price(self.k, Price { phase: Phase::Plain, bits: n, loud: self.fe.mb_loud });
        PartFound { refi: r, mv: f.mv, cost: f.cost + w }
    }
}

/// The rectangle `rs[i]` of a macroblock or quarter at `(x, y)` can be searched for.
pub open spec fn all_regions<'a, K: Kernels>(
    s: Searcher<'a, K>,
    x: int,
    y: int,
    rs: Seq<(usize, usize, usize, usize)>,
) -> bool {
    forall|i: int|
        0 <= i < rs.len() ==> {
            let r = #[trigger] rs[i];
            s.region(x + r.0, y + r.1, r.2 as int, r.3 as int)
        }
}

impl<'a, K: Kernels> Searcher<'a, K> {
    /// Partitions `i` and on searched one after the other, behind `parts` and `cost`.
    pub open spec fn parts_from(
        &self,
        st: MeState,
        nb: Seq<MvNeighbor>,
        num_refs: int,
        x: int,
        y: int,
        rs: Seq<(usize, usize, usize, usize)>,
        extra: Seq<(i32, i32)>,
        i: int,
        parts: Seq<(i32, (i32, i32))>,
        cost: int,
    ) -> (Seq<(i32, (i32, i32))>, int, MeState)
        decreases rs.len() - i,
    {
        if i >= rs.len() {
            (parts, cost, st)
        } else {
            let (f, st1) = self.best_of(
                st,
                nb,
                num_refs,
                x + rs[i].0,
                y + rs[i].1,
                rs[i].2 as int,
                rs[i].3 as int,
                extra,
            );
            self.parts_from(
                st1,
                nb,
                num_refs,
                x,
                y,
                rs,
                extra,
                i + 1,
                parts.push((f.refi, f.mv)),
                cost + f.cost as int,
            )
        }
    }

    /// Search the partitions of a shape one after the other. The costs add up on top of
    /// `base`.
    pub fn search_parts(
        &self,
        st: &mut MeState,
        nb: &[MvNeighbor; 3],
        num_refs: usize,
        x: usize,
        y: usize,
        rs: &Vec<(usize, usize, usize, usize)>,
        extra: &[(i32, i32)],
        base: i64,
    ) -> (f: (Vec<(i32, (i32, i32))>, i64))
        requires
            self.wf(),
            old(st).wf(),
            1 <= num_refs <= self.refs@.len(),
            rs@.len() <= 16,
            all_regions(*self, x as int, y as int, rs@),
            0 <= base <= kernels::PRICE_MAX,
        ensures
            (f.0@, f.1 as int, *final(st)) == self.parts_from(
                *old(st),
                nb@,
                num_refs as int,
                x as int,
                y as int,
                rs@,
                extra@,
                0,
                Seq::empty(),
                base as int,
            ),
            final(st).wf(),
            f.0@.len() == rs@.len(),
            forall|i: int| 0 <= i < f.0@.len() ==> 0 <= (#[trigger] f.0@[i]).0 < num_refs,
            0 <= f.1 <= base + PART_MAX * rs@.len(),
    {
        let mut parts: Vec<(i32, (i32, i32))> = Vec::new();
        let mut cost: i64 = base;
        let mut i: usize = 0;
        let ghost st0 = *st;
        assert(parts@ =~= Seq::empty());
        while i < rs.len()
            invariant
                i <= rs@.len() <= 16,
                self.wf(),
                st.wf(),
                1 <= num_refs <= self.refs@.len(),
                all_regions(*self, x as int, y as int, rs@),
                self.parts_from(
                    *st,
                    nb@,
                    num_refs as int,
                    x as int,
                    y as int,
                    rs@,
                    extra@,
                    i as int,
                    parts@,
                    cost as int,
                ) == self.parts_from(
                    st0,
                    nb@,
                    num_refs as int,
                    x as int,
                    y as int,
                    rs@,
                    extra@,
                    0,
                    Seq::empty(),
                    base as int,
                ),
                parts@.len() == i,
                forall|j: int| 0 <= j < i ==> 0 <= (#[trigger] parts@[j]).0 < num_refs,
                0 <= cost <= base + PART_MAX * i,
                0 <= base <= kernels::PRICE_MAX,
            decreases rs@.len() - i,
        {
            let (rx, ry, rw, rh): (usize, usize, usize, usize) = rs[i];
            assert(self.region(x + rs@[i as int].0, y + rs@[i as int].1, rw as int, rh as int));
            let f: PartFound = self.best_part(st, nb, num_refs, x + rx, y + ry, rw, rh, extra);
            parts.push((f.refi, f.mv));
            cost = cost + f.cost;
            i = i + 1;
        }
        (parts, cost)
    }

    /// Partitions `i` and on refined one after the other.
    pub open spec fn refined_from(
        &self,
        st: MeState,
        nb: Seq<MvNeighbor>,
        num_refs: int,
        x: int,
        y: int,
        rs: Seq<(usize, usize, usize, usize)>,
        i: int,
        parts: Seq<(i32, (i32, i32))>,
        cost: int,
    ) -> (Seq<(i32, (i32, i32))>, int, MeState)
        decreases rs.len() - i,
    {
        if i >= rs.len() {
            (parts, cost, st)
        } else {
            let (f, st1) = self.refined_of(
                st,
                nb,
                num_refs,
                x + rs[i].0,
                y + rs[i].1,
                rs[i].2 as int,
                rs[i].3 as int,
                parts[i].0 as int,
                parts[i].1,
            );
            self.refined_from(
                st1,
                nb,
                num_refs,
                x,
                y,
                rs,
                i + 1,
                parts.update(i, (parts[i].0, f.mv)),
                cost + f.cost as int,
            )
        }
    }

    /// Refine the partitions of the shape that was chosen.
    pub fn refine_parts(
        &self,
        st: &mut MeState,
        nb: &[MvNeighbor; 3],
        num_refs: usize,
        x: usize,
        y: usize,
        rs: &Vec<(usize, usize, usize, usize)>,
        parts: &mut Vec<(i32, (i32, i32))>,
        base: i64,
    ) -> (c: i64)
        requires
            self.wf(),
            old(st).wf(),
            1 <= num_refs <= self.refs@.len(),
            rs@.len() <= 16,
            all_regions(*self, x as int, y as int, rs@),
            old(parts)@.len() == rs@.len(),
            forall|i: int| 0 <= i < old(parts)@.len() ==> 0 <= (#[trigger] old(parts)@[i]).0 < num_refs,
            0 <= base <= PART_MAX,
        ensures
            (final(parts)@, c as int, *final(st)) == self.refined_from(
                *old(st),
                nb@,
                num_refs as int,
                x as int,
                y as int,
                rs@,
                0,
                old(parts)@,
                base as int,
            ),
            final(st).wf(),
            final(parts)@.len() == rs@.len(),
            forall|i: int|
                0 <= i < final(parts)@.len() ==> 0 <= (#[trigger] final(parts)@[i]).0 < num_refs,
            0 <= c <= SHAPE_MAX,
    {
        let mut cost: i64 = base;
        let mut i: usize = 0;
        let ghost st0 = *st;
        let ghost p0 = parts@;
        while i < rs.len()
            invariant
                i <= rs@.len() <= 16,
                self.wf(),
                st.wf(),
                1 <= num_refs <= self.refs@.len(),
                all_regions(*self, x as int, y as int, rs@),
                self.refined_from(
                    *st,
                    nb@,
                    num_refs as int,
                    x as int,
                    y as int,
                    rs@,
                    i as int,
                    parts@,
                    cost as int,
                ) == self.refined_from(
                    st0,
                    nb@,
                    num_refs as int,
                    x as int,
                    y as int,
                    rs@,
                    0,
                    p0,
                    base as int,
                ),
                parts@.len() == rs@.len(),
                forall|j: int| 0 <= j < parts@.len() ==> 0 <= (#[trigger] parts@[j]).0 < num_refs,
                0 <= cost <= PART_MAX + PART_MAX * i,
            decreases rs@.len() - i,
        {
            let (rx, ry, rw, rh): (usize, usize, usize, usize) = rs[i];
            assert(self.region(x + rs@[i as int].0, y + rs@[i as int].1, rw as int, rh as int));
            let (r, mv): (i32, (i32, i32)) = parts[i];
            assert(0 <= parts@[i as int].0 < num_refs);
            let f: PartFound = self.refine_part(st, nb, num_refs, x + rx, y + ry, rw, rh, r, mv);
            parts.set(i, (r, f.mv));
            cost = cost + f.cost;
            i = i + 1;
        }
        cost
    }

    /// The plain price of a number of bits.
    pub open spec fn plain(&self, n: int) -> int {
        kernels::price_of(
            *self.k,
            Price { phase: Phase::Plain, bits: n as u32, loud: self.fe.mb_loud },
        ) as int
    }

    /// The plain price of a number of bits.
    pub fn plain_price(&self, n: u32) -> (r: i64)
        requires
            self.wf(),
            n <= kernels::BITS_MAX,
        ensures
            r == self.plain(n as int),
            0 <= r <= kernels::PRICE_MAX,
    {
        price(self.k, Price { phase: Phase::Plain, bits: n, loud: self.fe.mb_loud })
    }
}

/// A way to divide a macroblock: its mode, the reference and vector of each part, the types of
/// its quarters, and what it costs.
pub struct Shape {
    pub mode: u8,
    pub parts: Vec<(i32, (i32, i32))>,
    pub subs: [u8; 4],
    pub cost: i64,
}

/// A shape with its parts as a sequence.
#[verifier::ext_equal]
pub struct ShapeView {
    pub mode: u8,
    pub parts: Seq<(i32, (i32, i32))>,
    pub subs: Seq<u8>,
    pub cost: int,
}

impl View for Shape {
    type V = ShapeView;

    open spec fn view(&self) -> ShapeView {
        ShapeView {
            mode: self.mode,
            parts: self.parts@,
            subs: self.subs@,
            cost: self.cost as int,
        }
    }
}

impl Shape {
    /// The rectangles of the parts.
    pub open spec fn rects(self) -> Seq<(usize, usize, usize, usize)> {
        shape_rects(self.mode, self.subs@)
    }

    /// Each part has a reference, and there are as many as the mode has.
    pub open spec fn wf(self, num_refs: int) -> bool {
        &&& self.mode <= 3
        &&& self.mode != 3 ==> self.subs@ == trial::whole_quarters()
        &&& forall|i: int| 0 <= i < 4 ==> #[trigger] self.subs@[i] <= 3
        &&& self.parts@.len() == self.rects().len()
        &&& forall|i: int|
            0 <= i < self.parts@.len() ==> 0 <= (#[trigger] self.parts@[i]).0 < num_refs
        &&& 0 <= self.cost <= SHAPE_MAX
    }

    /// A copy.
    pub fn copy(&self) -> (r: Shape)
        ensures
            r@ == self@,
    {
        let mut parts: Vec<(i32, (i32, i32))> = Vec::new();
        let mut i: usize = 0;
        while i < self.parts.len()
            invariant
                i <= self.parts@.len(),
                parts@ == self.parts@.take(i as int),
            decreases self.parts@.len() - i,
        {
            parts.push(self.parts[i]);
            i = i + 1;
            assert(self.parts@.take(i as int) =~= self.parts@.take(i - 1).push(self.parts@[i - 1]));
        }
        assert(self.parts@.take(i as int) =~= self.parts@);
        Shape { mode: self.mode, parts, subs: self.subs, cost: self.cost }
    }
}

/// Rectangles moved by `(x, y)`.
pub open spec fn shifted(rs: Seq<(usize, usize, usize, usize)>, x: int, y: int) -> Seq<
    (usize, usize, usize, usize),
> {
    rs.map_values(
        |r: (usize, usize, usize, usize)|
            ((x + r.0) as usize, (y + r.1) as usize, r.2, r.3),
    )
}

/// The rectangles of the parts of the first `n` quarters.
pub open spec fn quarter_rects(subs: Seq<u8>, n: int) -> Seq<(usize, usize, usize, usize)>
    decreases n,
{
    if n <= 0 {
        Seq::empty()
    } else {
        let q = n - 1;
        quarter_rects(subs, q) + shifted(
            mbinter::sub_rects(subs[q] as int),
            8 * (q % 2),
            8 * (q / 2),
        )
    }
}

/// The rectangles of the parts of a shape.
pub open spec fn shape_rects(mode: u8, subs: Seq<u8>) -> Seq<(usize, usize, usize, usize)> {
    if mode == 3 && subs != trial::whole_quarters() {
        quarter_rects(subs, 4)
    } else {
        motion::rects(mode as int)
    }
}

} // verus!
