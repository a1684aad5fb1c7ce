//! The partitions of an inter macroblock: their vector differences, the motion that they
//! leave in the frame, and the prediction that they form.
use vstd::prelude::*;
use crate::arith;
use crate::distortion;
use crate::distortion::blend_blocks;
use crate::frame::FrameEncoder;
use crate::grid;
use crate::kernels;
use crate::kernels::{mc, Kernels, McJob};
use crate::mbinter;
use crate::mbinter::{b_part_layout, sub_mb_partitions_p};
use crate::motion;
use crate::motion::{inter_partitions, predict_partition_mv, MotionView, MvNeighbor};
use crate::rect;
use crate::rect::{fill_rect, put_rect};

verus! {

/// One partition: its rectangle in the macroblock, the rule by which its vector is
/// predicted, the lists that it uses, and its reference and vectors.
#[derive(Clone, Copy)]
pub struct MotionPart {
    pub rx: usize,
    pub ry: usize,
    pub rw: usize,
    pub rh: usize,
    /// The macroblock's shape (1 is 16x8, 2 is 8x16) and the number of the half in it.
    pub rule: u8,
    pub part: usize,
    pub use0: bool,
    pub use1: bool,
    pub refi: i32,
    pub mv0: (i32, i32),
    pub mv1: (i32, i32),
}

impl MotionPart {
    /// The partition is made of whole blocks of the macroblock.
    pub open spec fn wf(self) -> bool {
        &&& self.rx % 4 == 0
        &&& self.ry % 4 == 0
        &&& self.rw == 4 || self.rw == 8 || self.rw == 16
        &&& self.rh == 4 || self.rh == 8 || self.rh == 16
        &&& self.rx + self.rw <= 16
        &&& self.ry + self.rh <= 16
    }

    pub open spec fn uses(self, second: bool) -> bool {
        if second {
            self.use1
        } else {
            self.use0
        }
    }
}

impl MotionView {
    /// Every grid has the frame's size.
    pub open spec fn wf(self) -> bool {
        let n = self.w * self.h;
        &&& self.w >= 4
        &&& self.h >= 4
        &&& self.mv0.len() == n
        &&& self.ref0.len() == n
        &&& self.mv1.len() == n
        &&& self.ref1.len() == n
        &&& self.inter.len() == n
        &&& self.coded.len() == n
    }
}

/// The motion with that of partition `p` of macroblock `(mb_x, mb_y)` in it. With `both`,
/// the second list is written too.
pub open spec fn committed(m: MotionView, both: bool, mb_x: int, mb_y: int, p: MotionPart) -> MotionView {
    let (x, y) = (4 * mb_x + p.rx as int / 4, 4 * mb_y + p.ry as int / 4);
    let (w, h) = (p.rw as int / 4, p.rh as int / 4);
    MotionView {
        mv0: rect::fill(
            m.mv0,
            m.w,
            x,
            y,
            w,
            h,
            if p.use0 {
                p.mv0
            } else {
                (0i32, 0i32)
            },
        ),
        ref0: rect::fill(
            m.ref0,
            m.w,
            x,
            y,
            w,
            h,
            if p.use0 {
                p.refi
            } else {
                -1i32
            },
        ),
        mv1: if both {
            rect::fill(
                m.mv1,
                m.w,
                x,
                y,
                w,
                h,
                if p.use1 {
                    p.mv1
                } else {
                    (0i32, 0i32)
                },
            )
        } else {
            m.mv1
        },
        ref1: if both {
            rect::fill(
                m.ref1,
                m.w,
                x,
                y,
                w,
                h,
                if p.use1 {
                    0i32
                } else {
                    -1i32
                },
            )
        } else {
            m.ref1
        },
        inter: rect::fill(m.inter, m.w, x, y, w, h, true),
        coded: rect::fill(m.coded, m.w, x, y, w, h, true),
        ..m
    }
}

/// The predicted vector of a partition in one list.
pub open spec fn forecast(m: MotionView, second: bool, mb_x: int, mb_y: int, p: MotionPart) -> (i32, i32) {
    let n = motion::part_neighbours(
        m,
        second,
        4 * mb_x + p.rx as int / 4,
        4 * mb_y + p.ry as int / 4,
        p.rw as int / 4,
    );
    motion::part_predicted(
        p.rule as int,
        p.part as int,
        n.0,
        n.1,
        n.2,
        if second {
            0
        } else {
            p.refi as int
        },
    )
}

/// The difference that is coded for a partition in one list; zero if it does not use it.
pub open spec fn difference(m: MotionView, second: bool, mb_x: int, mb_y: int, p: MotionPart) -> (
    int,
    int,
) {
    let f = forecast(m, second, mb_x, mb_y, p);
    let v = if second {
        p.mv1
    } else {
        p.mv0
    };
    if p.uses(second) {
        (arith::wrap(v.0 - f.0), arith::wrap(v.1 - f.1))
    } else {
        (0, 0)
    }
}

/// The motion after the partitions from number `i` on, each of which sees the ones before.
pub open spec fn moved(
    m: MotionView,
    both: bool,
    mb_x: int,
    mb_y: int,
    parts: Seq<MotionPart>,
    i: int,
) -> MotionView
    decreases parts.len() - i,
{
    if i >= parts.len() {
        m
    } else {
        moved(committed(m, both, mb_x, mb_y, parts[i]), both, mb_x, mb_y, parts, i + 1)
    }
}

/// The differences of one list, in the order of the partitions from number `i` on.
pub open spec fn differences(
    m: MotionView,
    both: bool,
    second: bool,
    mb_x: int,
    mb_y: int,
    parts: Seq<MotionPart>,
    i: int,
) -> Seq<(int, int)>
    decreases parts.len() - i,
{
    if i >= parts.len() {
        Seq::empty()
    } else {
        let rest = differences(
            committed(m, both, mb_x, mb_y, parts[i]),
            both,
            second,
            mb_x,
            mb_y,
            parts,
            i + 1,
        );
        if parts[i].uses(second) {
            seq![difference(m, second, mb_x, mb_y, parts[i])] + rest
        } else {
            rest
        }
    }
}

/// All differences in coding order: those of list 0, then those of list 1.
pub open spec fn coded_differences(
    m: MotionView,
    both: bool,
    mb_x: int,
    mb_y: int,
    parts: Seq<MotionPart>,
) -> Seq<(int, int)> {
    differences(m, both, false, mb_x, mb_y, parts, 0) + differences(
        m,
        both,
        true,
        mb_x,
        mb_y,
        parts,
        0,
    )
}

proof fn lemma_committed(m: MotionView, both: bool, mb_x: int, mb_y: int, p: MotionPart)
    requires
        m.wf(),
        p.wf(),
    ensures
        committed(m, both, mb_x, mb_y, p).wf(),
{
}

/// The vectors of a list of differences that has been written to the front of an array.
pub open spec fn written(a: Seq<(i32, i32)>, n: int, ds: Seq<(int, int)>) -> bool {
    &&& n == ds.len()
    &&& n <= a.len()
    &&& forall|i: int|
        0 <= i < n ==> (#[trigger] a[i]).0 == ds[i].0 && a[i].1 == ds[i].1
    &&& forall|i: int| n <= i < a.len() ==> #[trigger] a[i] == (0i32, 0i32)
}

impl FrameEncoder {
    /// The difference of a partition in one list.
    fn part_difference(&self, second: bool, mb_x: usize, mb_y: usize, p: MotionPart) -> (d: (i32, i32))
        requires
            self.wf(),
            self.has_mb(mb_x as int, mb_y as int),
            p.wf(),
        ensures
            (d.0 as int, d.1 as int) == difference(
                self.motion(),
                second,
                mb_x as int,
                mb_y as int,
                p,
            ),
    {
        let used: bool = if second {
            p.use1
        } else {
            p.use0
        };
        if !used {
            return (0, 0);
        }
        let n: [MvNeighbor; 3] = self.mv_neighbors_block_list(
            4 * mb_x + p.rx / 4,
            4 * mb_y + p.ry / 4,
            p.rw / 4,
            if second {
                1
            } else {
                0
            },
        );
        let r: i32 = if second {
            0
        } else {
            p.refi
        };
        let f: (i32, i32) = predict_partition_mv(p.rule, p.part, n[0], n[1], n[2], r);
        let v: (i32, i32) = if second {
            p.mv1
        } else {
            p.mv0
        };
        (
            arith::wrapped(v.0 as i64 - f.0 as i64),
            arith::wrapped(v.1 as i64 - f.1 as i64),
        )
    }

    /// Leave the motion of a partition in the frame.
    #[verifier::rlimit(50)]
    fn commit_part(&mut self, both: bool, mb_x: usize, mb_y: usize, p: MotionPart)
        requires
            old(self).wf(),
            old(self).has_mb(mb_x as int, mb_y as int),
            p.wf(),
        ensures
            final(self).motion() == committed(
                old(self).motion(),
                both,
                mb_x as int,
                mb_y as int,
                p,
            ),
            *final(self) == (FrameEncoder {
                mv_y: final(self).mv_y,
                ref_idx_y: final(self).ref_idx_y,
                mv1_y: final(self).mv1_y,
                ref_idx1_y: final(self).ref_idx1_y,
                inter_y: final(self).inter_y,
                coded_y: final(self).coded_y,
                ..*old(self)
            }),
            final(self).wf(),
    {
        let (w, h): (usize, usize) = (4 * self.mb_w, 4 * self.mb_h);
        let (x, y): (usize, usize) = (4 * mb_x + p.rx / 4, 4 * mb_y + p.ry / 4);
        let (pw, ph): (usize, usize) = (p.rw / 4, p.rh / 4);
        fill_rect(
            &mut self.mv_y,
            w,
            h,
            x,
            y,
            pw,
            ph,
            if p.use0 {
                p.mv0
            } else {
                (0, 0)
            },
        );
        fill_rect(
            &mut self.ref_idx_y,
            w,
            h,
            x,
            y,
            pw,
            ph,
            if p.use0 {
                p.refi
            } else {
                -1
            },
        );
        if both {
            fill_rect(
                &mut self.mv1_y,
                w,
                h,
                x,
                y,
                pw,
                ph,
                if p.use1 {
                    p.mv1
                } else {
                    (0, 0)
                },
            );
            fill_rect(
                &mut self.ref_idx1_y,
                w,
                h,
                x,
                y,
                pw,
                ph,
                if p.use1 {
                    0
                } else {
                    -1
                },
            );
        }
        fill_rect(&mut self.inter_y, w, h, x, y, pw, ph, true);
        fill_rect(&mut self.coded_y, w, h, x, y, pw, ph, true);
    }

    /// Predict, difference and commit the partitions in turn; the differences come back in
    /// coding order.
    #[verifier::rlimit(50)]
    pub fn plan_motion(
        &mut self,
        both: bool,
        mb_x: usize,
        mb_y: usize,
        parts: &Vec<MotionPart>,
    ) -> (r: ([(i32, i32); 16], usize))
        requires
            old(self).wf(),
            old(self).has_mb(mb_x as int, mb_y as int),
            parts_ok(parts@, both),
        ensures
            final(self).motion() == moved(
                old(self).motion(),
                both,
                mb_x as int,
                mb_y as int,
                parts@,
                0,
            ),
            written(
                r.0@,
                r.1 as int,
                coded_differences(old(self).motion(), both, mb_x as int, mb_y as int, parts@),
            ),
            *final(self) == (FrameEncoder {
                mv_y: final(self).mv_y,
                ref_idx_y: final(self).ref_idx_y,
                mv1_y: final(self).mv1_y,
                ref_idx1_y: final(self).ref_idx1_y,
                inter_y: final(self).inter_y,
                coded_y: final(self).coded_y,
                ..*old(self)
            }),
            final(self).wf(),
    {
        let ghost m0 = self.motion();
        let ghost (bx, by) = (mb_x as int, mb_y as int);
        let mut first: Vec<(i32, i32)> = Vec::new();
        let mut second: Vec<(i32, i32)> = Vec::new();
        let mut i: usize = 0;
        assert(ints(first@) =~= Seq::<(int, int)>::empty());
        assert(ints(first@) + differences(m0, both, false, bx, by, parts@, 0) =~= differences(
            m0,
            both,
            false,
            bx,
            by,
            parts@,
            0,
        ));
        assert(ints(second@) + differences(m0, both, true, bx, by, parts@, 0) =~= differences(
            m0,
            both,
            true,
            bx,
            by,
            parts@,
            0,
        ));
        while i < parts.len()
            invariant
                i <= parts@.len(),
                bx == mb_x && by == mb_y,
                self.wf(),
                self.has_mb(bx, by),
                parts_ok(parts@, both),
                moved(self.motion(), both, bx, by, parts@, i as int) == moved(
                    m0,
                    both,
                    bx,
                    by,
                    parts@,
                    0,
                ),
                ints(first@) + differences(self.motion(), both, false, bx, by, parts@, i as int)
                    == differences(m0, both, false, bx, by, parts@, 0),
                ints(second@) + differences(self.motion(), both, true, bx, by, parts@, i as int)
                    == differences(m0, both, true, bx, by, parts@, 0),
                first@.len() <= i,
                second@.len() <= i,
                !both ==> second@.len() == 0,
                *self == (FrameEncoder {
                    mv_y: self.mv_y,
                    ref_idx_y: self.ref_idx_y,
                    mv1_y: self.mv1_y,
                    ref_idx1_y: self.ref_idx1_y,
                    inter_y: self.inter_y,
                    coded_y: self.coded_y,
                    ..*old(self)
                }),
            decreases parts.len() - i,
        {
            let p: MotionPart = parts[i];
            let ghost m = self.motion();
            let ghost (f, s) = (first@, second@);
            let ghost next = committed(m, both, bx, by, p);
            let ghost rest0 = differences(next, both, false, bx, by, parts@, i + 1);
            let ghost rest1 = differences(next, both, true, bx, by, parts@, i + 1);
            proof {
                lemma_committed(m, both, bx, by, p);
            }
            if p.use0 {
                let d: (i32, i32) = self.part_difference(false, mb_x, mb_y, p);
                first.push(d);
                proof {
                    let e = seq![difference(m, false, bx, by, p)];
                    assert(ints(first@) =~= ints(f) + e);
                    assert(ints(f) + (e + rest0) =~= (ints(f) + e) + rest0);
                }
            }
            if p.use1 {
                let d: (i32, i32) = self.part_difference(true, mb_x, mb_y, p);
                second.push(d);
                proof {
                    let e = seq![difference(m, true, bx, by, p)];
                    assert(ints(second@) =~= ints(s) + e);
                    assert(ints(s) + (e + rest1) =~= (ints(s) + e) + rest1);
                }
            }
            self.commit_part(both, mb_x, mb_y, p);
            i = i + 1;
        }
        proof {
            assert(ints(first@) + Seq::<(int, int)>::empty() =~= ints(first@));
            assert(ints(second@) + Seq::<(int, int)>::empty() =~= ints(second@));
        }
        let ghost all = coded_differences(m0, both, bx, by, parts@);
        let mut out: [(i32, i32); 16] = [(0, 0); 16];
        let n0: usize = first.len();
        let n: usize = n0 + second.len();
        let mut j: usize = 0;
        while j < n
            invariant
                j <= n <= 16,
                n0 == first@.len(),
                n == n0 + second@.len(),
                forall|k: int|
                    0 <= k < j ==> #[trigger] out@[k] == (if k < n0 {
                        first@[k]
                    } else {
                        second@[k - n0]
                    }),
                forall|k: int| j <= k < 16 ==> #[trigger] out@[k] == (0i32, 0i32),
            decreases n - j,
        {
            out[j] = if j < n0 {
                first[j]
            } else {
                second[j - n0]
            };
            j = j + 1;
        }
        assert(all =~= ints(first@) + ints(second@));
        (out, n)
    }
}

/// Pairs as mathematical integers.
pub open spec fn ints(s: Seq<(i32, i32)>) -> Seq<(int, int)> {
    Seq::new(s.len(), |i: int| (s[i].0 as int, s[i].1 as int))
}

/// There are no more partitions than a macroblock has, and each of them is in order.
pub open spec fn parts_ok(parts: Seq<MotionPart>, both: bool) -> bool {
    &&& parts.len() <= 16
    &&& both ==> parts.len() <= 8
    &&& forall|i: int|
        0 <= i < parts.len() ==> (#[trigger] parts[i]).wf() && (!both ==> !parts[i].use1)
}

/// A P macroblock of shape `mode` with these references and vectors.
pub open spec fn p_parts(mode: u8, parts: Seq<(i32, (i32, i32))>) -> Seq<MotionPart> {
    let rs = motion::rects(mode as int);
    Seq::new(
        rs.len(),
        |i: int|
            MotionPart {
                rx: rs[i].0,
                ry: rs[i].1,
                rw: rs[i].2,
                rh: rs[i].3,
                rule: mode,
                part: i as usize,
                use0: true,
                use1: false,
                refi: parts[i].0,
                mv0: parts[i].1,
                mv1: (0i32, 0i32),
            },
    )
}

/// The sub-partitions of the quarter `q`, whose references and vectors stand in `parts` from
/// `at` on.
pub open spec fn quarter_parts(
    q: int,
    sub_type: u8,
    parts: Seq<(i32, (i32, i32))>,
    at: int,
) -> Seq<MotionPart> {
    let rs = mbinter::sub_rects(sub_type as int);
    Seq::new(
        rs.len(),
        |i: int|
            MotionPart {
                rx: (8 * (q % 2) + rs[i].0) as usize,
                ry: (8 * (q / 2) + rs[i].1) as usize,
                rw: rs[i].2,
                rh: rs[i].3,
                rule: 0,
                part: 0,
                use0: true,
                use1: false,
                refi: parts[at + i].0,
                mv0: parts[at + i].1,
                mv1: (0i32, 0i32),
            },
    )
}

/// How many sub-partitions the first `q` quarters have.
pub open spec fn quarter_start(sub_types: Seq<u8>, q: int) -> int
    decreases q,
{
    if q <= 0 {
        0
    } else {
        quarter_start(sub_types, q - 1) + mbinter::sub_rects(sub_types[q - 1] as int).len()
    }
}

/// The sub-partitions of the first `q` quarters.
pub open spec fn sub_parts(
    sub_types: Seq<u8>,
    parts: Seq<(i32, (i32, i32))>,
    q: int,
) -> Seq<MotionPart>
    decreases q,
{
    if q <= 0 {
        Seq::empty()
    } else {
        sub_parts(sub_types, parts, q - 1) + quarter_parts(
            q - 1,
            sub_types[q - 1],
            parts,
            quarter_start(sub_types, q - 1),
        )
    }
}

/// What has been decided about a B macroblock: with `mvmode` 1 (16x8) or 2 (8x16) it has the
/// two halves `parts2`, each with its lists (1 is list 0, 2 is list 1, 3 is both) and
/// vectors; else it is whole, by `dir`, where 0 is direct.
#[derive(Clone, Copy)]
pub struct BInter {
    pub dir: u8,
    pub mv0: (i32, i32),
    pub mv1: (i32, i32),
    pub mvmode: u8,
    pub parts2: [(u8, (i32, i32), (i32, i32)); 2],
}

/// The partitions of a B macroblock that is not direct.
pub open spec fn b_parts(b: BInter) -> Seq<MotionPart> {
    if b.mvmode > 0 {
        let rs = mbinter::b_rects(b.mvmode as int);
        Seq::new(
            2,
            |i: int|
                MotionPart {
                    rx: rs[i].0,
                    ry: rs[i].1,
                    rw: rs[i].2,
                    rh: rs[i].3,
                    rule: b.mvmode,
                    part: i as usize,
                    use0: mbinter::uses(b.parts2@[i].0, false),
                    use1: mbinter::uses(b.parts2@[i].0, true),
                    refi: 0,
                    mv0: b.parts2@[i].1,
                    mv1: b.parts2@[i].2,
                },
        )
    } else {
        seq![
            MotionPart {
                rx: 0,
                ry: 0,
                rw: 16,
                rh: 16,
                rule: 0,
                part: 0,
                use0: mbinter::uses(b.dir, false),
                use1: mbinter::uses(b.dir, true),
                refi: 0,
                mv0: b.mv0,
                mv1: b.mv1,
            },
        ]
    }
}

/// The blocks of a direct macroblock; a list is used where its reference is not negative.
pub open spec fn direct_parts(motion: Seq<(i32, (i32, i32), i32, (i32, i32))>) -> Seq<MotionPart> {
    Seq::new(
        16,
        |i: int|
            MotionPart {
                rx: (4 * (i % 4)) as usize,
                ry: (4 * (i / 4)) as usize,
                rw: 4,
                rh: 4,
                rule: 0,
                part: 0,
                use0: motion[i].0 >= 0,
                use1: motion[i].2 >= 0,
                refi: 0,
                mv0: motion[i].1,
                mv1: motion[i].3,
            },
    )
}

/// The partitions of a P macroblock.
pub fn list_p_parts(mode: u8, parts: &[(i32, (i32, i32))]) -> (r: Vec<MotionPart>)
    requires
        parts@.len() >= motion::rects(mode as int).len(),
    ensures
        r@ == p_parts(mode, parts@),
        parts_ok(r@, false),
{
    let rs: Vec<(usize, usize, usize, usize)> = inter_partitions(mode);
    let mut r: Vec<MotionPart> = Vec::new();
    let mut i: usize = 0;
    while i < rs.len()
        invariant
            i <= rs@.len(),
            rs@ == motion::rects(mode as int),
            parts@.len() >= rs@.len(),
            r@.len() == i,
            forall|j: int| 0 <= j < i ==> #[trigger] r@[j] == p_parts(mode, parts@)[j],
            forall|j: int| 0 <= j < i ==> (#[trigger] r@[j]).wf() && !r@[j].use1,
        decreases rs.len() - i,
    {
        let (rx, ry, rw, rh): (usize, usize, usize, usize) = rs[i];
        let (refi, mv): (i32, (i32, i32)) = parts[i];
        r.push(
            MotionPart {
                rx,
                ry,
                rw,
                rh,
                rule: mode,
                part: i,
                use0: true,
                use1: false,
                refi,
                mv0: mv,
                mv1: (0, 0),
            },
        );
        i = i + 1;
    }
    assert(r@ =~= p_parts(mode, parts@));
    r
}

/// The sub-partitions of a P macroblock of four quarters, and the reference of each quarter.
#[verifier::rlimit(50)]
pub fn list_sub_parts(sub_types: &[u8; 4], parts: &[(i32, (i32, i32))]) -> (r: (
    Vec<MotionPart>,
    [i32; 4],
))
    requires
        parts@.len() >= quarter_start(sub_types@, 4),
    ensures
        r.0@ == sub_parts(sub_types@, parts@, 4),
        parts_ok(r.0@, false),
        forall|q: int|
            0 <= q < 4 ==> #[trigger] r.1@[q] == parts@[quarter_start(sub_types@, q)].0,
{
    let mut r: Vec<MotionPart> = Vec::new();
    let mut refs: [i32; 4] = [0; 4];
    let mut k: usize = 0;
    let mut q: usize = 0;
    proof {
        reveal_with_fuel(quarter_start, 5);
        reveal_with_fuel(sub_parts, 5);
    }
    while q < 4
        invariant
            q <= 4,
            k == quarter_start(sub_types@, q as int),
            k <= 4 * q,
            parts@.len() >= quarter_start(sub_types@, 4),
            r@ == sub_parts(sub_types@, parts@, q as int),
            r@.len() == k,
            forall|j: int| 0 <= j < r@.len() ==> (#[trigger] r@[j]).wf() && !r@[j].use1,
            forall|j: int|
                0 <= j < q ==> #[trigger] refs@[j] == parts@[quarter_start(sub_types@, j)].0,
        decreases 4 - q,
    {
        let rs: Vec<(usize, usize, usize, usize)> = sub_mb_partitions_p(sub_types[q]);
        let ghost start = k as int;
        let ghost before = r@;
        let ghost mine = quarter_parts(q as int, sub_types@[q as int], parts@, start);
        proof {
            lemma_quarter_start(sub_types@, q + 1, 4);
        }
        refs[q] = parts[k].0;
        let mut i: usize = 0;
        while i < rs.len()
            invariant
                q < 4,
                i <= rs@.len(),
                rs@ == mbinter::sub_rects(sub_types@[q as int] as int),
                1 <= rs@.len() <= 4,
                k == start + i,
                start <= 4 * q,
                start + rs@.len() <= parts@.len(),
                mine == quarter_parts(q as int, sub_types@[q as int], parts@, start),
                r@ == before + mine.take(i as int),
                forall|j: int| 0 <= j < r@.len() ==> (#[trigger] r@[j]).wf() && !r@[j].use1,
            decreases rs.len() - i,
        {
            let (sx, sy, sw, sh): (usize, usize, usize, usize) = rs[i];
            let (refi, mv): (i32, (i32, i32)) = parts[k];
            r.push(
                MotionPart {
                    rx: 8 * (q % 2) + sx,
                    ry: 8 * (q / 2) + sy,
                    rw: sw,
                    rh: sh,
                    rule: 0,
                    part: 0,
                    use0: true,
                    use1: false,
                    refi,
                    mv0: mv,
                    mv1: (0, 0),
                },
            );
            assert(mine.take(i + 1) =~= mine.take(i as int).push(mine[i as int]));
            k = k + 1;
            i = i + 1;
        }
        assert(mine.take(i as int) =~= mine);
        q = q + 1;
    }
    (r, refs)
}

pub proof fn lemma_quarter_start(sub_types: Seq<u8>, a: int, b: int)
    requires
        0 <= a <= b,
    ensures
        quarter_start(sub_types, a) <= quarter_start(sub_types, b),
    decreases b,
{
    if a < b {
        lemma_quarter_start(sub_types, a, b - 1);
    }
}

/// The partitions of a B macroblock that is not direct.
pub fn list_b_parts(b: &BInter) -> (r: Vec<MotionPart>)
    ensures
        r@ == b_parts(*b),
        parts_ok(r@, true),
{
    let mut r: Vec<MotionPart> = Vec::new();
    if b.mvmode > 0 {
        let (rs, _) = b_part_layout(b.mvmode);
        let mut i: usize = 0;
        while i < 2
            invariant
                i <= 2,
                b.mvmode > 0,
                rs@ == mbinter::b_rects(b.mvmode as int),
                r@.len() == i,
                forall|j: int| 0 <= j < i ==> #[trigger] r@[j] == b_parts(*b)[j],
                forall|j: int| 0 <= j < i ==> (#[trigger] r@[j]).wf(),
            decreases 2 - i,
        {
            let (rx, ry, rw, rh): (usize, usize, usize, usize) = rs[i];
            let (pred, mv0, mv1): (u8, (i32, i32), (i32, i32)) = b.parts2[i];
            r.push(
                MotionPart {
                    rx,
                    ry,
                    rw,
                    rh,
                    rule: b.mvmode,
                    part: i,
                    use0: pred == 1 || pred == 3,
                    use1: pred == 2 || pred == 3,
                    refi: 0,
                    mv0,
                    mv1,
                },
            );
            i = i + 1;
        }
    } else {
        r.push(
            MotionPart {
                rx: 0,
                ry: 0,
                rw: 16,
                rh: 16,
                rule: 0,
                part: 0,
                use0: b.dir == 1 || b.dir == 3,
                use1: b.dir == 2 || b.dir == 3,
                refi: 0,
                mv0: b.mv0,
                mv1: b.mv1,
            },
        );
    }
    assert(r@ =~= b_parts(*b));
    r
}

/// The blocks of a direct macroblock.
pub fn list_direct_parts(motion: &[(i32, (i32, i32), i32, (i32, i32)); 16]) -> (r: Vec<MotionPart>)
    ensures
        r@ == direct_parts(motion@),
{
    let mut r: Vec<MotionPart> = Vec::new();
    let mut i: usize = 0;
    while i < 16
        invariant
            i <= 16,
            r@.len() == i,
            forall|j: int| 0 <= j < i ==> #[trigger] r@[j] == direct_parts(motion@)[j],
        decreases 16 - i,
    {
        let (r0, m0, r1, m1): (i32, (i32, i32), i32, (i32, i32)) = motion[i];
        r.push(
            MotionPart {
                rx: 4 * (i % 4),
                ry: 4 * (i / 4),
                rw: 4,
                rh: 4,
                rule: 0,
                part: 0,
                use0: r0 >= 0,
                use1: r1 >= 0,
                refi: 0,
                mv0: m0,
                mv1: m1,
            },
        );
        i = i + 1;
    }
    assert(r@ =~= direct_parts(motion@));
    r
}

/// A luma measure in the samples of a plane: chroma has half as many.
pub open spec fn scaled(plane: u8, v: int) -> int {
    if plane == 0 {
        v
    } else {
        v / 2
    }
}

fn in_plane(plane: u8, v: usize) -> (r: usize)
    ensures
        r == scaled(plane, v as int),
{
    if plane == 0 {
        v
    } else {
        v / 2
    }
}

/// The job of predicting a partition's part of a plane from one list.
pub open spec fn part_job(plane: u8, second: bool, mb_x: int, mb_y: int, p: MotionPart) -> McJob {
    McJob {
        list: if second {
            1
        } else {
            0
        },
        refi: if second {
            0
        } else {
            p.refi
        },
        plane,
        x: scaled(plane, 16 * mb_x + p.rx) as usize,
        y: scaled(plane, 16 * mb_y + p.ry) as usize,
        w: scaled(plane, p.rw as int) as usize,
        h: scaled(plane, p.rh as int) as usize,
        mv: if second {
            p.mv1
        } else {
            p.mv0
        },
    }
}

/// A partition's prediction of a plane: of the list that it uses, or the blend of both.
pub open spec fn part_samples<K: Kernels>(
    k: K,
    bi_w: (i32, i32),
    plane: u8,
    mb_x: int,
    mb_y: int,
    p: MotionPart,
) -> Seq<u8> {
    let a = kernels::mc_of(k, part_job(plane, false, mb_x, mb_y, p));
    let b = kernels::mc_of(k, part_job(plane, true, mb_x, mb_y, p));
    if p.use0 && p.use1 {
        distortion::blended(a, b, bi_w)
    } else if p.use0 {
        a
    } else {
        b
    }
}

/// The prediction `acc` of a plane with that of the partitions from number `i` on in it.
pub open spec fn formed<K: Kernels>(
    k: K,
    bi_w: (i32, i32),
    plane: u8,
    mb_x: int,
    mb_y: int,
    parts: Seq<MotionPart>,
    i: int,
    acc: Seq<u8>,
) -> Seq<u8>
    decreases parts.len() - i,
{
    if i >= parts.len() {
        acc
    } else {
        let p = parts[i];
        let next = rect::put_block(
            acc,
            scaled(plane, 16),
            scaled(plane, p.rx as int),
            scaled(plane, p.ry as int),
            scaled(plane, p.rw as int),
            scaled(plane, p.rh as int),
            part_samples(k, bi_w, plane, mb_x, mb_y, p),
        );
        formed(k, bi_w, plane, mb_x, mb_y, parts, i + 1, next)
    }
}

/// A plane of zeros.
pub open spec fn blank(n: nat) -> Seq<u8> {
    Seq::new(n, |i: int| 0u8)
}

/// The partitions lie in the macroblock.
pub open spec fn rects_ok(parts: Seq<MotionPart>) -> bool {
    forall|i: int|
        0 <= i < parts.len() ==> {
            let p = #[trigger] parts[i];
            &&& p.rx % 4 == 0 && p.ry % 4 == 0
            &&& p.rw == 4 || p.rw == 8 || p.rw == 16
            &&& p.rh == 4 || p.rh == 8 || p.rh == 16
            &&& p.rx + p.rw <= 16 && p.ry + p.rh <= 16
        }
}

/// The prediction of a plane of the macroblock.
#[verifier::rlimit(50)]
fn form_plane<K: Kernels>(
    k: &K,
    bi_w: (i32, i32),
    plane: u8,
    mb_x: usize,
    mb_y: usize,
    parts: &Vec<MotionPart>,
) -> (r: Vec<u8>)
    requires
        kernels::steady(*k),
        distortion::weights_ok(bi_w),
        rects_ok(parts@),
        16 * mb_x + 16 <= usize::MAX,
        16 * mb_y + 16 <= usize::MAX,
    ensures
        r@ == formed(
            *k,
            bi_w,
            plane,
            mb_x as int,
            mb_y as int,
            parts@,
            0,
            blank(
                if plane == 0 {
                    256
                } else {
                    64
                },
            ),
        ),
        r@.len() == if plane == 0 {
            256int
        } else {
            64
        },
{
    let side: usize = in_plane(plane, 16);
    let mut acc: Vec<u8> = Vec::new();
    let n: usize = if plane == 0 {
        256
    } else {
        64
    };
    assert(side * side == n) by {
        assert(16 * 16 == 256 && 8 * 8 == 64);
    }
    let mut j: usize = 0;
    while j < n
        invariant
            j <= n,
            acc@ == blank(j as nat),
        decreases n - j,
    {
        acc.push(0);
        assert(acc@ =~= blank((j + 1) as nat));
        j = j + 1;
    }
    let ghost start = acc@;
    let mut i: usize = 0;
    while i < parts.len()
        invariant
            i <= parts@.len(),
            kernels::steady(*k),
            distortion::weights_ok(bi_w),
            rects_ok(parts@),
            16 * mb_x + 16 <= usize::MAX,
            16 * mb_y + 16 <= usize::MAX,
            side == scaled(plane, 16),
            acc@.len() == side * side,
            acc@.len() == n,
            formed(*k, bi_w, plane, mb_x as int, mb_y as int, parts@, i as int, acc@) == formed(
                *k,
                bi_w,
                plane,
                mb_x as int,
                mb_y as int,
                parts@,
                0,
                start,
            ),
        decreases parts.len() - i,
    {
        let p: MotionPart = parts[i];
        let x: usize = in_plane(plane, 16 * mb_x + p.rx);
        let y: usize = in_plane(plane, 16 * mb_y + p.ry);
        let w: usize = in_plane(plane, p.rw);
        let h: usize = in_plane(plane, p.rh);
        assert(0 < w * h <= 256) by (nonlinear_arith)
            requires
                2 <= w <= 16,
                2 <= h <= 16,
        ;
        let a: [u8; 256] = if p.use0 {
            mc(k, McJob { list: 0, refi: p.refi, plane, x, y, w, h, mv: p.mv0 })
        } else {
            [0; 256]
        };
        let b: [u8; 256] = if p.use1 || !p.use0 {
            mc(k, McJob { list: 1, refi: 0, plane, x, y, w, h, mv: p.mv1 })
        } else {
            [0; 256]
        };
        let t: [u8; 256] = if p.use0 && p.use1 {
            blend_blocks(&a, &b, bi_w)
        } else if p.use0 {
            a
        } else {
            b
        };
        assert(t@ == part_samples(*k, bi_w, plane, mb_x as int, mb_y as int, p));
        put_rect(&mut acc, side, side, in_plane(plane, p.rx), in_plane(plane, p.ry), w, h, &t);
        i = i + 1;
    }
    acc
}

/// The first 256 samples as an array.
fn to_256(v: &Vec<u8>) -> (r: [u8; 256])
    requires
        v@.len() == 256,
    ensures
        r@ == v@,
{
    let mut r: [u8; 256] = [0; 256];
    let mut i: usize = 0;
    while i < 256
        invariant
            i <= 256,
            v@.len() == 256,
            forall|j: int| 0 <= j < i ==> #[trigger] r@[j] == v@[j],
        decreases 256 - i,
    {
        r[i] = v[i];
        i = i + 1;
    }
    assert(r@ =~= v@);
    r
}

/// The first 64 samples as an array.
fn to_64(v: &Vec<u8>) -> (r: [u8; 64])
    requires
        v@.len() == 64,
    ensures
        r@ == v@,
{
    let mut r: [u8; 64] = [0; 64];
    let mut i: usize = 0;
    while i < 64
        invariant
            i <= 64,
            v@.len() == 64,
            forall|j: int| 0 <= j < i ==> #[trigger] r@[j] == v@[j],
        decreases 64 - i,
    {
        r[i] = v[i];
        i = i + 1;
    }
    assert(r@ =~= v@);
    r
}

/// The prediction of a plane that the partitions form.
pub open spec fn predicted_plane<K: Kernels>(
    k: K,
    bi_w: (i32, i32),
    plane: u8,
    mb_x: int,
    mb_y: int,
    parts: Seq<MotionPart>,
) -> Seq<u8> {
    formed(
        k,
        bi_w,
        plane,
        mb_x,
        mb_y,
        parts,
        0,
        blank(
            if plane == 0 {
                256
            } else {
                64
            },
        ),
    )
}

/// The prediction of a macroblock that its partitions form: luma and both chroma planes.
pub fn form_prediction<K: Kernels>(
    k: &K,
    bi_w: (i32, i32),
    mb_x: usize,
    mb_y: usize,
    parts: &Vec<MotionPart>,
) -> (r: ([u8; 256], [[u8; 64]; 2]))
    requires
        kernels::steady(*k),
        distortion::weights_ok(bi_w),
        rects_ok(parts@),
        16 * mb_x + 16 <= usize::MAX,
        16 * mb_y + 16 <= usize::MAX,
    ensures
        r.0@ == predicted_plane(*k, bi_w, 0, mb_x as int, mb_y as int, parts@),
        r.1@[0]@ == predicted_plane(*k, bi_w, 1, mb_x as int, mb_y as int, parts@),
        r.1@[1]@ == predicted_plane(*k, bi_w, 2, mb_x as int, mb_y as int, parts@),
{
    let y: Vec<u8> = form_plane(k, bi_w, 0, mb_x, mb_y, parts);
    let u: Vec<u8> = form_plane(k, bi_w, 1, mb_x, mb_y, parts);
    let v: Vec<u8> = form_plane(k, bi_w, 2, mb_x, mb_y, parts);
    (to_256(&y), [to_64(&u), to_64(&v)])
}

} // verus!
