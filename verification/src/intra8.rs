//! Planning the luma of an I_8x8 macroblock.
use vstd::prelude::*;
use crate::arith;
use crate::frame::{predict_i4_mode, FrameEncoder};
use crate::grid;
use crate::grid::cell_at;
use crate::intra4;
use crate::intra4::Pick;
use crate::kernels;
use crate::kernels::{add8, intra8, quant8, Around, Kernels};
use crate::pixels;
use crate::pixels::{i4_mode_available, satd_8x8};
use crate::plan;
use crate::plan::I8Plan;
use crate::quant;
use crate::quant::{count_levels, has_level, pattern_of, res8_of};
use crate::rect;
use crate::rect::{fill_rect, put_rect};

verus! {

/// The samples in `rec` above the 8x8 block at `(px, py)`: its own eight columns and the next
/// eight, which repeat the last one where `more` does not hold.
pub open spec fn i8_top(rec: Seq<u8>, cw: int, px: int, py: int, avail: bool, more: bool) -> Seq<
    u8,
> {
    Seq::new(
        16,
        |i: int|
            if !avail {
                0u8
            } else if i < 8 || more {
                rec[grid::cell(cw, px + i, py - 1)]
            } else {
                rec[grid::cell(cw, px + 7, py - 1)]
            },
    )
}

/// The eight samples left of the block.
pub open spec fn i8_left(rec: Seq<u8>, cw: int, px: int, py: int, avail: bool) -> Seq<u8> {
    Seq::new(
        8,
        |i: int|
            if avail {
                rec[grid::cell(cw, px - 1, py + i)]
            } else {
                0u8
            },
    )
}

/// The samples around the 8x8 block whose first 4x4 block is `(bx, by)`.
#[verifier::rlimit(50)]
pub fn gather_i8_enc(fe: &FrameEncoder, bx: usize, by: usize) -> (r: ([u8; 16], [u8; 8], u8))
    requires
        fe.wf(),
        bx + 2 <= 4 * fe.mb_w,
        by + 2 <= 4 * fe.mb_h,
        bx + 2 < 4 * fe.mb_w ==> bx + 4 <= 4 * fe.mb_w,
    ensures
        r.0@ == i8_top(
            fe.rec_y@,
            16 * fe.mb_w,
            4 * bx,
            4 * by,
            by > 0,
            intra4::has_more(fe.coded_y@, 4 * fe.mb_w, bx as int, by as int, 2),
        ),
        r.1@ == i8_left(fe.rec_y@, 16 * fe.mb_w, 4 * bx, 4 * by, bx > 0),
        r.2 == intra4::corner_at(
            fe.rec_y@,
            16 * fe.mb_w,
            4 * bx,
            4 * by,
            by > 0 && bx > 0,
        ),
{
    let cw: usize = fe.cw;
    let n: usize = fe.rec_y.len();
    let (px, py): (usize, usize) = (4 * bx, 4 * by);
    let mut top: [u8; 16] = [0; 16];
    let mut left: [u8; 8] = [0; 8];
    let mut corner: u8 = 0;
    let ghost more = intra4::has_more(fe.coded_y@, 4 * fe.mb_w, bx as int, by as int, 2);
    if by > 0 {
        let mut tr: bool = false;
        if bx + 2 < 4 * fe.mb_w {
            proof {
                grid::lemma_cell(4 * fe.mb_w, 4 * fe.mb_h, bx + 2, by - 1);
            }
            tr = fe.coded_y[cell_at(4 * fe.mb_w, bx + 2, by - 1, fe.coded_y.len())];
        }
        let mut i: usize = 0;
        while i < 16
            invariant
                i <= 16,
                fe.wf(),
                0 < by,
                by + 2 <= 4 * fe.mb_h,
                bx + 2 <= 4 * fe.mb_w,
                tr ==> bx + 4 <= 4 * fe.mb_w,
                px == 4 * bx && py == 4 * by,
                cw == 16 * fe.mb_w,
                n == fe.rec_y@.len(),
                tr == intra4::has_more(fe.coded_y@, 4 * fe.mb_w, bx as int, by as int, 2),
                forall|j: int|
                    0 <= j < i ==> #[trigger] top@[j] == i8_top(
                        fe.rec_y@,
                        cw as int,
                        px as int,
                        py as int,
                        true,
                        tr,
                    )[j],
            decreases 16 - i,
        {
            let x: usize = if i < 8 || tr {
                px + i
            } else {
                px + 7
            };
            proof {
                grid::lemma_cell(16 * fe.mb_w, 16 * fe.mb_h, x as int, py - 1);
            }
            top[i] = fe.rec_y[cell_at(cw, x, py - 1, n)];
            i = i + 1;
        }
    }
    if bx > 0 {
        let mut i: usize = 0;
        while i < 8
            invariant
                i <= 8,
                fe.wf(),
                by + 2 <= 4 * fe.mb_h,
                0 < bx,
                bx + 2 <= 4 * fe.mb_w,
                px == 4 * bx && py == 4 * by,
                cw == 16 * fe.mb_w,
                n == fe.rec_y@.len(),
                forall|j: int|
                    0 <= j < i ==> #[trigger] left@[j] == fe.rec_y@[grid::cell(
                        cw as int,
                        px - 1,
                        py + j,
                    )],
            decreases 8 - i,
        {
            proof {
                grid::lemma_cell(16 * fe.mb_w, 16 * fe.mb_h, px - 1, py + i);
            }
            left[i] = fe.rec_y[cell_at(cw, px - 1, py + i, n)];
            i = i + 1;
        }
    }
    if by > 0 && bx > 0 {
        proof {
            grid::lemma_cell(16 * fe.mb_w, 16 * fe.mb_h, px - 1, py - 1);
        }
        corner = fe.rec_y[cell_at(cw, px - 1, py - 1, n)];
    }
    assert(top@ =~= i8_top(fe.rec_y@, cw as int, px as int, py as int, by > 0, more));
    assert(left@ =~= i8_left(fe.rec_y@, cw as int, px as int, py as int, bx > 0));
    (top, left, corner)
}

/// What the blocks of an I_8x8 macroblock are planned with.
pub struct I8Ctx {
    pub mb_w: usize,
    pub mb_x: int,
    pub mb_y: int,
    pub sy: Seq<u8>,
    pub qp: u8,
    /// The QP that the cost of a mode is weighed with.
    pub cost_qp: u8,
    pub idz: u8,
}

/// The plan so far: the frame's samples, coded flags and modes, and the blocks' own modes
/// and levels.
#[verifier::ext_equal]
pub struct I8State {
    pub rec: Seq<u8>,
    pub coded: Seq<bool>,
    pub modes_y: Seq<u8>,
    pub modes: Seq<u8>,
    pub q: Seq<Seq<i32>>,
}

/// The prediction of the block at `(bx, by)` by a mode.
pub open spec fn i8_prediction<K: Kernels>(k: K, c: I8Ctx, s: I8State, bx: int, by: int, m: u8) -> Seq<
    u8,
> {
    let cw = 16 * c.mb_w;
    kernels::intra8_of(
        k,
        m,
        intra4::around(bx, by),
        i8_top(
            s.rec,
            cw,
            4 * bx,
            4 * by,
            by > 0,
            intra4::has_more(s.coded, 4 * c.mb_w, bx, by, 2),
        ),
        i8_left(s.rec, cw, 4 * bx, 4 * by, bx > 0),
        intra4::corner_at(s.rec, cw, 4 * bx, 4 * by, by > 0 && bx > 0),
    )
}

/// The predicted mode of the block at `(bx, by)`.
pub open spec fn i8_expected(s: I8State, w4: int, bx: int, by: int) -> int {
    if bx == 0 || by == 0 {
        2
    } else {
        arith::min(
            s.modes_y[grid::cell(w4, bx - 1, by)] as int,
            s.modes_y[grid::cell(w4, bx, by - 1)] as int,
        )
    }
}

/// The cost of a mode: the SATD of its prediction, and a penalty if it is not the predicted
/// one.
pub open spec fn i8_cost<K: Kernels>(k: K, c: I8Ctx, s: I8State, bx: int, by: int, m: u8) -> int {
    let cw = (16 * c.mb_w) as usize;
    pixels::satd(
        c.sy,
        pixels::placed(cw, (4 * bx) as usize, (4 * by) as usize),
        i8_prediction(k, c, s, bx, by, m),
        pixels::dense(8),
        2,
        4,
    ) + if m != i8_expected(s, 4 * c.mb_w, bx, by) {
        4 * c.cost_qp as int
    } else {
        0
    }
}

/// The mode of the block at `(bx, by)`.
pub open spec fn i8_mode<K: Kernels>(k: K, c: I8Ctx, s: I8State, bx: int, by: int) -> u8 {
    intra4::cheapest(
        |m: u8| i8_cost(k, c, s, bx, by, m),
        intra4::around(bx, by),
        intra4::nine(),
        0,
        Pick { mode: 2, cost: i64::MAX as int },
    ).mode
}

/// The plan after block `b`.
pub open spec fn i8_step<K: Kernels>(k: K, c: I8Ctx, s: I8State, b: int) -> I8State {
    let (bx, by) = (4 * c.mb_x + 2 * (b % 2), 4 * c.mb_y + 2 * (b / 2));
    let m = i8_mode(k, c, s, bx, by);
    let pred = intra4::wide(i8_prediction(k, c, s, bx, by, m));
    let res = quant::res8(
        c.sy,
        (16 * c.mb_w) as usize,
        (4 * bx) as usize,
        (4 * by) as usize,
        pred,
    );
    let q = kernels::quant8_of(k, res, c.qp, c.idz);
    I8State {
        rec: rect::put_block(
            s.rec,
            16 * c.mb_w,
            4 * bx,
            4 * by,
            8,
            8,
            kernels::add8_of(k, q, c.qp, pred),
        ),
        coded: rect::fill(s.coded, 4 * c.mb_w, bx, by, 2, 2, true),
        modes_y: rect::fill(s.modes_y, 4 * c.mb_w, bx, by, 2, 2, m),
        modes: s.modes.update(b, m),
        q: s.q.update(b, q),
    }
}

/// The plan after the blocks from number `b` on.
pub open spec fn i8_run<K: Kernels>(k: K, c: I8Ctx, s: I8State, b: int) -> I8State
    decreases 4 - b,
{
    if b >= 4 {
        s
    } else {
        i8_run(k, c, i8_step(k, c, s, b), b + 1)
    }
}

/// Levels as sequences.
pub open spec fn q8_views(q: Seq<[i32; 64]>) -> Seq<Seq<i32>> {
    Seq::new(q.len(), |i: int| q[i]@)
}

/// How many levels of the first `n` blocks are not zero.
pub open spec fn total_levels8(q: Seq<Seq<i32>>, n: int) -> int
    decreases n,
{
    if n <= 0 {
        0
    } else {
        total_levels8(q, n - 1) + quant::level_count(q[n - 1], 0, 64)
    }
}

/// The state of a plan that is being made.
pub open spec fn i8_state(fe: FrameEncoder, modes: Seq<u8>, q: Seq<[i32; 64]>) -> I8State {
    I8State {
        rec: fe.rec_y@,
        coded: fe.coded_y@,
        modes_y: fe.modes_y@,
        modes,
        q: q8_views(q),
    }
}

/// A plan with no block in it.
pub open spec fn i8_blank(fe: FrameEncoder) -> I8State {
    I8State {
        rec: fe.rec_y@,
        coded: fe.coded_y@,
        modes_y: fe.modes_y@,
        modes: Seq::new(4, |i: int| 2u8),
        q: Seq::new(4, |i: int| Seq::new(64, |j: int| 0i32)),
    }
}

impl FrameEncoder {
    /// What the blocks of macroblock `(mb_x, mb_y)` are planned with.
    pub open spec fn i8_ctx(&self, sy: Seq<u8>, mb_x: int, mb_y: int, qp: u8) -> I8Ctx {
        I8Ctx { mb_w: self.mb_w, mb_x, mb_y, sy, qp, cost_qp: self.qp, idz: self.idz }
    }
}

proof fn lemma_block8_fits(fe: FrameEncoder, sy: Seq<u8>, bx: int, by: int)
    requires
        fe.wf(),
        sy.len() == fe.rec_y@.len(),
        0 <= bx && bx + 2 <= 4 * fe.mb_w,
        0 <= by && by + 2 <= 4 * fe.mb_h,
    ensures
        pixels::block_fits(fe.cw as int, 4 * bx, 4 * by, 8, 8, sy.len() as int),
{
    let (w, h) = (16 * fe.mb_w, 16 * fe.mb_h);
    assert((4 * by) * w + 7 * w + w <= w * h) by (nonlinear_arith)
        requires
            4 * by + 8 <= h,
            w >= 0,
    ;
}

/// The cheapest mode of a block.
#[verifier::rlimit(50)]
fn pick_i8<K: Kernels>(
    k: &K,
    fe: &FrameEncoder,
    sy: &[u8],
    bx: usize,
    by: usize,
    edges: &([u8; 16], [u8; 8], u8),
    Ghost(c): Ghost<I8Ctx>,
    Ghost(s): Ghost<I8State>,
) -> (r: u8)
    requires
        kernels::steady(*k),
        fe.wf(),
        bx + 2 <= 4 * fe.mb_w,
        by + 2 <= 4 * fe.mb_h,
        sy@.len() == fe.rec_y@.len(),
        c.mb_w == fe.mb_w,
        c.sy == sy@,
        c.cost_qp == fe.qp,
        s.rec == fe.rec_y@,
        s.coded == fe.coded_y@,
        s.modes_y == fe.modes_y@,
        edges.0@ == i8_top(
            s.rec,
            16 * c.mb_w,
            4 * bx,
            4 * by,
            by > 0,
            intra4::has_more(s.coded, 4 * c.mb_w, bx as int, by as int, 2),
        ),
        edges.1@ == i8_left(s.rec, 16 * c.mb_w, 4 * bx, 4 * by, bx > 0),
        edges.2 == intra4::corner_at(s.rec, 16 * c.mb_w, 4 * bx, 4 * by, by > 0 && bx > 0),
    ensures
        r == i8_mode(*k, c, s, bx as int, by as int),
{
    let has: Around = Around { top: by > 0, left: bx > 0 };
    let expected: u8 = predict_i4_mode(fe, bx, by);
    let ghost f = |m: u8| i8_cost(*k, c, s, bx as int, by as int, m);
    let ghost start = Pick { mode: 2, cost: i64::MAX as int };
    let mut mode: u8 = 2;
    let mut best: i64 = i64::MAX;
    let mut m: u8 = 0;
    while m < 9
        invariant
            m <= 9,
            kernels::steady(*k),
            fe.wf(),
            bx + 2 <= 4 * fe.mb_w,
            by + 2 <= 4 * fe.mb_h,
            sy@.len() == fe.rec_y@.len(),
            c.mb_w == fe.mb_w,
            c.sy == sy@,
            c.cost_qp == fe.qp,
            s.rec == fe.rec_y@,
            s.coded == fe.coded_y@,
            expected == i8_expected(s, 4 * c.mb_w, bx as int, by as int),
            has == intra4::around(bx as int, by as int),
            edges.0@ == i8_top(
                s.rec,
                16 * c.mb_w,
                4 * bx,
                4 * by,
                by > 0,
                intra4::has_more(s.coded, 4 * c.mb_w, bx as int, by as int, 2),
            ),
            edges.1@ == i8_left(s.rec, 16 * c.mb_w, 4 * bx, 4 * by, bx > 0),
            edges.2 == intra4::corner_at(s.rec, 16 * c.mb_w, 4 * bx, 4 * by, by > 0 && bx > 0),
            f == (|m: u8| i8_cost(*k, c, s, bx as int, by as int, m)),
            intra4::cheapest(
                f,
                has,
                intra4::nine(),
                m as int,
                Pick { mode, cost: best as int },
            ) == intra4::cheapest(f, has, intra4::nine(), 0, start),
        decreases 9 - m,
    {
        assert(intra4::nine()[m as int] == m);
        if i4_mode_available(m, has.top, has.left) {
            let pred: [u8; 64] = intra8(k, m, has, &edges.0, &edges.1, edges.2);
            proof {
                lemma_block8_fits(*fe, sy@, bx as int, by as int);
                pixels::lemma_satd_bounds(
                    sy@,
                    pixels::placed(fe.cw, (4 * bx) as usize, (4 * by) as usize),
                    pred@,
                    pixels::dense(8),
                    2,
                    4,
                );
            }
            let mut cost: i64 = satd_8x8(sy, fe.cw, 4 * bx, 4 * by, &pred);
            if m != expected {
                cost = cost + 4 * fe.qp as i64;
            }
            assert(cost == f(m));
            if cost < best {
                best = cost;
                mode = m;
            }
        }
        m = m + 1;
    }
    mode
}

fn wide64(p: &[u8; 64]) -> (r: [i32; 64])
    ensures
        r@ == intra4::wide(p@),
        forall|i: int| 0 <= i < 64 ==> 0 <= #[trigger] r@[i] <= 255,
{
    let mut r: [i32; 64] = [0; 64];
    let mut i: usize = 0;
    while i < 64
        invariant
            i <= 64,
            forall|j: int| 0 <= j < i ==> #[trigger] r@[j] == p@[j],
        decreases 64 - i,
    {
        r[i] = p[i] as i32;
        i = i + 1;
    }
    assert(r@ =~= intra4::wide(p@));
    r
}

/// Plan one block.
fn plan_i8_block<K: Kernels>(
    k: &K,
    fe: &mut FrameEncoder,
    sy: &[u8],
    mb_x: usize,
    mb_y: usize,
    qp: u8,
    b: usize,
    modes: &mut [u8; 4],
    q: &mut [[i32; 64]; 4],
)
    requires
        kernels::steady(*k),
        old(fe).wf(),
        old(fe).has_mb(mb_x as int, mb_y as int),
        sy@.len() == old(fe).rec_y@.len(),
        b < 4,
    ensures
        i8_state(*final(fe), final(modes)@, final(q)@) == i8_step(
            *k,
            old(fe).i8_ctx(sy@, mb_x as int, mb_y as int, qp),
            i8_state(*old(fe), old(modes)@, old(q)@),
            b as int,
        ),
        *final(fe) == (FrameEncoder {
            rec_y: final(fe).rec_y,
            coded_y: final(fe).coded_y,
            modes_y: final(fe).modes_y,
            ..*old(fe)
        }),
        final(fe).wf(),
{
    let ghost c = fe.i8_ctx(sy@, mb_x as int, mb_y as int, qp);
    let ghost s = i8_state(*fe, modes@, q@);
    let ghost t = i8_step(*k, c, s, b as int);
    let (w, h): (usize, usize) = (fe.mb_w, fe.mb_h);
    let (hx, hy): (usize, usize) = (b % 2, b / 2);
    let (bx, by): (usize, usize) = (4 * mb_x + 2 * hx, 4 * mb_y + 2 * hy);
    let edges: ([u8; 16], [u8; 8], u8) = gather_i8_enc(fe, bx, by);
    let m: u8 = pick_i8(k, fe, sy, bx, by, &edges, Ghost(c), Ghost(s));
    let has: Around = Around { top: by > 0, left: bx > 0 };
    let pred: [u8; 64] = intra8(k, m, has, &edges.0, &edges.1, edges.2);
    let predb: [i32; 64] = wide64(&pred);
    proof {
        lemma_block8_fits(*fe, sy@, bx as int, by as int);
    }
    let res: [i32; 64] = res8_of(sy, fe.cw, 4 * bx, 4 * by, &predb);
    let qb: [i32; 64] = quant8(k, &res, qp, fe.idz);
    let smp: [u8; 64] = add8(k, &qb, qp, &predb);
    put_rect(&mut fe.rec_y, 16 * w, 16 * h, 4 * bx, 4 * by, 8, 8, &smp);
    fill_rect(&mut fe.modes_y, 4 * w, 4 * h, bx, by, 2, 2, m);
    fill_rect(&mut fe.coded_y, 4 * w, 4 * h, bx, by, 2, 2, true);
    modes[b] = m;
    q[b] = qb;
    proof {
        assert(q8_views(q@) =~= t.q);
        assert(modes@ =~= t.modes);
        assert(fe.rec_y@ == t.rec);
        assert(fe.coded_y@ == t.coded);
        assert(fe.modes_y@ == t.modes_y);
    }
}

/// Plan the luma of an I_8x8 macroblock; its samples and modes are left in the frame.
pub fn plan_i8x8<K: Kernels>(
    k: &K,
    fe: &mut FrameEncoder,
    sy: &[u8],
    mb_x: usize,
    mb_y: usize,
    qp: u8,
) -> (r: I8Plan)
    requires
        kernels::steady(*k),
        old(fe).wf(),
        old(fe).has_mb(mb_x as int, mb_y as int),
        sy@.len() == old(fe).rec_y@.len(),
    ensures
        i8_state(*final(fe), r.modes@, r.q@) == i8_run(
            *k,
            old(fe).i8_ctx(sy@, mb_x as int, mb_y as int, qp),
            i8_blank(*old(fe)),
            0,
        ),
        r.cbp_luma == quant::luma8_pattern(r.q@),
        r.wf(),
        r.nonzero == total_levels8(q8_views(r.q@), 4),
        0 <= r.nonzero <= 256,
        *final(fe) == (FrameEncoder {
            rec_y: final(fe).rec_y,
            coded_y: final(fe).coded_y,
            modes_y: final(fe).modes_y,
            ..*old(fe)
        }),
        final(fe).wf(),
{
    let mut modes: [u8; 4] = [2; 4];
    let mut q: [[i32; 64]; 4] = [[0; 64]; 4];
    let ghost c = fe.i8_ctx(sy@, mb_x as int, mb_y as int, qp);
    let ghost start = i8_blank(*fe);
    proof {
        assert(q8_views(q@) =~~= start.q);
        assert(modes@ =~= start.modes);
        assert(i8_state(*fe, modes@, q@) =~= start);
    }
    let mut b: usize = 0;
    while b < 4
        invariant
            b <= 4,
            kernels::steady(*k),
            fe.wf(),
            fe.has_mb(mb_x as int, mb_y as int),
            sy@.len() == fe.rec_y@.len(),
            c == fe.i8_ctx(sy@, mb_x as int, mb_y as int, qp),
            i8_run(*k, c, i8_state(*fe, modes@, q@), b as int) == i8_run(*k, c, start, 0),
            *fe == (FrameEncoder {
                rec_y: fe.rec_y,
                coded_y: fe.coded_y,
                modes_y: fe.modes_y,
                ..*old(fe)
            }),
        decreases 4 - b,
    {
        plan_i8_block(k, fe, sy, mb_x, mb_y, qp, b, &mut modes, &mut q);
        b = b + 1;
    }
    let cbp_luma: u32 = pattern_of(
        has_level(&q[0], 0),
        has_level(&q[1], 0),
        has_level(&q[2], 0),
        has_level(&q[3], 0),
    );
    let n0: i64 = count_levels(&q[0], 0);
    let n1: i64 = count_levels(&q[1], 0);
    let n2: i64 = count_levels(&q[2], 0);
    let n3: i64 = count_levels(&q[3], 0);
    proof {
        reveal_with_fuel(total_levels8, 5);
        quant::lemma_marked(q@);
    }
    I8Plan { modes, q, cbp_luma, nonzero: n0 + n1 + n2 + n3 }
}

} // verus!
