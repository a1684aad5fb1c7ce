//! Planning the luma of an I_4x4 macroblock: block after block, each predicted from the
//! samples around it.
use vstd::prelude::*;
use crate::frame::FrameEncoder;
use crate::grid;
use crate::grid::cell_at;
use crate::kernels;
use crate::kernels::{add4, deq4, fdct4, intra4, Around, Kernels};
use crate::pixels;
use crate::pixels::{i4_mode_available, residual, satd_4x4, store};
use crate::plan::I4Plan;
use crate::quant;
use crate::quant::{count_levels, luma_pattern_of, rdoq};
use crate::rect;
use crate::scan::LUMA_4X4_SCAN_XY;

verus! {

/// The samples in `rec`, a plane `cw` wide, above the block at `(px, py)`: its own four
/// columns and the next four, which repeat the last one where `more` does not hold.
pub open spec fn i4_top(rec: Seq<u8>, cw: int, px: int, py: int, avail: bool, more: bool) -> Seq<u8> {
    Seq::new(
        8,
        |i: int|
            if !avail {
                0u8
            } else if i < 4 || more {
                rec[grid::cell(cw, px + i, py - 1)]
            } else {
                rec[grid::cell(cw, px + 3, py - 1)]
            },
    )
}

/// The four samples left of the block.
pub open spec fn i4_left(rec: Seq<u8>, cw: int, px: int, py: int, avail: bool) -> Seq<u8> {
    Seq::new(
        4,
        |i: int|
            if avail {
                rec[grid::cell(cw, px - 1, py + i)]
            } else {
                0u8
            },
    )
}

/// The sample above and left of the block.
pub open spec fn corner_at(rec: Seq<u8>, cw: int, px: int, py: int, avail: bool) -> u8 {
    if avail {
        rec[grid::cell(cw, px - 1, py - 1)]
    } else {
        0u8
    }
}

/// The frame has blocks above and left of `(bx, by)`.
pub open spec fn around(bx: int, by: int) -> Around {
    Around { top: by > 0, left: bx > 0 }
}

/// The block above and right of `(bx, by)` is there and coded, in a grid `w4` wide.
pub open spec fn has_more(coded: Seq<bool>, w4: int, bx: int, by: int, step: int) -> bool {
    bx + step < w4 && coded[grid::cell(w4, bx + step, by - 1)]
}

/// The samples around the block at `(bx, by)`.
#[verifier::rlimit(50)]
pub fn gather_i4(fe: &FrameEncoder, bx: usize, by: usize) -> (r: ([u8; 8], [u8; 4], u8))
    requires
        fe.wf(),
        bx < 4 * fe.mb_w,
        by < 4 * fe.mb_h,
    ensures
        r.0@ == i4_top(
            fe.rec_y@,
            16 * fe.mb_w,
            4 * bx,
            4 * by,
            by > 0,
            has_more(fe.coded_y@, 4 * fe.mb_w, bx as int, by as int, 1),
        ),
        r.1@ == i4_left(fe.rec_y@, 16 * fe.mb_w, 4 * bx, 4 * by, bx > 0),
        r.2 == corner_at(fe.rec_y@, 16 * fe.mb_w, 4 * bx, 4 * by, by > 0 && bx > 0),
{
    let cw: usize = fe.cw;
    let n: usize = fe.rec_y.len();
    let (px, py): (usize, usize) = (4 * bx, 4 * by);
    let mut top: [u8; 8] = [0; 8];
    let mut left: [u8; 4] = [0; 4];
    let mut corner: u8 = 0;
    let ghost more = has_more(fe.coded_y@, 4 * fe.mb_w, bx as int, by as int, 1);
    if by > 0 {
        let mut tr: bool = false;
        if bx + 1 < 4 * fe.mb_w {
            proof {
                grid::lemma_cell(4 * fe.mb_w, 4 * fe.mb_h, bx + 1, by - 1);
            }
            tr = fe.coded_y[cell_at(4 * fe.mb_w, bx + 1, by - 1, fe.coded_y.len())];
        }
        let mut i: usize = 0;
        while i < 8
            invariant
                i <= 8,
                fe.wf(),
                0 < by < 4 * fe.mb_h,
                bx < 4 * fe.mb_w,
                px == 4 * bx && py == 4 * by,
                cw == 16 * fe.mb_w,
                n == fe.rec_y@.len(),
                tr == has_more(fe.coded_y@, 4 * fe.mb_w, bx as int, by as int, 1),
                forall|j: int|
                    0 <= j < i ==> #[trigger] top@[j] == i4_top(
                        fe.rec_y@,
                        cw as int,
                        px as int,
                        py as int,
                        true,
                        tr,
                    )[j],
            decreases 8 - i,
        {
            let x: usize = if i < 4 || tr {
                px + i
            } else {
                px + 3
            };
            proof {
                grid::lemma_cell(16 * fe.mb_w, 16 * fe.mb_h, x as int, py - 1);
            }
            top[i] = fe.rec_y[cell_at(cw, x, py - 1, n)];
            i = i + 1;
        }
    }
    if bx > 0 {
        let mut i: usize = 0;
        while i < 4
            invariant
                i <= 4,
                fe.wf(),
                by < 4 * fe.mb_h,
                0 < bx < 4 * fe.mb_w,
                px == 4 * bx && py == 4 * by,
                cw == 16 * fe.mb_w,
                n == fe.rec_y@.len(),
                forall|j: int|
                    0 <= j < i ==> #[trigger] left@[j] == fe.rec_y@[grid::cell(
                        cw as int,
                        px - 1,
                        py + j,
                    )],
            decreases 4 - i,
        {
            proof {
                grid::lemma_cell(16 * fe.mb_w, 16 * fe.mb_h, px - 1, py + i);
            }
            left[i] = fe.rec_y[cell_at(cw, px - 1, py + i, n)];
            i = i + 1;
        }
    }
    if by > 0 && bx > 0 {
        proof {
            grid::lemma_cell(16 * fe.mb_w, 16 * fe.mb_h, px - 1, py - 1);
        }
        corner = fe.rec_y[cell_at(cw, px - 1, py - 1, n)];
    }
    assert(top@ =~= i4_top(fe.rec_y@, cw as int, px as int, py as int, by > 0, more));
    assert(left@ =~= i4_left(fe.rec_y@, cw as int, px as int, py as int, bx > 0));
    (top, left, corner)
}

/// The mode of the block `(dx, dy)` away from block `(lbx, lby)` of the macroblock: from
/// `local` inside it, from the frame's modes outside.
pub open spec fn mode_at(
    modes_y: Seq<u8>,
    local: Seq<u8>,
    w4: int,
    lbx: int,
    lby: int,
    dx: int,
    dy: int,
    bx: int,
    by: int,
) -> u8 {
    if 0 <= lbx + dx < 4 && 0 <= lby + dy < 4 {
        local[4 * (lby + dy) + lbx + dx]
    } else {
        modes_y[grid::cell(w4, bx + dx, by + dy)]
    }
}

/// The mode of the block left of (`up` false) or above a block.
pub fn modes_at(
    fe: &FrameEncoder,
    modes: &[u8; 16],
    lbx: usize,
    lby: usize,
    up: bool,
    bx: usize,
    by: usize,
) -> (r: u8)
    requires
        fe.wf(),
        lbx < 4,
        lby < 4,
        bx < 4 * fe.mb_w,
        by < 4 * fe.mb_h,
        up ==> by > 0,
        !up ==> bx > 0,
    ensures
        r == mode_at(
            fe.modes_y@,
            modes@,
            4 * fe.mb_w,
            lbx as int,
            lby as int,
            if up {
                0
            } else {
                -1
            },
            if up {
                -1
            } else {
                0
            },
            bx as int,
            by as int,
        ),
{
    let w4: usize = 4 * fe.mb_w;
    if up {
        if lby > 0 {
            modes[4 * (lby - 1) + lbx]
        } else {
            proof {
                grid::lemma_cell(4 * fe.mb_w, 4 * fe.mb_h, bx as int, by - 1);
            }
            fe.modes_y[cell_at(w4, bx, by - 1, fe.modes_y.len())]
        }
    } else {
        if lbx > 0 {
            modes[4 * lby + lbx - 1]
        } else {
            proof {
                grid::lemma_cell(4 * fe.mb_w, 4 * fe.mb_h, bx - 1, by as int);
            }
            fe.modes_y[cell_at(w4, bx - 1, by, fe.modes_y.len())]
        }
    }
}

/// A mode and its cost.
pub struct Pick {
    pub mode: u8,
    pub cost: int,
}

/// The cheapest usable mode of the list, from number `i` on; the first one of equals.
pub open spec fn cheapest(
    cost: spec_fn(u8) -> int,
    has: Around,
    modes: Seq<u8>,
    i: int,
    p: Pick,
) -> Pick
    decreases modes.len() - i,
{
    if i >= modes.len() {
        p
    } else {
        let m = modes[i];
        let next = if pixels::i4_usable(m as int, has.top, has.left) && cost(m) < p.cost {
            Pick { mode: m, cost: cost(m) }
        } else {
            p
        };
        cheapest(cost, has, modes, i + 1, next)
    }
}

/// All nine modes.
pub open spec fn nine() -> Seq<u8> {
    seq![0u8, 1u8, 2u8, 3u8, 4u8, 5u8, 6u8, 7u8, 8u8]
}

/// What the blocks of an I_4x4 macroblock are planned with.
pub struct I4Ctx {
    pub mb_w: usize,
    pub mb_x: int,
    pub mb_y: int,
    pub sy: Seq<u8>,
    pub modes_y: Seq<u8>,
    pub qp: u8,
    pub idz: u8,
    pub on: bool,
    pub few: bool,
}

/// The plan so far: the frame's samples and coded flags, and the blocks' modes and levels.
#[verifier::ext_equal]
pub struct I4State {
    pub rec: Seq<u8>,
    pub coded: Seq<bool>,
    pub modes: Seq<u8>,
    pub q: Seq<Seq<i32>>,
}

/// The prediction of the block at `(bx, by)` by a mode.
pub open spec fn i4_prediction<K: Kernels>(k: K, c: I4Ctx, s: I4State, bx: int, by: int, m: u8) -> Seq<
    u8,
> {
    let cw = 16 * c.mb_w;
    kernels::intra4_of(
        k,
        m,
        around(bx, by),
        i4_top(s.rec, cw, 4 * bx, 4 * by, by > 0, has_more(s.coded, 4 * c.mb_w, bx, by, 1)),
        i4_left(s.rec, cw, 4 * bx, 4 * by, bx > 0),
        corner_at(s.rec, cw, 4 * bx, 4 * by, by > 0 && bx > 0),
    )
}

/// The cost of a mode: the SATD of its prediction.
pub open spec fn i4_cost<K: Kernels>(k: K, c: I4Ctx, s: I4State, bx: int, by: int, m: u8) -> int {
    let cw = (16 * c.mb_w) as usize;
    pixels::satd(
        c.sy,
        pixels::placed(cw, (4 * bx) as usize, (4 * by) as usize),
        i4_prediction(k, c, s, bx, by, m),
        pixels::dense(4),
        1,
        1,
    )
}

/// The modes that are tried: all of them, or the predicted one and the plain ones.
pub open spec fn i4_tried(c: I4Ctx, s: I4State, lbx: int, lby: int) -> Seq<u8> {
    let (bx, by) = (4 * c.mb_x + lbx, 4 * c.mb_y + lby);
    let w4 = 4 * c.mb_w;
    let l = if bx > 0 {
        mode_at(c.modes_y, s.modes, w4, lbx, lby, -1, 0, bx, by)
    } else {
        2u8
    };
    let t = if by > 0 {
        mode_at(c.modes_y, s.modes, w4, lbx, lby, 0, -1, bx, by)
    } else {
        2u8
    };
    if c.few {
        seq![
            if l <= t {
                l
            } else {
                t
            },
            2u8,
            0u8,
            1u8,
        ]
    } else {
        nine()
    }
}

/// The mode of block `(lbx, lby)`.
pub open spec fn i4_mode<K: Kernels>(k: K, c: I4Ctx, s: I4State, lbx: int, lby: int) -> u8 {
    let (bx, by) = (4 * c.mb_x + lbx, 4 * c.mb_y + lby);
    cheapest(
        |m: u8| i4_cost(k, c, s, bx, by, m),
        around(bx, by),
        i4_tried(c, s, lbx, lby),
        0,
        Pick { mode: 2, cost: i64::MAX as int },
    ).mode
}

/// Bytes as levels are.
pub open spec fn wide(s: Seq<u8>) -> Seq<i32> {
    Seq::new(s.len(), |i: int| s[i] as i32)
}

/// The plan after block number `z` in coding order.
pub open spec fn i4_step<K: Kernels>(k: K, c: I4Ctx, s: I4State, z: int) -> I4State {
    let (lbx, lby) = (LUMA_4X4_SCAN_XY@[z].0 as int, LUMA_4X4_SCAN_XY@[z].1 as int);
    let (bx, by) = (4 * c.mb_x + lbx, 4 * c.mb_y + lby);
    let m = i4_mode(k, c, s, lbx, lby);
    let pred = wide(i4_prediction(k, c, s, bx, by, m));
    let res = quant::res4(
        c.sy,
        (16 * c.mb_w) as usize,
        (4 * bx) as usize,
        (4 * by) as usize,
        pred,
    );
    let q = quant::levels(k, c.on, kernels::fdct4_of(k, res), c.qp, c.idz, 0);
    I4State {
        rec: rect::put_block(
            s.rec,
            16 * c.mb_w,
            4 * bx,
            4 * by,
            4,
            4,
            quant::rec4(k, q, c.qp, pred),
        ),
        coded: s.coded.update(grid::cell(4 * c.mb_w, bx, by), true),
        modes: s.modes.update(4 * lby + lbx, m),
        q: s.q.update(4 * lby + lbx, q),
    }
}

/// The plan after the blocks from number `z` on.
pub open spec fn i4_run<K: Kernels>(k: K, c: I4Ctx, s: I4State, z: int) -> I4State
    decreases 16 - z,
{
    if z >= 16 {
        s
    } else {
        i4_run(k, c, i4_step(k, c, s, z), z + 1)
    }
}

/// Levels as sequences.
pub open spec fn q_views(q: Seq<[i32; 16]>) -> Seq<Seq<i32>> {
    Seq::new(q.len(), |i: int| q[i]@)
}

/// How many levels of the first `n` blocks are not zero.
pub open spec fn total_levels(q: Seq<Seq<i32>>, from: int, n: int) -> int
    decreases n,
{
    if n <= 0 {
        0
    } else {
        total_levels(q, from, n - 1) + quant::level_count(q[n - 1], from, 16)
    }
}

impl FrameEncoder {
    /// What the blocks of macroblock `(mb_x, mb_y)` are planned with.
    pub open spec fn i4_ctx(&self, sy: Seq<u8>, mb_x: int, mb_y: int, qp: u8) -> I4Ctx {
        I4Ctx {
            mb_w: self.mb_w,
            mb_x,
            mb_y,
            sy,
            modes_y: self.modes_y@,
            qp,
            idz: self.idz,
            on: self.rdoq_on,
            few: self.fast && self.fast_intra,
        }
    }
}

/// The cheapest of the modes that are tried.
#[verifier::rlimit(50)]
fn pick_i4<K: Kernels>(
    k: &K,
    fe: &FrameEncoder,
    sy: &[u8],
    bx: usize,
    by: usize,
    edges: &([u8; 8], [u8; 4], u8),
    tried: &Vec<u8>,
    Ghost(c): Ghost<I4Ctx>,
    Ghost(s): Ghost<I4State>,
) -> (r: u8)
    requires
        kernels::steady(*k),
        fe.wf(),
        bx < 4 * fe.mb_w,
        by < 4 * fe.mb_h,
        sy@.len() == fe.rec_y@.len(),
        c.mb_w == fe.mb_w,
        c.sy == sy@,
        s.rec == fe.rec_y@,
        s.coded == fe.coded_y@,
        edges.0@ == i4_top(
            s.rec,
            16 * c.mb_w,
            4 * bx,
            4 * by,
            by > 0,
            has_more(s.coded, 4 * c.mb_w, bx as int, by as int, 1),
        ),
        edges.1@ == i4_left(s.rec, 16 * c.mb_w, 4 * bx, 4 * by, bx > 0),
        edges.2 == corner_at(s.rec, 16 * c.mb_w, 4 * bx, 4 * by, by > 0 && bx > 0),
    ensures
        r == cheapest(
            |m: u8| i4_cost(*k, c, s, bx as int, by as int, m),
            around(bx as int, by as int),
            tried@,
            0,
            Pick { mode: 2, cost: i64::MAX as int },
        ).mode,
{
    let has: Around = Around { top: by > 0, left: bx > 0 };
    let ghost f = |m: u8| i4_cost(*k, c, s, bx as int, by as int, m);
    let ghost start = Pick { mode: 2, cost: i64::MAX as int };
    let mut mode: u8 = 2;
    let mut best: i64 = i64::MAX;
    let mut i: usize = 0;
    while i < tried.len()
        invariant
            i <= tried@.len(),
            kernels::steady(*k),
            fe.wf(),
            bx < 4 * fe.mb_w,
            by < 4 * fe.mb_h,
            sy@.len() == fe.rec_y@.len(),
            c.mb_w == fe.mb_w,
            c.sy == sy@,
            s.rec == fe.rec_y@,
            s.coded == fe.coded_y@,
            has == around(bx as int, by as int),
            edges.0@ == i4_top(
                s.rec,
                16 * c.mb_w,
                4 * bx,
                4 * by,
                by > 0,
                has_more(s.coded, 4 * c.mb_w, bx as int, by as int, 1),
            ),
            edges.1@ == i4_left(s.rec, 16 * c.mb_w, 4 * bx, 4 * by, bx > 0),
            edges.2 == corner_at(s.rec, 16 * c.mb_w, 4 * bx, 4 * by, by > 0 && bx > 0),
            f == (|m: u8| i4_cost(*k, c, s, bx as int, by as int, m)),
            cheapest(f, has, tried@, i as int, Pick { mode, cost: best as int }) == cheapest(
                f,
                has,
                tried@,
                0,
                start,
            ),
            forall|j: int|
                0 <= j < i && pixels::i4_usable((#[trigger] tried@[j]) as int, has.top, has.left)
                    ==> best <= f(tried@[j]),
        decreases tried.len() - i,
    {
        let m: u8 = tried[i];
        let mut seen: bool = false;
        let mut j: usize = 0;
        while j < i
            invariant
                j <= i < tried@.len(),
                m == tried@[i as int],
                seen ==> exists|h: int| 0 <= h < i && #[trigger] tried@[h] == m,
            decreases i - j,
        {
            if tried[j] == m {
                seen = true;
            }
            j = j + 1;
        }
        if !seen && i4_mode_available(m, has.top, has.left) {
            let pred: [u8; 16] = intra4(k, m, has, &edges.0, &edges.1, edges.2);
            proof {
                lemma_block_fits(*fe, sy@, bx as int, by as int);
            }
            let cost: i64 = satd_4x4(sy, fe.cw, 4 * bx, 4 * by, &pred);
            assert(cost == f(m));
            if cost < best {
                best = cost;
                mode = m;
            }
        }
        i = i + 1;
    }
    mode
}

proof fn lemma_block_fits(fe: FrameEncoder, sy: Seq<u8>, bx: int, by: int)
    requires
        fe.wf(),
        sy.len() == fe.rec_y@.len(),
        0 <= bx < 4 * fe.mb_w,
        0 <= by < 4 * fe.mb_h,
    ensures
        pixels::block_fits(fe.cw as int, 4 * bx, 4 * by, 4, 4, sy.len() as int),
{
    let (w, h) = (16 * fe.mb_w, 16 * fe.mb_h);
    assert((4 * by) * w + 3 * w + w <= w * h) by (nonlinear_arith)
        requires
            4 * by + 4 <= h,
            w >= 0,
    ;
}

/// The modes that are tried for a block.
fn tried_i4(
    fe: &FrameEncoder,
    modes: &[u8; 16],
    lbx: usize,
    lby: usize,
    bx: usize,
    by: usize,
    Ghost(c): Ghost<I4Ctx>,
    Ghost(s): Ghost<I4State>,
) -> (r: Vec<u8>)
    requires
        fe.wf(),
        lbx < 4,
        lby < 4,
        bx < 4 * fe.mb_w,
        by < 4 * fe.mb_h,
        bx == 4 * c.mb_x + lbx,
        by == 4 * c.mb_y + lby,
        c.mb_w == fe.mb_w,
        c.modes_y == fe.modes_y@,
        c.few == (fe.fast && fe.fast_intra),
        s.modes == modes@,
    ensures
        r@ == i4_tried(c, s, lbx as int, lby as int),
{
    let mut r: Vec<u8> = Vec::new();
    if fe.fast && fe.fast_intra {
        let l: u8 = if bx > 0 {
            modes_at(fe, modes, lbx, lby, false, bx, by)
        } else {
            2
        };
        let t: u8 = if by > 0 {
            modes_at(fe, modes, lbx, lby, true, bx, by)
        } else {
            2
        };
        r.push(
            if l <= t {
                l
            } else {
                t
            },
        );
        r.push(2);
        r.push(0);
        r.push(1);
    } else {
        let mut m: u8 = 0;
        while m < 9
            invariant
                m <= 9,
                r@ == nine().take(m as int),
            decreases 9 - m,
        {
            r.push(m);
            m = m + 1;
            assert(r@ =~= nine().take(m as int));
        }
    }
    assert(r@ =~= i4_tried(c, s, lbx as int, lby as int));
    r
}

/// The state of a plan that is being made.
pub open spec fn i4_state(
    fe: FrameEncoder,
    modes: Seq<u8>,
    q: Seq<[i32; 16]>,
) -> I4State {
    I4State { rec: fe.rec_y@, coded: fe.coded_y@, modes, q: q_views(q) }
}

/// A plan with no block in it.
pub open spec fn i4_blank(fe: FrameEncoder) -> I4State {
    I4State {
        rec: fe.rec_y@,
        coded: fe.coded_y@,
        modes: Seq::new(16, |i: int| 2u8),
        q: Seq::new(16, |i: int| Seq::new(16, |j: int| 0i32)),
    }
}

/// Plan one block.
fn plan_i4_block<K: Kernels>(
    k: &K,
    fe: &mut FrameEncoder,
    sy: &[u8],
    mb_x: usize,
    mb_y: usize,
    qp: u8,
    z: usize,
    modes: &mut [u8; 16],
    q: &mut [[i32; 16]; 16],
)
    requires
        kernels::steady(*k),
        old(fe).wf(),
        old(fe).has_mb(mb_x as int, mb_y as int),
        sy@.len() == old(fe).rec_y@.len(),
        z < 16,
    ensures
        i4_state(*final(fe), final(modes)@, final(q)@) == i4_step(
            *k,
            old(fe).i4_ctx(sy@, mb_x as int, mb_y as int, qp),
            i4_state(*old(fe), old(modes)@, old(q)@),
            z as int,
        ),
        *final(fe) == (FrameEncoder {
            rec_y: final(fe).rec_y,
            coded_y: final(fe).coded_y,
            ..*old(fe)
        }),
        final(fe).wf(),
{
    let ghost c = fe.i4_ctx(sy@, mb_x as int, mb_y as int, qp);
    let ghost s = i4_state(*fe, modes@, q@);
    let (lbx, lby): (usize, usize) = LUMA_4X4_SCAN_XY[z];
    proof {
        grid::lemma_luma_cell(fe.mb_w as int, fe.mb_h as int, mb_x as int, mb_y as int, z as int);
    }
    let (bx, by): (usize, usize) = (4 * mb_x + lbx, 4 * mb_y + lby);
    let edges: ([u8; 8], [u8; 4], u8) = gather_i4(fe, bx, by);
    let tried: Vec<u8> = tried_i4(fe, modes, lbx, lby, bx, by, Ghost(c), Ghost(s));
    let m: u8 = pick_i4(k, fe, sy, bx, by, &edges, &tried, Ghost(c), Ghost(s));
    assert(m == i4_mode(*k, c, s, lbx as int, lby as int));
    let has: Around = Around { top: by > 0, left: bx > 0 };
    let pred: [u8; 16] = intra4(k, m, has, &edges.0, &edges.1, edges.2);
    let predb: [i32; 16] = wide_of(&pred);
    proof {
        lemma_block_fits(*fe, sy@, bx as int, by as int);
    }
    let res: [i32; 16] = residual(sy, fe.cw, 4 * bx, 4 * by, &predb);
    assert(res@ =~= quant::res4(
        sy@,
        fe.cw,
        (4 * bx) as usize,
        (4 * by) as usize,
        predb@,
    ));
    let co: [i32; 16] = fdct4(k, &res);
    let qb: [i32; 16] = rdoq(k, fe.rdoq_on, &co, qp, fe.idz, 0);
    let d: [i32; 16] = deq4(k, &qb, qp);
    let smp: [u8; 16] = add4(k, &d, &predb);
    let h: usize = 16 * fe.mb_h;
    store(&mut fe.rec_y, fe.cw, h, 4 * bx, 4 * by, &smp);
    let cell: usize = cell_at(4 * fe.mb_w, bx, by, fe.coded_y.len());
    fe.coded_y[cell] = true;
    modes[4 * lby + lbx] = m;
    q[4 * lby + lbx] = qb;
    proof {
        let t = i4_step(*k, c, s, z as int);
        assert(q_views(q@) =~= t.q);
        assert(modes@ =~= t.modes);
        assert(fe.coded_y@ =~= t.coded);
        assert(i4_state(*fe, modes@, q@) =~= t);
    }
}

fn wide_of(p: &[u8; 16]) -> (r: [i32; 16])
    ensures
        r@ == wide(p@),
        forall|i: int| 0 <= i < 16 ==> 0 <= #[trigger] r@[i] <= 255,
{
    let mut r: [i32; 16] = [0; 16];
    let mut i: usize = 0;
    while i < 16
        invariant
            i <= 16,
            forall|j: int| 0 <= j < i ==> #[trigger] r@[j] == p@[j],
        decreases 16 - i,
    {
        r[i] = p[i] as i32;
        i = i + 1;
    }
    assert(r@ =~= wide(p@));
    r
}

/// How many levels from `from` on of sixteen blocks are not zero.
pub fn count_all(q: &[[i32; 16]; 16], from: usize) -> (r: i64)
    ensures
        r == total_levels(q_views(q@), from as int, 16),
        0 <= r <= 256,
{
    let mut n: i64 = 0;
    let mut i: usize = 0;
    while i < 16
        invariant
            i <= 16,
            n == total_levels(q_views(q@), from as int, i as int),
            0 <= n <= 16 * i,
        decreases 16 - i,
    {
        n = n + count_levels(&q[i], from);
        i = i + 1;
    }
    n
}

/// Plan the luma of an I_4x4 macroblock; its samples are left in the frame.
pub fn plan_i4x4<K: Kernels>(
    k: &K,
    fe: &mut FrameEncoder,
    sy: &[u8],
    mb_x: usize,
    mb_y: usize,
    qp: u8,
) -> (r: I4Plan)
    requires
        kernels::steady(*k),
        old(fe).wf(),
        old(fe).has_mb(mb_x as int, mb_y as int),
        sy@.len() == old(fe).rec_y@.len(),
    ensures
        i4_state(*final(fe), r.modes@, r.q@) == i4_run(
            *k,
            old(fe).i4_ctx(sy@, mb_x as int, mb_y as int, qp),
            i4_blank(*old(fe)),
            0,
        ),
        r.cbp_luma == quant::luma_pattern(r.q@),
        r.cbp_luma < 16,
        r.nonzero == total_levels(q_views(r.q@), 0, 16),
        0 <= r.nonzero <= 256,
        *final(fe) == (FrameEncoder {
            rec_y: final(fe).rec_y,
            coded_y: final(fe).coded_y,
            ..*old(fe)
        }),
        final(fe).wf(),
{
    let mut modes: [u8; 16] = [2; 16];
    let mut q: [[i32; 16]; 16] = [[0; 16]; 16];
    let ghost c = fe.i4_ctx(sy@, mb_x as int, mb_y as int, qp);
    let ghost start = i4_blank(*fe);
    proof {
        assert(q_views(q@) =~~= start.q);
        assert(modes@ =~= start.modes);
        assert(i4_state(*fe, modes@, q@) =~= start);
    }
    let mut z: usize = 0;
    while z < 16
        invariant
            z <= 16,
            kernels::steady(*k),
            fe.wf(),
            fe.has_mb(mb_x as int, mb_y as int),
            sy@.len() == fe.rec_y@.len(),
            c == fe.i4_ctx(sy@, mb_x as int, mb_y as int, qp),
            i4_run(*k, c, i4_state(*fe, modes@, q@), z as int) == i4_run(*k, c, start, 0),
            *fe == (FrameEncoder { rec_y: fe.rec_y, coded_y: fe.coded_y, ..*old(fe) }),
        decreases 16 - z,
    {
        plan_i4_block(k, fe, sy, mb_x, mb_y, qp, z, &mut modes, &mut q);
        z = z + 1;
    }
    let cbp_luma: u32 = luma_pattern_of(&q);
    let nonzero: i64 = count_all(&q, 0);
    I4Plan { modes, q, cbp_luma, nonzero }
}

} // verus!
