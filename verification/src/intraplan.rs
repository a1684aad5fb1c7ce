//! Planning an intra macroblock: I_16x16, I_4x4 or I_8x8 luma, and chroma.
use vstd::prelude::*;
use crate::frame::FrameEncoder;
use crate::grid;
use crate::grid::cell_at;
use crate::interplan;
use crate::intra4;
use crate::intra4::{count_all, plan_i4x4, I4State};
use crate::intra8;
use crate::intra8::{plan_i8x8, I8State};
use crate::kernels;
use crate::kernels::{
    add4,
    deq4,
    intra16,
    intrac,
    ldc,
    ldc_inv,
    rd_at_most,
    rd_less,
    Around,
    Kernels,
    Rd,
};
use crate::pixels;
use crate::pixels::{sad_16x16, satd_16x16, satd_8x8};
use crate::plan::{I16Mode, I4Plan, I8Plan, MbPlan};
use crate::quant;
use crate::quant::{
    chroma_pattern_of,
    code_chroma,
    count_levels,
    luma_coefs_of,
    pred4_of,
    put4,
    rdoq,
    square_ssd,
    zeros_of,
    ChromaCode,
    ChromaWay,
};
use crate::rect;
use crate::rect::{fill_rect, get_rect, put_rect};

verus! {

/// The `n` samples above the square at `(x, y)` of a plane `w` wide.
pub open spec fn above(rec: Seq<u8>, w: int, x: int, y: int, n: int) -> Seq<u8> {
    Seq::new(
        n as nat,
        |i: int|
            if y > 0 {
                rec[grid::cell(w, x + i, y - 1)]
            } else {
                0u8
            },
    )
}

/// The `n` samples left of the square at `(x, y)`.
pub open spec fn beside(rec: Seq<u8>, w: int, x: int, y: int, n: int) -> Seq<u8> {
    Seq::new(
        n as nat,
        |i: int|
            if x > 0 {
                rec[grid::cell(w, x - 1, y + i)]
            } else {
                0u8
            },
    )
}

/// The neighbours that macroblock `(mb_x, mb_y)` has.
pub open spec fn mb_around(mb_x: int, mb_y: int) -> Around {
    Around { top: mb_y > 0, left: mb_x > 0 }
}

/// The samples around a square of `n` samples.
fn edges_of(rec: &Vec<u8>, w: usize, h: usize, x: usize, y: usize, n: usize) -> (r: (
    [u8; 16],
    [u8; 16],
    u8,
))
    requires
        rec@.len() == w * h,
        n == 8 || n == 16,
        x + n <= w,
        y + n <= h,
    ensures
        r.0@.take(n as int) == above(rec@, w as int, x as int, y as int, n as int),
        r.1@.take(n as int) == beside(rec@, w as int, x as int, y as int, n as int),
        r.2 == intra4::corner_at(rec@, w as int, x as int, y as int, y > 0 && x > 0),
{
    let mut top: [u8; 16] = [0; 16];
    let mut left: [u8; 16] = [0; 16];
    let mut corner: u8 = 0;
    let mut i: usize = 0;
    while i < n
        invariant
            i <= n,
            n == 8 || n == 16,
            rec@.len() == w * h,
            x + n <= w,
            y + n <= h,
            forall|j: int|
                0 <= j < i ==> #[trigger] top@[j] == above(
                    rec@,
                    w as int,
                    x as int,
                    y as int,
                    n as int,
                )[j],
            forall|j: int|
                0 <= j < i ==> #[trigger] left@[j] == beside(
                    rec@,
                    w as int,
                    x as int,
                    y as int,
                    n as int,
                )[j],
            forall|j: int| i <= j < 16 ==> #[trigger] top@[j] == 0,
            forall|j: int| i <= j < 16 ==> #[trigger] left@[j] == 0,
        decreases n - i,
    {
        if y > 0 {
            proof {
                grid::lemma_cell(w as int, h as int, x + i, y - 1);
            }
            top[i] = rec[cell_at(w, x + i, y - 1, rec.len())];
        }
        if x > 0 {
            proof {
                grid::lemma_cell(w as int, h as int, x - 1, y + i);
            }
            left[i] = rec[cell_at(w, x - 1, y + i, rec.len())];
        }
        i = i + 1;
    }
    if y > 0 && x > 0 {
        proof {
            grid::lemma_cell(w as int, h as int, x - 1, y - 1);
        }
        corner = rec[cell_at(w, x - 1, y - 1, rec.len())];
    }
    assert(top@.take(n as int) =~= above(rec@, w as int, x as int, y as int, n as int));
    assert(left@.take(n as int) =~= beside(rec@, w as int, x as int, y as int, n as int));
    (top, left, corner)
}

/// The prediction of the luma of macroblock `(mb_x, mb_y)` by a mode.
pub open spec fn i16_prediction<K: Kernels>(
    k: K,
    fe: FrameEncoder,
    mb_x: int,
    mb_y: int,
    m: I16Mode,
) -> Seq<u8> {
    let (w, x, y) = (16 * fe.mb_w, 16 * mb_x, 16 * mb_y);
    kernels::intra16_of(
        k,
        m,
        mb_around(mb_x, mb_y),
        above(fe.rec_y@, w, x, y, 16),
        beside(fe.rec_y@, w, x, y, 16),
        intra4::corner_at(fe.rec_y@, w, x, y, y > 0 && x > 0),
    )
}

/// The SATD of that prediction.
pub open spec fn i16_cost<K: Kernels>(
    k: K,
    fe: FrameEncoder,
    sy: Seq<u8>,
    mb_x: int,
    mb_y: int,
    m: I16Mode,
) -> int {
    pixels::satd(
        sy,
        pixels::placed(fe.cw, (16 * mb_x) as usize, (16 * mb_y) as usize),
        i16_prediction(k, fe, mb_x, mb_y, m),
        pixels::dense(16),
        4,
        16,
    )
}

/// The cheaper one of `best` and a usable mode `m`.
pub open spec fn cheaper16(
    cost: spec_fn(I16Mode) -> int,
    has: Around,
    best: I16Mode,
    m: I16Mode,
) -> I16Mode {
    if m.usable(has.top, has.left) && cost(m) < cost(best) {
        m
    } else {
        best
    }
}

/// The mode of an I_16x16 macroblock: the cheapest usable one, where DC goes before vertical,
/// horizontal and plane.
pub open spec fn i16_mode<K: Kernels>(
    k: K,
    fe: FrameEncoder,
    sy: Seq<u8>,
    mb_x: int,
    mb_y: int,
) -> I16Mode {
    let f = |m: I16Mode| i16_cost(k, fe, sy, mb_x, mb_y, m);
    let has = mb_around(mb_x, mb_y);
    cheaper16(
        f,
        has,
        cheaper16(f, has, cheaper16(f, has, I16Mode::Dc, I16Mode::Vertical), I16Mode::Horizontal),
        I16Mode::Plane,
    )
}

/// The AC levels of block `i` of an I_16x16 macroblock.
pub open spec fn i16_levels<K: Kernels>(
    k: K,
    fe: FrameEncoder,
    sy: Seq<u8>,
    mb_x: int,
    mb_y: int,
    pred: Seq<u8>,
    i: int,
) -> Seq<i32> {
    quant::levels(
        k,
        fe.rdoq_on,
        quant::luma_coefs(k, sy, fe.cw, (16 * mb_x) as usize, (16 * mb_y) as usize, pred, i),
        fe.qp,
        fe.idz,
        1,
    ).update(0, 0)
}

/// The DC levels of an I_16x16 macroblock.
pub open spec fn i16_dc<K: Kernels>(
    k: K,
    fe: FrameEncoder,
    sy: Seq<u8>,
    mb_x: int,
    mb_y: int,
    pred: Seq<u8>,
) -> Seq<i32> {
    let (lx, ly) = ((16 * mb_x) as usize, (16 * mb_y) as usize);
    kernels::ldc_of(
        k,
        Seq::new(16, |i: int| quant::luma_coefs(k, sy, fe.cw, lx, ly, pred, i)[0]),
        fe.qp,
    )
}

/// The samples of an I_16x16 macroblock.
pub open spec fn i16_samples<K: Kernels>(
    k: K,
    qp: u8,
    dc: Seq<i32>,
    q: Seq<[i32; 16]>,
    pred: Seq<u8>,
) -> Seq<u8> {
    quant::tiled(
        16,
        |i: int|
            quant::rec4_dc(
                k,
                q[i]@,
                qp,
                kernels::ldc_inv_of(k, dc, qp)[i],
                quant::pred4(pred, 16, i % 4, i / 4),
            ),
    )
}

/// Some AC level of an I_16x16 macroblock is not zero.
pub open spec fn i16_any_ac(q: Seq<[i32; 16]>) -> bool {
    intra4::total_levels(intra4::q_views(q), 1, 16) > 0
}

/// The rate of an I_16x16 macroblock: its levels, and sixteen more if it has AC.
pub open spec fn i16_rate(dc: Seq<i32>, q: Seq<[i32; 16]>) -> int {
    quant::level_count(dc, 0, 16) + intra4::total_levels(intra4::q_views(q), 1, 16) + if i16_any_ac(
        q,
    ) {
        16int
    } else {
        0
    }
}

/// A coded I_16x16 macroblock.
pub struct I16Code {
    pub mode: I16Mode,
    pub dc: [i32; 16],
    pub q: [[i32; 16]; 16],
    pub rec: Vec<u8>,
    pub cbp15: bool,
    pub rate: i64,
    pub ssd: i64,
}

impl I16Code {
    /// This is what comes of coding macroblock `(mb_x, mb_y)`.
    pub open spec fn codes<K: Kernels>(
        self,
        k: K,
        fe: FrameEncoder,
        sy: Seq<u8>,
        mb_x: int,
        mb_y: int,
    ) -> bool {
        let pred = i16_prediction(k, fe, mb_x, mb_y, self.mode);
        &&& self.mode == i16_mode(k, fe, sy, mb_x, mb_y)
        &&& forall|i: int|
            0 <= i < 16 ==> (#[trigger] self.q@[i])@ == i16_levels(k, fe, sy, mb_x, mb_y, pred, i)
        &&& quant::ac_only(self.q@, 16)
        &&& self.dc@ == i16_dc(k, fe, sy, mb_x, mb_y, pred)
        &&& self.rec@ == i16_samples(k, fe.qp, self.dc@, self.q@, pred)
        &&& self.rec@.len() == 256
        &&& self.cbp15 == i16_any_ac(self.q@)
        &&& self.rate == i16_rate(self.dc@, self.q@)
        &&& 0 <= self.rate <= 512
        &&& self.ssd == interplan::mb_distance(
            self.rec@,
            sy,
            fe.cw,
            (16 * mb_x) as usize,
            (16 * mb_y) as usize,
        )
        &&& 0 <= self.ssd <= 65025 * 256
    }
}

/// The mode of an I_16x16 macroblock and its prediction.
#[verifier::rlimit(50)]
fn pick_i16<K: Kernels>(k: &K, fe: &FrameEncoder, sy: &[u8], mb_x: usize, mb_y: usize) -> (r: (
    I16Mode,
    [u8; 256],
))
    requires
        kernels::steady(*k),
        fe.wf(),
        fe.has_mb(mb_x as int, mb_y as int),
        sy@.len() == fe.rec_y@.len(),
    ensures
        r.0 == i16_mode(*k, *fe, sy@, mb_x as int, mb_y as int),
        r.1@ == i16_prediction(*k, *fe, mb_x as int, mb_y as int, r.0),
{
    let (lx, ly): (usize, usize) = (16 * mb_x, 16 * mb_y);
    let has: Around = Around { top: mb_y > 0, left: mb_x > 0 };
    let (top, left, corner): ([u8; 16], [u8; 16], u8) = edges_of(
        &fe.rec_y,
        16 * fe.mb_w,
        16 * fe.mb_h,
        lx,
        ly,
        16,
    );
    assert(top@.take(16) =~= top@ && left@.take(16) =~= left@);
    proof {
        interplan::lemma_source(*fe, sy@, 16, mb_x, mb_y);
    }
    let ghost f = |m: I16Mode| i16_cost(*k, *fe, sy@, mb_x as int, mb_y as int, m);
    let mut mode: I16Mode = I16Mode::Dc;
    let mut best: [u8; 256] = intra16(k, I16Mode::Dc, has, &top, &left, corner);
    let mut cost: i64 = satd_16x16(sy, fe.cw, lx, ly, &best);
    assert(cost == f(mode));
    let order: [I16Mode; 3] = [I16Mode::Vertical, I16Mode::Horizontal, I16Mode::Plane];
    let mut i: usize = 0;
    while i < 3
        invariant
            i <= 3,
            kernels::steady(*k),
            fe.wf(),
            lx == 16 * mb_x && ly == 16 * mb_y,
            quant::square_fits(sy@, fe.cw, lx, ly, 16),
            has == mb_around(mb_x as int, mb_y as int),
            top@ == above(fe.rec_y@, 16 * fe.mb_w, 16 * mb_x, 16 * mb_y, 16),
            left@ == beside(fe.rec_y@, 16 * fe.mb_w, 16 * mb_x, 16 * mb_y, 16),
            corner == intra4::corner_at(
                fe.rec_y@,
                16 * fe.mb_w,
                16 * mb_x,
                16 * mb_y,
                ly > 0 && lx > 0,
            ),
            f == (|m: I16Mode| i16_cost(*k, *fe, sy@, mb_x as int, mb_y as int, m)),
            order@ == seq![I16Mode::Vertical, I16Mode::Horizontal, I16Mode::Plane],
            best@ == i16_prediction(*k, *fe, mb_x as int, mb_y as int, mode),
            cost == f(mode),
            i == 0 ==> mode == I16Mode::Dc,
            i == 1 ==> mode == cheaper16(f, has, I16Mode::Dc, I16Mode::Vertical),
            i == 2 ==> mode == cheaper16(
                f,
                has,
                cheaper16(f, has, I16Mode::Dc, I16Mode::Vertical),
                I16Mode::Horizontal,
            ),
            i == 3 ==> mode == i16_mode(*k, *fe, sy@, mb_x as int, mb_y as int),
        decreases 3 - i,
    {
        let m: I16Mode = order[i];
        if m.available(has.top, has.left) {
            let pred: [u8; 256] = intra16(k, m, has, &top, &left, corner);
            let c: i64 = satd_16x16(sy, fe.cw, lx, ly, &pred);
            assert(c == f(m));
            if c < cost {
                cost = c;
                mode = m;
                best = pred;
            }
        }
        i = i + 1;
    }
    (mode, best)
}

/// The SAD of the prediction of a macroblock by a mode.
pub open spec fn i16_sad<K: Kernels>(
    k: K,
    fe: FrameEncoder,
    sy: Seq<u8>,
    mb_x: int,
    mb_y: int,
    m: I16Mode,
) -> int {
    pixels::sad(
        sy,
        pixels::placed(fe.cw, (16 * mb_x) as usize, (16 * mb_y) as usize),
        i16_prediction(k, fe, mb_x, mb_y, m),
        pixels::dense(16),
        16,
        256,
    )
}

/// The least SAD of the modes that can be used.
pub open spec fn i16_least_sad<K: Kernels>(
    k: K,
    fe: FrameEncoder,
    sy: Seq<u8>,
    mb_x: int,
    mb_y: int,
) -> int {
    let f = |m: I16Mode| i16_sad(k, fe, sy, mb_x, mb_y, m);
    let has = mb_around(mb_x, mb_y);
    f(
        cheaper16(
            f,
            has,
            cheaper16(f, has, cheaper16(f, has, I16Mode::Dc, I16Mode::Vertical), I16Mode::Horizontal),
            I16Mode::Plane,
        ),
    )
}

/// The least SATD of the modes that can be used.
pub open spec fn i16_least_satd<K: Kernels>(
    k: K,
    fe: FrameEncoder,
    sy: Seq<u8>,
    mb_x: int,
    mb_y: int,
) -> int {
    i16_cost(k, fe, sy, mb_x, mb_y, i16_mode(k, fe, sy, mb_x, mb_y))
}

/// No mode that can be used costs less than the one that is picked.
pub proof fn law_i16_mode_is_cheapest<K: Kernels>(
    k: K,
    fe: FrameEncoder,
    sy: Seq<u8>,
    mb_x: int,
    mb_y: int,
    m: I16Mode,
)
    requires
        m.usable(mb_y > 0, mb_x > 0),
    ensures
        i16_least_satd(k, fe, sy, mb_x, mb_y) <= i16_cost(k, fe, sy, mb_x, mb_y, m),
        i16_least_sad(k, fe, sy, mb_x, mb_y) <= i16_sad(k, fe, sy, mb_x, mb_y, m),
{
}

/// The least SAD that a whole-block intra prediction has.
#[verifier::rlimit(50)]
pub fn best_i16_sad<K: Kernels>(k: &K, fe: &FrameEncoder, sy: &[u8], mb_x: usize, mb_y: usize) -> (r: i64)
    requires
        kernels::steady(*k),
        fe.wf(),
        fe.has_mb(mb_x as int, mb_y as int),
        sy@.len() == fe.rec_y@.len(),
    ensures
        r == i16_least_sad(*k, *fe, sy@, mb_x as int, mb_y as int),
        0 <= r <= 0x1f_ffff,
{
    let (lx, ly): (usize, usize) = (16 * mb_x, 16 * mb_y);
    let has: Around = Around { top: mb_y > 0, left: mb_x > 0 };
    let (top, left, corner): ([u8; 16], [u8; 16], u8) = edges_of(
        &fe.rec_y,
        16 * fe.mb_w,
        16 * fe.mb_h,
        lx,
        ly,
        16,
    );
    assert(top@.take(16) =~= top@ && left@.take(16) =~= left@);
    proof {
        interplan::lemma_source(*fe, sy@, 16, mb_x, mb_y);
    }
    let ghost f = |m: I16Mode| i16_sad(*k, *fe, sy@, mb_x as int, mb_y as int, m);
    let ghost mut mode: I16Mode = I16Mode::Dc;
    let first: [u8; 256] = intra16(k, I16Mode::Dc, has, &top, &left, corner);
    let mut cost: i64 = sad_16x16(sy, fe.cw, lx, ly, &first);
    assert(cost == f(mode));
    let order: [I16Mode; 3] = [I16Mode::Vertical, I16Mode::Horizontal, I16Mode::Plane];
    let mut i: usize = 0;
    while i < 3
        invariant
            i <= 3,
            kernels::steady(*k),
            fe.wf(),
            lx == 16 * mb_x && ly == 16 * mb_y,
            quant::square_fits(sy@, fe.cw, lx, ly, 16),
            has == mb_around(mb_x as int, mb_y as int),
            top@ == above(fe.rec_y@, 16 * fe.mb_w, 16 * mb_x, 16 * mb_y, 16),
            left@ == beside(fe.rec_y@, 16 * fe.mb_w, 16 * mb_x, 16 * mb_y, 16),
            corner == intra4::corner_at(
                fe.rec_y@,
                16 * fe.mb_w,
                16 * mb_x,
                16 * mb_y,
                ly > 0 && lx > 0,
            ),
            f == (|m: I16Mode| i16_sad(*k, *fe, sy@, mb_x as int, mb_y as int, m)),
            order@ == seq![I16Mode::Vertical, I16Mode::Horizontal, I16Mode::Plane],
            cost == f(mode),
            i == 0 ==> mode == I16Mode::Dc,
            i == 1 ==> mode == cheaper16(f, has, I16Mode::Dc, I16Mode::Vertical),
            i == 2 ==> mode == cheaper16(
                f,
                has,
                cheaper16(f, has, I16Mode::Dc, I16Mode::Vertical),
                I16Mode::Horizontal,
            ),
            i == 3 ==> f(mode) == i16_least_sad(*k, *fe, sy@, mb_x as int, mb_y as int),
        decreases 3 - i,
    {
        let m: I16Mode = order[i];
        if m.available(has.top, has.left) {
            let pred: [u8; 256] = intra16(k, m, has, &top, &left, corner);
            let c: i64 = sad_16x16(sy, fe.cw, lx, ly, &pred);
            assert(c == f(m));
            if c < cost {
                cost = c;
                proof {
                    mode = m;
                }
            }
        }
        i = i + 1;
    }
    proof {
        pixels::lemma_sad_bounds(
            sy@,
            pixels::placed(fe.cw, lx, ly),
            i16_prediction(*k, *fe, mb_x as int, mb_y as int, mode),
            pixels::dense(16),
            16,
            256,
        );
    }
    cost
}

/// The least SATD that a whole-block intra prediction has.
pub fn best_i16_satd<K: Kernels>(k: &K, fe: &FrameEncoder, sy: &[u8], mb_x: usize, mb_y: usize) -> (r: i64)
    requires
        kernels::steady(*k),
        fe.wf(),
        fe.has_mb(mb_x as int, mb_y as int),
        sy@.len() == fe.rec_y@.len(),
    ensures
        r == i16_least_satd(*k, *fe, sy@, mb_x as int, mb_y as int),
        0 <= r <= 0x1f_ffff,
{
    proof {
        interplan::lemma_source(*fe, sy@, 16, mb_x, mb_y);
    }
    let (_, pred): (I16Mode, [u8; 256]) = pick_i16(k, fe, sy, mb_x, mb_y);
    proof {
        pixels::lemma_satd_bounds(
            sy@,
            pixels::placed(fe.cw, (16 * mb_x) as usize, (16 * mb_y) as usize),
            pred@,
            pixels::dense(16),
            4,
            16,
        );
    }
    satd_16x16(sy, fe.cw, 16 * mb_x, 16 * mb_y, &pred)
}

/// Code a macroblock as I_16x16, without leaving it in the frame.
fn code_i16<K: Kernels>(k: &K, fe: &FrameEncoder, sy: &[u8], mb_x: usize, mb_y: usize) -> (r: I16Code)
    requires
        kernels::steady(*k),
        fe.wf(),
        fe.has_mb(mb_x as int, mb_y as int),
        sy@.len() == fe.rec_y@.len(),
    ensures
        r.codes(*k, *fe, sy@, mb_x as int, mb_y as int),
{
    let (lx, ly): (usize, usize) = (16 * mb_x, 16 * mb_y);
    let (mode, pred): (I16Mode, [u8; 256]) = pick_i16(k, fe, sy, mb_x, mb_y);
    proof {
        interplan::lemma_source(*fe, sy@, 16, mb_x, mb_y);
    }
    let mut dcs: [i32; 16] = [0; 16];
    let mut q: [[i32; 16]; 16] = [[0; 16]; 16];
    let mut i: usize = 0;
    while i < 16
        invariant
            i <= 16,
            kernels::steady(*k),
            lx == 16 * mb_x && ly == 16 * mb_y,
            quant::square_fits(sy@, fe.cw, lx, ly, 16),
            forall|j: int|
                0 <= j < i ==> #[trigger] dcs@[j] == quant::luma_coefs(
                    *k,
                    sy@,
                    fe.cw,
                    lx,
                    ly,
                    pred@,
                    j,
                )[0],
            forall|j: int|
                0 <= j < i ==> (#[trigger] q@[j])@ == i16_levels(
                    *k,
                    *fe,
                    sy@,
                    mb_x as int,
                    mb_y as int,
                    pred@,
                    j,
                ),
            quant::ac_only(q@, i as int),
        decreases 16 - i,
    {
        let c: [i32; 16] = luma_coefs_of(k, sy, fe.cw, lx, ly, &pred, i);
        dcs[i] = c[0];
        let mut l: [i32; 16] = rdoq(k, fe.rdoq_on, &c, fe.qp, fe.idz, 1);
        l[0] = 0;
        q[i] = l;
        i = i + 1;
    }
    assert(dcs@ =~= Seq::new(
        16,
        |i: int| quant::luma_coefs(*k, sy@, fe.cw, lx, ly, pred@, i)[0],
    ));
    let dc: [i32; 16] = ldc(k, &dcs, fe.qp);
    let rec: Vec<u8> = i16_samples_of(k, fe.qp, &dc, &q, &pred);
    let ac: i64 = count_all(&q, 1);
    let cbp15: bool = ac > 0;
    let rate: i64 = count_levels(&dc, 0) + ac + if cbp15 {
        16
    } else {
        0
    };
    let ssd: i64 = square_ssd(&rec, sy, fe.cw, lx, ly);
    I16Code { mode, dc, q, rec, cbp15, rate, ssd }
}

fn i16_samples_of<K: Kernels>(
    k: &K,
    qp: u8,
    dc: &[i32; 16],
    q: &[[i32; 16]; 16],
    pred: &[u8; 256],
) -> (r: Vec<u8>)
    requires
        kernels::steady(*k),
    ensures
        r@ == i16_samples(*k, qp, dc@, q@, pred@),
        r@.len() == 256,
{
    let inv: [i32; 16] = ldc_inv(k, dc, qp);
    let mut acc: Vec<u8> = zeros_of(256);
    let ghost f = |i: int|
        quant::rec4_dc(
            *k,
            q@[i]@,
            qp,
            kernels::ldc_inv_of(*k, dc@, qp)[i],
            quant::pred4(pred@, 16, i % 4, i / 4),
        );
    let mut i: usize = 0;
    while i < 16
        invariant
            i <= 16,
            kernels::steady(*k),
            inv@ == kernels::ldc_inv_of(*k, dc@, qp),
            acc@.len() == 256,
            f == (|i: int|
                quant::rec4_dc(
                    *k,
                    q@[i]@,
                    qp,
                    kernels::ldc_inv_of(*k, dc@, qp)[i],
                    quant::pred4(pred@, 16, i % 4, i / 4),
                )),
            forall|t: int|
                0 <= t < 256 && ((t / 16) / 4) * 4 + (t % 16) / 4 < i ==> #[trigger] acc@[t]
                    == quant::tiled(16, f)[t],
        decreases 16 - i,
    {
        let (bx, by): (usize, usize) = (i % 4, i / 4);
        let pb: [i32; 16] = pred4_of(pred, 16, bx, by);
        let mut d: [i32; 16] = deq4(k, &q[i], qp);
        d[0] = inv[i];
        let s: [u8; 16] = add4(k, &d, &pb);
        assert(s@ == f(i as int));
        put4(&mut acc, 16, bx, by, &s);
        i = i + 1;
    }
    assert(acc@ =~= quant::tiled(16, f));
    assert(i16_samples(*k, qp, dc@, q@, pred@) =~= quant::tiled(16, f));
    acc
}

/// A chroma mode can be used: DC always, horizontal with a left neighbour, vertical with one
/// above, plane with both.
pub open spec fn chroma_usable(m: int, has: Around) -> bool {
    if m == 0 {
        true
    } else if m == 1 {
        has.left
    } else if m == 2 {
        has.top
    } else {
        has.top && has.left
    }
}

/// Whether a chroma mode can be used.
pub fn chroma_mode_available(m: u8, top: bool, left: bool) -> (r: bool)
    ensures
        r == chroma_usable(m as int, (Around { top, left })),
{
    if m == 0 {
        true
    } else if m == 1 {
        left
    } else if m == 2 {
        top
    } else {
        top && left
    }
}

/// The prediction of a chroma plane of a macroblock by a mode.
pub open spec fn chroma_prediction<K: Kernels>(
    k: K,
    rec: Seq<u8>,
    mb_w: int,
    mb_x: int,
    mb_y: int,
    m: u8,
) -> Seq<u8> {
    let (w, x, y) = (8 * mb_w, 8 * mb_x, 8 * mb_y);
    kernels::intrac_of(
        k,
        m,
        mb_around(mb_x, mb_y),
        above(rec, w, x, y, 8),
        beside(rec, w, x, y, 8),
        intra4::corner_at(rec, w, x, y, y > 0 && x > 0),
    )
}

/// The SATD of both chroma planes.
pub open spec fn chroma_cost<K: Kernels>(
    k: K,
    fe: FrameEncoder,
    su: Seq<u8>,
    sv: Seq<u8>,
    mb_x: int,
    mb_y: int,
    m: u8,
) -> int {
    let at = pixels::placed(fe.ccw, (8 * mb_x) as usize, (8 * mb_y) as usize);
    pixels::satd(
        su,
        at,
        chroma_prediction(k, fe.rec_u@, fe.mb_w as int, mb_x, mb_y, m),
        pixels::dense(8),
        2,
        4,
    ) + pixels::satd(
        sv,
        at,
        chroma_prediction(k, fe.rec_v@, fe.mb_w as int, mb_x, mb_y, m),
        pixels::dense(8),
        2,
        4,
    )
}

/// The cheapest usable chroma mode from `m` on, or `best`; the lowest of equals.
pub open spec fn chroma_pick(cost: spec_fn(u8) -> int, has: Around, m: int, best: u8) -> u8
    decreases 4 - m,
{
    if m >= 4 {
        best
    } else if chroma_usable(m, has) && cost(m as u8) < cost(best) {
        chroma_pick(cost, has, m + 1, m as u8)
    } else {
        chroma_pick(cost, has, m + 1, best)
    }
}

/// The chroma mode of a macroblock.
pub open spec fn chroma_mode<K: Kernels>(
    k: K,
    fe: FrameEncoder,
    su: Seq<u8>,
    sv: Seq<u8>,
    mb_x: int,
    mb_y: int,
) -> u8 {
    chroma_pick(
        |m: u8| chroma_cost(k, fe, su, sv, mb_x, mb_y, m),
        mb_around(mb_x, mb_y),
        1,
        0,
    )
}

fn first8(a: &[u8; 16]) -> (r: [u8; 8])
    ensures
        r@ == a@.take(8),
{
    let r: [u8; 8] = [a[0], a[1], a[2], a[3], a[4], a[5], a[6], a[7]];
    assert(r@ =~= a@.take(8));
    r
}

/// The chroma mode of a macroblock, and the predictions of both planes by it.
#[verifier::rlimit(50)]
fn pick_chroma<K: Kernels>(
    k: &K,
    fe: &FrameEncoder,
    su: &[u8],
    sv: &[u8],
    mb_x: usize,
    mb_y: usize,
) -> (r: (u8, [u8; 64], [u8; 64]))
    requires
        kernels::steady(*k),
        fe.wf(),
        fe.has_mb(mb_x as int, mb_y as int),
        su@.len() == fe.rec_u@.len(),
        sv@.len() == fe.rec_v@.len(),
    ensures
        r.0 == chroma_mode(*k, *fe, su@, sv@, mb_x as int, mb_y as int),
        r.1@ == chroma_prediction(
            *k,
            fe.rec_u@,
            fe.mb_w as int,
            mb_x as int,
            mb_y as int,
            r.0,
        ),
        r.2@ == chroma_prediction(
            *k,
            fe.rec_v@,
            fe.mb_w as int,
            mb_x as int,
            mb_y as int,
            r.0,
        ),
{
    let (cx, cy): (usize, usize) = (8 * mb_x, 8 * mb_y);
    let has: Around = Around { top: mb_y > 0, left: mb_x > 0 };
    let (ut, ul, uc): ([u8; 16], [u8; 16], u8) = edges_of(
        &fe.rec_u,
        8 * fe.mb_w,
        8 * fe.mb_h,
        cx,
        cy,
        8,
    );
    let (vt, vl, vc): ([u8; 16], [u8; 16], u8) = edges_of(
        &fe.rec_v,
        8 * fe.mb_w,
        8 * fe.mb_h,
        cx,
        cy,
        8,
    );
    let (ut8, ul8): ([u8; 8], [u8; 8]) = (first8(&ut), first8(&ul));
    let (vt8, vl8): ([u8; 8], [u8; 8]) = (first8(&vt), first8(&vl));
    proof {
        interplan::lemma_source(*fe, su@, 8, mb_x, mb_y);
        interplan::lemma_source(*fe, sv@, 8, mb_x, mb_y);
    }
    let ghost f = |m: u8| chroma_cost(*k, *fe, su@, sv@, mb_x as int, mb_y as int, m);
    let mut mode: u8 = 0;
    let mut pu: [u8; 64] = intrac(k, 0, has, &ut8, &ul8, uc);
    let mut pv: [u8; 64] = intrac(k, 0, has, &vt8, &vl8, vc);
    let mut best: i64 = chroma_satd(su, sv, fe.ccw, cx, cy, &pu, &pv);
    assert(best == f(0));
    let mut m: u8 = 1;
    while m < 4
        invariant
            1 <= m <= 4,
            kernels::steady(*k),
            cx == 8 * mb_x && cy == 8 * mb_y,
            has == mb_around(mb_x as int, mb_y as int),
            quant::square_fits(su@, fe.ccw, cx, cy, 8),
            quant::square_fits(sv@, fe.ccw, cx, cy, 8),
            ut8@ == above(fe.rec_u@, 8 * fe.mb_w, 8 * mb_x, 8 * mb_y, 8),
            ul8@ == beside(fe.rec_u@, 8 * fe.mb_w, 8 * mb_x, 8 * mb_y, 8),
            uc == intra4::corner_at(fe.rec_u@, 8 * fe.mb_w, 8 * mb_x, 8 * mb_y, cy > 0 && cx > 0),
            vt8@ == above(fe.rec_v@, 8 * fe.mb_w, 8 * mb_x, 8 * mb_y, 8),
            vl8@ == beside(fe.rec_v@, 8 * fe.mb_w, 8 * mb_x, 8 * mb_y, 8),
            vc == intra4::corner_at(fe.rec_v@, 8 * fe.mb_w, 8 * mb_x, 8 * mb_y, cy > 0 && cx > 0),
            f == (|m: u8| chroma_cost(*k, *fe, su@, sv@, mb_x as int, mb_y as int, m)),
            best == f(mode),
            pu@ == chroma_prediction(
                *k,
                fe.rec_u@,
                fe.mb_w as int,
                mb_x as int,
                mb_y as int,
                mode,
            ),
            pv@ == chroma_prediction(
                *k,
                fe.rec_v@,
                fe.mb_w as int,
                mb_x as int,
                mb_y as int,
                mode,
            ),
            chroma_pick(f, has, m as int, mode) == chroma_pick(f, has, 1, 0),
        decreases 4 - m,
    {
        if chroma_mode_available(m, has.top, has.left) {
            let qu: [u8; 64] = intrac(k, m, has, &ut8, &ul8, uc);
            let qv: [u8; 64] = intrac(k, m, has, &vt8, &vl8, vc);
            let c: i64 = chroma_satd(su, sv, fe.ccw, cx, cy, &qu, &qv);
            assert(c == f(m));
            if c < best {
                best = c;
                mode = m;
                pu = qu;
                pv = qv;
            }
        }
        m = m + 1;
    }
    (mode, pu, pv)
}

fn chroma_satd(
    su: &[u8],
    sv: &[u8],
    ccw: usize,
    cx: usize,
    cy: usize,
    pu: &[u8; 64],
    pv: &[u8; 64],
) -> (r: i64)
    requires
        quant::square_fits(su@, ccw, cx, cy, 8),
        quant::square_fits(sv@, ccw, cx, cy, 8),
    ensures
        r == pixels::satd(su@, pixels::placed(ccw, cx, cy), pu@, pixels::dense(8), 2, 4)
            + pixels::satd(sv@, pixels::placed(ccw, cx, cy), pv@, pixels::dense(8), 2, 4),
{
    proof {
        let at = pixels::placed(ccw, cx, cy);
        pixels::lemma_satd_bounds(su@, at, pu@, pixels::dense(8), 2, 4);
        pixels::lemma_satd_bounds(sv@, at, pv@, pixels::dense(8), 2, 4);
    }
    satd_8x8(su, ccw, cx, cy, pu) + satd_8x8(sv, ccw, cx, cy, pv)
}

/// How the chroma of an intra macroblock is coded.
pub open spec fn intra_way(fe: FrameEncoder) -> ChromaWay {
    ChromaWay { on: fe.rdoq_on, qpc: fe.qpc, dz: fe.idz, intra: true }
}

/// The I_16x16 part of a plan.
pub struct I16Part {
    pub mode: I16Mode,
    pub dc: Seq<i32>,
    pub q: Seq<[i32; 16]>,
}

impl MbPlan {
    /// The I_16x16 part.
    pub open spec fn i16_part(&self) -> I16Part {
        I16Part { mode: self.i16_mode, dc: self.i16_dc_levels@, q: self.i16_q@ }
    }
}

/// I_4x4 is tried: I_16x16 is not nearly free.
pub open spec fn tries_i4(r: I16Part) -> bool {
    i16_rate(r.dc, r.q) > 2
}

/// The frame's luma while the candidates of a macroblock are tried.
#[verifier::ext_equal]
pub struct LumaView {
    pub rec: Seq<u8>,
    pub coded: Seq<bool>,
    pub modes_y: Seq<u8>,
}

impl FrameEncoder {
    /// The frame's luma.
    pub open spec fn luma(&self) -> LumaView {
        LumaView { rec: self.rec_y@, coded: self.coded_y@, modes_y: self.modes_y@ }
    }
}

/// The I_4x4 plan of a macroblock.
#[verifier::opaque]
pub open spec fn i4_trial<K: Kernels>(k: K, a: FrameEncoder, sy: Seq<u8>, mb_x: int, mb_y: int) -> I4State {
    intra4::i4_run(k, a.i4_ctx(sy, mb_x, mb_y, a.qp), intra4::i4_blank(a), 0)
}

/// The frame's luma after the I_4x4 plan, if there is one.
pub open spec fn after_i4<K: Kernels>(
    k: K,
    a: FrameEncoder,
    sy: Seq<u8>,
    mb_x: int,
    mb_y: int,
    four: bool,
) -> LumaView {
    if four {
        let s = i4_trial(k, a, sy, mb_x, mb_y);
        LumaView { rec: s.rec, coded: s.coded, modes_y: a.modes_y@ }
    } else {
        a.luma()
    }
}

/// The I_8x8 plan of a macroblock, made behind the I_4x4 plan.
#[verifier::opaque]
pub open spec fn i8_trial<K: Kernels>(
    k: K,
    a: FrameEncoder,
    sy: Seq<u8>,
    mb_x: int,
    mb_y: int,
    four: bool,
) -> I8State {
    let l = after_i4(k, a, sy, mb_x, mb_y, four);
    intra8::i8_run(
        k,
        a.i8_ctx(sy, mb_x, mb_y, a.qp),
        I8State {
            rec: l.rec,
            coded: l.coded,
            modes_y: l.modes_y,
            modes: Seq::new(4, |i: int| 2u8),
            q: Seq::new(4, |i: int| Seq::new(64, |j: int| 0i32)),
        },
        0,
    )
}

/// The frame's luma after both plans.
pub open spec fn after_i8<K: Kernels>(
    k: K,
    a: FrameEncoder,
    sy: Seq<u8>,
    mb_x: int,
    mb_y: int,
    four: bool,
) -> LumaView {
    if a.transform_8x8 {
        let s = i8_trial(k, a, sy, mb_x, mb_y, four);
        LumaView { rec: s.rec, coded: s.coded, modes_y: s.modes_y }
    } else {
        after_i4(k, a, sy, mb_x, mb_y, four)
    }
}

/// The distortion of the samples that a trial has left in the frame.
pub open spec fn trial_ssd(a: FrameEncoder, sy: Seq<u8>, rec: Seq<u8>, mb_x: int, mb_y: int) -> int {
    interplan::mb_distance(
        rect::block(rec, 16 * a.mb_w, 16 * mb_x, 16 * mb_y, 16, 16),
        sy,
        a.cw,
        (16 * mb_x) as usize,
        (16 * mb_y) as usize,
    )
}

/// Distortion and rate of the I_4x4 plan.
pub open spec fn rd4<K: Kernels>(k: K, a: FrameEncoder, sy: Seq<u8>, mb_x: int, mb_y: int) -> Rd {
    let s = i4_trial(k, a, sy, mb_x, mb_y);
    Rd {
        ssd: trial_ssd(a, sy, s.rec, mb_x, mb_y) as i64,
        rate: (intra4::total_levels(s.q, 0, 16) + 16) as i64,
    }
}

/// Distortion and rate of the I_8x8 plan.
pub open spec fn rd8<K: Kernels>(
    k: K,
    a: FrameEncoder,
    sy: Seq<u8>,
    mb_x: int,
    mb_y: int,
    four: bool,
) -> Rd {
    let s = i8_trial(k, a, sy, mb_x, mb_y, four);
    Rd {
        ssd: trial_ssd(a, sy, s.rec, mb_x, mb_y) as i64,
        rate: (intra8::total_levels8(s.q, 4) + 16) as i64,
    }
}

/// Distortion and rate of I_16x16.
#[verifier::opaque]
pub open spec fn rd16<K: Kernels>(
    k: K,
    a: FrameEncoder,
    sy: Seq<u8>,
    mb_x: int,
    mb_y: int,
    r: I16Part,
) -> Rd {
    let pred = i16_prediction(k, a, mb_x, mb_y, r.mode);
    let rec = i16_samples(k, a.qp, r.dc, r.q, pred);
    Rd {
        ssd: interplan::mb_distance(
            rec,
            sy,
            a.cw,
            (16 * mb_x) as usize,
            (16 * mb_y) as usize,
        ) as i64,
        rate: i16_rate(r.dc, r.q) as i64,
    }
}

/// I_8x8 wins: it is tried and costs no more than either of the others.
#[verifier::opaque]
pub open spec fn wins8<K: Kernels>(
    k: K,
    a: FrameEncoder,
    sy: Seq<u8>,
    mb_x: int,
    mb_y: int,
    r: I16Part,
) -> bool {
    let four = tries_i4(r);
    let j8 = rd8(k, a, sy, mb_x, mb_y, four);
    &&& a.transform_8x8
    &&& four ==> kernels::rd_at_most_of(k, a.qp, j8, rd4(k, a, sy, mb_x, mb_y))
    &&& kernels::rd_at_most_of(k, a.qp, j8, rd16(k, a, sy, mb_x, mb_y, r))
}

/// I_4x4 wins: I_8x8 does not, and it costs less than I_16x16.
#[verifier::opaque]
pub open spec fn wins4<K: Kernels>(
    k: K,
    a: FrameEncoder,
    sy: Seq<u8>,
    mb_x: int,
    mb_y: int,
    r: I16Part,
) -> bool {
    &&& !wins8(k, a, sy, mb_x, mb_y, r)
    &&& tries_i4(r)
    &&& kernels::rd_less_of(k, a.qp, rd4(k, a, sy, mb_x, mb_y), rd16(k, a, sy, mb_x, mb_y, r))
}

/// The frame's luma after the macroblock.
pub open spec fn luma_after<K: Kernels>(
    k: K,
    a: FrameEncoder,
    sy: Seq<u8>,
    mb_x: int,
    mb_y: int,
    r: I16Part,
) -> LumaView {
    let four = tries_i4(r);
    let l = after_i8(k, a, sy, mb_x, mb_y, four);
    let (w, w4) = (16 * a.mb_w, 4 * a.mb_w);
    let (x, y, bx, by) = (16 * mb_x, 16 * mb_y, 4 * mb_x, 4 * mb_y);
    let s4 = i4_trial(k, a, sy, mb_x, mb_y);
    LumaView {
        rec: if wins8(k, a, sy, mb_x, mb_y, r) {
            l.rec
        } else if wins4(k, a, sy, mb_x, mb_y, r) {
            rect::put_block(l.rec, w, x, y, 16, 16, rect::block(s4.rec, w, x, y, 16, 16))
        } else {
            rect::put_block(
                l.rec,
                w,
                x,
                y,
                16,
                16,
                i16_samples(
                    k,
                    a.qp,
                    r.dc,
                    r.q,
                    i16_prediction(k, a, mb_x, mb_y, r.mode),
                ),
            )
        },
        modes_y: if wins8(k, a, sy, mb_x, mb_y, r) {
            l.modes_y
        } else if wins4(k, a, sy, mb_x, mb_y, r) {
            rect::put_block(l.modes_y, w4, bx, by, 4, 4, s4.modes)
        } else {
            rect::fill(l.modes_y, w4, bx, by, 4, 4, 2u8)
        },
        coded: rect::fill(l.coded, w4, bx, by, 4, 4, true),
    }
}

/// The luma of a plan: I_16x16 in any case, and what I_8x8 or I_4x4 has won with.
pub open spec fn luma_planned<K: Kernels>(
    k: K,
    a: FrameEncoder,
    sy: Seq<u8>,
    mb_x: int,
    mb_y: int,
    r: MbPlan,
) -> bool {
    let pred = i16_prediction(k, a, mb_x, mb_y, r.i16_mode);
    let part = r.i16_part();
    let (w8, w4) = (wins8(k, a, sy, mb_x, mb_y, part), wins4(k, a, sy, mb_x, mb_y, part));
    let s4 = i4_trial(k, a, sy, mb_x, mb_y);
    let s8 = i8_trial(k, a, sy, mb_x, mb_y, tries_i4(part));
    &&& r.i16_mode == i16_mode(k, a, sy, mb_x, mb_y)
    &&& forall|i: int|
        0 <= i < 16 ==> (#[trigger] r.i16_q@[i])@ == i16_levels(k, a, sy, mb_x, mb_y, pred, i)
    &&& quant::ac_only(r.i16_q@, 16)
    &&& r.i16_dc_levels@ == i16_dc(k, a, sy, mb_x, mb_y, pred)
    &&& r.i16_cbp15 == i16_any_ac(r.i16_q@)
    &&& r.use_i4 == (w8 || w4)
    &&& r.i8 is Some == w8
    &&& r.i8 matches Some(p) ==> {
        &&& p.modes@ == s8.modes
        &&& intra8::q8_views(p.q@) == s8.q
        &&& p.cbp_luma == quant::luma8_pattern(p.q@)
        &&& p.nonzero == intra8::total_levels8(s8.q, 4)
    }
    &&& r.i4 is Some == w4
    &&& r.i4 matches Some(p) ==> {
        &&& p.modes@ == s4.modes
        &&& intra4::q_views(p.q@) == s4.q
        &&& p.cbp_luma == quant::luma_pattern(p.q@)
        &&& p.nonzero == intra4::total_levels(s4.q, 0, 16)
    }
}

/// Some AC level of a chroma plane is not zero.
pub open spec fn plane_any_ac(q: Seq<[i32; 16]>) -> bool {
    quant::any_level(q[0]@, 1) || quant::any_level(q[1]@, 1) || quant::any_level(q[2]@, 1)
        || quant::any_level(q[3]@, 1)
}

/// The chroma of a plan, and what it leaves in the frame.
pub open spec fn chroma_planned<K: Kernels>(
    k: K,
    a: FrameEncoder,
    b: FrameEncoder,
    su: Seq<u8>,
    sv: Seq<u8>,
    mb_x: int,
    mb_y: int,
    r: MbPlan,
) -> bool {
    let way = intra_way(a);
    let w = a.mb_w as int;
    let (cx, cy) = ((8 * mb_x) as usize, (8 * mb_y) as usize);
    let pu = chroma_prediction(k, a.rec_u@, w, mb_x, mb_y, r.chroma_mode);
    let pv = chroma_prediction(k, a.rec_v@, w, mb_x, mb_y, r.chroma_mode);
    &&& r.chroma_mode == chroma_mode(k, a, su, sv, mb_x, mb_y)
    &&& r.c_dc_levels@[0]@ == quant::chroma_dc(k, way, su, a.ccw, cx, cy, pu)
    &&& r.c_dc_levels@[1]@ == quant::chroma_dc(k, way, sv, a.ccw, cx, cy, pv)
    &&& forall|i: int|
        0 <= i < 4 ==> (#[trigger] r.c_q_blocks@[0]@[i])@ == quant::chroma_levels(
            k,
            way,
            su,
            a.ccw,
            cx,
            cy,
            pu,
            i,
        )
    &&& forall|i: int|
        0 <= i < 4 ==> (#[trigger] r.c_q_blocks@[1]@[i])@ == quant::chroma_levels(
            k,
            way,
            sv,
            a.ccw,
            cx,
            cy,
            pv,
            i,
        )
    &&& quant::ac_only(r.c_q_blocks@[0]@, 4)
    &&& quant::ac_only(r.c_q_blocks@[1]@, 4)
    &&& r.cbp_chroma == (if plane_any_ac(r.c_q_blocks@[0]@) || plane_any_ac(r.c_q_blocks@[1]@) {
        2int
    } else if quant::any_level(r.c_dc_levels@[0]@, 0) || quant::any_level(r.c_dc_levels@[1]@, 0) {
        1
    } else {
        0
    })
    &&& b.rec_u@ == rect::put_block(
        a.rec_u@,
        8 * w,
        8 * mb_x,
        8 * mb_y,
        8,
        8,
        quant::chroma_samples(k, a.qpc, r.c_dc_levels@[0]@, r.c_q_blocks@[0]@, pu),
    )
    &&& b.rec_v@ == rect::put_block(
        a.rec_v@,
        8 * w,
        8 * mb_x,
        8 * mb_y,
        8,
        8,
        quant::chroma_samples(k, a.qpc, r.c_dc_levels@[1]@, r.c_q_blocks@[1]@, pv),
    )
}

/// Coded chroma of an intra macroblock.
struct IntraChroma {
    mode: u8,
    u: ChromaCode,
    v: ChromaCode,
}

/// Code the chroma of an intra macroblock.
fn code_intra_chroma<K: Kernels>(
    k: &K,
    fe: &FrameEncoder,
    su: &[u8],
    sv: &[u8],
    mb_x: usize,
    mb_y: usize,
) -> (r: IntraChroma)
    requires
        kernels::steady(*k),
        fe.wf(),
        fe.has_mb(mb_x as int, mb_y as int),
        su@.len() == fe.rec_u@.len(),
        sv@.len() == fe.rec_v@.len(),
    ensures
        r.mode == chroma_mode(*k, *fe, su@, sv@, mb_x as int, mb_y as int),
        r.u.codes(
            *k,
            intra_way(*fe),
            su@,
            fe.ccw,
            (8 * mb_x) as usize,
            (8 * mb_y) as usize,
            chroma_prediction(*k, fe.rec_u@, fe.mb_w as int, mb_x as int, mb_y as int, r.mode),
        ),
        r.v.codes(
            *k,
            intra_way(*fe),
            sv@,
            fe.ccw,
            (8 * mb_x) as usize,
            (8 * mb_y) as usize,
            chroma_prediction(*k, fe.rec_v@, fe.mb_w as int, mb_x as int, mb_y as int, r.mode),
        ),
{
    proof {
        interplan::lemma_source(*fe, su@, 8, mb_x, mb_y);
        interplan::lemma_source(*fe, sv@, 8, mb_x, mb_y);
    }
    let (mode, pu, pv): (u8, [u8; 64], [u8; 64]) = pick_chroma(k, fe, su, sv, mb_x, mb_y);
    let way: ChromaWay = ChromaWay { on: fe.rdoq_on, qpc: fe.qpc, dz: fe.idz, intra: true };
    let u: ChromaCode = code_chroma(k, way, su, fe.ccw, 8 * mb_x, 8 * mb_y, &pu);
    let v: ChromaCode = code_chroma(k, way, sv, fe.ccw, 8 * mb_x, 8 * mb_y, &pv);
    IntraChroma { mode, u, v }
}

/// The samples of a macroblock in the frame, and their distance to the source.
fn trial_of(fe: &FrameEncoder, sy: &[u8], mb_x: usize, mb_y: usize) -> (r: (Vec<u8>, i64))
    requires
        fe.wf(),
        fe.has_mb(mb_x as int, mb_y as int),
        sy@.len() == fe.rec_y@.len(),
    ensures
        r.0@ == rect::block(fe.rec_y@, 16 * fe.mb_w, 16 * mb_x, 16 * mb_y, 16, 16),
        r.0@.len() == 256,
        r.1 == trial_ssd(*fe, sy@, fe.rec_y@, mb_x as int, mb_y as int),
        0 <= r.1 <= 65025 * 256,
{
    let rec: Vec<u8> = get_rect(
        &fe.rec_y,
        16 * fe.mb_w,
        16 * fe.mb_h,
        16 * mb_x,
        16 * mb_y,
        16,
        16,
    );
    proof {
        interplan::lemma_source(*fe, sy@, 16, mb_x, mb_y);
    }
    let d: i64 = square_ssd(&rec, sy, fe.cw, 16 * mb_x, 16 * mb_y);
    (rec, d)
}

/// The I_4x4 and I_8x8 plans of a macroblock.
struct Trials {
    i4: Option<I4Plan>,
    rec4: Vec<u8>,
    j4: Rd,
    i8: Option<I8Plan>,
    j8: Rd,
}

/// Make the I_4x4 plan, if it is wanted, and the I_8x8 plan, if the frame has it.
fn try_luma<K: Kernels>(
    k: &K,
    fe: &mut FrameEncoder,
    sy: &[u8],
    mb_x: usize,
    mb_y: usize,
    four: bool,
) -> (t: Trials)
    requires
        kernels::steady(*k),
        old(fe).wf(),
        old(fe).has_mb(mb_x as int, mb_y as int),
        sy@.len() == old(fe).rec_y@.len(),
    ensures
        final(fe).luma() == after_i8(*k, *old(fe), sy@, mb_x as int, mb_y as int, four),
        t.i4 is Some == four,
        t.i4 matches Some(p) ==> {
            let s4 = i4_trial(*k, *old(fe), sy@, mb_x as int, mb_y as int);
            &&& p.modes@ == s4.modes
            &&& intra4::q_views(p.q@) == s4.q
            &&& p.cbp_luma == quant::luma_pattern(p.q@)
            &&& p.cbp_luma < 16
            &&& p.nonzero == intra4::total_levels(s4.q, 0, 16)
            &&& t.rec4@ == rect::block(
                s4.rec,
                16 * old(fe).mb_w,
                16 * mb_x,
                16 * mb_y,
                16,
                16,
            )
            &&& t.rec4@.len() == 256
            &&& t.j4 == rd4(*k, *old(fe), sy@, mb_x as int, mb_y as int)
        },
        t.i8 is Some == old(fe).transform_8x8,
        t.i8 matches Some(p) ==> {
            let s8 = i8_trial(*k, *old(fe), sy@, mb_x as int, mb_y as int, four);
            &&& p.modes@ == s8.modes
            &&& intra8::q8_views(p.q@) == s8.q
            &&& p.cbp_luma == quant::luma8_pattern(p.q@)
            &&& p.wf()
            &&& p.nonzero == intra8::total_levels8(s8.q, 4)
            &&& t.j8 == rd8(*k, *old(fe), sy@, mb_x as int, mb_y as int, four)
        },
        *final(fe) == (FrameEncoder {
            rec_y: final(fe).rec_y,
            coded_y: final(fe).coded_y,
            modes_y: final(fe).modes_y,
            ..*old(fe)
        }),
        final(fe).wf(),
{
    reveal(i4_trial);
    reveal(i8_trial);
    let ghost a = *fe;
    let ghost (gx, gy) = (mb_x as int, mb_y as int);
    let qp: u8 = fe.qp;
    let mut t: Trials = Trials {
        i4: None,
        rec4: Vec::new(),
        j4: Rd { ssd: 0, rate: 0 },
        i8: None,
        j8: Rd { ssd: 0, rate: 0 },
    };
    if four {
        let p: I4Plan = plan_i4x4(k, fe, sy, mb_x, mb_y, qp);
        let (rec, d): (Vec<u8>, i64) = trial_of(fe, sy, mb_x, mb_y);
        t.rec4 = rec;
        t.j4 = Rd { ssd: d, rate: p.nonzero + 16 };
        t.i4 = Some(p);
    }
    assert(fe.luma() =~= after_i4(*k, a, sy@, gx, gy, four));
    if fe.transform_8x8 {
        let p: I8Plan = plan_i8x8(k, fe, sy, mb_x, mb_y, qp);
        let (_, d): (Vec<u8>, i64) = trial_of(fe, sy, mb_x, mb_y);
        t.j8 = Rd { ssd: d, rate: p.nonzero + 16 };
        t.i8 = Some(p);
    }
    assert(fe.luma() =~= after_i8(*k, a, sy@, gx, gy, four));
    t
}

/// The plan of an intra macroblock's luma, left in the frame.
fn plan_luma<K: Kernels>(
    k: &K,
    fe: &mut FrameEncoder,
    sy: &[u8],
    mb_x: usize,
    mb_y: usize,
    e: &I16Code,
    p: &mut MbPlan,
)
    requires
        kernels::steady(*k),
        old(fe).wf(),
        old(fe).has_mb(mb_x as int, mb_y as int),
        sy@.len() == old(fe).rec_y@.len(),
        e.codes(*k, *old(fe), sy@, mb_x as int, mb_y as int),
        old(p).i16_mode == e.mode,
        old(p).i16_q == e.q,
        old(p).i16_dc_levels == e.dc,
        old(p).i16_cbp15 == e.cbp15,
    ensures
        luma_planned(*k, *old(fe), sy@, mb_x as int, mb_y as int, *final(p)),
        final(fe).luma() == luma_after(
            *k,
            *old(fe),
            sy@,
            mb_x as int,
            mb_y as int,
            final(p).i16_part(),
        ),
        *final(p) == (MbPlan {
            use_i4: final(p).use_i4,
            i4: final(p).i4,
            i8: final(p).i8,
            ..*old(p)
        }),
        final(p).i8 matches Some(q) ==> q.wf(),
        final(p).i4 matches Some(q) ==> q.cbp_luma < 16,
        *final(fe) == (FrameEncoder {
            rec_y: final(fe).rec_y,
            coded_y: final(fe).coded_y,
            modes_y: final(fe).modes_y,
            ..*old(fe)
        }),
        final(fe).wf(),
{
    let ghost a = *fe;
    let ghost (gx, gy) = (mb_x as int, mb_y as int);
    let (w, h): (usize, usize) = (fe.mb_w, fe.mb_h);
    let ghost part = p.i16_part();
    let four: bool = e.rate > 2;
    assert(four == tries_i4(part));
    let qp: u8 = fe.qp;
    let t: Trials = try_luma(k, fe, sy, mb_x, mb_y, four);
    let j16: Rd = Rd { ssd: e.ssd, rate: e.rate };
    assert(j16 == rd16(*k, a, sy@, gx, gy, part)) by {
        reveal(rd16);
    }
    let win8: bool = t.i8.is_some() && (!four || rd_at_most(k, qp, t.j8, t.j4)) && rd_at_most(
        k,
        qp,
        t.j8,
        j16,
    );
    assert(win8 == wins8(*k, a, sy@, gx, gy, part)) by {
        reveal(wins8);
    }
    let win4: bool = !win8 && four && rd_less(k, qp, t.j4, j16);
    assert(win4 == wins4(*k, a, sy@, gx, gy, part)) by {
        reveal(wins4);
    }
    if win8 {
        p.i4 = None;
        p.i8 = t.i8;
    } else if win4 {
        put_rect(&mut fe.rec_y, 16 * w, 16 * h, 16 * mb_x, 16 * mb_y, 16, 16, &t.rec4);
        if let Some(q) = &t.i4 {
            put_rect(&mut fe.modes_y, 4 * w, 4 * h, 4 * mb_x, 4 * mb_y, 4, 4, &q.modes);
        }
        p.i4 = t.i4;
        p.i8 = None;
    } else {
        put_rect(&mut fe.rec_y, 16 * w, 16 * h, 16 * mb_x, 16 * mb_y, 16, 16, &e.rec);
        fill_rect(&mut fe.modes_y, 4 * w, 4 * h, 4 * mb_x, 4 * mb_y, 4, 4, 2);
        p.i4 = None;
        p.i8 = None;
    }
    p.use_i4 = win8 || win4;
    fill_rect(&mut fe.coded_y, 4 * w, 4 * h, 4 * mb_x, 4 * mb_y, 4, 4, true);
    assert(fe.luma() =~= luma_after(*k, a, sy@, gx, gy, part));
}

/// Plan an intra macroblock: the luma type, the prediction modes and all levels. Its samples
/// and modes are left in the frame.
pub fn plan_mb<K: Kernels>(
    k: &K,
    fe: &mut FrameEncoder,
    mb_x: usize,
    mb_y: usize,
    sy: &[u8],
    su: &[u8],
    sv: &[u8],
) -> (r: MbPlan)
    requires
        kernels::steady(*k),
        old(fe).wf(),
        old(fe).has_mb(mb_x as int, mb_y as int),
        interplan::source_ok(*old(fe), sy@, su@, sv@),
    ensures
        luma_planned(*k, *old(fe), sy@, mb_x as int, mb_y as int, r),
        final(fe).luma() == luma_after(*k, *old(fe), sy@, mb_x as int, mb_y as int, r.i16_part()),
        chroma_planned(*k, *old(fe), *final(fe), su@, sv@, mb_x as int, mb_y as int, r),
        *final(fe) == (FrameEncoder {
            rec_y: final(fe).rec_y,
            rec_u: final(fe).rec_u,
            rec_v: final(fe).rec_v,
            coded_y: final(fe).coded_y,
            modes_y: final(fe).modes_y,
            ..*old(fe)
        }),
        forall|i: int| 0 <= i < 16 ==> (#[trigger] r.i16_q@[i])@[0] == 0,
        forall|i: int| 0 <= i < 4 ==> (#[trigger] r.c_q_blocks@[0]@[i])@[0] == 0,
        forall|i: int| 0 <= i < 4 ==> (#[trigger] r.c_q_blocks@[1]@[i])@[0] == 0,
        r.wf(),
        final(fe).wf(),
{
    let ghost a = *fe;
    let (w, h): (usize, usize) = (fe.mb_w, fe.mb_h);
    let e: I16Code = code_i16(k, fe, sy, mb_x, mb_y);
    let c: IntraChroma = code_intra_chroma(k, fe, su, sv, mb_x, mb_y);
    let cbp_chroma: u32 = chroma_pattern_of(&c.u, &c.v);
    let mut p: MbPlan = MbPlan {
        use_i4: false,
        i16_mode: e.mode,
        i16_cbp15: e.cbp15,
        i16_dc_levels: e.dc,
        i16_q: e.q,
        i4: None,
        i8: None,
        chroma_mode: c.mode,
        cbp_chroma,
        c_dc_levels: [c.u.dc, c.v.dc],
        c_q_blocks: [c.u.q, c.v.q],
    };
    plan_luma(k, fe, sy, mb_x, mb_y, &e, &mut p);
    put_rect(&mut fe.rec_u, 8 * w, 8 * h, 8 * mb_x, 8 * mb_y, 8, 8, &c.u.rec);
    put_rect(&mut fe.rec_v, 8 * w, 8 * h, 8 * mb_x, 8 * mb_y, 8, 8, &c.v.rec);
    proof {
        assert(plane_any_ac(p.c_q_blocks@[0]@) == c.u.any_ac());
        assert(plane_any_ac(p.c_q_blocks@[1]@) == c.v.any_ac());
    }
    p
}

} // verus!
