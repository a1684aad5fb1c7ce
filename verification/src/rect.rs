//! Rectangles of raster grids: reading, filling and writing them.
use vstd::prelude::*;
use vstd::arithmetic::div_mod::*;
use crate::grid;
use crate::grid::cell_at;

verus! {

/// Raster position `i` of a grid `w` wide lies in the rectangle.
pub open spec fn inside(w: int, x0: int, y0: int, rw: int, rh: int, i: int) -> bool {
    x0 <= i % w < x0 + rw && y0 <= i / w < y0 + rh
}

/// The grid `g` with `f(dx, dy)` at each cell of the rectangle.
pub open spec fn put<T>(
    g: Seq<T>,
    w: int,
    x0: int,
    y0: int,
    rw: int,
    rh: int,
    f: spec_fn(int, int) -> T,
) -> Seq<T> {
    Seq::new(
        g.len(),
        |i: int|
            if inside(w, x0, y0, rw, rh, i) {
                f(i % w - x0, i / w - y0)
            } else {
                g[i]
            },
    )
}

/// The grid `g` with the raster block `src` at the rectangle.
pub open spec fn put_block<T>(
    g: Seq<T>,
    w: int,
    x0: int,
    y0: int,
    rw: int,
    rh: int,
    src: Seq<T>,
) -> Seq<T> {
    put(g, w, x0, y0, rw, rh, |dx: int, dy: int| src[dy * rw + dx])
}

/// The grid `g` with `v` at each cell of the rectangle.
pub open spec fn fill<T>(g: Seq<T>, w: int, x0: int, y0: int, rw: int, rh: int, v: T) -> Seq<T> {
    put(g, w, x0, y0, rw, rh, |dx: int, dy: int| v)
}

/// The rectangle as a raster block.
pub open spec fn block<T>(g: Seq<T>, w: int, x0: int, y0: int, rw: int, rh: int) -> Seq<T> {
    Seq::new((rw * rh) as nat, |k: int| g[grid::cell(w, x0 + k % rw, y0 + k / rw)])
}

/// The rectangle lies in a grid of `w` by `h` cells.
pub open spec fn fits(w: int, h: int, x0: int, y0: int, rw: int, rh: int) -> bool {
    0 <= x0 && 0 <= y0 && 0 < rw && 0 < rh && x0 + rw <= w && y0 + rh <= h
}

/// The step `k` of a raster walk over the rectangle, at `(k % rw, k / rw)`.
proof fn lemma_walk(w: int, h: int, x0: int, y0: int, rw: int, rh: int, k: int)
    requires
        fits(w, h, x0, y0, rw, rh),
        0 <= k < rw * rh,
    ensures
        0 <= k % rw < rw,
        0 <= k / rw < rh,
        k == (k / rw) * rw + k % rw,
        0 <= grid::cell(w, x0 + k % rw, y0 + k / rw) < w * h,
        ({
            let c = grid::cell(w, x0 + k % rw, y0 + k / rw);
            c % w == x0 + k % rw && c / w == y0 + k / rw
        }),
{
    lemma_fundamental_div_mod(k, rw);
    lemma_mod_bound(k, rw);
    assert((k / rw) * rw == rw * (k / rw)) by (nonlinear_arith);
    lemma_div_pos_is_pos(k, rw);
    assert(k / rw < rh) by {
        lemma_multiply_divide_lt(k, rw, rh);
    }
    grid::lemma_cell(w, h, x0 + k % rw, y0 + k / rw);
}

/// A cell of the rectangle is visited by exactly one step.
proof fn lemma_visit(w: int, h: int, x0: int, y0: int, rw: int, rh: int, i: int)
    requires
        fits(w, h, x0, y0, rw, rh),
        0 <= i < w * h,
        inside(w, x0, y0, rw, rh, i),
    ensures
        ({
            let k = (i / w - y0) * rw + (i % w - x0);
            &&& 0 <= k < rw * rh
            &&& k % rw == i % w - x0
            &&& k / rw == i / w - y0
            &&& i == grid::cell(w, x0 + k % rw, y0 + k / rw)
        }),
{
    grid::lemma_cell(rw, rh, i % w - x0, i / w - y0);
    lemma_fundamental_div_mod(i, w);
    assert((i / w) * w == w * (i / w)) by (nonlinear_arith);
}

/// Write a raster block into a rectangle of a grid.
#[verifier::rlimit(50)]
pub fn put_rect<T: Copy>(
    g: &mut Vec<T>,
    w: usize,
    h: usize,
    x0: usize,
    y0: usize,
    rw: usize,
    rh: usize,
    src: &[T],
)
    requires
        fits(w as int, h as int, x0 as int, y0 as int, rw as int, rh as int),
        old(g)@.len() == w * h,
        rw * rh <= src@.len(),
    ensures
        final(g)@ == put_block(
            old(g)@,
            w as int,
            x0 as int,
            y0 as int,
            rw as int,
            rh as int,
            src@,
        ),
{
    let ghost (wi, hi, xi, yi, ri, si) = (
        w as int,
        h as int,
        x0 as int,
        y0 as int,
        rw as int,
        rh as int,
    );
    assert(0 <= ri * si <= usize::MAX) by {
        assert(src.len() == src@.len());
        assert(0 <= ri * si) by (nonlinear_arith)
            requires
                ri > 0,
                si > 0,
        ;
    }
    let n: usize = rw * rh;
    let mut k: usize = 0;
    let mut dx: usize = 0;
    let mut dy: usize = 0;
    proof {
        lemma_small_mod(0, rw as nat);
        lemma_basic_div(0, ri);
    }
    while k < n
        invariant
            n == rw * rh,
            k <= n,
            wi == w && hi == h && xi == x0 && yi == y0 && ri == rw && si == rh,
            fits(wi, hi, xi, yi, ri, si),
            old(g)@.len() == wi * hi,
            g@.len() == wi * hi,
            n <= src@.len(),
            dx == (k as int) % ri,
            dy == (k as int) / ri,
            forall|i: int|
                0 <= i < wi * hi ==> #[trigger] g@[i] == (if inside(wi, xi, yi, ri, si, i) && (i / wi
                    - yi) * ri + (i % wi - xi) < k {
                    src@[(i / wi - yi) * ri + (i % wi - xi)]
                } else {
                    old(g)@[i]
                }),
        decreases n - k,
    {
        let ghost before = g@;
        proof {
            lemma_walk(wi, hi, xi, yi, ri, si, k as int);
        }
        let c: usize = cell_at(w, x0 + dx, y0 + dy, g.len());
        g[c] = src[k];
        proof {
            assert forall|i: int| 0 <= i < wi * hi implies #[trigger] g@[i] == (if inside(
                wi,
                xi,
                yi,
                ri,
                si,
                i,
            ) && (i / wi - yi) * ri + (i % wi - xi) < k + 1 {
                src@[(i / wi - yi) * ri + (i % wi - xi)]
            } else {
                old(g)@[i]
            }) by {
                if inside(wi, xi, yi, ri, si, i) {
                    lemma_visit(wi, hi, xi, yi, ri, si, i);
                }
                assert(before[i] == before[i]);
            }
            if k + 1 < n {
                lemma_walk(wi, hi, xi, yi, ri, si, k + 1);
            }
            lemma_step(k as int, ri);
        }
        k = k + 1;
        if dx + 1 == rw {
            dx = 0;
            dy = dy + 1;
        } else {
            dx = dx + 1;
        }
    }
    proof {
        let f = |dx: int, dy: int| src@[dy * ri + dx];
        let t = put_block(old(g)@, wi, xi, yi, ri, si, src@);
        assert forall|i: int| 0 <= i < wi * hi implies g@[i] == t[i] by {
            if inside(wi, xi, yi, ri, si, i) {
                lemma_visit(wi, hi, xi, yi, ri, si, i);
            }
        }
        assert(g@ =~= t);
    }
}

/// One step of counting in rows of `r`.
proof fn lemma_step(k: int, r: int)
    requires
        0 <= k,
        0 < r,
    ensures
        k % r + 1 == r ==> (k + 1) % r == 0 && (k + 1) / r == k / r + 1,
        k % r + 1 != r ==> (k + 1) % r == k % r + 1 && (k + 1) / r == k / r,
{
    lemma_fundamental_div_mod(k, r);
    lemma_mod_bound(k, r);
    let q = k / r;
    let m = k % r;
    if m + 1 == r {
        assert(k + 1 == r * (q + 1)) by (nonlinear_arith)
            requires
                k == r * q + m,
                m + 1 == r,
        ;
        assert(r * (q + 1) == (q + 1) * r) by (nonlinear_arith);
        lemma_fundamental_div_mod_converse(k + 1, r, q + 1, 0);
    } else {
        assert(r * q == q * r) by (nonlinear_arith);
        lemma_fundamental_div_mod_converse(k + 1, r, q, m + 1);
    }
}

/// Set every cell of a rectangle of a grid to `v`.
#[verifier::rlimit(50)]
pub fn fill_rect<T: Copy>(
    g: &mut Vec<T>,
    w: usize,
    h: usize,
    x0: usize,
    y0: usize,
    rw: usize,
    rh: usize,
    v: T,
)
    requires
        fits(w as int, h as int, x0 as int, y0 as int, rw as int, rh as int),
        old(g)@.len() == w * h,
    ensures
        final(g)@ == fill(old(g)@, w as int, x0 as int, y0 as int, rw as int, rh as int, v),
{
    let ghost (wi, hi, xi, yi, ri, si) = (
        w as int,
        h as int,
        x0 as int,
        y0 as int,
        rw as int,
        rh as int,
    );
    let mut dy: usize = 0;
    while dy < rh
        invariant
            dy <= rh,
            wi == w && hi == h && xi == x0 && yi == y0 && ri == rw && si == rh,
            fits(wi, hi, xi, yi, ri, si),
            old(g)@.len() == wi * hi,
            g@.len() == wi * hi,
            forall|i: int|
                0 <= i < wi * hi ==> #[trigger] g@[i] == (if inside(wi, xi, yi, ri, dy as int, i) {
                    v
                } else {
                    old(g)@[i]
                }),
        decreases rh - dy,
    {
        let mut dx: usize = 0;
        while dx < rw
            invariant
                dx <= rw,
                dy < rh,
                wi == w && hi == h && xi == x0 && yi == y0 && ri == rw && si == rh,
                fits(wi, hi, xi, yi, ri, si),
                old(g)@.len() == wi * hi,
                g@.len() == wi * hi,
                forall|i: int|
                    0 <= i < wi * hi ==> #[trigger] g@[i] == (if inside(
                        wi,
                        xi,
                        yi,
                        ri,
                        dy as int,
                        i,
                    ) || (i / wi == yi + dy && xi <= i % wi < xi + dx) {
                        v
                    } else {
                        old(g)@[i]
                    }),
            decreases rw - dx,
        {
            proof {
                grid::lemma_cell(wi, hi, xi + dx, yi + dy);
            }
            let c: usize = cell_at(w, x0 + dx, y0 + dy, g.len());
            g[c] = v;
            proof {
                assert forall|i: int| 0 <= i < wi * hi implies #[trigger] g@[i] == (if inside(
                    wi,
                    xi,
                    yi,
                    ri,
                    dy as int,
                    i,
                ) || (i / wi == yi + dy && xi <= i % wi < xi + dx + 1) {
                    v
                } else {
                    old(g)@[i]
                }) by {
                    lemma_fundamental_div_mod(i, wi);
                    assert((i / wi) * wi == wi * (i / wi)) by (nonlinear_arith);
                }
            }
            dx = dx + 1;
        }
        dy = dy + 1;
    }
    assert(g@ =~= fill(old(g)@, wi, xi, yi, ri, si, v));
}

/// Read a rectangle of a grid as a raster block.
#[verifier::rlimit(50)]
pub fn get_rect<T: Copy>(
    g: &Vec<T>,
    w: usize,
    h: usize,
    x0: usize,
    y0: usize,
    rw: usize,
    rh: usize,
) -> (r: Vec<T>)
    requires
        fits(w as int, h as int, x0 as int, y0 as int, rw as int, rh as int),
        g@.len() == w * h,
    ensures
        r@ == block(g@, w as int, x0 as int, y0 as int, rw as int, rh as int),
{
    let ghost (wi, hi, xi, yi, ri, si) = (
        w as int,
        h as int,
        x0 as int,
        y0 as int,
        rw as int,
        rh as int,
    );
    let mut r: Vec<T> = Vec::new();
    let mut dy: usize = 0;
    assert(ri * 0 == 0);
    while dy < rh
        invariant
            dy <= rh,
            wi == w && hi == h && xi == x0 && yi == y0 && ri == rw && si == rh,
            fits(wi, hi, xi, yi, ri, si),
            g@.len() == wi * hi,
            r@ == block(g@, wi, xi, yi, ri, dy as int),
        decreases rh - dy,
    {
        let ghost d = dy as int;
        assert(0 <= ri * d) by (nonlinear_arith)
            requires
                ri > 0,
                d >= 0,
        ;
        let mut dx: usize = 0;
        while dx < rw
            invariant
                dx <= rw,
                dy < rh,
                d == dy,
                0 <= ri * d,
                wi == w && hi == h && xi == x0 && yi == y0 && ri == rw && si == rh,
                fits(wi, hi, xi, yi, ri, si),
                g@.len() == wi * hi,
                r@.len() == ri * d + dx,
                forall|k: int|
                    0 <= k < r@.len() ==> #[trigger] r@[k] == g@[grid::cell(
                        wi,
                        xi + k % ri,
                        yi + k / ri,
                    )],
            decreases rw - dx,
        {
            proof {
                grid::lemma_cell(wi, hi, xi + dx, yi + dy);
                assert(ri * d == d * ri) by (nonlinear_arith);
                lemma_fundamental_div_mod_converse(ri * d + dx, ri, d, dx as int);
            }
            let c: usize = cell_at(w, x0 + dx, y0 + dy, g.len());
            r.push(g[c]);
            dx = dx + 1;
        }
        proof {
            assert(ri * (d + 1) == ri * d + ri) by (nonlinear_arith);
            assert(r@ =~= block(g@, wi, xi, yi, ri, d + 1));
        }
        dy = dy + 1;
    }
    r
}

/// Writing back what was read restores a rectangle: where `g` and `h` differ at most inside
/// it, putting the block of `g` into `h` gives `g`.
pub proof fn law_put_back<T>(
    g: Seq<T>,
    h: Seq<T>,
    w: int,
    gh: int,
    x0: int,
    y0: int,
    rw: int,
    rh: int,
)
    requires
        fits(w, gh, x0, y0, rw, rh),
        g.len() == w * gh,
        h.len() == g.len(),
        forall|i: int| 0 <= i < g.len() && !inside(w, x0, y0, rw, rh, i) ==> #[trigger] h[i] == g[i],
    ensures
        put_block(h, w, x0, y0, rw, rh, block(g, w, x0, y0, rw, rh)) == g,
{
    let b = block(g, w, x0, y0, rw, rh);
    let t = put_block(h, w, x0, y0, rw, rh, b);
    assert forall|i: int| 0 <= i < g.len() implies t[i] == g[i] by {
        if inside(w, x0, y0, rw, rh, i) {
            lemma_visit(w, gh, x0, y0, rw, rh, i);
        } else {
            assert(h[i] == g[i]);
        }
    }
    assert(t =~= g);
}

} // verus!
