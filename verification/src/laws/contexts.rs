//! Which contexts the bins of CABAC are coded with.
use vstd::prelude::*;
use crate::arith;
use crate::binarize;
use crate::cabac;
use crate::cabac::Bin;
use crate::mbinter;
use crate::mbinter::{Motion, PartView, CB_CACHE30, CB_G_SCAN4};
use crate::readback;
use crate::residual;

verus! {

/// The column of luma block `z`, in coding order.
pub open spec fn column(z: int) -> int {
    z % 2 + 2 * ((z / 4) % 2)
}

/// The row of luma block `z`, in coding order.
pub open spec fn row(z: int) -> int {
    (z / 2) % 2 + 2 * (z / 8)
}

/// The caches of motion and counts are rasters with a border above and on the left: the cell of a block
/// lies by its column and row.
pub proof fn law_cache_cells(z: int)
    requires
        0 <= z < 16,
    ensures
        CB_CACHE30[z] == 7 + 6 * row(z) + column(z),
        CB_G_SCAN4[z] == 4 * row(z) + column(z),
        residual::CB_NZC_CACHE[z] == 9 + 8 * row(z) + column(z),
        z < 4 ==> residual::CB_NZC_CACHE[16 + z] == 14 + 8 * (z / 2) + z % 2,
        z < 4 ==> residual::CB_NZC_CACHE[20 + z] == 38 + 8 * (z / 2) + z % 2,
{
}

/// The magnitude of a neighbour's difference; a neighbour without a reference has none.
pub open spec fn neighbour_mvd(m: Motion, cell: int, comp: int) -> int {
    if m.refc[cell] < 0 {
        0
    } else if m.mvdc[cell]@[comp] < 0 {
        -m.mvdc[cell]@[comp]
    } else {
        m.mvdc[cell]@[comp] as int
    }
}

/// The first bin of a vector difference has context 40 (across) or 47 (down) where the neighbours'
/// differences, the one above and the one on the left, add up to less than 3; one more from 3 to 32;
/// two more above. With these contexts a decoder reads both components one behind the other.
pub proof fn law_mvd_contexts(m: Motion, p: PartView, mvd: (i32, i32), r: i8)
    requires
        m.sized(),
        mbinter::part_ok(p),
    ensures
        ({
            let n = m.with_mvd(p, mvd, r);
            let cell = 7 + 6 * row(p.idx) + column(p.idx);
            let sx = neighbour_mvd(m, cell - 6, 0) + neighbour_mvd(m, cell - 1, 0);
            let sy = neighbour_mvd(m, cell - 6, 1) + neighbour_mvd(m, cell - 1, 1);
            exists|cx: int, cy: int, q: int|
                {
                    &&& n.bins[m.bins.len() as int] == Bin::dec(
                        40 + cx,
                        if mvd.0 == 0 {
                            0
                        } else {
                            1
                        },
                    )
                    &&& n.bins[q] == Bin::dec(
                        47 + cy,
                        if mvd.1 == 0 {
                            0
                        } else {
                            1
                        },
                    )
                    &&& (sx < 3 ==> cx == 0) && (3 <= sx <= 32 ==> cx == 1) && (sx > 32 ==> cx == 2)
                    &&& (sy < 3 ==> cy == 0) && (3 <= sy <= 32 ==> cy == 1) && (sy > 32 ==> cy == 2)
                    &&& #[trigger] readback::read_mvd(n.bins, m.bins.len() as int, 0, cx) == Some(
                        (mvd.0 as int, q),
                    )
                    &&& #[trigger] readback::read_mvd(n.bins, q, 1, cy) == Some(
                        (mvd.1 as int, n.bins.len() as int),
                    )
                }
        }),
{
    law_cache_cells(p.idx);
    let cell = 7 + 6 * row(p.idx) + column(p.idx);
    let n = m.with_mvd(p, mvd, r);
    let cx = mbinter::mvd_step(mbinter::mvd_sum(m, cell, 0));
    let cy = mbinter::mvd_step(mbinter::mvd_sum(m, cell, 1));
    let bx = binarize::mvd_bins(0, cx, mvd.0 as int);
    let by = binarize::mvd_bins(1, cy, mvd.1 as int);
    assert(n.bins == m.bins + bx + by);
    let at = m.bins.len() as int;
    assert(cabac::stands_at(n.bins, at, bx)) by {
        assert forall|i: int| 0 <= i < bx.len() implies #[trigger] n.bins[at + i] == bx[i] by {}
    }
    let q = at + bx.len();
    assert(cabac::stands_at(n.bins, q, by)) by {
        assert forall|i: int| 0 <= i < by.len() implies #[trigger] n.bins[q + i] == by[i] by {}
    }
    readback::law_mvd(n.bins, at, 0, cx, mvd.0 as int);
    readback::law_mvd(n.bins, q, 1, cy, mvd.1 as int);
    assert(bx[0] == n.bins[at + 0]);
    assert(by[0] == n.bins[q + 0]);
    assert(readback::read_mvd(n.bins, m.bins.len() as int, 0, cx) == Some((mvd.0 as int, q)));
    assert(readback::read_mvd(n.bins, q, 1, cy) == Some((mvd.1 as int, n.bins.len() as int)));
}

/// The context of a vector difference never falls as the neighbours' differences grow, and all three
/// are in use.
pub proof fn law_mvd_context_rises(a: int, b: int)
    requires
        0 <= a <= b,
    ensures
        0 <= mbinter::mvd_step(a) <= mbinter::mvd_step(b) <= 2,
        (mbinter::mvd_step(a) == 0) == (a < 3),
        (mbinter::mvd_step(a) == 2) == (a > 32),
{
}

/// Coding a difference leaves the earlier bins, and from then on the blocks of the partition, and no
/// others, show the difference and the reference to their neighbours.
pub proof fn law_mvd_is_kept(m: Motion, p: PartView, mvd: (i32, i32), r: i8, z: int)
    requires
        m.sized(),
        mbinter::part_ok(p),
        0 <= z < 16,
    ensures
        ({
            let n = m.with_mvd(p, mvd, r);
            let cell = 7 + 6 * row(z) + column(z);
            let place = 4 * row(z) + column(z);
            &&& n.sized()
            &&& n.bins.take(m.bins.len() as int) == m.bins
            &&& p.blocks.contains(z as usize) ==> n.refc[cell] == r && n.mvdc[cell] == [
                mvd.0 as i16,
                mvd.1 as i16,
            ] && n.mref[place] == r && n.mmvd[place] == [mvd.0 as i16, mvd.1 as i16]
            &&& !p.blocks.contains(z as usize) ==> n.refc[cell] == m.refc[cell] && n.mvdc[cell]
                == m.mvdc[cell] && n.mref[place] == m.mref[place] && n.mmvd[place] == m.mmvd[place]
        }),
{
    let n = m.with_mvd(p, mvd, r);
    let v = [mvd.0 as i16, mvd.1 as i16];
    let k = p.blocks.len() as int;
    law_cache_cells(z);
    assert(n.bins.take(m.bins.len() as int) =~= m.bins);
    assert forall|i: int| 0 <= i < 16 implies (CB_CACHE30[i] < 30 && CB_G_SCAN4[i] < 16) && ((
    #[trigger] CB_CACHE30[i] == CB_CACHE30[z]) == (i == z)) && ((CB_G_SCAN4[i] == CB_G_SCAN4[z])
        == (i == z)) by {
        law_cache_cells(i);
    }
    lemma_splat(m.refc, CB_CACHE30@, p.blocks, k, r, z);
    lemma_splat(m.mvdc, CB_CACHE30@, p.blocks, k, v, z);
    lemma_splat(m.mref, CB_G_SCAN4@, p.blocks, k, r, z);
    lemma_splat(m.mmvd, CB_G_SCAN4@, p.blocks, k, v, z);
    if p.blocks.contains(z as usize) {
        let i = choose|i: int| 0 <= i < p.blocks.len() && p.blocks[i] == z as usize;
        assert(p.blocks[i] == z);
    }
}

proof fn lemma_splat<T>(g: Seq<T>, map: Seq<usize>, blocks: Seq<usize>, n: int, v: T, z: int)
    requires
        0 <= n <= blocks.len(),
        0 <= z < 16,
        map.len() == 16,
        forall|i: int| 0 <= i < blocks.len() ==> #[trigger] blocks[i] < 16,
        forall|i: int| 0 <= i < 16 ==> #[trigger] map[i] < g.len(),
        forall|i: int| 0 <= i < 16 ==> (#[trigger] map[i] == map[z]) == (i == z),
    ensures
        mbinter::splat(g, map, blocks, n, v).len() == g.len(),
        (exists|i: int| 0 <= i < n && #[trigger] blocks[i] == z) ==> mbinter::splat(
            g,
            map,
            blocks,
            n,
            v,
        )[map[z] as int] == v,
        (forall|i: int| 0 <= i < n ==> #[trigger] blocks[i] != z) ==> mbinter::splat(
            g,
            map,
            blocks,
            n,
            v,
        )[map[z] as int] == g[map[z] as int],
    decreases n,
{
    if n > 0 {
        lemma_splat(g, map, blocks, n - 1, v, z);
        assert(blocks[n - 1] < 16);
        assert((map[blocks[n - 1] as int] == map[z]) == (blocks[n - 1] == z));
    }
}

/// The first bin of a reference index has context 54, one more where the left neighbour's reference is
/// above 0 and two more where the upper one's is; the second has 58, all others 59; all but the last are
/// one.
pub proof fn law_ref_contexts(m: Motion, p: PartView, r: i32, i: int)
    requires
        m.sized(),
        mbinter::part_ok(p),
        0 <= i <= r,
    ensures
        ({
            let n = m.with_ref(p, r);
            let cell = 7 + 6 * row(p.idx) + column(p.idx);
            let ctx = if i == 1 {
                58int
            } else if i > 1 {
                59
            } else if m.refc[cell - 1] > 0 && m.refc[cell - 6] > 0 {
                57
            } else if m.refc[cell - 6] > 0 {
                56
            } else if m.refc[cell - 1] > 0 {
                55
            } else {
                54
            };
            &&& n.bins.len() == m.bins.len() + r + 1
            &&& n.bins[m.bins.len() + i] == Bin::dec(
                ctx,
                if i < r {
                    1
                } else {
                    0
                },
            )
        }),
{
    law_cache_cells(p.idx);
}

/// Whether quarter `b` of a neighbour is there and not coded; missing ones count as coded.
pub open spec fn quarter_clear(n: Option<u8>, b: int) -> bool {
    match n {
        Some(c) => if b == 0 {
            c % 2 == 0
        } else if b == 1 {
            (c / 2) % 2 == 0
        } else if b == 2 {
            (c / 4) % 2 == 0
        } else {
            (c / 8) % 2 == 0
        },
        None => false,
    }
}

/// The luma bits of a coded block pattern have contexts from 73 on, one more where the quarter on the left
/// is not coded and two more where the upper one is not; quarters of the macroblock itself are seen as
/// they were just coded. The chroma bins have contexts from 77 and 81 on, one more for a left and two
/// more for an upper neighbour with chroma, or with chroma AC.
pub proof fn law_cbp_contexts(top: Option<u8>, left: Option<u8>, cbp: u8, b: int)
    requires
        0 <= b < 4,
        cbp < 48,
    ensures
        ({
            let own = Some(cbp);
            let l = if b % 2 == 1 {
                quarter_clear(own, b - 1)
            } else {
                quarter_clear(left, b + 1)
            };
            let u = if b >= 2 {
                quarter_clear(own, b - 2)
            } else {
                quarter_clear(top, b + 2)
            };
            let step = (if l {
                1int
            } else {
                0
            }) + (if u {
                2int
            } else {
                0
            });
            binarize::cbp_bins(top, left, cbp as int)[b] == Bin::dec(
                73 + step,
                if quarter_clear(own, b) {
                    0
                } else {
                    1
                },
            )
        }),
        ({
            let any = |n: Option<u8>| n is Some && n->Some_0 >= 16;
            let ac = |n: Option<u8>| n is Some && 32 <= n->Some_0 < 48;
            let steps = |l: bool, u: bool|
                (if l {
                    1int
                } else {
                    0
                }) + (if u {
                    2int
                } else {
                    0
                });
            let s = binarize::cbp_bins(top, left, cbp as int);
            &&& s[4] == Bin::dec(
                77 + steps(any(left), any(top)),
                if cbp >= 16 {
                    1
                } else {
                    0
                },
            )
            &&& s.len() == (if cbp >= 16 {
                6int
            } else {
                5
            })
            &&& cbp >= 16 ==> s[5] == Bin::dec(
                81 + steps(ac(left), ac(top)),
                if cbp >= 32 {
                    1
                } else {
                    0
                },
            )
        }),
{
}

/// The categories of residual blocks: DC and AC of `I_16x16` luma, luma 4x4, chroma DC, chroma AC, and
/// luma 8x8.
pub open spec fn category(rp: int) -> int {
    if rp == 1 {
        0
    } else if rp == 2 {
        1
    } else if rp == 3 {
        2
    } else if rp == 7 || rp == 8 {
        3
    } else if rp == 9 || rp == 10 {
        4
    } else {
        5
    }
}

/// The kinds that macroblocks have.
pub open spec fn is_kind(rp: int) -> bool {
    rp == 1 || rp == 2 || rp == 3 || 6 <= rp <= 10
}

/// How many places a block of each kind has: 16, 15 without a first coefficient, 4 for chroma DC, 64.
/// The coded-block flag, significance, last and level contexts of the kinds start at the places of their
/// category, and no two categories share one.
pub proof fn law_residual_contexts(rp: int, i: int)
    requires
        is_kind(rp),
        0 <= i < residual::CB_RES_MAXPOS[rp],
    ensures
        residual::CB_RES_MAXPOS[rp] + 1 == seq![16int, 15, 16, 4, 15, 64][category(rp)],
        rp != 6 ==> residual::CB_RES_CBF[rp] == 4 * category(rp),
        rp != 6 ==> residual::sig_ctx(rp, i) == seq![105int, 120, 134, 149, 152][category(rp)] + i,
        rp != 6 ==> residual::last_ctx(rp, i) == seq![166int, 181, 195, 210, 213][category(rp)] + i,
        227 + residual::CB_RES_ONE[rp] == seq![227int, 237, 247, 257, 266, 426][category(rp)],
        residual::CB_RES_MAXC2[rp] == (if category(rp) == 3 {
            3int
        } else {
            4
        }),
        rp == 6 ==> 402 <= residual::sig_ctx(rp, i) <= 416,
        rp == 6 ==> 417 <= residual::last_ctx(rp, i) <= 425,
        rp == 6 ==> residual::sig_ctx(rp, i) == 402 + eight_sig(i) && residual::last_ctx(rp, i) == 417
            + eight_last(i),
{
}

/// The step of the last-coefficient context at place `i` of an 8x8 block: the first place has its own,
/// then the places share theirs by ever shorter runs.
pub open spec fn eight_last(i: int) -> int {
    if i < 1 {
        0
    } else if i < 16 {
        1
    } else if i < 32 {
        2
    } else if i < 40 {
        3
    } else if i < 48 {
        4
    } else if i < 52 {
        5
    } else if i < 56 {
        6
    } else if i < 60 {
        7
    } else {
        8
    }
}

/// The step of the significance context at place `i` of an 8x8 block, for the places that share each
/// step.
pub open spec fn eight_sig(i: int) -> int {
    if i <= 4 {
        i
    } else if i == 5 || i == 6 || i == 14 || i == 15 {
        5
    } else if i == 9 || i == 10 || i == 20 || i == 21 {
        3
    } else if i < 20 {
        4
    } else if i == 22 || i == 33 || i == 38 || i == 46 || i == 51 {
        6
    } else if (23 <= i <= 25) || i == 31 || i == 32 || i == 39 {
        7
    } else if i == 26 || i == 30 || i == 40 || i == 45 {
        8
    } else if i == 27 || i == 29 || i == 41 || i == 44 || i == 52 || i == 55 {
        9
    } else if i == 28 || i == 43 || i == 54 || i == 61 {
        10
    } else if i == 34 || i == 37 || i == 47 || i == 50 || i == 56 || i == 59 {
        11
    } else if i == 35 || i == 48 || i == 57 || i == 62 {
        12
    } else if i == 36 || i == 49 || i == 58 {
        13
    } else {
        14
    }
}

/// The contexts of a level go by the levels before it: the first bin by how many of them were one, up to
/// three, until one was larger; the rest by how many were larger, up to the limit of the kind.
pub proof fn law_level_contexts(rp: int, ones: int, larger: int, v: int)
    requires
        is_kind(rp),
        0 <= ones,
        0 <= larger,
        v != 0,
    ensures
        ({
            let step = |o: int, l: int|
                if l > 0 {
                    0
                } else if o < 3 {
                    1 + o
                } else {
                    4
                };
            let rest = |l: int|
                if l < residual::CB_RES_MAXC2[rp] {
                    l
                } else {
                    residual::CB_RES_MAXC2[rp] as int
                };
            let big = v > 1 || v < -1;
            &&& residual::next_c1(v, step(ones, larger)) == (if big {
                step(ones, larger + 1)
            } else {
                step(ones + 1, larger)
            })
            &&& residual::next_c2(rp, v, rest(larger)) == (if big {
                rest(larger + 1)
            } else {
                rest(larger)
            })
            &&& step(0, 0) == 1
            &&& residual::level_one_bins(rp, v, step(ones, larger), rest(larger))[0] == Bin::dec(
                seq![227int, 237, 247, 257, 266, 426][category(rp)] + step(ones, larger),
                if big {
                    1
                } else {
                    0
                },
            )
            &&& big ==> residual::level_one_bins(rp, v, step(ones, larger), rest(larger))[1]
                == Bin::dec(
                seq![232int, 242, 252, 262, 271, 431][category(rp)] + rest(larger),
                if v == 2 || v == -2 {
                    0
                } else {
                    1
                },
            )
        }),
{
    let big = v > 1 || v < -1;
    if big {
        let av = arith::abs(v);
        let c2 = if larger < residual::CB_RES_MAXC2[rp] {
            larger
        } else {
            residual::CB_RES_MAXC2[rp] as int
        };
        let u = binarize::ueg_level_bins(232 + residual::CB_RES_ONE[rp] + c2, (av - 2) as nat);
        assert(u.len() >= 1);
    }
}

/// Blocks start with no level seen, at the contexts of that state.
pub proof fn law_levels_start_fresh(co: Seq<i32>, rp: int, inc: int, last: int)
    requires
        is_kind(rp),
        residual::CB_RES_MAXPOS[rp] < co.len(),
        0 <= last <= residual::CB_RES_MAXPOS[rp],
        co[last] != 0,
        forall|i: int| last < i <= residual::CB_RES_MAXPOS[rp] ==> co[i] == 0,
    ensures
        ({
            let s = residual::residual_bins(co, rp, inc);
            let sig = residual::sig_bins(co, rp, 0, last);
            let at = sig.len() + (if rp == 6 {
                0int
            } else {
                1
            });
            &&& rp != 6 ==> s[0] == Bin::dec(85 + 4 * category(rp) + inc, 1)
            &&& s[at] == Bin::dec(
                seq![228int, 238, 248, 258, 267, 427][category(rp)],
                if co[last] == 1 || co[last] == -1 {
                    0
                } else {
                    1
                },
            )
        }),
{
    let n = residual::CB_RES_MAXPOS[rp] + 1;
    residual::lemma_last_nz(co, n);
    assert(residual::last_nz(co, n) == last);
    lemma_level_skip(co, rp, n, last);
    let l = residual::level_bins(co, rp, n, 1, 0);
    let f = residual::level_one_bins(rp, co[last] as int, 1, 0);
    assert(l[0] == f[0]);
    let s = residual::residual_bins(co, rp, inc);
    let sig = residual::sig_bins(co, rp, 0, last);
    if rp == 6 {
        assert(s =~= sig + l);
    } else {
        assert(s =~= seq![Bin::dec(85 + residual::CB_RES_CBF[rp] + inc, 1)] + (sig + l));
    }
}

proof fn lemma_level_skip(co: Seq<i32>, rp: int, n: int, last: int)
    requires
        0 <= last < n <= co.len(),
        co[last] != 0,
        forall|i: int| last < i < n ==> co[i] == 0,
    ensures
        residual::level_bins(co, rp, n, 1, 0).len() >= 1,
        residual::level_bins(co, rp, n, 1, 0)[0] == residual::level_one_bins(
            rp,
            co[last] as int,
            1,
            0,
        )[0],
    decreases n,
{
    if n - 1 > last {
        lemma_level_skip(co, rp, n - 1, last);
    }
}

/// The context step of a coded-block flag: one for a left and two for an upper neighbour that is coded. A
/// missing neighbour counts as coded beside an intra macroblock and not beside an inter one.
pub proof fn law_flag_contexts(
    nzc: Seq<u8>,
    z: int,
    rp: int,
    intra: bool,
    up: Option<u16>,
    left: Option<u16>,
)
    requires
        is_kind(rp),
        nzc.len() == 48,
        0 <= z < 16,
    ensures
        ({
            let cell = 9 + 8 * row(z) + column(z);
            let coded = |c: u8|
                if c == 0xff {
                    intra
                } else {
                    c > 0
                };
            let steps = |l: bool, u: bool|
                (if l {
                    1int
                } else {
                    0
                }) + (if u {
                    2int
                } else {
                    0
                });
            let inc = residual::cbf_inc(nzc, z, rp, intra, (up, left));
            &&& category(rp) != 0 && category(rp) != 3 ==> inc == steps(
                coded(nzc[cell - 1]),
                coded(nzc[cell - 8]),
            )
            &&& (category(rp) == 0 || category(rp) == 3) && up is None && left is None ==> inc
                == steps(intra, intra)
            &&& (category(rp) == 0 || category(rp) == 3) && up == Some(0u16) && left is None ==> inc
                == steps(intra, false)
            &&& (category(rp) == 0 || category(rp) == 3) && up is None && left == Some(0u16) ==> inc
                == steps(false, intra)
        }),
        forall|m: u16|
            ({
                let seen = #[trigger] residual::dc_mask_after(m, rp, true);
                category(rp) == 0 || category(rp) == 3 ==> {
                    &&& residual::cbf_inc(nzc, z, rp, intra, (Some(seen), Some(seen))) == 3
                    &&& residual::cbf_inc(nzc, z, rp, intra, (Some(seen), Some(0u16))) == 2
                    &&& residual::cbf_inc(nzc, z, rp, intra, (Some(0u16), Some(seen))) == 1
                }
            }),
{
    law_cache_cells(z);
    let k = rp as u16;
    assert((0u16 >> k) & 1 == 0) by (bit_vector);
    assert forall|m: u16|
        k <= 10 implies #[trigger] ((m | (1u16 << k)) >> k) & 1 == 1 by {
        assert(k <= 10 ==> ((m | (1u16 << k)) >> k) & 1 == 1) by (bit_vector);
    }
}

} // verus!
