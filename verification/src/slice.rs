//! Slice headers.
//!
//! Frame numbers and order counts are written in four bits. The sequence parameter set of
//! [`crate::params::sps_of`] announces four bits for frame numbers, but eight for order counts, so
//! the two do not make a stream that decodes: beside these headers goes a parameter set that
//! announces four.
use vstd::prelude::*;
use crate::arith;
use crate::bits;
use crate::bits::{write_table, BitWriter, Syn};
use crate::config::EncoderConfig;

verus! {

/// The header of a B slice. B slices are not references, so nothing is said of reference
/// marking; direct motion is spatial; both active counts are given.
pub open spec fn b_header(
    cfg: EncoderConfig,
    qp: u8,
    frame_num: u32,
    poc_lsb: u32,
    num_l0: int,
    num_l1: int,
) -> Seq<Syn> {
    seq![
        Syn::Ue(0),
        Syn::Ue(6),
        Syn::Ue(0),
        Syn::U { v: frame_num, n: 4 },
        Syn::U { v: poc_lsb, n: 4 },
        Syn::Flag(true),
        Syn::Flag(true),
        Syn::Ue((arith::max(num_l0, 1) - 1) as u32),
        Syn::Ue((arith::max(num_l1, 1) - 1) as u32),
        Syn::Flag(false),
        Syn::Flag(false),
        Syn::Se((qp - cfg.qp) as i32),
        Syn::Ue(0),
        Syn::Se(0),
        Syn::Se(0),
    ]
}

/// The header of a P slice. The active count is given only where more than one reference
/// is configured; the initialisation table of CABAC is 0.
pub open spec fn p_header(
    cfg: EncoderConfig,
    qp: u8,
    frame_num: u32,
    poc_lsb: u32,
    active: int,
) -> Seq<Syn> {
    seq![
        Syn::Ue(0),
        Syn::Ue(5),
        Syn::Ue(0),
        Syn::U { v: frame_num, n: 4 },
        Syn::U { v: poc_lsb, n: 4 },
    ] + (if cfg.num_ref_frames > 1 {
        seq![Syn::Flag(true), Syn::Ue((arith::max(active, 1) - 1) as u32)]
    } else {
        seq![Syn::Flag(false)]
    }) + seq![Syn::Flag(false), Syn::Flag(false)] + (if cfg.cabac {
        seq![Syn::Ue(0)]
    } else {
        Seq::empty()
    }) + seq![Syn::Se((qp - cfg.qp) as i32), Syn::Ue(0), Syn::Se(0), Syn::Se(0)]
}

/// The header of an IDR slice.
pub open spec fn idr_header(cfg: EncoderConfig, qp: u8) -> Seq<Syn> {
    seq![
        Syn::Ue(0),
        Syn::Ue(7),
        Syn::Ue(0),
        Syn::U { v: 0, n: 4 },
        Syn::Ue(0),
        Syn::U { v: 0, n: 4 },
        Syn::Flag(false),
        Syn::Flag(false),
        Syn::Se((qp - cfg.qp) as i32),
        Syn::Ue(0),
        Syn::Se(0),
        Syn::Se(0),
    ]
}

/// Write the header of a B slice. Frame number and order count have four bits.
pub fn write_b_slice_header(
    w: &mut BitWriter,
    cfg: &EncoderConfig,
    qp: u8,
    frame_num: u32,
    poc_lsb: u32,
    num_l0: usize,
    num_l1: usize,
)
    requires
        old(w).wf(),
        num_l0 <= u32::MAX,
        num_l1 <= u32::MAX,
    ensures
        final(w).wf(),
        final(w)@ == old(w)@ + bits::table_bits(
            b_header(*cfg, qp, frame_num, poc_lsb, num_l0 as int, num_l1 as int),
        ),
{
    let l0: u32 = if num_l0 > 1 {
        (num_l0 - 1) as u32
    } else {
        0
    };
    let l1: u32 = if num_l1 > 1 {
        (num_l1 - 1) as u32
    } else {
        0
    };
    let mut l: Vec<Syn> = Vec::new();
    l.push(Syn::Ue(0));
    l.push(Syn::Ue(6));
    l.push(Syn::Ue(0));
    l.push(Syn::U { v: frame_num, n: 4 });
    l.push(Syn::U { v: poc_lsb, n: 4 });
    l.push(Syn::Flag(true));
    l.push(Syn::Flag(true));
    l.push(Syn::Ue(l0));
    l.push(Syn::Ue(l1));
    l.push(Syn::Flag(false));
    l.push(Syn::Flag(false));
    l.push(Syn::Se(qp as i32 - cfg.qp as i32));
    l.push(Syn::Ue(0));
    l.push(Syn::Se(0));
    l.push(Syn::Se(0));
    assert(l@ =~= b_header(*cfg, qp, frame_num, poc_lsb, num_l0 as int, num_l1 as int));
    write_table(w, &l);
}

/// Write the header of a P slice that is not an IDR one. Frame number and order count have
/// four bits.
pub fn write_p_slice_header(
    w: &mut BitWriter,
    cfg: &EncoderConfig,
    qp: u8,
    frame_num: u32,
    poc_lsb: u32,
    num_ref_idx_active: usize,
)
    requires
        old(w).wf(),
        num_ref_idx_active <= u32::MAX,
    ensures
        final(w).wf(),
        final(w)@ == old(w)@ + bits::table_bits(
            p_header(*cfg, qp, frame_num, poc_lsb, num_ref_idx_active as int),
        ),
{
    let active: u32 = if num_ref_idx_active > 1 {
        (num_ref_idx_active - 1) as u32
    } else {
        0
    };
    let mut l: Vec<Syn> = Vec::new();
    l.push(Syn::Ue(0));
    l.push(Syn::Ue(5));
    l.push(Syn::Ue(0));
    l.push(Syn::U { v: frame_num, n: 4 });
    l.push(Syn::U { v: poc_lsb, n: 4 });
    if cfg.num_ref_frames > 1 {
        l.push(Syn::Flag(true));
        l.push(Syn::Ue(active));
    } else {
        l.push(Syn::Flag(false));
    }
    l.push(Syn::Flag(false));
    l.push(Syn::Flag(false));
    if cfg.cabac {
        l.push(Syn::Ue(0));
    }
    l.push(Syn::Se(qp as i32 - cfg.qp as i32));
    l.push(Syn::Ue(0));
    l.push(Syn::Se(0));
    l.push(Syn::Se(0));
    assert(l@ =~= p_header(*cfg, qp, frame_num, poc_lsb, num_ref_idx_active as int));
    write_table(w, &l);
}

/// Write the header of an IDR slice. Frame number and order count are 0, in four bits each.
pub fn write_idr_slice_header(w: &mut BitWriter, cfg: &EncoderConfig, qp: u8)
    requires
        old(w).wf(),
    ensures
        final(w).wf(),
        final(w)@ == old(w)@ + bits::table_bits(idr_header(*cfg, qp)),
{
    let mut l: Vec<Syn> = Vec::new();
    l.push(Syn::Ue(0));
    l.push(Syn::Ue(7));
    l.push(Syn::Ue(0));
    l.push(Syn::U { v: 0, n: 4 });
    l.push(Syn::Ue(0));
    l.push(Syn::U { v: 0, n: 4 });
    l.push(Syn::Flag(false));
    l.push(Syn::Flag(false));
    l.push(Syn::Se(qp as i32 - cfg.qp as i32));
    l.push(Syn::Ue(0));
    l.push(Syn::Se(0));
    l.push(Syn::Se(0));
    assert(l@ =~= idr_header(*cfg, qp));
    write_table(w, &l);
}

} // verus!
