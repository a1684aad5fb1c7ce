//! Sample kernels: the transforms, predictions and weights that the coding decisions are made
//! with. They come from outside; all that is asked of them is that they are functions.
use vstd::prelude::*;
use crate::cavlc::{ElemView, Syntax};
use crate::plan::I16Mode;

verus! {

/// A block to be predicted from a reference picture: `plane` 0 is luma, 1 and 2 are chroma.
#[derive(Clone, Copy)]
pub struct McJob {
    pub list: u8,
    pub refi: i32,
    pub plane: u8,
    pub x: usize,
    pub y: usize,
    pub w: usize,
    pub h: usize,
    pub mv: (i32, i32),
}

/// What the bits of a vector are priced for.
#[derive(Clone, Copy, PartialEq, Eq, Structural)]
pub enum Phase {
    /// The search in its final measure.
    Fine,
    /// The whole-sample walk, where it has a measure of its own.
    Coarse,
    /// The plain multiplier, with which the rescue takes the rate off a cost again.
    Plain,
    /// What intra coding is charged beside its distortion.
    Intra,
}

/// A rate to be weighed against distortion.
#[derive(Clone, Copy)]
pub struct Price {
    pub phase: Phase,
    pub bits: u32,
    /// The macroblock is one of much texture, where vectors are charged less.
    pub loud: bool,
}

/// Which neighbours an intra block has.
#[derive(Clone, Copy)]
pub struct Around {
    pub top: bool,
    pub left: bool,
}

/// A distortion and a rate.
#[derive(Clone, Copy)]
pub struct Rd {
    pub ssd: i64,
    pub rate: i64,
}

/// A macroblock whose quarters are coded in parts, against the same with whole quarters.
#[derive(Clone, Copy)]
pub struct Gain {
    pub qp: u8,
    pub parts: Rd,
    pub whole: Rd,
}

/// The kernels.
pub trait Kernels {
    /// A block predicted from a reference picture, dense in the front of the result.
    fn mc(&self, job: McJob) -> [u8; 256];

    /// The weight of a rate against distortion.
    fn price(&self, p: Price) -> i64;

    /// Whether the planes of half samples hold the block at a vector.
    fn served(&self, mv: (i32, i32)) -> bool;

    /// The forward transform of a 4x4 residual.
    fn fdct4(&self, res: &[i32; 16]) -> [i32; 16];

    /// The quantised levels of a 4x4 block, with the dead zone given by its divisor.
    fn quant4(&self, c: &[i32; 16], qp: u8, dz: u8) -> [i32; 16];

    /// Whether the level of a coefficient is better taken one lower.
    fn lower(&self, qp: u8, pos: usize, coeff: i32, level: u32) -> bool;

    /// Whether the last level of a block is better dropped, which frees the given bits.
    fn trim(&self, qp: u8, pos: usize, coeff: i32, level: u32, bits: i64) -> bool;

    /// The coefficients that the levels of a 4x4 block stand for.
    fn deq4(&self, q: &[i32; 16], qp: u8) -> [i32; 16];

    /// The samples of a 4x4 block: the inverse transform added to the prediction, clipped.
    fn add4(&self, c: &[i32; 16], pred: &[i32; 16]) -> [u8; 16];

    /// The quantised levels of the four DC coefficients of a chroma plane.
    fn cdc(&self, dc: &[i32; 4], qpc: u8, intra: bool) -> [i32; 4];

    /// The DC coefficients that the levels of a chroma plane stand for.
    fn cdc_inv(&self, l: &[i32; 4], qpc: u8) -> [i32; 4];

    /// The quantised levels of the sixteen DC coefficients of an I_16x16 macroblock.
    fn ldc(&self, dc: &[i32; 16], qp: u8) -> [i32; 16];

    /// The DC coefficients that the levels of an I_16x16 macroblock stand for.
    fn ldc_inv(&self, l: &[i32; 16], qp: u8) -> [i32; 16];

    /// The quantised levels of the transform of an 8x8 residual.
    fn quant8(&self, res: &[i32; 64], qp: u8, dz: u8) -> [i32; 64];

    /// The samples of an 8x8 block, from its levels and its prediction.
    fn add8(&self, q: &[i32; 64], qp: u8, pred: &[i32; 64]) -> [u8; 64];

    /// The intra prediction of a 16x16 macroblock.
    fn intra16(&self, mode: I16Mode, has: Around, top: &[u8; 16], left: &[u8; 16], corner: u8) -> [u8; 256];

    /// The intra prediction of a 4x4 block.
    fn intra4(&self, mode: u8, has: Around, top: &[u8; 8], left: &[u8; 4], corner: u8) -> [u8; 16];

    /// The intra prediction of an 8x8 block.
    fn intra8(&self, mode: u8, has: Around, top: &[u8; 16], left: &[u8; 8], corner: u8) -> [u8; 64];

    /// The intra prediction of a chroma block.
    fn intrac(&self, mode: u8, has: Around, top: &[u8; 8], left: &[u8; 8], corner: u8) -> [u8; 64];

    /// Whether the first distortion and rate cost less than the second at a QP.
    fn rd_less(&self, qp: u8, a: Rd, b: Rd) -> bool;

    /// Whether the first distortion and rate cost at most as much as the second at a QP.
    fn rd_at_most(&self, qp: u8, a: Rd, b: Rd) -> bool;

    /// How many bits the entropy coder writes for the syntax.
    fn bits(&self, w: &Syntax) -> usize;

    /// What the distortion of chroma counts for beside that of luma.
    fn chroma_share(&self, ssd: i64) -> i64;

    /// The least cost at which a macroblock is searched in parts.
    fn split_floor(&self, loud: bool) -> i64;

    /// Whether searching quarters in parts has saved enough, over a number of macroblocks.
    fn pays(&self, gains: &Vec<Gain>, seen: usize) -> bool;
}

/// `o` may come back from `mc`.
pub open spec fn mc_may<K: Kernels>(k: K, job: McJob, o: Seq<u8>) -> bool {
    exists|r: [u8; 256]| r@ == o && #[trigger] call_ensures(K::mc, (&k, job), r)
}

/// A block predicted from a reference picture, dense in the front of the result.
pub open spec fn mc_of<K: Kernels>(k: K, job: McJob) -> Seq<u8> {
    choose|o: Seq<u8>| mc_may(k, job, o)
}

/// `mc` is a function.
pub open spec fn mc_steady<K: Kernels>(k: K) -> bool {
    forall|job: McJob, o: Seq<u8>, u: Seq<u8>| #[trigger] mc_may(k, job, o) && #[trigger] mc_may(k, job, u) ==> o == u
}

/// `o` may come back from `price`.
pub open spec fn price_may<K: Kernels>(k: K, p: Price, o: i64) -> bool {
    call_ensures(K::price, (&k, p), o)
}

/// The weight of a rate against distortion.
pub open spec fn price_of<K: Kernels>(k: K, p: Price) -> i64 {
    choose|o: i64| price_may(k, p, o)
}

/// `price` is a function.
pub open spec fn price_steady<K: Kernels>(k: K) -> bool {
    forall|p: Price, o: i64, u: i64| #[trigger] price_may(k, p, o) && #[trigger] price_may(k, p, u) ==> o == u
}

/// `o` may come back from `served`.
pub open spec fn served_may<K: Kernels>(k: K, mv: (i32, i32), o: bool) -> bool {
    call_ensures(K::served, (&k, mv), o)
}

/// Whether the planes of half samples hold the block at a vector.
pub open spec fn served_of<K: Kernels>(k: K, mv: (i32, i32)) -> bool {
    choose|o: bool| served_may(k, mv, o)
}

/// `served` is a function.
pub open spec fn served_steady<K: Kernels>(k: K) -> bool {
    forall|mv: (i32, i32), o: bool, u: bool| #[trigger] served_may(k, mv, o) && #[trigger] served_may(k, mv, u) ==> o == u
}

/// `o` may come back from `fdct4`.
pub open spec fn fdct4_may<K: Kernels>(k: K, res: Seq<i32>, o: Seq<i32>) -> bool {
    exists|res_: [i32; 16], r: [i32; 16]| res_@ == res && r@ == o && #[trigger] call_ensures(K::fdct4, (&k, &res_), r)
}

/// The forward transform of a 4x4 residual.
pub open spec fn fdct4_of<K: Kernels>(k: K, res: Seq<i32>) -> Seq<i32> {
    choose|o: Seq<i32>| fdct4_may(k, res, o)
}

/// `fdct4` is a function.
pub open spec fn fdct4_steady<K: Kernels>(k: K) -> bool {
    forall|res: Seq<i32>, o: Seq<i32>, u: Seq<i32>| #[trigger] fdct4_may(k, res, o) && #[trigger] fdct4_may(k, res, u) ==> o == u
}

/// `o` may come back from `quant4`.
pub open spec fn quant4_may<K: Kernels>(k: K, c: Seq<i32>, qp: u8, dz: u8, o: Seq<i32>) -> bool {
    exists|c_: [i32; 16], r: [i32; 16]| c_@ == c && r@ == o && #[trigger] call_ensures(K::quant4, (&k, &c_, qp, dz), r)
}

/// The quantised levels of a 4x4 block, with the dead zone given by its divisor.
pub open spec fn quant4_of<K: Kernels>(k: K, c: Seq<i32>, qp: u8, dz: u8) -> Seq<i32> {
    choose|o: Seq<i32>| quant4_may(k, c, qp, dz, o)
}

/// `quant4` is a function.
pub open spec fn quant4_steady<K: Kernels>(k: K) -> bool {
    forall|c: Seq<i32>, qp: u8, dz: u8, o: Seq<i32>, u: Seq<i32>| #[trigger] quant4_may(k, c, qp, dz, o) && #[trigger] quant4_may(k, c, qp, dz, u) ==> o == u
}

/// `o` may come back from `lower`.
pub open spec fn lower_may<K: Kernels>(k: K, qp: u8, pos: usize, coeff: i32, level: u32, o: bool) -> bool {
    call_ensures(K::lower, (&k, qp, pos, coeff, level), o)
}

/// Whether the level of a coefficient is better taken one lower.
pub open spec fn lower_of<K: Kernels>(k: K, qp: u8, pos: usize, coeff: i32, level: u32) -> bool {
    choose|o: bool| lower_may(k, qp, pos, coeff, level, o)
}

/// `lower` is a function.
pub open spec fn lower_steady<K: Kernels>(k: K) -> bool {
    forall|qp: u8, pos: usize, coeff: i32, level: u32, o: bool, u: bool| #[trigger] lower_may(k, qp, pos, coeff, level, o) && #[trigger] lower_may(k, qp, pos, coeff, level, u) ==> o == u
}

/// `o` may come back from `trim`.
pub open spec fn trim_may<K: Kernels>(k: K, qp: u8, pos: usize, coeff: i32, level: u32, bits: i64, o: bool) -> bool {
    call_ensures(K::trim, (&k, qp, pos, coeff, level, bits), o)
}

/// Whether the last level of a block is better dropped, which frees the given bits.
pub open spec fn trim_of<K: Kernels>(k: K, qp: u8, pos: usize, coeff: i32, level: u32, bits: i64) -> bool {
    choose|o: bool| trim_may(k, qp, pos, coeff, level, bits, o)
}

/// `trim` is a function.
pub open spec fn trim_steady<K: Kernels>(k: K) -> bool {
    forall|qp: u8, pos: usize, coeff: i32, level: u32, bits: i64, o: bool, u: bool| #[trigger] trim_may(k, qp, pos, coeff, level, bits, o) && #[trigger] trim_may(k, qp, pos, coeff, level, bits, u) ==> o == u
}

/// `o` may come back from `deq4`.
pub open spec fn deq4_may<K: Kernels>(k: K, q: Seq<i32>, qp: u8, o: Seq<i32>) -> bool {
    exists|q_: [i32; 16], r: [i32; 16]| q_@ == q && r@ == o && #[trigger] call_ensures(K::deq4, (&k, &q_, qp), r)
}

/// The coefficients that the levels of a 4x4 block stand for.
pub open spec fn deq4_of<K: Kernels>(k: K, q: Seq<i32>, qp: u8) -> Seq<i32> {
    choose|o: Seq<i32>| deq4_may(k, q, qp, o)
}

/// `deq4` is a function.
pub open spec fn deq4_steady<K: Kernels>(k: K) -> bool {
    forall|q: Seq<i32>, qp: u8, o: Seq<i32>, u: Seq<i32>| #[trigger] deq4_may(k, q, qp, o) && #[trigger] deq4_may(k, q, qp, u) ==> o == u
}

/// `o` may come back from `add4`.
pub open spec fn add4_may<K: Kernels>(k: K, c: Seq<i32>, pred: Seq<i32>, o: Seq<u8>) -> bool {
    exists|c_: [i32; 16], pred_: [i32; 16], r: [u8; 16]| c_@ == c && pred_@ == pred && r@ == o && #[trigger] call_ensures(K::add4, (&k, &c_, &pred_), r)
}

/// The samples of a 4x4 block: the inverse transform added to the prediction, clipped.
pub open spec fn add4_of<K: Kernels>(k: K, c: Seq<i32>, pred: Seq<i32>) -> Seq<u8> {
    choose|o: Seq<u8>| add4_may(k, c, pred, o)
}

/// `add4` is a function.
pub open spec fn add4_steady<K: Kernels>(k: K) -> bool {
    forall|c: Seq<i32>, pred: Seq<i32>, o: Seq<u8>, u: Seq<u8>| #[trigger] add4_may(k, c, pred, o) && #[trigger] add4_may(k, c, pred, u) ==> o == u
}

/// `o` may come back from `cdc`.
pub open spec fn cdc_may<K: Kernels>(k: K, dc: Seq<i32>, qpc: u8, intra: bool, o: Seq<i32>) -> bool {
    exists|dc_: [i32; 4], r: [i32; 4]| dc_@ == dc && r@ == o && #[trigger] call_ensures(K::cdc, (&k, &dc_, qpc, intra), r)
}

/// The quantised levels of the four DC coefficients of a chroma plane.
pub open spec fn cdc_of<K: Kernels>(k: K, dc: Seq<i32>, qpc: u8, intra: bool) -> Seq<i32> {
    choose|o: Seq<i32>| cdc_may(k, dc, qpc, intra, o)
}

/// `cdc` is a function.
pub open spec fn cdc_steady<K: Kernels>(k: K) -> bool {
    forall|dc: Seq<i32>, qpc: u8, intra: bool, o: Seq<i32>, u: Seq<i32>| #[trigger] cdc_may(k, dc, qpc, intra, o) && #[trigger] cdc_may(k, dc, qpc, intra, u) ==> o == u
}

/// `o` may come back from `cdc_inv`.
pub open spec fn cdc_inv_may<K: Kernels>(k: K, l: Seq<i32>, qpc: u8, o: Seq<i32>) -> bool {
    exists|l_: [i32; 4], r: [i32; 4]| l_@ == l && r@ == o && #[trigger] call_ensures(K::cdc_inv, (&k, &l_, qpc), r)
}

/// The DC coefficients that the levels of a chroma plane stand for.
pub open spec fn cdc_inv_of<K: Kernels>(k: K, l: Seq<i32>, qpc: u8) -> Seq<i32> {
    choose|o: Seq<i32>| cdc_inv_may(k, l, qpc, o)
}

/// `cdc_inv` is a function.
pub open spec fn cdc_inv_steady<K: Kernels>(k: K) -> bool {
    forall|l: Seq<i32>, qpc: u8, o: Seq<i32>, u: Seq<i32>| #[trigger] cdc_inv_may(k, l, qpc, o) && #[trigger] cdc_inv_may(k, l, qpc, u) ==> o == u
}

/// `o` may come back from `ldc`.
pub open spec fn ldc_may<K: Kernels>(k: K, dc: Seq<i32>, qp: u8, o: Seq<i32>) -> bool {
    exists|dc_: [i32; 16], r: [i32; 16]| dc_@ == dc && r@ == o && #[trigger] call_ensures(K::ldc, (&k, &dc_, qp), r)
}

/// The quantised levels of the sixteen DC coefficients of an I_16x16 macroblock.
pub open spec fn ldc_of<K: Kernels>(k: K, dc: Seq<i32>, qp: u8) -> Seq<i32> {
    choose|o: Seq<i32>| ldc_may(k, dc, qp, o)
}

/// `ldc` is a function.
pub open spec fn ldc_steady<K: Kernels>(k: K) -> bool {
    forall|dc: Seq<i32>, qp: u8, o: Seq<i32>, u: Seq<i32>| #[trigger] ldc_may(k, dc, qp, o) && #[trigger] ldc_may(k, dc, qp, u) ==> o == u
}

/// `o` may come back from `ldc_inv`.
pub open spec fn ldc_inv_may<K: Kernels>(k: K, l: Seq<i32>, qp: u8, o: Seq<i32>) -> bool {
    exists|l_: [i32; 16], r: [i32; 16]| l_@ == l && r@ == o && #[trigger] call_ensures(K::ldc_inv, (&k, &l_, qp), r)
}

/// The DC coefficients that the levels of an I_16x16 macroblock stand for.
pub open spec fn ldc_inv_of<K: Kernels>(k: K, l: Seq<i32>, qp: u8) -> Seq<i32> {
    choose|o: Seq<i32>| ldc_inv_may(k, l, qp, o)
}

/// `ldc_inv` is a function.
pub open spec fn ldc_inv_steady<K: Kernels>(k: K) -> bool {
    forall|l: Seq<i32>, qp: u8, o: Seq<i32>, u: Seq<i32>| #[trigger] ldc_inv_may(k, l, qp, o) && #[trigger] ldc_inv_may(k, l, qp, u) ==> o == u
}

/// `o` may come back from `quant8`.
pub open spec fn quant8_may<K: Kernels>(k: K, res: Seq<i32>, qp: u8, dz: u8, o: Seq<i32>) -> bool {
    exists|res_: [i32; 64], r: [i32; 64]| res_@ == res && r@ == o && #[trigger] call_ensures(K::quant8, (&k, &res_, qp, dz), r)
}

/// The quantised levels of the transform of an 8x8 residual.
pub open spec fn quant8_of<K: Kernels>(k: K, res: Seq<i32>, qp: u8, dz: u8) -> Seq<i32> {
    choose|o: Seq<i32>| quant8_may(k, res, qp, dz, o)
}

/// `quant8` is a function.
pub open spec fn quant8_steady<K: Kernels>(k: K) -> bool {
    forall|res: Seq<i32>, qp: u8, dz: u8, o: Seq<i32>, u: Seq<i32>| #[trigger] quant8_may(k, res, qp, dz, o) && #[trigger] quant8_may(k, res, qp, dz, u) ==> o == u
}

/// `o` may come back from `add8`.
pub open spec fn add8_may<K: Kernels>(k: K, q: Seq<i32>, qp: u8, pred: Seq<i32>, o: Seq<u8>) -> bool {
    exists|q_: [i32; 64], pred_: [i32; 64], r: [u8; 64]| q_@ == q && pred_@ == pred && r@ == o && #[trigger] call_ensures(K::add8, (&k, &q_, qp, &pred_), r)
}

/// The samples of an 8x8 block, from its levels and its prediction.
pub open spec fn add8_of<K: Kernels>(k: K, q: Seq<i32>, qp: u8, pred: Seq<i32>) -> Seq<u8> {
    choose|o: Seq<u8>| add8_may(k, q, qp, pred, o)
}

/// `add8` is a function.
pub open spec fn add8_steady<K: Kernels>(k: K) -> bool {
    forall|q: Seq<i32>, qp: u8, pred: Seq<i32>, o: Seq<u8>, u: Seq<u8>| #[trigger] add8_may(k, q, qp, pred, o) && #[trigger] add8_may(k, q, qp, pred, u) ==> o == u
}

/// `o` may come back from `intra16`.
pub open spec fn intra16_may<K: Kernels>(k: K, mode: I16Mode, has: Around, top: Seq<u8>, left: Seq<u8>, corner: u8, o: Seq<u8>) -> bool {
    exists|top_: [u8; 16], left_: [u8; 16], r: [u8; 256]| top_@ == top && left_@ == left && r@ == o && #[trigger] call_ensures(K::intra16, (&k, mode, has, &top_, &left_, corner), r)
}

/// The intra prediction of a 16x16 macroblock.
pub open spec fn intra16_of<K: Kernels>(k: K, mode: I16Mode, has: Around, top: Seq<u8>, left: Seq<u8>, corner: u8) -> Seq<u8> {
    choose|o: Seq<u8>| intra16_may(k, mode, has, top, left, corner, o)
}

/// `intra16` is a function.
pub open spec fn intra16_steady<K: Kernels>(k: K) -> bool {
    forall|mode: I16Mode, has: Around, top: Seq<u8>, left: Seq<u8>, corner: u8, o: Seq<u8>, u: Seq<u8>| #[trigger] intra16_may(k, mode, has, top, left, corner, o) && #[trigger] intra16_may(k, mode, has, top, left, corner, u) ==> o == u
}

/// `o` may come back from `intra4`.
pub open spec fn intra4_may<K: Kernels>(k: K, mode: u8, has: Around, top: Seq<u8>, left: Seq<u8>, corner: u8, o: Seq<u8>) -> bool {
    exists|top_: [u8; 8], left_: [u8; 4], r: [u8; 16]| top_@ == top && left_@ == left && r@ == o && #[trigger] call_ensures(K::intra4, (&k, mode, has, &top_, &left_, corner), r)
}

/// The intra prediction of a 4x4 block.
pub open spec fn intra4_of<K: Kernels>(k: K, mode: u8, has: Around, top: Seq<u8>, left: Seq<u8>, corner: u8) -> Seq<u8> {
    choose|o: Seq<u8>| intra4_may(k, mode, has, top, left, corner, o)
}

/// `intra4` is a function.
pub open spec fn intra4_steady<K: Kernels>(k: K) -> bool {
    forall|mode: u8, has: Around, top: Seq<u8>, left: Seq<u8>, corner: u8, o: Seq<u8>, u: Seq<u8>| #[trigger] intra4_may(k, mode, has, top, left, corner, o) && #[trigger] intra4_may(k, mode, has, top, left, corner, u) ==> o == u
}

/// `o` may come back from `intra8`.
pub open spec fn intra8_may<K: Kernels>(k: K, mode: u8, has: Around, top: Seq<u8>, left: Seq<u8>, corner: u8, o: Seq<u8>) -> bool {
    exists|top_: [u8; 16], left_: [u8; 8], r: [u8; 64]| top_@ == top && left_@ == left && r@ == o && #[trigger] call_ensures(K::intra8, (&k, mode, has, &top_, &left_, corner), r)
}

/// The intra prediction of an 8x8 block.
pub open spec fn intra8_of<K: Kernels>(k: K, mode: u8, has: Around, top: Seq<u8>, left: Seq<u8>, corner: u8) -> Seq<u8> {
    choose|o: Seq<u8>| intra8_may(k, mode, has, top, left, corner, o)
}

/// `intra8` is a function.
pub open spec fn intra8_steady<K: Kernels>(k: K) -> bool {
    forall|mode: u8, has: Around, top: Seq<u8>, left: Seq<u8>, corner: u8, o: Seq<u8>, u: Seq<u8>| #[trigger] intra8_may(k, mode, has, top, left, corner, o) && #[trigger] intra8_may(k, mode, has, top, left, corner, u) ==> o == u
}

/// `o` may come back from `intrac`.
pub open spec fn intrac_may<K: Kernels>(k: K, mode: u8, has: Around, top: Seq<u8>, left: Seq<u8>, corner: u8, o: Seq<u8>) -> bool {
    exists|top_: [u8; 8], left_: [u8; 8], r: [u8; 64]| top_@ == top && left_@ == left && r@ == o && #[trigger] call_ensures(K::intrac, (&k, mode, has, &top_, &left_, corner), r)
}

/// The intra prediction of a chroma block.
pub open spec fn intrac_of<K: Kernels>(k: K, mode: u8, has: Around, top: Seq<u8>, left: Seq<u8>, corner: u8) -> Seq<u8> {
    choose|o: Seq<u8>| intrac_may(k, mode, has, top, left, corner, o)
}

/// `intrac` is a function.
pub open spec fn intrac_steady<K: Kernels>(k: K) -> bool {
    forall|mode: u8, has: Around, top: Seq<u8>, left: Seq<u8>, corner: u8, o: Seq<u8>, u: Seq<u8>| #[trigger] intrac_may(k, mode, has, top, left, corner, o) && #[trigger] intrac_may(k, mode, has, top, left, corner, u) ==> o == u
}

/// `o` may come back from `rd_less`.
pub open spec fn rd_less_may<K: Kernels>(k: K, qp: u8, a: Rd, b: Rd, o: bool) -> bool {
    call_ensures(K::rd_less, (&k, qp, a, b), o)
}

/// Whether the first distortion and rate cost less than the second at a QP.
pub open spec fn rd_less_of<K: Kernels>(k: K, qp: u8, a: Rd, b: Rd) -> bool {
    choose|o: bool| rd_less_may(k, qp, a, b, o)
}

/// `rd_less` is a function.
pub open spec fn rd_less_steady<K: Kernels>(k: K) -> bool {
    forall|qp: u8, a: Rd, b: Rd, o: bool, u: bool| #[trigger] rd_less_may(k, qp, a, b, o) && #[trigger] rd_less_may(k, qp, a, b, u) ==> o == u
}

/// `o` may come back from `rd_at_most`.
pub open spec fn rd_at_most_may<K: Kernels>(k: K, qp: u8, a: Rd, b: Rd, o: bool) -> bool {
    call_ensures(K::rd_at_most, (&k, qp, a, b), o)
}

/// Whether the first distortion and rate cost at most as much as the second at a QP.
pub open spec fn rd_at_most_of<K: Kernels>(k: K, qp: u8, a: Rd, b: Rd) -> bool {
    choose|o: bool| rd_at_most_may(k, qp, a, b, o)
}

/// `rd_at_most` is a function.
pub open spec fn rd_at_most_steady<K: Kernels>(k: K) -> bool {
    forall|qp: u8, a: Rd, b: Rd, o: bool, u: bool| #[trigger] rd_at_most_may(k, qp, a, b, o) && #[trigger] rd_at_most_may(k, qp, a, b, u) ==> o == u
}

/// `o` may come back from `bits`.
pub open spec fn bits_may<K: Kernels>(k: K, w: Seq<ElemView>, o: usize) -> bool {
    exists|w_: Syntax, r: usize| w_@ == w && r == o && #[trigger] call_ensures(K::bits, (&k, &w_), r)
}

/// How many bits the entropy coder writes for the syntax.
pub open spec fn bits_of<K: Kernels>(k: K, w: Seq<ElemView>) -> usize {
    choose|o: usize| bits_may(k, w, o)
}

/// `bits` is a function.
pub open spec fn bits_steady<K: Kernels>(k: K) -> bool {
    forall|w: Seq<ElemView>, o: usize, u: usize| #[trigger] bits_may(k, w, o) && #[trigger] bits_may(k, w, u) ==> o == u
}

/// `o` may come back from `chroma_share`.
pub open spec fn chroma_share_may<K: Kernels>(k: K, ssd: i64, o: i64) -> bool {
    call_ensures(K::chroma_share, (&k, ssd), o)
}

/// What the distortion of chroma counts for beside that of luma.
pub open spec fn chroma_share_of<K: Kernels>(k: K, ssd: i64) -> i64 {
    choose|o: i64| chroma_share_may(k, ssd, o)
}

/// `chroma_share` is a function.
pub open spec fn chroma_share_steady<K: Kernels>(k: K) -> bool {
    forall|ssd: i64, o: i64, u: i64| #[trigger] chroma_share_may(k, ssd, o) && #[trigger] chroma_share_may(k, ssd, u) ==> o == u
}

/// `o` may come back from `split_floor`.
pub open spec fn split_floor_may<K: Kernels>(k: K, loud: bool, o: i64) -> bool {
    call_ensures(K::split_floor, (&k, loud), o)
}

/// The least cost at which a macroblock is searched in parts.
pub open spec fn split_floor_of<K: Kernels>(k: K, loud: bool) -> i64 {
    choose|o: i64| split_floor_may(k, loud, o)
}

/// `split_floor` is a function.
pub open spec fn split_floor_steady<K: Kernels>(k: K) -> bool {
    forall|loud: bool, o: i64, u: i64| #[trigger] split_floor_may(k, loud, o) && #[trigger] split_floor_may(k, loud, u) ==> o == u
}

/// `o` may come back from `pays`.
pub open spec fn pays_may<K: Kernels>(k: K, gains: Seq<Gain>, seen: usize, o: bool) -> bool {
    exists|gains_: Vec<Gain>, r: bool| gains_@ == gains && r == o && #[trigger] call_ensures(K::pays, (&k, &gains_, seen), r)
}

/// Whether searching quarters in parts has saved enough, over a number of macroblocks.
pub open spec fn pays_of<K: Kernels>(k: K, gains: Seq<Gain>, seen: usize) -> bool {
    choose|o: bool| pays_may(k, gains, seen, o)
}

/// `pays` is a function.
pub open spec fn pays_steady<K: Kernels>(k: K) -> bool {
    forall|gains: Seq<Gain>, seen: usize, o: bool, u: bool| #[trigger] pays_may(k, gains, seen, o) && #[trigger] pays_may(k, gains, seen, u) ==> o == u
}

/// The largest rate that is ever priced: a vector has two components, and each is charged 16 bits.
pub const BITS_MAX: u32 = 0x1_ffff;

/// The largest price of such a rate.
pub const PRICE_MAX: i64 = 0x100_0000_0000;

/// No price that can be asked for is negative, or so large that costs could run over.
pub open spec fn fair<K: Kernels>(k: K) -> bool {
    forall|p: Price| p.bits <= BITS_MAX ==> 0 <= #[trigger] price_of(k, p) <= PRICE_MAX
}

/// The two chroma blocks of a macroblock cannot differ by more than this, squared.
pub const CHROMA_SSD_MAX: i64 = 0x200_0000;

/// Prices are fair, and so is what is made of the distortions of chroma.
pub open spec fn modest<K: Kernels>(k: K) -> bool {
    &&& fair(k)
    &&& forall|s: i64|
        0 <= s <= CHROMA_SSD_MAX ==> 0 <= #[trigger] chroma_share_of(k, s) <= 0x1000_0000_0000
}

/// All kernels are functions: equal arguments give equal results.
#[verifier::opaque]
pub open spec fn steady<K: Kernels>(k: K) -> bool {
    &&& mc_steady(k)
    &&& price_steady(k)
    &&& served_steady(k)
    &&& fdct4_steady(k)
    &&& quant4_steady(k)
    &&& lower_steady(k)
    &&& trim_steady(k)
    &&& deq4_steady(k)
    &&& add4_steady(k)
    &&& cdc_steady(k)
    &&& cdc_inv_steady(k)
    &&& ldc_steady(k)
    &&& ldc_inv_steady(k)
    &&& quant8_steady(k)
    &&& add8_steady(k)
    &&& intra16_steady(k)
    &&& intra4_steady(k)
    &&& intra8_steady(k)
    &&& intrac_steady(k)
    &&& rd_less_steady(k)
    &&& rd_at_most_steady(k)
    &&& bits_steady(k)
    &&& chroma_share_steady(k)
    &&& split_floor_steady(k)
    &&& pays_steady(k)
}

/// A block predicted from a reference picture, dense in the front of the result.
pub fn mc<K: Kernels>(k: &K, job: McJob) -> (r: [u8; 256])
    requires
        steady(*k),
    ensures
        r@ == mc_of(*k, job),
{
    reveal(steady);
    let r: [u8; 256] = k.mc(job);
    assert(mc_may(*k, job, r@));
    assert(mc_may(*k, job, mc_of(*k, job)));
    r
}

/// The weight of a rate against distortion.
pub fn price<K: Kernels>(k: &K, p: Price) -> (r: i64)
    requires
        steady(*k),
    ensures
        r == price_of(*k, p),
{
    reveal(steady);
    let r: i64 = k.price(p);
    assert(price_may(*k, p, r));
    assert(price_may(*k, p, price_of(*k, p)));
    r
}

/// Whether the planes of half samples hold the block at a vector.
pub fn served<K: Kernels>(k: &K, mv: (i32, i32)) -> (r: bool)
    requires
        steady(*k),
    ensures
        r == served_of(*k, mv),
{
    reveal(steady);
    let r: bool = k.served(mv);
    assert(served_may(*k, mv, r));
    assert(served_may(*k, mv, served_of(*k, mv)));
    r
}

/// The forward transform of a 4x4 residual.
pub fn fdct4<K: Kernels>(k: &K, res: &[i32; 16]) -> (r: [i32; 16])
    requires
        steady(*k),
    ensures
        r@ == fdct4_of(*k, res@),
{
    reveal(steady);
    let r: [i32; 16] = k.fdct4(res);
    assert(fdct4_may(*k, res@, r@));
    assert(fdct4_may(*k, res@, fdct4_of(*k, res@)));
    r
}

/// The quantised levels of a 4x4 block, with the dead zone given by its divisor.
pub fn quant4<K: Kernels>(k: &K, c: &[i32; 16], qp: u8, dz: u8) -> (r: [i32; 16])
    requires
        steady(*k),
    ensures
        r@ == quant4_of(*k, c@, qp, dz),
{
    reveal(steady);
    let r: [i32; 16] = k.quant4(c, qp, dz);
    assert(quant4_may(*k, c@, qp, dz, r@));
    assert(quant4_may(*k, c@, qp, dz, quant4_of(*k, c@, qp, dz)));
    r
}

/// Whether the level of a coefficient is better taken one lower.
pub fn lower<K: Kernels>(k: &K, qp: u8, pos: usize, coeff: i32, level: u32) -> (r: bool)
    requires
        steady(*k),
    ensures
        r == lower_of(*k, qp, pos, coeff, level),
{
    reveal(steady);
    let r: bool = k.lower(qp, pos, coeff, level);
    assert(lower_may(*k, qp, pos, coeff, level, r));
    assert(lower_may(*k, qp, pos, coeff, level, lower_of(*k, qp, pos, coeff, level)));
    r
}

/// Whether the last level of a block is better dropped, which frees the given bits.
pub fn trim<K: Kernels>(k: &K, qp: u8, pos: usize, coeff: i32, level: u32, bits: i64) -> (r: bool)
    requires
        steady(*k),
    ensures
        r == trim_of(*k, qp, pos, coeff, level, bits),
{
    reveal(steady);
    let r: bool = k.trim(qp, pos, coeff, level, bits);
    assert(trim_may(*k, qp, pos, coeff, level, bits, r));
    assert(trim_may(*k, qp, pos, coeff, level, bits, trim_of(*k, qp, pos, coeff, level, bits)));
    r
}

/// The coefficients that the levels of a 4x4 block stand for.
pub fn deq4<K: Kernels>(k: &K, q: &[i32; 16], qp: u8) -> (r: [i32; 16])
    requires
        steady(*k),
    ensures
        r@ == deq4_of(*k, q@, qp),
{
    reveal(steady);
    let r: [i32; 16] = k.deq4(q, qp);
    assert(deq4_may(*k, q@, qp, r@));
    assert(deq4_may(*k, q@, qp, deq4_of(*k, q@, qp)));
    r
}

/// The samples of a 4x4 block: the inverse transform added to the prediction, clipped.
pub fn add4<K: Kernels>(k: &K, c: &[i32; 16], pred: &[i32; 16]) -> (r: [u8; 16])
    requires
        steady(*k),
    ensures
        r@ == add4_of(*k, c@, pred@),
{
    reveal(steady);
    let r: [u8; 16] = k.add4(c, pred);
    assert(add4_may(*k, c@, pred@, r@));
    assert(add4_may(*k, c@, pred@, add4_of(*k, c@, pred@)));
    r
}

/// The quantised levels of the four DC coefficients of a chroma plane.
pub fn cdc<K: Kernels>(k: &K, dc: &[i32; 4], qpc: u8, intra: bool) -> (r: [i32; 4])
    requires
        steady(*k),
    ensures
        r@ == cdc_of(*k, dc@, qpc, intra),
{
    reveal(steady);
    let r: [i32; 4] = k.cdc(dc, qpc, intra);
    assert(cdc_may(*k, dc@, qpc, intra, r@));
    assert(cdc_may(*k, dc@, qpc, intra, cdc_of(*k, dc@, qpc, intra)));
    r
}

/// The DC coefficients that the levels of a chroma plane stand for.
pub fn cdc_inv<K: Kernels>(k: &K, l: &[i32; 4], qpc: u8) -> (r: [i32; 4])
    requires
        steady(*k),
    ensures
        r@ == cdc_inv_of(*k, l@, qpc),
{
    reveal(steady);
    let r: [i32; 4] = k.cdc_inv(l, qpc);
    assert(cdc_inv_may(*k, l@, qpc, r@));
    assert(cdc_inv_may(*k, l@, qpc, cdc_inv_of(*k, l@, qpc)));
    r
}

/// The quantised levels of the sixteen DC coefficients of an I_16x16 macroblock.
pub fn ldc<K: Kernels>(k: &K, dc: &[i32; 16], qp: u8) -> (r: [i32; 16])
    requires
        steady(*k),
    ensures
        r@ == ldc_of(*k, dc@, qp),
{
    reveal(steady);
    let r: [i32; 16] = k.ldc(dc, qp);
    assert(ldc_may(*k, dc@, qp, r@));
    assert(ldc_may(*k, dc@, qp, ldc_of(*k, dc@, qp)));
    r
}

/// The DC coefficients that the levels of an I_16x16 macroblock stand for.
pub fn ldc_inv<K: Kernels>(k: &K, l: &[i32; 16], qp: u8) -> (r: [i32; 16])
    requires
        steady(*k),
    ensures
        r@ == ldc_inv_of(*k, l@, qp),
{
    reveal(steady);
    let r: [i32; 16] = k.ldc_inv(l, qp);
    assert(ldc_inv_may(*k, l@, qp, r@));
    assert(ldc_inv_may(*k, l@, qp, ldc_inv_of(*k, l@, qp)));
    r
}

/// The quantised levels of the transform of an 8x8 residual.
pub fn quant8<K: Kernels>(k: &K, res: &[i32; 64], qp: u8, dz: u8) -> (r: [i32; 64])
    requires
        steady(*k),
    ensures
        r@ == quant8_of(*k, res@, qp, dz),
{
    reveal(steady);
    let r: [i32; 64] = k.quant8(res, qp, dz);
    assert(quant8_may(*k, res@, qp, dz, r@));
    assert(quant8_may(*k, res@, qp, dz, quant8_of(*k, res@, qp, dz)));
    r
}

/// The samples of an 8x8 block, from its levels and its prediction.
pub fn add8<K: Kernels>(k: &K, q: &[i32; 64], qp: u8, pred: &[i32; 64]) -> (r: [u8; 64])
    requires
        steady(*k),
    ensures
        r@ == add8_of(*k, q@, qp, pred@),
{
    reveal(steady);
    let r: [u8; 64] = k.add8(q, qp, pred);
    assert(add8_may(*k, q@, qp, pred@, r@));
    assert(add8_may(*k, q@, qp, pred@, add8_of(*k, q@, qp, pred@)));
    r
}

/// The intra prediction of a 16x16 macroblock.
pub fn intra16<K: Kernels>(k: &K, mode: I16Mode, has: Around, top: &[u8; 16], left: &[u8; 16], corner: u8) -> (r: [u8; 256])
    requires
        steady(*k),
    ensures
        r@ == intra16_of(*k, mode, has, top@, left@, corner),
{
    reveal(steady);
    let r: [u8; 256] = k.intra16(mode, has, top, left, corner);
    assert(intra16_may(*k, mode, has, top@, left@, corner, r@));
    assert(intra16_may(*k, mode, has, top@, left@, corner, intra16_of(*k, mode, has, top@, left@, corner)));
    r
}

/// The intra prediction of a 4x4 block.
pub fn intra4<K: Kernels>(k: &K, mode: u8, has: Around, top: &[u8; 8], left: &[u8; 4], corner: u8) -> (r: [u8; 16])
    requires
        steady(*k),
    ensures
        r@ == intra4_of(*k, mode, has, top@, left@, corner),
{
    reveal(steady);
    let r: [u8; 16] = k.intra4(mode, has, top, left, corner);
    assert(intra4_may(*k, mode, has, top@, left@, corner, r@));
    assert(intra4_may(*k, mode, has, top@, left@, corner, intra4_of(*k, mode, has, top@, left@, corner)));
    r
}

/// The intra prediction of an 8x8 block.
pub fn intra8<K: Kernels>(k: &K, mode: u8, has: Around, top: &[u8; 16], left: &[u8; 8], corner: u8) -> (r: [u8; 64])
    requires
        steady(*k),
    ensures
        r@ == intra8_of(*k, mode, has, top@, left@, corner),
{
    reveal(steady);
    let r: [u8; 64] = k.intra8(mode, has, top, left, corner);
    assert(intra8_may(*k, mode, has, top@, left@, corner, r@));
    assert(intra8_may(*k, mode, has, top@, left@, corner, intra8_of(*k, mode, has, top@, left@, corner)));
    r
}

/// The intra prediction of a chroma block.
pub fn intrac<K: Kernels>(k: &K, mode: u8, has: Around, top: &[u8; 8], left: &[u8; 8], corner: u8) -> (r: [u8; 64])
    requires
        steady(*k),
    ensures
        r@ == intrac_of(*k, mode, has, top@, left@, corner),
{
    reveal(steady);
    let r: [u8; 64] = k.intrac(mode, has, top, left, corner);
    assert(intrac_may(*k, mode, has, top@, left@, corner, r@));
    assert(intrac_may(*k, mode, has, top@, left@, corner, intrac_of(*k, mode, has, top@, left@, corner)));
    r
}

/// Whether the first distortion and rate cost less than the second at a QP.
pub fn rd_less<K: Kernels>(k: &K, qp: u8, a: Rd, b: Rd) -> (r: bool)
    requires
        steady(*k),
    ensures
        r == rd_less_of(*k, qp, a, b),
{
    reveal(steady);
    let r: bool = k.rd_less(qp, a, b);
    assert(rd_less_may(*k, qp, a, b, r));
    assert(rd_less_may(*k, qp, a, b, rd_less_of(*k, qp, a, b)));
    r
}

/// Whether the first distortion and rate cost at most as much as the second at a QP.
pub fn rd_at_most<K: Kernels>(k: &K, qp: u8, a: Rd, b: Rd) -> (r: bool)
    requires
        steady(*k),
    ensures
        r == rd_at_most_of(*k, qp, a, b),
{
    reveal(steady);
    let r: bool = k.rd_at_most(qp, a, b);
    assert(rd_at_most_may(*k, qp, a, b, r));
    assert(rd_at_most_may(*k, qp, a, b, rd_at_most_of(*k, qp, a, b)));
    r
}

/// How many bits the entropy coder writes for the syntax.
pub fn bits<K: Kernels>(k: &K, w: &Syntax) -> (r: usize)
    requires
        steady(*k),
    ensures
        r == bits_of(*k, w@),
{
    reveal(steady);
    let r: usize = k.bits(w);
    assert(bits_may(*k, w@, r));
    assert(bits_may(*k, w@, bits_of(*k, w@)));
    r
}

/// What the distortion of chroma counts for beside that of luma.
pub fn chroma_share<K: Kernels>(k: &K, ssd: i64) -> (r: i64)
    requires
        steady(*k),
    ensures
        r == chroma_share_of(*k, ssd),
{
    reveal(steady);
    let r: i64 = k.chroma_share(ssd);
    assert(chroma_share_may(*k, ssd, r));
    assert(chroma_share_may(*k, ssd, chroma_share_of(*k, ssd)));
    r
}

/// The least cost at which a macroblock is searched in parts.
pub fn split_floor<K: Kernels>(k: &K, loud: bool) -> (r: i64)
    requires
        steady(*k),
    ensures
        r == split_floor_of(*k, loud),
{
    reveal(steady);
    let r: i64 = k.split_floor(loud);
    assert(split_floor_may(*k, loud, r));
    assert(split_floor_may(*k, loud, split_floor_of(*k, loud)));
    r
}

/// Whether searching quarters in parts has saved enough, over a number of macroblocks.
pub fn pays<K: Kernels>(k: &K, gains: &Vec<Gain>, seen: usize) -> (r: bool)
    requires
        steady(*k),
    ensures
        r == pays_of(*k, gains@, seen),
{
    reveal(steady);
    let r: bool = k.pays(gains, seen);
    assert(pays_may(*k, gains@, seen, r));
    assert(pays_may(*k, gains@, seen, pays_of(*k, gains@, seen)));
    r
}

} // verus!
