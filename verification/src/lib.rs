//! The decision, syntax and state logic of an H.264 encoder.

pub mod arith;
pub mod bits;
pub mod config;
pub mod params;
pub mod slice;
pub mod slicehead;
pub mod cabac;
pub mod binarize;
pub mod residual;
pub mod readback;
pub mod scan;
pub mod grid;
pub mod rect;
pub mod plan;
pub mod frame;
pub mod motion;
pub mod mbstate;
pub mod pixels;
pub mod kernels;
pub mod distortion;
pub mod quant;
pub mod setup;
pub mod skip;
pub mod search;
pub mod parts;
pub mod shapes;
pub mod partition;
pub mod interplan;
pub mod intra4;
pub mod intra8;
pub mod intraplan;
pub mod cavlc;
pub mod mbcavlc;
pub mod trial;
pub mod extmv;
pub mod pslice;
pub mod mbcabac;
pub mod mbinter;
pub mod pcabac;
pub mod lookcost;
pub mod mbtree;
pub mod gop;
pub mod rank;
pub mod signals;
pub mod gmc;
pub mod drawn;
pub mod telemetry;
pub mod census;
pub mod counters;
pub mod spstats;
pub mod satdpath;
pub mod diastats;
pub mod bstats;
pub mod knobs;
pub mod route;
pub mod finish;
pub mod bcabac;
pub mod icabac;
pub mod bslice;
pub mod laws;
