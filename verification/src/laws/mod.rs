//! What holds of the library's operations as a whole.

pub mod blocks;
pub mod coding;
pub mod contexts;
pub mod deciding;
pub mod details;
pub mod direct;
pub mod elements;
pub mod frames;
pub mod levels;
pub mod lookahead;
pub mod measures;
pub mod motion;
pub mod outcomes;
pub mod partitions;
pub mod planning;
pub mod rates;
pub mod samples;
pub mod searching;
pub mod setters;
pub mod settings;
pub mod slices;
pub mod streams;
pub mod walks;
