//! Packed binary feature vectors, analogue comparison and the integer core of
//! the research bench, with their contracts.
use vstd::prelude::*;

pub mod analysis;
pub mod baseline;
pub mod binary;
pub mod bits;
pub mod cli;
pub mod blocks;
pub mod buckets;
pub mod comparator;
pub mod config;
pub mod datasets;
pub mod debug_page;
pub mod draws;
pub mod floats;
pub mod laws;
pub mod metrics;
pub mod numbers;
pub mod pann;
pub mod patch;
pub mod report;
pub mod search_space;
pub mod tables;
pub mod settings;
pub mod setting_laws;
pub mod text;
pub mod vision;
pub mod vote;
pub mod wide;

verus! {

} // verus!
