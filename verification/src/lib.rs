//! A discretized baker's map on square pixel grids.
//!
//! The library builds an initial square frame (a two-color split or random
//! noise), applies one of two integer-exact baker's-map variants to remap
//! every pixel, and iterates the map to produce an ordered frame sequence.

pub mod baker;
pub mod frame;
pub mod init;
pub mod sequence;
