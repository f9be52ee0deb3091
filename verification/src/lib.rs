//! A verified model of a single-asset real-world-asset vault: share
//! accounting with virtual offsets, epoch-based yield distribution and
//! claiming, and the 256-bit intermediate arithmetic it rests on.
pub mod context;
pub mod errors;
pub mod math;
pub mod storage;
pub mod token;
pub mod vault;
