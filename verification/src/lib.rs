//! Direct sequence spread spectrum (DSSS) chip-level coding for the
//! 802.15.4 physical layer: symbols are spread to fixed 32-bit chip
//! patterns, and received patterns are decoded back to the nearest
//! codebook symbol within a configurable Hamming-distance threshold.

pub mod dsss;
pub mod util;
