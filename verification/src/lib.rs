//! Progressive duplicate-file detection.
//!
//! Candidates are grouped by size and by a rolling SHA-256 fingerprint of the
//! bytes read so far. Each round reads one more chunk of every candidate that
//! still shares its grouping key with a neighbour; candidates whose key has
//! become unique drop out, and candidates that stay indistinguishable through
//! their last byte are reported as duplicates.
pub mod algo;
pub mod algo_laws;
pub mod cli;
pub mod fddup;
pub mod fingerprint;
pub mod order;
pub mod possdupe;
pub mod stats;
pub mod text;
pub mod trusted;
