//! Version-range normalization for security advisories.
//!
//! An advisory declares "unaffected" and "patched" version requirements.
//! This crate normalizes each requirement into a validated safe interval,
//! checks the intervals pairwise disjoint, and emits the complement as
//! half-open `[start, end)` affected ranges, ready for OSV export. The
//! emitted ranges provably cover exactly the versions the safe intervals
//! miss, each version once.

pub mod advisory;
pub mod gitpath;
pub mod osv;
pub mod range;
pub mod report;
pub mod version;
