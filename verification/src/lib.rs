//! Pipeline hazard analysis for a small RISC-style instruction set.
//!
//! A stream of fixed-width binary instruction lines is decoded, scanned for
//! data hazards, rewritten under four mitigation techniques and costed
//! against an organization profile.

pub mod instruction;
pub mod data_hazard;
pub mod techniques;
pub mod performance;
pub mod ranking;
pub mod laws;
