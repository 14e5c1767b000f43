//! A static-analysis core for smart-contract syntax trees.
//!
//! The crate ingests an externally parsed abstract syntax tree into an
//! immutable workspace registry, answers relationship and extraction
//! queries over it, and runs structural detectors that capture findings
//! keyed by source location.

pub mod ast;
pub mod workspace;
pub mod strings;
pub mod location;
pub mod instances;
pub mod semver_req;
pub mod detector;
pub mod push_zero_opcode;
pub mod requires_in_loops;
pub mod zero_address_check;
pub mod blame;
pub mod foundry;
pub mod paths;
pub mod metadata;
