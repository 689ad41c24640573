//! The git-facing parts of the sync: repository discovery, process
//! output, push decisions, staging, and status checks.

pub mod discovery;
pub mod submodules;
pub mod push;
pub mod ops;
pub mod staging;
pub mod status;
