//! The verified core of the `jev` command line: where each crate of the
//! workspace sits, where a command's items come from, and how per-item
//! results fold into a run's report.

pub mod layers;
pub mod source;
pub mod json;
pub mod counts;
pub mod usage;
pub mod classify;
pub mod classify_laws;
pub mod ask;
pub mod asking;
pub mod eval;
pub mod label;
