//! Audit logic for FrankenPHP + Laravel servers: configuration parsers,
//! per-area checks that turn gathered facts into findings, and the
//! planning of configuration fixes.
use vstd::prelude::*;

pub mod text;
pub mod types;
pub mod checks;
pub mod discover;
pub mod line_edit;
pub mod fixes;
pub mod order;
pub mod benchmark;
pub mod output;
pub mod supervisor;

verus! {
} // verus!
