//! Local token measurement for text, byte inputs and scan snapshots.

use vstd::prelude::*;

pub mod chars;
pub mod path;
pub mod text_policy;
pub mod decode;
pub mod file;
pub mod classify;
pub mod error;
pub mod hash;
pub mod tokenizer;
pub mod count;
pub mod cache;
pub mod sort;
pub mod aggregate;
pub mod language_totals;
pub mod diff;
pub mod diff_totals;
pub mod ordering;
pub mod cli;
pub mod format;
pub mod report;
pub mod walk;
pub mod git;

verus! {

/// Version of this release.
pub const VERSION: &'static str = "0.0.1";

/// Current counting semantics revision.
pub const COUNTING_SEMANTICS_VERSION: u32 = 1;

} // verus!
