//! The per-file classification result.

use vstd::prelude::*;
use crate::Language;

verus! {

/// Counts for one successfully classified file.
#[derive(Clone, Copy, Debug, PartialEq, Eq)]
pub struct Detail {
    pub language: Language,
    pub bytes: u64,
    pub blank: usize,
    pub comment: usize,
    pub code: usize,
}

} // verus!
