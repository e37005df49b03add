//! Failures a single file can suffer while being read for classification.

use vstd::prelude::*;

verus! {

/// Why a file's content could not be classified. A file whose read fails,
/// with either kind, only increments the ignored-files counter: a single
/// file's failure never aborts a run.
#[derive(Clone, Copy, Debug, PartialEq, Eq)]
pub enum ClocError {
    /// The file's content is not valid text.
    NonTextFile,
    /// Any other read failure.
    IoFailure,
}

} // verus!
