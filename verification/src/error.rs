//! The ways in which a merge can fail.

use vstd::prelude::*;

verus! {

/// Why a merge step gave up. Each of these is final: nothing is repaired and
/// no partial result is produced.
#[derive(Debug, Clone, Copy, PartialEq, Eq, Structural)]
pub enum MergeError {
    /// The documents hold more distinct frames than a sample's 32-bit signed
    /// index can address.
    TooManyFrames,
    /// A sample refers to a frame index outside its document's frame list.
    FrameIndexOutOfRange,
    /// A sample refers to a frame that has no entry in the frame table.
    FrameNotInTable,
}

} // verus!
