//! Error types.
use vstd::prelude::*;

verus! {

/// A possible error when slicing an [`ImString`](crate::string::ImString).
#[derive(Debug, Clone, Copy, PartialEq, Eq, Structural)]
pub enum SliceError {
    /// Start offset out of bounds.
    StartOutOfBounds,
    /// End offset out of bounds.
    EndOutOfBounds,
    /// End index smaller than start index.
    EndBeforeStart,
    /// Start index not on a `char` boundary.
    StartNotAligned,
    /// End index not on a `char` boundary.
    EndNotAligned,
}

impl SliceError {
    /// Human-readable description of the error.
    pub fn message(&self) -> (r: &'static str)
        ensures
            r@ == self.spec_message()@,
    {
        match self {
            SliceError::StartOutOfBounds => "start offset out of bounds",
            SliceError::StartNotAligned => "start offset in multibyte UTF-8 sequence",
            SliceError::EndOutOfBounds => "end offset out of bounds",
            SliceError::EndNotAligned => "end offset in multibyte UTF-8 sequence",
            SliceError::EndBeforeStart => "end offset before start offset",
        }
    }

    /// The description that [`message`](SliceError::message) returns.
    pub open spec fn spec_message(&self) -> &'static str {
        match self {
            SliceError::StartOutOfBounds => "start offset out of bounds",
            SliceError::StartNotAligned => "start offset in multibyte UTF-8 sequence",
            SliceError::EndOutOfBounds => "end offset out of bounds",
            SliceError::EndNotAligned => "end offset in multibyte UTF-8 sequence",
            SliceError::EndBeforeStart => "end offset before start offset",
        }
    }
}

} // verus!
