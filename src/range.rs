//! Byte range descriptions and their validation against a text.
use crate::error::SliceError;
use std::ops::{Range, RangeFrom, RangeFull, RangeTo};
use vstd::prelude::*;
use vstd::string::StringSliceAdditionalSpecFns;
use vstd::utf8::*;

verus! {

/// `RangeFrom` (`a..`), with its public field `start` visible, as vstd declares `Range`.
#[verifier::external_type_specification]
#[verifier::reject_recursive_types(Idx)]
pub struct ExRangeFrom<Idx>(RangeFrom<Idx>);

/// `RangeTo` (`..b`), with its public field `end` visible, as vstd declares `Range`.
#[verifier::external_type_specification]
#[verifier::reject_recursive_types(Idx)]
pub struct ExRangeTo<Idx>(RangeTo<Idx>);

/// `RangeFull` (`..`), which has no fields.
#[verifier::external_type_specification]
pub struct ExRangeFull(RangeFull);

/// One end of a byte range.
#[derive(Debug, Clone, Copy, PartialEq, Eq, Structural)]
pub enum Bound {
    /// The end includes this offset.
    Included(usize),
    /// The end excludes this offset.
    Excluded(usize),
    /// No limit on this side.
    Unbounded,
}

/// A description of a byte range by its two ends, such as `2..5`, `3..` or `..`.
pub trait SliceRange {
    /// The start of the range.
    spec fn spec_start_bound(&self) -> Bound;

    /// The end of the range.
    spec fn spec_end_bound(&self) -> Bound;

    /// Returns the start of the range.
    fn start_bound(&self) -> (r: Bound)
        ensures
            r == self.spec_start_bound(),
    ;

    /// Returns the end of the range.
    fn end_bound(&self) -> (r: Bound)
        ensures
            r == self.spec_end_bound(),
    ;
}

impl SliceRange for Range<usize> {
    open spec fn spec_start_bound(&self) -> Bound {
        Bound::Included(self.start)
    }

    open spec fn spec_end_bound(&self) -> Bound {
        Bound::Excluded(self.end)
    }

    fn start_bound(&self) -> (r: Bound) {
        Bound::Included(self.start)
    }

    fn end_bound(&self) -> (r: Bound) {
        Bound::Excluded(self.end)
    }
}

impl SliceRange for RangeFrom<usize> {
    open spec fn spec_start_bound(&self) -> Bound {
        Bound::Included(self.start)
    }

    open spec fn spec_end_bound(&self) -> Bound {
        Bound::Unbounded
    }

    fn start_bound(&self) -> (r: Bound) {
        Bound::Included(self.start)
    }

    fn end_bound(&self) -> (r: Bound) {
        Bound::Unbounded
    }
}

impl SliceRange for RangeTo<usize> {
    open spec fn spec_start_bound(&self) -> Bound {
        Bound::Unbounded
    }

    open spec fn spec_end_bound(&self) -> Bound {
        Bound::Excluded(self.end)
    }

    fn start_bound(&self) -> (r: Bound) {
        Bound::Unbounded
    }

    fn end_bound(&self) -> (r: Bound) {
        Bound::Excluded(self.end)
    }
}

impl SliceRange for RangeFull {
    open spec fn spec_start_bound(&self) -> Bound {
        Bound::Unbounded
    }

    open spec fn spec_end_bound(&self) -> Bound {
        Bound::Unbounded
    }

    fn start_bound(&self) -> (r: Bound) {
        Bound::Unbounded
    }

    fn end_bound(&self) -> (r: Bound) {
        Bound::Unbounded
    }
}

impl SliceRange for (Bound, Bound) {
    open spec fn spec_start_bound(&self) -> Bound {
        self.0
    }

    open spec fn spec_end_bound(&self) -> Bound {
        self.1
    }

    fn start_bound(&self) -> (r: Bound) {
        self.0
    }

    fn end_bound(&self) -> (r: Bound) {
        self.1
    }
}

/// The offset at which a range with this start begins.
pub open spec fn start_of(b: Bound) -> int {
    match b {
        Bound::Included(v) => v as int,
        Bound::Excluded(v) => v + 1,
        Bound::Unbounded => 0,
    }
}

/// The offset before which a range with this end stops, where `len` is what `Unbounded` means.
pub open spec fn end_of(b: Bound, len: int) -> int {
    match b {
        Bound::Included(v) => v + 1,
        Bound::Excluded(v) => v as int,
        Bound::Unbounded => len,
    }
}

/// The outcome of checking the range `start..end` against a text: the first failing check
/// in the order bounds, order, bounds, alignment of start, alignment of end.
pub open spec fn check_range(text: Seq<u8>, start: int, end: int) -> Result<(int, int), SliceError> {
    if start > text.len() {
        Err(SliceError::StartOutOfBounds)
    } else if end < start {
        Err(SliceError::EndBeforeStart)
    } else if end > text.len() {
        Err(SliceError::EndOutOfBounds)
    } else if !is_char_boundary(text, start) {
        Err(SliceError::StartNotAligned)
    } else if !is_char_boundary(text, end) {
        Err(SliceError::EndNotAligned)
    } else {
        Ok((start, end))
    }
}

/// Translates a range description into a concrete byte range of `text`, or the first error
/// that applies to it.
pub fn resolve_range(text: &str, start: Bound, end: Bound) -> (r: Result<Range<usize>, SliceError>)
    ensures
        match check_range(text.spec_bytes(), start_of(start), end_of(end, text.spec_bytes().len() as int)) {
            Ok((s, e)) => r matches Ok(range) && range.start == s && range.end == e,
            Err(err) => r == Err::<Range<usize>, SliceError>(err),
        },
{
    let len = text.as_bytes().len();
    let s: usize = match start {
        Bound::Included(v) => v,
        Bound::Excluded(v) => {
            if v >= len {
                return Err(SliceError::StartOutOfBounds);
            }
            v + 1
        },
        Bound::Unbounded => 0,
    };
    if s > len {
        return Err(SliceError::StartOutOfBounds);
    }
    let e: usize = match end {
        Bound::Included(v) => {
            if v >= len {
                return Err(SliceError::EndOutOfBounds);
            }
            v + 1
        },
        Bound::Excluded(v) => v,
        Bound::Unbounded => len,
    };
    if e < s {
        return Err(SliceError::EndBeforeStart);
    }
    if e > len {
        return Err(SliceError::EndOutOfBounds);
    }
    if !text.is_char_boundary(s) {
        return Err(SliceError::StartNotAligned);
    }
    if !text.is_char_boundary(e) {
        return Err(SliceError::EndNotAligned);
    }
    Ok(s..e)
}

} // verus!
