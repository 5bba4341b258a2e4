//! Recovering a view from a borrowed substring by comparing address ranges.
//!
//! A slice that an algorithm cut out of [`as_str`](crate::string::ImString::as_str) still lies
//! inside the view's buffer. Comparing the address range of the slice with that of the buffer
//! tells where, so that a new view on the same storage can stand for it without copying.
use std::ops::Range;
use vstd::prelude::*;

verus! {

/// Relies on `<[u8]>::as_ptr`: the address where the slice starts. A slice never wraps around
/// the address space, so its end address is representable too.
#[verifier::external_body]
fn address_of(slice: &[u8]) -> (r: usize)
    ensures
        r + slice@.len() <= usize::MAX,
{
    slice.as_ptr() as usize
}

/// Where the address range `candidate_start .. candidate_start + candidate_len` lies within
/// `current_start .. current_start + current_len`, as offsets from `current_start`; `None` when
/// it does not lie within it.
pub fn slice_offset(
    current_start: usize,
    current_len: usize,
    candidate_start: usize,
    candidate_len: usize,
) -> (r: Option<Range<usize>>)
    requires
        current_start + current_len <= usize::MAX,
        candidate_start + candidate_len <= usize::MAX,
    ensures
        r is Some <==> (current_start <= candidate_start && candidate_start + candidate_len
            <= current_start + current_len),
        r matches Some(range) ==> {
            &&& range.start == candidate_start - current_start
            &&& range.end == range.start + candidate_len
        },
{
    let current_end = current_start + current_len;
    let candidate_end = candidate_start + candidate_len;
    if current_start > candidate_start || current_end < candidate_end {
        return None;
    }
    let start = candidate_start - current_start;
    Some(start..(start + candidate_len))
}

/// Where `candidate` lies within `current` in memory, as a range of offsets into `current`, or
/// `None` when it does not lie within it.
pub(crate) fn try_slice_offset(current: &[u8], candidate: &[u8]) -> (r: Option<Range<usize>>)
    ensures
        r matches Some(range) ==> {
            &&& range.start <= range.end <= current@.len()
            &&& range.end - range.start == candidate@.len()
        },
{
    slice_offset(address_of(current), current.len(), address_of(candidate), candidate.len())
}

} // verus!
