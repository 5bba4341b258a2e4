//! Cheaply clonable and sliceable UTF-8 strings.
//!
//! An [`ImString`](string::ImString) is a handle on a shared text buffer together with a
//! byte range into it. Cloning and slicing only copy the handle and narrow the range; mutation
//! goes through a copy-on-write protocol that never changes what another view can observe.
//! The storage strategy is a type parameter bounded by [`Data`](data::Data).
use vstd::prelude::*;

pub mod boundary;
pub mod data;
pub mod error;
pub mod input;
pub mod iter;
pub mod provenance;
pub mod range;
pub mod scan;
pub mod string;
pub mod string_specs;
pub mod traits;

verus! {

/// Thread-safe immutable string: an [`ImString`](string::ImString) whose buffer is shared
/// through an `Arc`. Use [`Local`](string::Local) storage where the views stay on one thread.
pub type ImString = string::ImString<string::Threadsafe>;

} // verus!
