//! Reader for an append-only, memory-mapped account container format
//! (the "append vec"), together with a batch extraction pipeline that
//! filters records by their owner key and stages the matches for an
//! atomic, insert-if-absent write into a relational destination.
//!
//! The container is modelled as an immutable byte region of which a
//! prefix (`current_len` bytes) holds valid record data.  All record
//! access is bounds-checked and decoded field by field at known byte
//! offsets; truncated or malformed containers end iteration silently
//! instead of raising an error.

pub mod layout;
pub mod append_vec;
pub mod iterator;
pub mod encode;
pub mod store;
pub mod pipeline;

use vstd::prelude::*;

verus! {

/// Why construction of an append vec was refused.  Construction
/// failures are fatal to the run that attempted them.
#[derive(Clone, Copy, Debug, PartialEq, Eq, Structural)]
pub enum ContainerError {
    /// The backing region is empty.
    TooSmall,
    /// The backing region exceeds the maximum container size, or this
    /// platform cannot address a region of the maximum size.
    TooLarge,
    /// The declared logical length exceeds the region's capacity.
    InconsistentLength,
}

} // verus!
