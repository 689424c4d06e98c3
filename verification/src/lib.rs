//! Contiguous-memory containers with verified contracts.
//!
//! The containers share one backing-store abstraction, [`raw_buf::RawBuf`]:
//! a block of element slots of which only some hold live elements. On top of
//! it stand a growable array ([`array_list::ArrayList`]), a LIFO stack
//! ([`stack::Stack`]), a second growable array with consuming iteration
//! ([`my_vec::MyVec`]), and a fixed-capacity ring buffer
//! ([`ring_buffer::RingBuffer`]). A FIFO queue and a binary min-heap are
//! thin wrappers over those primitives, and a singly linked list rounds
//! out the collection. The laws the containers obey across several calls
//! are proved in [`laws`].

use vstd::prelude::*;

pub mod array_list;
pub mod laws;
pub mod linked_list;
pub mod my_vec;
pub mod priority_queue;
pub mod queue;
pub mod raw_buf;
pub mod ring_buffer;
pub mod stack;

verus! {

/// Error returned by operations whose index lies outside the valid range.
///
/// Out-of-range access is surfaced as a recoverable error rather than a
/// process abort, so callers may probe an index they do not know to be live.
#[derive(Clone, Copy, Debug, PartialEq, Eq, Structural)]
pub struct BoundsError;

pub fn add(left: usize, right: usize) -> (sum: usize)
    requires
        left + right <= usize::MAX,
    ensures
        sum == left + right,
{
    left + right
}

} // verus!
