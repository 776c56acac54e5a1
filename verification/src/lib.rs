//! Bounded multi-producer / multi-consumer FIFO queues over a fixed ring of
//! slots.
//!
//! Three queue designs share one interface, [`SynQueue`], and differ in how a
//! slot reservation is reconciled with the moment the slot becomes readable
//! or reusable:
//!
//! * [`AxelQueue`] keeps one packed head/tail word and a bitmap with one
//!   occupancy bit per slot.
//! * [`DoubleQueue`] keeps two packed head/tail words, an outer one that
//!   covers reservations and an inner one that covers finished writes.
//! * [`MaskedQueue`] keeps head and tail in separate words, each carrying a
//!   window of bits for the reservations still in flight on that side.
//!
//! Every decision the queues take is a function from plain words to plain
//! words with an exact contract. The functions that touch the shared atomics
//! are built from those decisions; what they promise is what holds whatever
//! the other threads did in the meantime.
//!
//! What the decisions add up to is stated over [`model::Ring`], the content
//! of a queue at rest. Each queue relates its words to a ring and proves
//! that an operation that runs alone moves the words as the ring moves; the
//! ring itself is proved to be first in, first out and never to hold more
//! than its capacity. Beyond that, each queue proves what its bookkeeping
//! guarantees while operations overlap: the bitmap queue that a cell is
//! reserved only while it is free or ready, the staged queue that its four
//! indices stay in order, the masked queue that reservations age and
//! release by the bit.
//!
//! A word that names no cell of the ring cannot come from these queues. An
//! operation that reads one refuses, as on a full or an empty queue.
use vstd::prelude::*;

pub mod axel;
pub mod double;
pub mod masked;
pub mod model;
pub mod other;
pub mod ring;
pub mod slot;
pub mod state;
pub mod word;

pub use axel::AxelQueue;
pub use double::DoubleQueue;
pub use masked::MaskedQueue;
pub use other::OtherQueue;

verus! {

/// The interface that every queue of this crate offers.
///
/// A queue is shared by reference among any number of producers and
/// consumers. Neither `push` nor `pop` blocks: a full queue hands the value
/// back, an empty one answers `None`. Both may retry while other operations
/// get in their way.
pub trait SynQueue<T>: Send + Sync + Sized {
    /// The capacities this kind of queue can be built with.
    spec fn valid_capacity(capacity: usize) -> bool;

    /// The most elements the queue holds at one time.
    spec fn capacity(&self) -> nat;

    /// A queue that holds up to `capacity` elements.
    fn new(capacity: usize) -> (queue: Self)
        requires
            Self::valid_capacity(capacity),
        ensures
            queue.capacity() == capacity,
    ;

    /// Hands `value` to the queue. A refusal returns the very value that was
    /// offered.
    fn push(&self, value: T) -> (outcome: Result<(), T>)
        ensures
            outcome matches Err(back) ==> back == value,
    ;

    /// Takes the oldest element out of the queue, if the queue shows one.
    fn pop(&self) -> (value: Option<T>);

    /// Whether the queue looked empty at the moment it was asked.
    fn is_empty(&self) -> (empty: bool);
}

} // verus!
