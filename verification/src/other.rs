//! The masked in-flight queue as a plain type.
//!
//! `OtherQueue` runs the protocol of the masked queue and offers it through
//! methods of its own, for callers that want one queue type and no trait.
use vstd::prelude::*;
use std::sync::Mutex;
use std::sync::atomic::AtomicU64;
use crate::masked::BoundsCheck;
use crate::masked::acquire;
use crate::masked::index_range;
use crate::masked::last_used_index;
use crate::masked::release;
use crate::masked::spec_accepts;
use crate::masked::spec_index;
use crate::masked::spec_last_used_index;
use crate::masked::spec_release_bit;
use crate::ring::spec_advance;
use crate::slot::empty_slots;
use crate::slot::slot_swap;
use vstd::arithmetic::power2::lemma_pow2_pos;
use vstd::arithmetic::power2::pow2;

verus! {

/// A bounded queue whose head and tail words each carry a window of the
/// reservations in flight on their side.
#[verifier::reject_recursive_types(T)]
pub struct OtherQueue<T> {
    head: AtomicU64,
    tail: AtomicU64,
    data: Vec<Mutex<Option<T>>>,
}

impl<T> OtherQueue<T> {
    #[verifier::type_invariant]
    spec fn wf(&self) -> bool {
        2 <= self.data.len() <= index_range()
    }

    /// The number of cells in the ring: one more than the capacity.
    pub closed spec fn slots(&self) -> nat {
        self.data.len() as nat
    }

    /// The most elements the queue holds at one time.
    pub closed spec fn capacity(&self) -> nat {
        (self.data.len() - 1) as nat
    }

    /// A queue that holds up to `capacity` elements. The capacity is a
    /// power of two whose ring indices fit the index bits of a word.
    pub fn new(capacity: usize) -> (queue: Self)
        requires
            spec_accepts(capacity),
        ensures
            queue.capacity() == capacity,
            queue.slots() == capacity + 1,
    {
        proof {
            assert forall|e: nat| pow2(e) != 0 by {
                lemma_pow2_pos(e);
            }
        }
        OtherQueue {
            head: AtomicU64::new(0),
            tail: AtomicU64::new(0),
            data: empty_slots(capacity + 1),
        }
    }

    /// The index of the oldest reservation still in flight in `rich_index`.
    pub fn get_last_used_index(&self, rich_index: u64) -> (last: usize)
        ensures
            last == spec_last_used_index(rich_index, self.slots() as int),
            last < self.slots(),
    {
        proof {
            use_type_invariant(self);
        }
        last_used_index(rich_index, self.data.len())
    }

    /// Reserves a cell of this queue on the side of `main_ref`, bounded by
    /// the side of `guard_ref`.
    pub fn cas_acquire(
        &self,
        main_ref: &AtomicU64,
        guard_ref: &AtomicU64,
        bounds_check: BoundsCheck,
    ) -> (claim: Option<(usize, u64)>)
        ensures
            claim matches Some((index, next)) ==> {
                &&& index < self.slots()
                &&& spec_index(next) == spec_advance(index as int, self.slots() as int)
                &&& spec_release_bit(next, index as int, self.slots() as int) == Some(1u64 << 20)
            },
    {
        proof {
            use_type_invariant(self);
        }
        acquire(main_ref, guard_ref, bounds_check, self.data.len())
    }

    /// Releases the reservation of this queue that took `done_index` on the
    /// side of `atomic_ref`.
    pub fn cas_release(
        &self,
        atomic_ref: &AtomicU64,
        current: u64,
        done_index: usize,
    ) -> (released: bool)
        requires
            done_index < self.slots(),
        ensures
            spec_release_bit(current, done_index as int, self.slots() as int) is None
                ==> !released,
    {
        proof {
            use_type_invariant(self);
        }
        release(atomic_ref, current, done_index, self.data.len())
    }

    /// Hands `value` to the queue. A refusal returns the very value that was
    /// offered.
    pub fn push(&self, value: T) -> (outcome: Result<(), T>)
        ensures
            outcome matches Err(back) ==> back == value,
    {
        proof {
            use_type_invariant(self);
        }
        let (index, next) = match self.cas_acquire(&self.head, &self.tail, BoundsCheck::NewValue) {
            Some(pair) => pair,
            None => {
                return Err(value);
            },
        };
        let _ = slot_swap(&self.data[index], Some(value));
        let _ = self.cas_release(&self.head, next, index);
        Ok(())
    }

    /// Takes the oldest element out of the queue, if the queue shows one.
    pub fn pop(&self) -> (value: Option<T>) {
        proof {
            use_type_invariant(self);
        }
        let (index, next) = match self.cas_acquire(&self.tail, &self.head, BoundsCheck::OldValue) {
            Some(pair) => pair,
            None => {
                return None;
            },
        };
        let value = slot_swap(&self.data[index], None);
        let _ = self.cas_release(&self.tail, next, index);
        value
    }
}

} // verus!
