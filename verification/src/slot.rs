//! The cells of the ring.
//!
//! A cell either holds one element or nothing. Many threads share the ring,
//! and the reservation protocol of each queue gives one of them at a time the
//! right to touch a cell, so a cell is never contended; it still guards its
//! content by itself, which lets every access go through a shared reference.
//! A cell that is dropped drops the element it holds.
use vstd::prelude::*;
use std::sync::Mutex;

verus! {

/// `std::sync::Mutex`, taken as it is: the verifier sees nothing of what a
/// mutex guards.
#[verifier::external_type_specification]
#[verifier::external_body]
#[verifier::reject_recursive_types(T)]
pub struct ExMutex<T: ?Sized>(Mutex<T>);

/// `std::sync::Mutex::new`, on an empty cell. Nothing is claimed of the
/// result.
#[verifier::external_body]
pub(crate) fn slot_new<T>() -> Mutex<Option<T>> {
    Mutex::new(None)
}

/// `std::sync::Mutex::lock`, followed by `std::mem::replace` on the guarded
/// value: stores `value` in the cell and hands out what the cell held. The
/// lock is held for the exchange alone and is released before the call
/// returns; a poisoned lock is entered all the same. What comes out is
/// whatever the last thread to touch the cell left in it, so nothing is
/// claimed of it.
#[verifier::external_body]
pub(crate) fn slot_swap<T>(slot: &Mutex<Option<T>>, value: Option<T>) -> Option<T> {
    let mut guard = match slot.lock() {
        Ok(guard) => guard,
        Err(poisoned) => poisoned.into_inner(),
    };
    std::mem::replace(&mut *guard, value)
}

/// A ring of `count` empty cells.
pub(crate) fn empty_slots<T>(count: usize) -> (slots: Vec<Mutex<Option<T>>>)
    ensures
        slots.len() == count,
{
    let mut slots: Vec<Mutex<Option<T>>> = Vec::new();
    while slots.len() < count
        invariant
            slots.len() <= count,
        decreases count - slots.len(),
    {
        slots.push(slot_new());
    }
    slots
}

} // verus!
