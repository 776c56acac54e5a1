//! Access to the shared words.
//!
//! Every read of a shared word is an acquire, and every successful update a
//! release, so that the write of a cell is ordered before the step that
//! publishes it and the read of a cell after the step that reserves it.
//! Nothing can be said of the value a shared word holds: any thread may have
//! changed it since it was last seen.
//!
//! An operation that loses a race tries again. Each of its retry loops
//! counts its attempts and gives up at `SPIN_LIMIT`, a number no run comes
//! near, so that every operation is known to end.
use vstd::prelude::*;
use std::sync::atomic::AtomicU64;
use std::sync::atomic::Ordering;

verus! {

/// `std::hint::spin_loop` tells the processor that the caller is waiting in
/// a loop. It has no result.
pub assume_specification[ std::hint::spin_loop ]();

/// The most attempts one retry loop makes before it gives up. A loop that
/// reserves then answers as if the queue were full or empty; a loop that
/// completes an operation leaves the completion undone.
pub const SPIN_LIMIT: u64 = 0xFFFF_FFFF_FFFF_FFFF;

/// Reads a shared word.
pub(crate) fn load(word: &AtomicU64) -> u64 {
    word.load(Ordering::Acquire)
}

/// Tries to replace `current` by `new` in a shared word. `Ok` says that the
/// word was replaced; `Err` carries what the word held instead, which may be
/// `current` itself, as an attempt is allowed to fail for no reason.
pub(crate) fn exchange(word: &AtomicU64, current: u64, new: u64) -> Result<u64, u64> {
    word.compare_exchange_weak(current, new, Ordering::AcqRel, Ordering::Acquire)
}

/// Sets the bits of `bits` in a shared word and returns what it held before.
pub(crate) fn set_bits(word: &AtomicU64, bits: u64) -> u64 {
    word.fetch_or(bits, Ordering::AcqRel)
}

/// Clears the bits of `bits` in a shared word and returns what it held
/// before.
pub(crate) fn clear_bits(word: &AtomicU64, bits: u64) -> u64 {
    word.fetch_and(!bits, Ordering::AcqRel)
}

/// `count` shared words, all zero.
pub(crate) fn zero_words(count: usize) -> (words: Vec<AtomicU64>)
    ensures
        words.len() == count,
{
    let mut words: Vec<AtomicU64> = Vec::new();
    while words.len() < count
        invariant
            words.len() <= count,
        decreases count - words.len(),
    {
        words.push(AtomicU64::new(0));
    }
    words
}

} // verus!
