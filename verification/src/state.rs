//! The packed `(head, tail)` word shared by the bitmap queue and the staged
//! queue.
//!
//! `head` is the cell the next push reserves and `tail` the cell the next pop
//! reserves. Both live in one 64-bit word, `head` in the low half and `tail`
//! in the high half, so that one compare-and-swap moves either of them while
//! checking the other.
use vstd::prelude::*;
use crate::ring::advance;
use crate::ring::spec_advance;
use crate::ring::spec_distance;

verus! {

/// Number of bits that one index takes inside a packed word.
pub const HEAD_BITS: u32 = 32;

/// The value of the lowest bit of the high half of a packed word.
pub open spec fn half() -> int {
    0x1_0000_0000
}

/// The capacities a queue with a packed head/tail word can be built with:
/// at least one element, and few enough that every index of the ring, which
/// has one cell more than the capacity, fits its half of the word.
pub open spec fn spec_accepts(capacity: usize) -> bool {
    1 <= capacity < 0xFFFF_FFFF
}

/// Tells whether a queue with a packed head/tail word can be built with
/// `capacity`.
pub fn accepts(capacity: usize) -> (ok: bool)
    ensures
        ok == spec_accepts(capacity),
{
    1 <= capacity && capacity < 0xFFFF_FFFF
}

/// A head/tail pair as it is read out of a packed word.
#[derive(Clone, Copy, Debug, PartialEq, Eq, Structural)]
pub struct State {
    pub head: u32,
    pub tail: u32,
}

impl State {
    /// The word that holds `self`: `head` in the low half, `tail` above it.
    pub open spec fn spec_pack(self) -> u64 {
        (self.head + self.tail * half()) as u64
    }

    /// The pair held by `raw`.
    pub open spec fn spec_unpack(raw: u64) -> State {
        State { head: (raw % 0x1_0000_0000) as u32, tail: (raw / 0x1_0000_0000) as u32 }
    }

    /// Both indices name a cell of a ring of `slots` cells.
    pub open spec fn in_ring(self, slots: int) -> bool {
        self.head < slots && self.tail < slots
    }

    /// The number of cells between `tail` and `head`: how many elements the
    /// pair accounts for.
    pub open spec fn len(self, slots: int) -> int {
        spec_distance(self.tail as int, self.head as int, slots)
    }

    /// No element is accounted for.
    pub open spec fn spec_is_empty(self) -> bool {
        self.head == self.tail
    }

    /// Tells whether the pair accounts for no element.
    #[verifier::when_used_as_spec(spec_is_empty)]
    pub fn is_empty(self) -> (empty: bool)
        ensures
            empty == self.spec_is_empty(),
    {
        self.head == self.tail
    }

    /// One more reservation would make `head` run into `tail`.
    pub open spec fn is_full(self, slots: int) -> bool {
        spec_advance(self.head as int, slots) == self.tail
    }

    /// What a push makes of the pair: nothing when the ring is full, else the
    /// pair with `head` one step further. The cell reserved is the old
    /// `head`.
    pub open spec fn spec_push_step(self, slots: int) -> Option<State> {
        if self.is_full(slots) {
            None
        } else {
            Some(State { head: spec_advance(self.head as int, slots) as u32, tail: self.tail })
        }
    }

    /// What a pop makes of the pair: nothing when the ring is empty, else
    /// the pair with `tail` one step further. The cell reserved is the old
    /// `tail`.
    pub open spec fn spec_pop_step(self, slots: int) -> Option<State> {
        if self.is_empty() {
            None
        } else {
            Some(State { head: self.head, tail: spec_advance(self.tail as int, slots) as u32 })
        }
    }

    /// Tells whether both indices name a cell of a ring of `slots` cells.
    pub fn fits(self, slots: usize) -> (ok: bool)
        ensures
            ok == self.in_ring(slots as int),
    {
        (self.head as usize) < slots && (self.tail as usize) < slots
    }

    /// The pair after one more reservation by a push, unless the ring is
    /// full.
    pub fn push_step(self, slots: usize) -> (next: Option<State>)
        requires
            self.in_ring(slots as int),
            slots <= u32::MAX,
        ensures
            next == self.spec_push_step(slots as int),
    {
        let head = advance(self.head, slots);
        if head == self.tail {
            None
        } else {
            Some(State { head, tail: self.tail })
        }
    }

    /// The pair after one more reservation by a pop, unless the ring is
    /// empty.
    pub fn pop_step(self, slots: usize) -> (next: Option<State>)
        requires
            self.in_ring(slots as int),
            slots <= u32::MAX,
        ensures
            next == self.spec_pop_step(slots as int),
    {
        if self.is_empty() {
            None
        } else {
            Some(State { head: self.head, tail: advance(self.tail, slots) })
        }
    }

    /// Splits a packed word into its pair.
    pub fn unpack(raw: u64) -> (state: State)
        ensures
            state == Self::spec_unpack(raw),
    {
        assert(raw & 0xFFFF_FFFF == raw % 0x1_0000_0000 && (raw >> 32) == raw / 0x1_0000_0000
            && (raw >> 32) <= 0xFFFF_FFFF) by (bit_vector);
        State { head: (raw & 0xFFFF_FFFF) as u32, tail: (raw >> HEAD_BITS) as u32 }
    }

    /// Joins the pair into one packed word.
    pub fn pack(self) -> (raw: u64)
        ensures
            raw == self.spec_pack(),
    {
        let head = self.head as u64;
        let tail = self.tail as u64;
        assert(head | (tail << 32) == head + tail * 0x1_0000_0000) by (bit_vector)
            requires
                head <= 0xFFFF_FFFF,
                tail <= 0xFFFF_FFFF,
        ;
        head | (tail << HEAD_BITS)
    }
}

/// Packing a pair and unpacking the word gives the pair back.
pub proof fn lemma_unpack_pack(state: State)
    ensures
        State::spec_unpack(state.spec_pack()) == state,
{
}

/// Unpacking a word and packing the pair gives the word back: a packed word
/// has no bit that belongs to neither index.
pub proof fn lemma_pack_unpack(raw: u64)
    ensures
        State::spec_unpack(raw).spec_pack() == raw,
{
}

} // verus!
