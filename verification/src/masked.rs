//! The masked in-flight queue.
//!
//! Head and tail live in separate words. The low `INDEX_BITS` of a word hold
//! the index that the next reservation on that side takes; the bits above
//! them form a window over the latest reservations of that side, in which a
//! set bit stands for a reservation that is still in flight: reserved, but
//! not yet released. Bit `INDEX_BITS + k` belongs to the reservation that was
//! made `k` reservations before the latest one.
//!
//! A reservation shifts the window up by one and sets its lowest bit. A
//! release clears the bit that the reservation has reached by then, so
//! releases may finish in any order. The oldest reservation still in flight
//! on one side is the bound for the other side: a push must not take the
//! cell that the oldest unfinished pop reads, and a pop must not take the
//! cell that the oldest unfinished push writes.
use vstd::prelude::*;
use vstd::arithmetic::div_mod::lemma_fundamental_div_mod;
use vstd::arithmetic::div_mod::lemma_fundamental_div_mod_converse;
use vstd::arithmetic::div_mod::lemma_mod_add_multiples_vanish;
use vstd::arithmetic::div_mod::lemma_small_mod;
use vstd::arithmetic::power2::lemma2_to64;
use vstd::arithmetic::power2::lemma_pow2_pos;
use vstd::arithmetic::power2::lemma_pow2_strictly_increases;
use vstd::arithmetic::power2::pow2;
use vstd::std_specs::bits::u64_leading_zeros;
use std::sync::Mutex;
use std::sync::atomic::AtomicU64;
use crate::SynQueue;
use crate::model::Ring;
use crate::ring::lemma_distance_cases;
use crate::slot::empty_slots;
use crate::slot::slot_swap;
use crate::word::SPIN_LIMIT;
use crate::word::exchange;
use crate::word::load;
use vstd::std_specs::bits::axiom_u64_leading_zeros;
use crate::ring::lemma_advance_cases;
use crate::ring::spec_advance;
use crate::ring::spec_distance;

verus! {

/// Number of low bits of a word that hold the index.
pub const INDEX_BITS: u32 = 20;

/// The bits of a word that hold the index.
pub const INDEX_MASK: u64 = 0xF_FFFF;

/// Number of bits in a word.
pub const TOTAL_BITS: u32 = 64;

/// The highest bit of a word. While it is set on a side, that side takes no
/// further reservation.
pub const HIGH_BIT: u64 = 0x8000_0000_0000_0000;

/// Which index of a reservation is held against the other side's bound.
#[derive(Clone, Copy, Debug, PartialEq, Eq, Structural)]
pub enum BoundsCheck {
    /// The index before the step: the cell that a pop is about to read.
    OldValue,
    /// The index after the step: the cell that a push leaves as the next to
    /// write.
    NewValue,
}

/// The number of values an index can take.
pub open spec fn index_range() -> int {
    0x10_0000
}

/// The index held in the low bits of `word`.
pub open spec fn spec_index(word: u64) -> int {
    word as int % index_range()
}

/// The window of in-flight bits of `word`, read as a number: its bit `k`
/// stands for the reservation made `k` reservations before the latest.
pub open spec fn spec_window(word: u64) -> int {
    word as int / index_range()
}

/// How many reservations ago the oldest reservation still in flight was
/// made, counting the latest as one; zero when none is in flight.
pub open spec fn spec_age(word: u64) -> int {
    let unused = u64_leading_zeros(word);
    if unused < TOTAL_BITS - INDEX_BITS {
        TOTAL_BITS - INDEX_BITS - unused
    } else {
        0
    }
}

/// The index that the oldest reservation still in flight in `word` took, in
/// a ring of `slots` cells; the index of `word` itself when none is in
/// flight.
pub open spec fn spec_last_used_index(word: u64, slots: int) -> int {
    (spec_index(word) - spec_age(word)) % slots
}

/// The word that a reservation makes of `main`: the window shifted up by one
/// with its lowest bit set, and the index one step further.
pub open spec fn spec_acquire(main: u64, slots: int) -> u64 {
    ((2 * spec_window(main) + 1) * index_range() + spec_advance(spec_index(main), slots)) as u64
}

/// The index that a reservation holds against the other side's bound.
pub open spec fn spec_check_index(bounds_check: BoundsCheck, main: u64, next: u64) -> int {
    match bounds_check {
        BoundsCheck::OldValue => spec_index(main),
        BoundsCheck::NewValue => spec_index(next),
    }
}

/// The number of reservations made in `current` since the one that took
/// `done_index`, that one included.
pub open spec fn spec_offset(current: u64, done_index: int, slots: int) -> int {
    spec_distance(done_index, spec_index(current), slots)
}

/// The bit of `current` that stands for the reservation that took
/// `done_index`, if that reservation is within the window and in flight.
pub open spec fn spec_release_bit(current: u64, done_index: int, slots: int) -> Option<u64> {
    let offset = spec_offset(current, done_index, slots);
    let bit = 1u64 << ((INDEX_BITS - 1 + offset) as u64);
    if 1 <= offset <= TOTAL_BITS - INDEX_BITS && current & bit != 0 {
        Some(bit)
    } else {
        None
    }
}

/// The index held in the low bits of `word`.
pub fn index_of(word: u64) -> (index: usize)
    ensures
        index == spec_index(word),
        index < index_range(),
{
    assert(word & 0xF_FFFF == word % 0x10_0000) by (bit_vector);
    (word & INDEX_MASK) as usize
}

/// The age of the oldest reservation still in flight in `word`.
pub fn age_of(word: u64) -> (age: usize)
    ensures
        age == spec_age(word),
        age <= TOTAL_BITS - INDEX_BITS,
{
    proof {
        axiom_u64_leading_zeros(word);
    }
    (TOTAL_BITS - INDEX_BITS).saturating_sub(word.leading_zeros()) as usize
}

/// The index of the oldest reservation still in flight in `rich_index`, in a
/// ring of `slots` cells.
pub fn last_used_index(rich_index: u64, slots: usize) -> (last: usize)
    requires
        0 < slots,
    ensures
        last == spec_last_used_index(rich_index, slots as int),
        last < slots,
{
    let index = index_of(rich_index);
    let offset = age_of(rich_index);
    if index >= offset {
        (index - offset) % slots
    } else {
        let behind = (offset - index) % slots;
        proof {
            let quotient = (offset - index) as int / slots as int;
            lemma_fundamental_div_mod((offset - index) as int, slots as int);
            if behind == 0 {
                assert(index - offset == (-quotient) * slots + 0) by (nonlinear_arith)
                    requires
                        offset - index == slots * quotient + behind,
                        behind == 0,
                ;
                lemma_fundamental_div_mod_converse(index - offset, slots as int, -quotient, 0);
            } else {
                assert(index - offset == (-quotient - 1) * slots + (slots - behind))
                    by (nonlinear_arith)
                    requires
                        offset - index == slots * quotient + behind,
                ;
                lemma_fundamental_div_mod_converse(
                    index - offset,
                    slots as int,
                    -quotient - 1,
                    slots - behind,
                );
            }
        }
        if behind == 0 {
            0
        } else {
            slots - behind
        }
    }
}

/// The word that a reservation makes of `main`, in a ring of `slots` cells.
pub fn acquire_word(main: u64, slots: usize) -> (next: u64)
    requires
        main < HIGH_BIT,
        spec_index(main) < slots <= index_range(),
    ensures
        next == spec_acquire(main, slots as int),
        spec_index(next) == spec_advance(spec_index(main), slots as int),
        spec_window(next) == 2 * spec_window(main) + 1,
        next & (1u64 << 20) != 0,
{
    let index = index_of(main);
    let step: u64 = if index + 1 != slots {
        (index + 1) as u64
    } else {
        0
    };
    let next = ((main & !INDEX_MASK) << 1) | (1u64 << INDEX_BITS) | step;
    proof {
        lemma_advance_cases(spec_index(main), slots as int);
        assert(((main & !0xF_FFFFu64) << 1) | (1u64 << 20) | step == (2 * (main / 0x10_0000) + 1)
            * 0x10_0000 + step && next % 0x10_0000 == step && next / 0x10_0000 == 2 * (main
            / 0x10_0000) + 1 && next & (1u64 << 20) != 0) by (bit_vector)
            requires
                main < 0x8000_0000_0000_0000,
                step < 0x10_0000,
                next == ((main & !0xF_FFFFu64) << 1) | (1u64 << 20) | step,
        ;
    }
    next
}

/// The index that a reservation turning `main` into `next` holds against
/// the other side's bound.
pub fn check_index(bounds_check: BoundsCheck, main: u64, next: u64) -> (index: usize)
    ensures
        index == spec_check_index(bounds_check, main, next),
{
    match bounds_check {
        BoundsCheck::OldValue => index_of(main),
        BoundsCheck::NewValue => index_of(next),
    }
}

/// The bit to flip in `current` to release the reservation that took
/// `done_index`. There is none when that reservation is not in flight in
/// `current`.
pub fn release_bit(current: u64, done_index: usize, slots: usize) -> (bit: Option<u64>)
    requires
        done_index < slots <= index_range(),
    ensures
        bit == spec_release_bit(current, done_index as int, slots as int),
{
    let cur_index = index_of(current);
    proof {
        lemma_mod_add_multiples_vanish(cur_index - done_index, slots as int);
    }
    let offset = (cur_index + slots - done_index) % slots;
    if offset == 0 || offset > (TOTAL_BITS - INDEX_BITS) as usize {
        return None;
    }
    let bit = 1u64 << ((INDEX_BITS as usize - 1 + offset) as u64);
    if current & bit != 0 {
        Some(bit)
    } else {
        None
    }
}

/// Whether a queue with these two words shows nothing to pop: the cell that
/// the next pop would read is the one that the bound of the head side
/// names.
pub open spec fn spec_shows_empty(head: u64, tail: u64, slots: int) -> bool {
    spec_index(tail) == spec_last_used_index(head, slots)
}

/// Tells whether a queue with these two words shows nothing to pop.
pub fn shows_empty(head: u64, tail: u64, slots: usize) -> (empty: bool)
    requires
        0 < slots,
    ensures
        empty == spec_shows_empty(head, tail, slots as int),
{
    index_of(tail) == last_used_index(head, slots)
}

/// What one attempt to reserve makes of `main`, given the bound
/// `last_used_index` that the other side sets: nothing when the index held
/// against the bound meets it, else the word that takes the reservation.
pub open spec fn spec_acquire_step(
    bounds_check: BoundsCheck,
    main: u64,
    last_used_index: int,
    slots: int,
) -> Option<u64> {
    let next = spec_acquire(main, slots);
    if spec_check_index(bounds_check, main, next) == last_used_index {
        None
    } else {
        Some(next)
    }
}

/// One attempt to reserve on the side whose word is `main`, against the
/// bound `last_used_index` of the other side.
pub fn acquire_step(
    bounds_check: BoundsCheck,
    main: u64,
    last_used_index: usize,
    slots: usize,
) -> (next: Option<u64>)
    requires
        main < HIGH_BIT,
        2 <= slots <= index_range(),
        spec_index(main) < slots,
    ensures
        next == spec_acquire_step(bounds_check, main, last_used_index as int, slots as int),
        next matches Some(word) ==> {
            &&& spec_index(word) == spec_advance(spec_index(main), slots as int)
            &&& spec_release_bit(word, spec_index(main), slots as int) == Some(1u64 << 20)
        },
{
    proof {
        lemma_acquire_in_flight(main, slots as int);
    }
    let next = acquire_word(main, slots);
    if check_index(bounds_check, main, next) == last_used_index {
        None
    } else {
        Some(next)
    }
}

/// A reservation is in flight in the word it made: a release of the index
/// it took finds its bit, the lowest of the window.
pub proof fn lemma_acquire_in_flight(main: u64, slots: int)
    requires
        main < HIGH_BIT,
        2 <= slots <= index_range(),
        spec_index(main) < slots,
    ensures
        spec_offset(spec_acquire(main, slots), spec_index(main), slots) == 1,
        spec_release_bit(spec_acquire(main, slots), spec_index(main), slots) == Some(
            1u64 << 20,
        ),
{
    let index = spec_index(main);
    let step = spec_advance(index, slots);
    let next = spec_acquire(main, slots);
    lemma_advance_cases(index, slots);
    lemma_distance_cases(index, step, slots);
    let low = step as u64;
    assert(next % 0x10_0000 == low && next & (1u64 << 20) != 0) by (bit_vector)
        requires
            main < 0x8000_0000_0000_0000,
            low < 0x10_0000,
            next == ((2 * (main / 0x10_0000) + 1) * 0x10_0000 + low) as u64,
    ;
    assert(1u64 << ((INDEX_BITS - 1 + 1) as u64) == 1u64 << 20) by (bit_vector);
}

/// Reserves a cell on the side whose word is `main_ref`, bounded by the
/// side whose word is `guard_ref`. The answer is the index of the cell and
/// the word that the reservation left behind, or nothing when the bound
/// stands in the way.
pub fn acquire(
    main_ref: &AtomicU64,
    guard_ref: &AtomicU64,
    bounds_check: BoundsCheck,
    slots: usize,
) -> (claim: Option<(usize, u64)>)
    requires
        2 <= slots <= index_range(),
    ensures
        claim matches Some((index, next)) ==> {
            &&& index < slots
            &&& spec_index(next) == spec_advance(index as int, slots as int)
            &&& spec_release_bit(next, index as int, slots as int) == Some(1u64 << 20)
        },
{
    let mut guard = load(guard_ref);
    let mut last_used_index = last_used_index(guard, slots);
    let mut main = load(main_ref);
    let mut attempts: u64 = 0;
    while attempts < SPIN_LIMIT
        invariant
            2 <= slots <= index_range(),
        decreases SPIN_LIMIT - attempts,
    {
        attempts += 1;
        if main >= HIGH_BIT {
            // too many operations in flight
            std::hint::spin_loop();
            main = load(main_ref);
        } else {
            let index = index_of(main);
            if index >= slots {
                return None;
            }
            let next = match acquire_step(bounds_check, main, last_used_index, slots) {
                Some(next) => next,
                None => {
                    // the bound may have moved since it was read
                    guard = load(guard_ref);
                    last_used_index = self::last_used_index(guard, slots);
                    match acquire_step(bounds_check, main, last_used_index, slots) {
                        Some(next) => next,
                        None => {
                            return None;
                        },
                    }
                },
            };
            match exchange(main_ref, main, next) {
                Ok(_) => {
                    return Some((index, next));
                },
                Err(other) => {
                    main = other;
                },
            }
            std::hint::spin_loop();
        }
    }
    None
}

/// Releases the reservation that took `done_index` on the side whose word
/// is `atomic_ref`, starting from `current`, the last value seen of that
/// word. Answers whether the bit of the reservation was flipped. Where
/// `current` itself shows no such reservation in flight, the shared word is
/// left alone and the answer is no; else the answer lies with the shared
/// word.
pub fn release(
    atomic_ref: &AtomicU64,
    current: u64,
    done_index: usize,
    slots: usize,
) -> (released: bool)
    requires
        done_index < slots <= index_range(),
    ensures
        spec_release_bit(current, done_index as int, slots as int) is None ==> !released,
{
    let mut seen = current;
    let mut attempts: u64 = 0;
    while attempts < SPIN_LIMIT
        invariant
            done_index < slots <= index_range(),
            attempts == 0 ==> seen == current,
            attempts > 0 ==> spec_release_bit(current, done_index as int, slots as int) is Some,
        decreases SPIN_LIMIT - attempts,
    {
        attempts += 1;
        let bit = match release_bit(seen, done_index, slots) {
            Some(bit) => bit,
            None => {
                return false;
            },
        };
        match exchange(atomic_ref, seen, seen ^ bit) {
            Ok(_) => {
                return true;
            },
            Err(other) => {
                seen = other;
                std::hint::spin_loop();
            },
        }
    }
    false
}

/// Flipping one bit of the window leaves the index and the other bits of
/// the window as they are.
proof fn lemma_flip(word: u64, place: u64, other: u64)
    by (bit_vector)
    requires
        20 <= place < 64,
        20 <= other < 64,
    ensures
        (word ^ (1u64 << place)) % 0x10_0000 == word % 0x10_0000,
        (word ^ (1u64 << place)) & (1u64 << place) != 0 <==> word & (1u64 << place) == 0,
        other != place ==> ((word ^ (1u64 << place)) & (1u64 << other) != 0 <==> word & (1u64
            << other) != 0),
{
}

/// A reservation moves every bit of the window one place up.
proof fn lemma_shift(main: u64, low: u64, next: u64, place: u64)
    by (bit_vector)
    requires
        main < 0x8000_0000_0000_0000,
        low < 0x10_0000,
        next == ((2 * (main / 0x10_0000) + 1) * 0x10_0000 + low) as u64,
        20 <= place < 63,
    ensures
        next & (1u64 << ((place + 1) as u64)) != 0 <==> main & (1u64 << place) != 0,
{
}

/// A word whose highest set bit is at `place` has `63 - place` leading
/// zeros.
proof fn lemma_leading_zeros(word: u64, place: u64)
    requires
        place < 64,
        word & (1u64 << place) != 0,
        word / (1u64 << place) == 1,
    ensures
        u64_leading_zeros(word) == 63 - place,
{
    axiom_u64_leading_zeros(word);
    let unused = u64_leading_zeros(word);
    assert(word != 0) by (bit_vector)
        requires
            word & (1u64 << place) != 0,
    ;
    let top = (63 - unused) as u64;
    assert((word >> top) & 1u64 != 0u64);
    assert(top <= place) by (bit_vector)
        requires
            top < 64,
            place < 64,
            (word >> top) & 1u64 != 0u64,
            word / (1u64 << place) == 1,
    ;
    if top < place {
        assert((word >> place) & 1u64 == 0u64);
        assert(false) by (bit_vector)
            requires
                place < 64,
                (word >> place) & 1u64 == 0u64,
                word & (1u64 << place) != 0,
        ;
    }
}

/// A word with an empty window shows no reservation in flight: the index it
/// bounds the other side with is its own.
pub proof fn lemma_at_rest(word: u64, slots: int)
    requires
        word < slots <= index_range(),
    ensures
        spec_index(word) == word,
        spec_window(word) == 0,
        spec_age(word) == 0,
        spec_last_used_index(word, slots) == word,
{
    axiom_u64_leading_zeros(word);
    let unused = u64_leading_zeros(word);
    if unused < 44 {
        let top = (63 - unused) as u64;
        assert((word >> top) & 1u64 != 0u64);
        assert(false) by (bit_vector)
            requires
                20 <= top < 64,
                (word >> top) & 1u64 != 0u64,
                word < 0x10_0000,
        ;
    }
    lemma_small_mod(word as nat, slots as nat);
}

/// A release flips the bit of its reservation and nothing else: the index
/// stays, the reservation is in flight no longer, and every other
/// reservation stays in flight at its place.
pub proof fn lemma_release_flips_one(current: u64, done_index: int, other_index: int, slots: int)
    requires
        spec_release_bit(current, done_index, slots) is Some,
    ensures
        ({
            let after = current ^ spec_release_bit(current, done_index, slots)->0;
            &&& spec_index(after) == spec_index(current)
            &&& spec_release_bit(after, done_index, slots) is None
            &&& spec_offset(current, other_index, slots) != spec_offset(
                current,
                done_index,
                slots,
            ) ==> spec_release_bit(after, other_index, slots) == spec_release_bit(
                current,
                other_index,
                slots,
            )
        }),
{
    let place = (INDEX_BITS - 1 + spec_offset(current, done_index, slots)) as u64;
    let other = spec_offset(current, other_index, slots);
    if 1 <= other <= TOTAL_BITS - INDEX_BITS {
        lemma_flip(current, place, (INDEX_BITS - 1 + other) as u64);
    } else {
        lemma_flip(current, place, place);
    }
}

/// A reservation ages the ones before it by one: one that was in flight
/// stays in flight, and a release finds it one place further up the window.
pub proof fn lemma_acquire_ages(main: u64, done_index: int, slots: int)
    requires
        main < HIGH_BIT,
        2 <= slots <= index_range(),
        spec_index(main) < slots,
        0 <= done_index < slots,
        spec_release_bit(main, done_index, slots) is Some,
        spec_offset(main, done_index, slots) + 1 < slots,
    ensures
        spec_offset(spec_acquire(main, slots), done_index, slots) == spec_offset(
            main,
            done_index,
            slots,
        ) + 1,
        spec_release_bit(spec_acquire(main, slots), done_index, slots) is Some,
{
    let index = spec_index(main);
    let step = spec_advance(index, slots);
    let next = spec_acquire(main, slots);
    let offset = spec_offset(main, done_index, slots);
    let place = (INDEX_BITS - 1 + offset) as u64;
    lemma_advance_cases(index, slots);
    lemma_distance_cases(done_index, index, slots);
    lemma_distance_cases(done_index, step, slots);
    let low = step as u64;
    assert(next % 0x10_0000 == low) by (bit_vector)
        requires
            main < 0x8000_0000_0000_0000,
            low < 0x10_0000,
            next == ((2 * (main / 0x10_0000) + 1) * 0x10_0000 + low) as u64,
    ;
    assert(place < 63) by (bit_vector)
        requires
            20 <= place < 64,
            main < 0x8000_0000_0000_0000,
            main & (1u64 << place) != 0,
    ;
    lemma_shift(main, low, next, place);
}

/// The bound that a side sets is the index of its oldest reservation in
/// flight: where the highest set bit of a word is the bit of the
/// reservation that took `done_index`, that index is the last used one.
pub proof fn lemma_last_used_is_oldest(current: u64, done_index: int, slots: int)
    requires
        2 <= slots <= index_range(),
        spec_index(current) < slots,
        0 <= done_index < slots,
        spec_release_bit(current, done_index, slots) matches Some(bit) && current / bit == 1,
    ensures
        spec_age(current) == spec_offset(current, done_index, slots),
        spec_last_used_index(current, slots) == done_index,
{
    let offset = spec_offset(current, done_index, slots);
    let place = (INDEX_BITS - 1 + offset) as u64;
    lemma_leading_zeros(current, place);
    lemma_distance_cases(done_index, spec_index(current), slots);
    if spec_index(current) >= done_index {
        lemma_small_mod(done_index as nat, slots as nat);
    } else {
        vstd::arithmetic::div_mod::lemma_mod_sub_multiples_vanish(done_index, slots);
        lemma_small_mod(done_index as nat, slots as nat);
    }
}

/// The two words of a masked queue at rest.
pub struct MaskedWords {
    pub head: u64,
    pub tail: u64,
}

impl MaskedWords {
    /// The words stand for `ring`: no reservation is in flight, so each word
    /// is the bare index of its side.
    pub open spec fn encodes<T>(self, ring: Ring<T>) -> bool {
        &&& ring.slots() <= index_range()
        &&& self.head == ring.head
        &&& self.tail == ring.tail
    }

    /// The words of a new queue.
    pub open spec fn empty() -> MaskedWords {
        MaskedWords { head: 0, tail: 0 }
    }

    /// What a reservation and its release, with nothing in between, make of
    /// the word `main` of one side, bounded by the word `guard` of the other
    /// side.
    pub open spec fn step(bounds_check: BoundsCheck, main: u64, guard: u64, slots: int) -> u64 {
        if main >= HIGH_BIT {
            main
        } else {
            match spec_acquire_step(
                bounds_check,
                main,
                spec_last_used_index(guard, slots),
                slots,
            ) {
                None => main,
                Some(next) => match spec_release_bit(next, spec_index(main), slots) {
                    Some(bit) => next ^ bit,
                    None => next,
                },
            }
        }
    }

    /// The words after a push that no other operation interferes with.
    pub open spec fn push(self, slots: int) -> MaskedWords {
        MaskedWords {
            head: Self::step(BoundsCheck::NewValue, self.head, self.tail, slots),
            tail: self.tail,
        }
    }

    /// The words after a pop that no other operation interferes with.
    pub open spec fn pop(self, slots: int) -> MaskedWords {
        MaskedWords {
            head: self.head,
            tail: Self::step(BoundsCheck::OldValue, self.tail, self.head, slots),
        }
    }
}

/// A reservation on a word at rest, released at once, leaves the word at
/// rest with the index one cell further.
proof fn lemma_step_at_rest(main: u64, slots: int)
    requires
        2 <= slots <= index_range(),
        main < slots,
    ensures
        spec_index(spec_acquire(main, slots)) == spec_advance(main as int, slots),
        spec_acquire(main, slots) ^ (1u64 << 20) == spec_advance(main as int, slots),
        spec_release_bit(spec_acquire(main, slots), main as int, slots) == Some(1u64 << 20),
{
    lemma_at_rest(main, slots);
    lemma_acquire_in_flight(main, slots);
    lemma_advance_cases(main as int, slots);
    let next = spec_acquire(main, slots);
    let low = spec_advance(main as int, slots) as u64;
    assert(next ^ (1u64 << 20) == low && next % 0x10_0000 == low) by (bit_vector)
        requires
            low < 0x10_0000,
            next == ((2 * 0 + 1) * 0x10_0000 + low) as u64,
    ;
}

/// The words of a new queue stand for the ring that holds nothing.
pub proof fn lemma_new_encodes<T>(capacity: nat)
    requires
        1 <= capacity < index_range(),
    ensures
        MaskedWords::empty().encodes(Ring::<T>::empty(capacity)),
{
}

/// Run alone, a push moves the words of a queue as a push moves the ring
/// they stand for: it fails exactly when the ring is full, and else leaves
/// the head word at rest one cell further.
pub proof fn lemma_push_alone<T>(words: MaskedWords, ring: Ring<T>, value: T)
    requires
        ring.wf(),
        words.encodes(ring),
    ensures
        words.push(ring.slots()).encodes(ring.push(value)),
        words.push(ring.slots()) == words <==> ring.is_full(),
{
    let slots = ring.slots();
    lemma_at_rest(words.head, slots);
    lemma_at_rest(words.tail, slots);
    lemma_step_at_rest(words.head, slots);
    lemma_advance_cases(ring.head, slots);
}

/// Run alone, a pop moves the words of a queue as a pop moves the ring they
/// stand for: it fails exactly when the ring is empty, and else leaves the
/// tail word at rest one cell further.
pub proof fn lemma_pop_alone<T>(words: MaskedWords, ring: Ring<T>)
    requires
        ring.wf(),
        words.encodes(ring),
    ensures
        words.pop(ring.slots()).encodes(ring.pop()),
        words.pop(ring.slots()) == words <==> ring.is_empty(),
{
    let slots = ring.slots();
    lemma_at_rest(words.head, slots);
    lemma_at_rest(words.tail, slots);
    lemma_step_at_rest(words.tail, slots);
    lemma_advance_cases(ring.tail, slots);
}

/// Whether `n` is a power of two.
pub open spec fn spec_power_of_two(n: int) -> bool {
    exists|e: nat| pow2(e) == n
}

/// The capacities a masked queue can be built with: the powers of two whose
/// ring indices fit the index bits of a word.
pub open spec fn spec_accepts(capacity: usize) -> bool {
    spec_power_of_two(capacity as int) && capacity < index_range()
}

/// Tells whether a masked queue can be built with `capacity`.
pub fn accepts(capacity: usize) -> (ok: bool)
    ensures
        ok == spec_accepts(capacity),
{
    if capacity == 0 {
        assert forall|e: nat| pow2(e) != 0 by {
            lemma_pow2_pos(e);
        }
        return false;
    }
    if capacity > INDEX_MASK as usize {
        return false;
    }
    let wide = capacity as u64;
    let below = wide - 1;
    let ok = wide & below == 0;
    proof {
        lemma2_to64();
        assert(wide & below == 0 <==> (wide == 0x1 || wide == 0x2 || wide == 0x4 || wide
            == 0x8 || wide == 0x10 || wide == 0x20 || wide == 0x40 || wide == 0x80 || wide
            == 0x100 || wide == 0x200 || wide == 0x400 || wide == 0x800 || wide == 0x1000
            || wide == 0x2000 || wide == 0x4000 || wide == 0x8000 || wide == 0x1_0000 || wide
            == 0x2_0000 || wide == 0x4_0000 || wide == 0x8_0000)) by (bit_vector)
            requires
                0 < wide < 0x10_0000,
                below == wide - 1,
        ;
        if !ok {
            assert forall|e: nat| pow2(e) != capacity by {
                if e >= 20 {
                    if e > 20 {
                        lemma_pow2_strictly_increases(20, e);
                    }
                } else {
                    assert(e == 0 || e == 1 || e == 2 || e == 3 || e == 4 || e == 5 || e == 6 || e
                        == 7 || e == 8 || e == 9 || e == 10 || e == 11 || e == 12 || e == 13 || e
                        == 14 || e == 15 || e == 16 || e == 17 || e == 18 || e == 19);
                }
            }
        }
    }
    ok
}

/// A bounded queue whose head and tail words each carry a window of the
/// reservations in flight on their side.
#[verifier::reject_recursive_types(T)]
pub struct MaskedQueue<T> {
    head: AtomicU64,
    tail: AtomicU64,
    data: Vec<Mutex<Option<T>>>,
}

impl<T> MaskedQueue<T> {
    #[verifier::type_invariant]
    spec fn wf(&self) -> bool {
        2 <= self.data.len() <= index_range()
    }

    /// The number of cells in the ring: one more than the capacity.
    pub closed spec fn slots(&self) -> nat {
        self.data.len() as nat
    }

    /// The index of the oldest reservation still in flight in `rich_index`.
    pub fn get_last_used_index(&self, rich_index: u64) -> (last: usize)
        ensures
            last == spec_last_used_index(rich_index, self.slots() as int),
            last < self.slots(),
    {
        proof {
            use_type_invariant(self);
        }
        last_used_index(rich_index, self.data.len())
    }

    /// Reserves a cell of this queue on the side of `main_ref`, bounded by
    /// the side of `guard_ref`.
    pub fn cas_acquire(
        &self,
        main_ref: &AtomicU64,
        guard_ref: &AtomicU64,
        bounds_check: BoundsCheck,
    ) -> (claim: Option<(usize, u64)>)
        ensures
            claim matches Some((index, next)) ==> {
                &&& index < self.slots()
                &&& spec_index(next) == spec_advance(index as int, self.slots() as int)
                &&& spec_release_bit(next, index as int, self.slots() as int) == Some(1u64 << 20)
            },
    {
        proof {
            use_type_invariant(self);
        }
        acquire(main_ref, guard_ref, bounds_check, self.data.len())
    }

    /// Releases the reservation of this queue that took `done_index` on the
    /// side of `atomic_ref`.
    pub fn cas_release(
        &self,
        atomic_ref: &AtomicU64,
        current: u64,
        done_index: usize,
    ) -> (released: bool)
        requires
            done_index < self.slots(),
        ensures
            spec_release_bit(current, done_index as int, self.slots() as int) is None
                ==> !released,
    {
        proof {
            use_type_invariant(self);
        }
        release(atomic_ref, current, done_index, self.data.len())
    }
}

impl<T: Send> SynQueue<T> for MaskedQueue<T> {
    open spec fn valid_capacity(capacity: usize) -> bool {
        spec_accepts(capacity)
    }

    closed spec fn capacity(&self) -> nat {
        (self.data.len() - 1) as nat
    }

    fn new(capacity: usize) -> (queue: Self)
        ensures
            queue.slots() == capacity + 1,
    {
        proof {
            assert forall|e: nat| pow2(e) != 0 by {
                lemma_pow2_pos(e);
            }
        }
        MaskedQueue {
            head: AtomicU64::new(0),
            tail: AtomicU64::new(0),
            data: empty_slots(capacity + 1),
        }
    }

    fn push(&self, value: T) -> (outcome: Result<(), T>) {
        proof {
            use_type_invariant(self);
        }
        let (index, next) = match self.cas_acquire(&self.head, &self.tail, BoundsCheck::NewValue) {
            Some(pair) => pair,
            None => {
                return Err(value);
            },
        };
        let _ = slot_swap(&self.data[index], Some(value));
        let _ = self.cas_release(&self.head, next, index);
        Ok(())
    }

    fn pop(&self) -> (value: Option<T>) {
        proof {
            use_type_invariant(self);
        }
        let (index, next) = match self.cas_acquire(&self.tail, &self.head, BoundsCheck::OldValue) {
            Some(pair) => pair,
            None => {
                return None;
            },
        };
        let value = slot_swap(&self.data[index], None);
        let _ = self.cas_release(&self.tail, next, index);
        value
    }

    fn is_empty(&self) -> (empty: bool) {
        proof {
            use_type_invariant(self);
        }
        let head = load(&self.head);
        let tail = load(&self.tail);
        shows_empty(head, tail, self.data.len())
    }
}

} // verus!
