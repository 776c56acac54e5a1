//! The occupancy-bitmap queue.
//!
//! One packed head/tail word reserves cells; a bitmap with one bit per cell
//! tells whether the cell holds an element. A push reserves the cell at
//! `head` only while its bit is clear, writes, and then sets the bit. A pop
//! reserves the cell at `tail` only while its bit is set, reads, and then
//! clears the bit. The bit keeps a producer off a cell that is still being
//! read and a consumer off a cell that is still being written.
use vstd::prelude::*;
use std::sync::Mutex;
use std::sync::atomic::AtomicU64;
use crate::SynQueue;
use crate::model::Ring;
use crate::ring::lemma_advance_cases;
use crate::ring::lemma_distance_cases;
use crate::ring::spec_distance;
use crate::state::lemma_pack_unpack;
use crate::state::lemma_unpack_pack;
use crate::ring;
use crate::ring::spec_advance;
use crate::slot::empty_slots;
use crate::slot::slot_swap;
use crate::state::State;
use crate::state::spec_accepts;
use crate::word::SPIN_LIMIT;
use crate::word::clear_bits;
use crate::word::exchange;
use crate::word::load;
use crate::word::set_bits;
use crate::word::zero_words;

verus! {

/// Number of occupancy bits in one word of the bitmap.
pub const MASK_BITS: usize = 64;

/// The word of the bitmap that holds the bit of cell `index`.
pub open spec fn spec_bit_word(index: int) -> int {
    index / 64
}

/// The bit of cell `index` within its word of the bitmap.
pub open spec fn spec_bit_mask(index: int) -> u64 {
    1u64 << ((index % 64) as u64)
}

/// Whether the bit of cell `index` is set in `mask`, its word of the bitmap.
pub open spec fn spec_occupied(mask: u64, index: int) -> bool {
    mask & spec_bit_mask(index) != 0
}

/// The number of words in the bitmap of a ring of `slots` cells: enough for
/// one bit per cell, and one word to spare.
pub open spec fn spec_bitmap_words(slots: int) -> int {
    (slots + 63) / 64 + 1
}

/// The position of the bitmap word that holds the bit of cell `index`.
pub fn bit_word(index: usize) -> (word: usize)
    ensures
        word == spec_bit_word(index as int),
{
    index / MASK_BITS
}

/// The bit that stands for cell `index` in its bitmap word.
pub fn bit_mask(index: usize) -> (bit: u64)
    ensures
        bit == spec_bit_mask(index as int),
{
    1u64 << ((index % MASK_BITS) as u64)
}

/// Tells whether `mask` marks cell `index` as holding an element.
pub fn occupied(mask: u64, index: usize) -> (set: bool)
    ensures
        set == spec_occupied(mask, index as int),
{
    mask & bit_mask(index) != 0
}

/// A bounded queue that pairs one head/tail word with a bit per cell.
#[verifier::reject_recursive_types(T)]
pub struct AxelQueue<T> {
    state: AtomicU64,
    occupation: Vec<AtomicU64>,
    data: Vec<Mutex<Option<T>>>,
}

impl<T> AxelQueue<T> {
    #[verifier::type_invariant]
    spec fn wf(&self) -> bool {
        &&& 2 <= self.data.len() <= u32::MAX
        &&& self.occupation.len() == spec_bitmap_words(self.data.len() as int)
    }

    /// The number of cells in the ring: one more than the capacity.
    pub closed spec fn slots(&self) -> nat {
        self.data.len() as nat
    }

    /// Steps one cell forward in the ring of this queue.
    pub fn advance(&self, index: u32) -> (next: u32)
        requires
            index < self.slots(),
        ensures
            next == spec_advance(index as int, self.slots() as int),
            next < self.slots(),
    {
        proof {
            use_type_invariant(self);
        }
        ring::advance(index, self.data.len())
    }
}

impl<T: Send> SynQueue<T> for AxelQueue<T> {
    open spec fn valid_capacity(capacity: usize) -> bool {
        spec_accepts(capacity)
    }

    closed spec fn capacity(&self) -> nat {
        (self.data.len() - 1) as nat
    }

    fn new(capacity: usize) -> (queue: Self)
        ensures
            queue.slots() == capacity + 1,
    {
        let slots = capacity + 1;
        let words = (slots - 1) / MASK_BITS + 2;
        AxelQueue {
            state: AtomicU64::new(0),
            occupation: zero_words(words),
            data: empty_slots(slots),
        }
    }

    fn push(&self, value: T) -> (outcome: Result<(), T>) {
        proof {
            use_type_invariant(self);
        }
        let slots = self.data.len();
        let mut word = load(&self.state);
        let mut attempts: u64 = 0;
        while attempts < SPIN_LIMIT
            invariant
                self.wf(),
                slots == self.data.len(),
            decreases SPIN_LIMIT - attempts,
        {
            attempts += 1;
            let seen = State::unpack(word);
            if !seen.fits(slots) {
                return Err(value);
            }
            let next = match seen.push_step(slots) {
                Some(next) => next,
                None => {
                    return Err(value);
                },
            };
            let index = seen.head as usize;
            let mask = load(&self.occupation[bit_word(index)]);
            if !occupied(mask, index) {
                match exchange(&self.state, word, next.pack()) {
                    Ok(_) => {
                        let _ = slot_swap(&self.data[index], Some(value));
                        let _ = set_bits(&self.occupation[bit_word(index)], bit_mask(index));
                        return Ok(());
                    },
                    Err(other) => {
                        word = other;
                    },
                }
            } else {
                // a pop still reads the cell
                word = load(&self.state);
            }
            std::hint::spin_loop();
        }
        Err(value)
    }

    fn pop(&self) -> (value: Option<T>) {
        proof {
            use_type_invariant(self);
        }
        let slots = self.data.len();
        let mut word = load(&self.state);
        let mut attempts: u64 = 0;
        while attempts < SPIN_LIMIT
            invariant
                self.wf(),
                slots == self.data.len(),
            decreases SPIN_LIMIT - attempts,
        {
            attempts += 1;
            let seen = State::unpack(word);
            if !seen.fits(slots) {
                return None;
            }
            let next = match seen.pop_step(slots) {
                Some(next) => next,
                None => {
                    return None;
                },
            };
            let index = seen.tail as usize;
            let mask = load(&self.occupation[bit_word(index)]);
            if occupied(mask, index) {
                match exchange(&self.state, word, next.pack()) {
                    Ok(_) => {
                        let value = slot_swap(&self.data[index], None);
                        let _ = clear_bits(&self.occupation[bit_word(index)], bit_mask(index));
                        return value;
                    },
                    Err(other) => {
                        word = other;
                    },
                }
            } else {
                // a push still writes the cell
                word = load(&self.state);
            }
            std::hint::spin_loop();
        }
        None
    }

    fn is_empty(&self) -> (empty: bool) {
        State::unpack(load(&self.state)).is_empty()
    }
}

/// The words of a bitmap queue at rest: the packed head/tail word and the
/// words of the bitmap.
pub struct AxelWords {
    pub state: u64,
    pub occupation: Seq<u64>,
}

impl AxelWords {
    /// Whether the bitmap marks cell `index` as holding an element.
    pub open spec fn bit(self, index: int) -> bool {
        spec_occupied(self.occupation[spec_bit_word(index)], index)
    }

    /// The words stand for `ring`: the state word packs its two indices, and
    /// the bitmap marks the cells that hold an element.
    pub open spec fn encodes<T>(self, ring: Ring<T>) -> bool {
        &&& ring.slots() <= u32::MAX
        &&& State::spec_unpack(self.state) == (State {
            head: ring.head as u32,
            tail: ring.tail as u32,
        })
        &&& self.occupation.len() == spec_bitmap_words(ring.slots())
        &&& forall|index: int|
            0 <= index < ring.slots() ==> (#[trigger] self.bit(index) <==> ring.cells[index]
                is Some)
    }

    /// The words of a new queue.
    pub open spec fn empty(capacity: nat) -> AxelWords {
        AxelWords {
            state: 0,
            occupation: Seq::new(spec_bitmap_words(capacity as int + 1) as nat, |word: int| 0u64),
        }
    }

    /// The first step of a push: the head moves on, if the ring is not full
    /// and the bit of the cell at `head` is clear.
    pub open spec fn push_reserve(self, slots: int) -> Option<AxelWords> {
        let seen = State::spec_unpack(self.state);
        match seen.spec_push_step(slots) {
            Some(next) if !self.bit(seen.head as int) => Some(
                AxelWords { state: next.spec_pack(), occupation: self.occupation },
            ),
            _ => None,
        }
    }

    /// The last step of the push that wrote cell `index`: the bit of the
    /// cell is set.
    pub open spec fn push_publish(self, index: int) -> AxelWords {
        AxelWords {
            state: self.state,
            occupation: self.occupation.update(
                spec_bit_word(index),
                self.occupation[spec_bit_word(index)] | spec_bit_mask(index),
            ),
        }
    }

    /// The first step of a pop: the tail moves on, if the ring is not empty
    /// and the bit of the cell at `tail` is set.
    pub open spec fn pop_reserve(self, slots: int) -> Option<AxelWords> {
        let seen = State::spec_unpack(self.state);
        match seen.spec_pop_step(slots) {
            Some(next) if self.bit(seen.tail as int) => Some(
                AxelWords { state: next.spec_pack(), occupation: self.occupation },
            ),
            _ => None,
        }
    }

    /// The last step of the pop that read cell `index`: the bit of the cell
    /// is cleared.
    pub open spec fn pop_release(self, index: int) -> AxelWords {
        AxelWords {
            state: self.state,
            occupation: self.occupation.update(
                spec_bit_word(index),
                self.occupation[spec_bit_word(index)] & !spec_bit_mask(index),
            ),
        }
    }

    /// The words after a push that no other operation interferes with: its
    /// two steps, one after the other.
    pub open spec fn push(self, slots: int) -> AxelWords {
        match self.push_reserve(slots) {
            Some(reserved) => reserved.push_publish(State::spec_unpack(self.state).head as int),
            None => self,
        }
    }

    /// The words after a pop that no other operation interferes with: its
    /// two steps, one after the other.
    pub open spec fn pop(self, slots: int) -> AxelWords {
        match self.pop_reserve(slots) {
            Some(reserved) => reserved.pop_release(State::spec_unpack(self.state).tail as int),
            None => self,
        }
    }

    /// The words go with `phases`, the state of each cell while operations
    /// are under way: the bit of a cell is set while the cell is ready or
    /// being read, and the cells from `tail` up to `head` are the ones that
    /// are being written or ready.
    pub open spec fn tracks(self, phases: Seq<Phase>) -> bool {
        let seen = State::spec_unpack(self.state);
        let slots = phases.len() as int;
        &&& 2 <= slots <= u32::MAX
        &&& seen.in_ring(slots)
        &&& self.occupation.len() == spec_bitmap_words(slots)
        &&& forall|index: int|
            0 <= index < slots ==> (#[trigger] self.bit(index) <==> phases[index] is Ready
                || phases[index] is Reading)
        &&& forall|index: int|
            0 <= index < slots ==> (spec_distance(seen.tail as int, index, slots) < seen.len(slots)
                <==> #[trigger] phases[index] is Writing || phases[index] is Ready)
    }
}

/// What happens to a cell while operations are under way.
pub enum Phase {
    /// The cell holds nothing and no operation has reserved it.
    Free,
    /// A push has reserved the cell and has not set its bit yet.
    Writing,
    /// The cell holds an element and no pop has reserved it.
    Ready,
    /// A pop has reserved the cell and has not cleared its bit yet.
    Reading,
}

/// Setting one bit of a word sets that bit and leaves the others.
proof fn lemma_bit_set(mask: u64, set: u64, other: u64)
    by (bit_vector)
    requires
        set < 64,
        other < 64,
    ensures
        (mask | (1u64 << set)) & (1u64 << other) != 0 <==> (set == other || mask & (1u64 << other)
            != 0),
{
}

/// Clearing one bit of a word clears that bit and leaves the others.
proof fn lemma_bit_clear(mask: u64, clear: u64, other: u64)
    by (bit_vector)
    requires
        clear < 64,
        other < 64,
    ensures
        (mask & !(1u64 << clear)) & (1u64 << other) != 0 <==> (clear != other && mask & (1u64
            << other) != 0),
{
}

/// The words of a new queue stand for the ring that holds nothing.
pub proof fn lemma_new_encodes<T>(capacity: nat)
    requires
        1 <= capacity < 0xFFFF_FFFF,
    ensures
        AxelWords::empty(capacity).encodes(Ring::<T>::empty(capacity)),
{
    let words = AxelWords::empty(capacity);
    assert forall|index: int| 0 <= index < capacity + 1 implies !(#[trigger] words.bit(index)) by {
        let bit = spec_bit_mask(index);
        assert(0u64 & bit == 0) by (bit_vector);
    }
}

/// Run alone, a push moves the words of a queue as a push moves the ring
/// they stand for: it fails exactly when the ring is full, and else leaves
/// the words of the ring with the value appended.
pub proof fn lemma_push_alone<T>(words: AxelWords, ring: Ring<T>, value: T)
    requires
        ring.wf(),
        words.encodes(ring),
    ensures
        words.push(ring.slots()).encodes(ring.push(value)),
        words.push(ring.slots()) == words <==> ring.is_full(),
{
    let slots = ring.slots();
    let seen = State::spec_unpack(words.state);
    let index = ring.head;
    let after = words.push(slots);
    lemma_advance_cases(ring.head, slots);
    crate::ring::lemma_distance_cases(ring.tail, ring.head, slots);
    crate::ring::lemma_distance_cases(ring.tail, ring.tail, slots);
    assert(words.bit(index) <==> ring.cells[index] is Some);
    assert(ring.cells[index] is Some <==> ring.holds(index));
    if !ring.is_full() {
        let next = seen.spec_push_step(slots)->0;
        crate::state::lemma_unpack_pack(next);
        assert forall|other: int| 0 <= other < slots implies (#[trigger] after.bit(other)
            <==> ring.push(value).cells[other] is Some) by {
            assert(words.bit(other) <==> ring.cells[other] is Some);
            if spec_bit_word(other) == spec_bit_word(index) {
                lemma_bit_set(
                    words.occupation[spec_bit_word(index)],
                    (index % 64) as u64,
                    (other % 64) as u64,
                );
            }
        }
        assert(after.state != words.state) by {
            crate::state::lemma_pack_unpack(words.state);
        }
    }
}

/// Run alone, a pop moves the words of a queue as a pop moves the ring they
/// stand for: it fails exactly when the ring is empty, and else leaves the
/// words of the ring without its oldest element.
pub proof fn lemma_pop_alone<T>(words: AxelWords, ring: Ring<T>)
    requires
        ring.wf(),
        words.encodes(ring),
    ensures
        words.pop(ring.slots()).encodes(ring.pop()),
        words.pop(ring.slots()) == words <==> ring.is_empty(),
{
    let slots = ring.slots();
    let seen = State::spec_unpack(words.state);
    let index = ring.tail;
    let after = words.pop(slots);
    lemma_advance_cases(ring.tail, slots);
    crate::ring::lemma_distance_cases(ring.tail, ring.head, slots);
    crate::ring::lemma_distance_cases(ring.tail, ring.tail, slots);
    assert(words.bit(index) <==> ring.cells[index] is Some);
    assert(ring.cells[index] is Some <==> ring.holds(index));
    if !ring.is_empty() {
        let next = seen.spec_pop_step(slots)->0;
        crate::state::lemma_unpack_pack(next);
        assert forall|other: int| 0 <= other < slots implies (#[trigger] after.bit(other)
            <==> ring.pop().cells[other] is Some) by {
            assert(words.bit(other) <==> ring.cells[other] is Some);
            if spec_bit_word(other) == spec_bit_word(index) {
                lemma_bit_clear(
                    words.occupation[spec_bit_word(index)],
                    (index % 64) as u64,
                    (other % 64) as u64,
                );
            }
        }
        assert(after.state != words.state) by {
            crate::state::lemma_pack_unpack(words.state);
        }
    }
}

/// The bits of the words after a bit was set.
proof fn lemma_publish_bits(words: AxelWords, index: int, other: int)
    requires
        0 <= index,
        0 <= other,
        spec_bit_word(index) < words.occupation.len(),
        spec_bit_word(other) < words.occupation.len(),
    ensures
        words.push_publish(index).bit(other) <==> other == index || words.bit(other),
{
    if spec_bit_word(other) == spec_bit_word(index) {
        lemma_bit_set(
            words.occupation[spec_bit_word(index)],
            (index % 64) as u64,
            (other % 64) as u64,
        );
    }
}

/// The bits of the words after a bit was cleared.
proof fn lemma_release_bits(words: AxelWords, index: int, other: int)
    requires
        0 <= index,
        0 <= other,
        spec_bit_word(index) < words.occupation.len(),
        spec_bit_word(other) < words.occupation.len(),
    ensures
        words.pop_release(index).bit(other) <==> other != index && words.bit(other),
{
    if spec_bit_word(other) == spec_bit_word(index) {
        lemma_bit_clear(
            words.occupation[spec_bit_word(index)],
            (index % 64) as u64,
            (other % 64) as u64,
        );
    }
}

/// In a new queue every cell is free.
pub proof fn lemma_new_tracks(capacity: nat)
    requires
        1 <= capacity < 0xFFFF_FFFF,
    ensures
        AxelWords::empty(capacity).tracks(Seq::new(capacity + 1, |index: int| Phase::Free)),
{
    let words = AxelWords::empty(capacity);
    let slots = capacity as int + 1;
    lemma_distance_cases(0, 0, slots);
    assert forall|index: int| 0 <= index < slots implies !(#[trigger] words.bit(index)) by {
        let bit = spec_bit_mask(index);
        assert(0u64 & bit == 0) by (bit_vector);
    }
    assert forall|index: int| 0 <= index < slots implies spec_distance(0, index, slots) >= 0 by {
        lemma_distance_cases(0, index, slots);
    }
}

/// A push reserves a free cell only: one that no push is writing, that
/// holds no element, and that no pop is reading. The cell is then being
/// written, and the words go on tracking the cells.
pub proof fn lemma_push_reserve_exclusive(words: AxelWords, phases: Seq<Phase>)
    requires
        words.tracks(phases),
    ensures
        words.push_reserve(phases.len() as int) matches Some(after) ==> {
            let index = State::spec_unpack(words.state).head as int;
            &&& phases[index] is Free
            &&& after.tracks(phases.update(index, Phase::Writing))
        },
{
    let slots = phases.len() as int;
    let seen = State::spec_unpack(words.state);
    let index = seen.head as int;
    if words.push_reserve(slots) is Some {
        let after = words.push_reserve(slots)->0;
        let next = seen.spec_push_step(slots)->0;
        let moved = phases.update(index, Phase::Writing);
        lemma_unpack_pack(next);
        lemma_advance_cases(index, slots);
        lemma_distance_cases(seen.tail as int, index, slots);
        lemma_distance_cases(seen.tail as int, next.head as int, slots);
        assert(words.bit(index) <==> phases[index] is Ready || phases[index] is Reading);
        assert(phases[index] is Writing || phases[index] is Ready <==> spec_distance(
            seen.tail as int,
            index,
            slots,
        ) < seen.len(slots));
        assert forall|other: int| 0 <= other < slots implies (#[trigger] after.bit(other)
            <==> moved[other] is Ready || moved[other] is Reading) by {
            assert(words.bit(other) <==> phases[other] is Ready || phases[other] is Reading);
        }
        assert forall|other: int| 0 <= other < slots implies (spec_distance(
            next.tail as int,
            other,
            slots,
        ) < next.len(slots) <==> #[trigger] moved[other] is Writing || moved[other] is Ready) by {
            lemma_distance_cases(seen.tail as int, other, slots);
            assert(phases[other] is Writing || phases[other] is Ready <==> spec_distance(
                seen.tail as int,
                other,
                slots,
            ) < seen.len(slots));
        }
    }
}

/// The push that wrote a cell makes it ready, and the words go on tracking
/// the cells.
pub proof fn lemma_push_publish_tracks(words: AxelWords, phases: Seq<Phase>, index: int)
    requires
        words.tracks(phases),
        0 <= index < phases.len(),
        phases[index] is Writing,
    ensures
        words.push_publish(index).tracks(phases.update(index, Phase::Ready)),
{
    let slots = phases.len() as int;
    let after = words.push_publish(index);
    let moved = phases.update(index, Phase::Ready);
    assert forall|other: int| 0 <= other < slots implies (#[trigger] after.bit(other)
        <==> moved[other] is Ready || moved[other] is Reading) by {
        lemma_publish_bits(words, index, other);
        assert(words.bit(other) <==> phases[other] is Ready || phases[other] is Reading);
    }
    let seen = State::spec_unpack(words.state);
    assert forall|other: int| 0 <= other < slots implies (spec_distance(
        seen.tail as int,
        other,
        slots,
    ) < seen.len(slots) <==> #[trigger] moved[other] is Writing || moved[other] is Ready) by {
        assert(phases[other] is Writing || phases[other] is Ready <==> spec_distance(
            seen.tail as int,
            other,
            slots,
        ) < seen.len(slots));
    }
}

/// A pop reserves a ready cell only: one that holds an element, that no
/// push is still writing, and that no other pop is reading. The cell is
/// then being read, and the words go on tracking the cells.
pub proof fn lemma_pop_reserve_exclusive(words: AxelWords, phases: Seq<Phase>)
    requires
        words.tracks(phases),
    ensures
        words.pop_reserve(phases.len() as int) matches Some(after) ==> {
            let index = State::spec_unpack(words.state).tail as int;
            &&& phases[index] is Ready
            &&& after.tracks(phases.update(index, Phase::Reading))
        },
{
    let slots = phases.len() as int;
    let seen = State::spec_unpack(words.state);
    let index = seen.tail as int;
    if words.pop_reserve(slots) is Some {
        let after = words.pop_reserve(slots)->0;
        let next = seen.spec_pop_step(slots)->0;
        let moved = phases.update(index, Phase::Reading);
        lemma_unpack_pack(next);
        lemma_advance_cases(index, slots);
        lemma_distance_cases(index, index, slots);
        lemma_distance_cases(index, seen.head as int, slots);
        lemma_distance_cases(next.tail as int, seen.head as int, slots);
        assert(words.bit(index) <==> phases[index] is Ready || phases[index] is Reading);
        assert(phases[index] is Writing || phases[index] is Ready <==> spec_distance(
            index,
            index,
            slots,
        ) < seen.len(slots));
        assert forall|other: int| 0 <= other < slots implies (#[trigger] after.bit(other)
            <==> moved[other] is Ready || moved[other] is Reading) by {
            assert(words.bit(other) <==> phases[other] is Ready || phases[other] is Reading);
        }
        assert forall|other: int| 0 <= other < slots implies (spec_distance(
            next.tail as int,
            other,
            slots,
        ) < next.len(slots) <==> #[trigger] moved[other] is Writing || moved[other] is Ready) by {
            lemma_distance_cases(index, other, slots);
            lemma_distance_cases(next.tail as int, other, slots);
            assert(phases[other] is Writing || phases[other] is Ready <==> spec_distance(
                index,
                other,
                slots,
            ) < seen.len(slots));
        }
    }
}

/// The pop that read a cell makes it free, and the words go on tracking the
/// cells.
pub proof fn lemma_pop_release_tracks(words: AxelWords, phases: Seq<Phase>, index: int)
    requires
        words.tracks(phases),
        0 <= index < phases.len(),
        phases[index] is Reading,
    ensures
        words.pop_release(index).tracks(phases.update(index, Phase::Free)),
{
    let slots = phases.len() as int;
    let after = words.pop_release(index);
    let moved = phases.update(index, Phase::Free);
    assert forall|other: int| 0 <= other < slots implies (#[trigger] after.bit(other)
        <==> moved[other] is Ready || moved[other] is Reading) by {
        lemma_release_bits(words, index, other);
        assert(words.bit(other) <==> phases[other] is Ready || phases[other] is Reading);
    }
    let seen = State::spec_unpack(words.state);
    assert forall|other: int| 0 <= other < slots implies (spec_distance(
        seen.tail as int,
        other,
        slots,
    ) < seen.len(slots) <==> #[trigger] moved[other] is Writing || moved[other] is Ready) by {
        assert(phases[other] is Writing || phases[other] is Ready <==> spec_distance(
            seen.tail as int,
            other,
            slots,
        ) < seen.len(slots));
    }
}

} // verus!
