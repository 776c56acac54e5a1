//! The two-pointer staged queue.
//!
//! There is no bit per cell. The queue keeps two packed head/tail words
//! instead, a wide one and a narrow one. A push moves `wide.head` forward,
//! writes the cell, and then makes `narrow.head` catch up. A pop moves
//! `narrow.tail` forward, reads the cell, and then makes `wide.tail` catch
//! up. Read as counters that never wrap, the four indices stay in the order
//!
//! `wide.tail <= narrow.tail <= narrow.head <= wide.head`
//!
//! and the cells from `narrow.tail` up to `narrow.head` are the ones that are
//! written and not yet being read. A catch-up waits for the catch-ups of the
//! operations that reserved before it on the same side, so each side
//! completes in the order in which it reserved.
use vstd::prelude::*;
use std::sync::Mutex;
use std::sync::atomic::AtomicU64;
use crate::SynQueue;
use crate::model::Ring;
use crate::ring::lemma_advance_cases;
use crate::ring::lemma_distance_cases;
use crate::ring::spec_distance;
use crate::state::lemma_pack_unpack;
use crate::state::lemma_unpack_pack;
use crate::ring;
use crate::ring::spec_advance;
use crate::slot::empty_slots;
use crate::slot::slot_swap;
use crate::state::State;
use crate::state::spec_accepts;
use crate::word::SPIN_LIMIT;
use crate::word::exchange;
use crate::word::load;

verus! {

/// The two words of the compare-and-swap by which a push that wrote cell
/// `head` publishes it: the narrow word as it must stand, with `head` as its
/// head and the tail that was last seen, and the word that replaces it, with
/// `next` as its head.
pub fn push_commit(seen: State, head: u32, next: u32) -> (words: (u64, u64))
    ensures
        words.0 == (State { head, tail: seen.tail }).spec_pack(),
        words.1 == (State { head: next, tail: seen.tail }).spec_pack(),
{
    (State { head, tail: seen.tail }.pack(), State { head: next, tail: seen.tail }.pack())
}

/// The two words of the compare-and-swap by which a pop that read cell
/// `tail` releases it: the wide word as it must stand, with `tail` as its
/// tail and the head that was last seen, and the word that replaces it, with
/// `next` as its tail.
pub fn pop_commit(seen: State, tail: u32, next: u32) -> (words: (u64, u64))
    ensures
        words.0 == (State { head: seen.head, tail }).spec_pack(),
        words.1 == (State { head: seen.head, tail: next }).spec_pack(),
{
    (State { head: seen.head, tail }.pack(), State { head: seen.head, tail: next }.pack())
}

/// A bounded queue that stages every operation between two head/tail words.
#[verifier::reject_recursive_types(T)]
pub struct DoubleQueue<T> {
    /// The word a push moves first and a pop moves last.
    wide: AtomicU64,
    /// The word a pop moves first and a push moves last.
    narrow: AtomicU64,
    data: Vec<Mutex<Option<T>>>,
}

impl<T> DoubleQueue<T> {
    #[verifier::type_invariant]
    spec fn wf(&self) -> bool {
        2 <= self.data.len() <= u32::MAX
    }

    /// The number of cells in the ring: one more than the capacity.
    pub closed spec fn slots(&self) -> nat {
        self.data.len() as nat
    }

    /// Steps one cell forward in the ring of this queue.
    pub fn advance(&self, index: u32) -> (next: u32)
        requires
            index < self.slots(),
        ensures
            next == spec_advance(index as int, self.slots() as int),
            next < self.slots(),
    {
        proof {
            use_type_invariant(self);
        }
        ring::advance(index, self.data.len())
    }
}

impl<T: Send> SynQueue<T> for DoubleQueue<T> {
    open spec fn valid_capacity(capacity: usize) -> bool {
        spec_accepts(capacity)
    }

    closed spec fn capacity(&self) -> nat {
        (self.data.len() - 1) as nat
    }

    fn new(capacity: usize) -> (queue: Self)
        ensures
            queue.slots() == capacity + 1,
    {
        DoubleQueue {
            wide: AtomicU64::new(0),
            narrow: AtomicU64::new(0),
            data: empty_slots(capacity + 1),
        }
    }

    fn push(&self, value: T) -> (outcome: Result<(), T>) {
        proof {
            use_type_invariant(self);
        }
        let slots = self.data.len();
        // reserve a cell in the wide word
        let mut word = load(&self.wide);
        let mut claim: Option<(u32, u32)> = None;
        let mut attempts: u64 = 0;
        while claim.is_none() && attempts < SPIN_LIMIT
            invariant
                self.wf(),
                slots == self.data.len(),
                claim matches Some((head, next)) ==> head < slots,
            decreases SPIN_LIMIT - attempts,
        {
            attempts += 1;
            let seen = State::unpack(word);
            if !seen.fits(slots) {
                return Err(value);
            }
            match seen.push_step(slots) {
                None => {
                    return Err(value);
                },
                Some(next) => match exchange(&self.wide, word, next.pack()) {
                    Ok(_) => {
                        claim = Some((seen.head, next.head));
                    },
                    Err(other) => {
                        word = other;
                        std::hint::spin_loop();
                    },
                },
            }
        }
        let (head, next) = match claim {
            Some(claim) => claim,
            None => {
                return Err(value);
            },
        };
        // write the cell
        let _ = slot_swap(&self.data[head as usize], Some(value));
        // make the narrow word catch up
        let mut seen = State::unpack(load(&self.narrow));
        attempts = 0;
        while attempts < SPIN_LIMIT
            decreases SPIN_LIMIT - attempts,
        {
            attempts += 1;
            if seen.head != head {
                // an earlier push has not caught up yet
                std::hint::spin_loop();
            }
            let (expected, new) = push_commit(seen, head, next);
            match exchange(&self.narrow, expected, new) {
                Ok(_) => {
                    return Ok(());
                },
                Err(other) => {
                    std::hint::spin_loop();
                    seen = State::unpack(other);
                },
            }
        }
        Ok(())
    }

    fn pop(&self) -> (value: Option<T>) {
        proof {
            use_type_invariant(self);
        }
        let slots = self.data.len();
        // reserve the oldest cell in the narrow word
        let mut word = load(&self.narrow);
        let mut claim: Option<(u32, u32)> = None;
        let mut attempts: u64 = 0;
        while claim.is_none() && attempts < SPIN_LIMIT
            invariant
                self.wf(),
                slots == self.data.len(),
                claim matches Some((tail, next)) ==> tail < slots,
            decreases SPIN_LIMIT - attempts,
        {
            attempts += 1;
            let seen = State::unpack(word);
            if !seen.fits(slots) {
                return None;
            }
            match seen.pop_step(slots) {
                None => {
                    return None;
                },
                Some(next) => match exchange(&self.narrow, word, next.pack()) {
                    Ok(_) => {
                        claim = Some((seen.tail, next.tail));
                    },
                    Err(other) => {
                        word = other;
                        std::hint::spin_loop();
                    },
                },
            }
        }
        let (tail, next) = match claim {
            Some(claim) => claim,
            None => {
                return None;
            },
        };
        // read the cell
        let value = slot_swap(&self.data[tail as usize], None);
        // make the wide word catch up
        let mut seen = State::unpack(load(&self.wide));
        attempts = 0;
        while attempts < SPIN_LIMIT
            decreases SPIN_LIMIT - attempts,
        {
            attempts += 1;
            if seen.tail != tail {
                // an earlier pop has not caught up yet
                std::hint::spin_loop();
            }
            let (expected, new) = pop_commit(seen, tail, next);
            match exchange(&self.wide, expected, new) {
                Ok(_) => {
                    return value;
                },
                Err(other) => {
                    std::hint::spin_loop();
                    seen = State::unpack(other);
                },
            }
        }
        value
    }

    fn is_empty(&self) -> (empty: bool) {
        State::unpack(load(&self.narrow)).is_empty()
    }
}

/// The two words of a staged queue at rest.
pub struct DoubleWords {
    pub wide: u64,
    pub narrow: u64,
}

impl DoubleWords {
    /// The words stand for `ring`: no operation is under way, so the wide
    /// and the narrow word agree, and they pack the two indices of the ring.
    pub open spec fn encodes<T>(self, ring: Ring<T>) -> bool {
        &&& ring.slots() <= u32::MAX
        &&& self.wide == self.narrow
        &&& State::spec_unpack(self.wide) == (State {
            head: ring.head as u32,
            tail: ring.tail as u32,
        })
    }

    /// The words of a new queue.
    pub open spec fn empty() -> DoubleWords {
        DoubleWords { wide: 0, narrow: 0 }
    }

    /// The words after a push that no other operation interferes with: the
    /// push moves the head of the wide word unless the ring is full, and
    /// then the head of the narrow word, provided the narrow word stands as
    /// the push expects it.
    pub open spec fn push(self, slots: int) -> DoubleWords {
        let outer = State::spec_unpack(self.wide);
        let inner = State::spec_unpack(self.narrow);
        match outer.spec_push_step(slots) {
            None => self,
            Some(next) => {
                let expected = (State { head: outer.head, tail: inner.tail }).spec_pack();
                DoubleWords {
                    wide: next.spec_pack(),
                    narrow: if self.narrow == expected {
                        (State { head: next.head, tail: inner.tail }).spec_pack()
                    } else {
                        self.narrow
                    },
                }
            },
        }
    }

    /// The words after a pop that no other operation interferes with: the
    /// pop moves the tail of the narrow word unless the ring is empty, and
    /// then the tail of the wide word, provided the wide word stands as the
    /// pop expects it.
    pub open spec fn pop(self, slots: int) -> DoubleWords {
        let outer = State::spec_unpack(self.wide);
        let inner = State::spec_unpack(self.narrow);
        match inner.spec_pop_step(slots) {
            None => self,
            Some(next) => {
                let expected = (State { head: outer.head, tail: inner.tail }).spec_pack();
                DoubleWords {
                    wide: if self.wide == expected {
                        (State { head: outer.head, tail: next.tail }).spec_pack()
                    } else {
                        self.wide
                    },
                    narrow: next.spec_pack(),
                }
            },
        }
    }
}

/// The words of a new queue stand for the ring that holds nothing.
pub proof fn lemma_new_encodes<T>(capacity: nat)
    requires
        1 <= capacity < 0xFFFF_FFFF,
    ensures
        DoubleWords::empty().encodes(Ring::<T>::empty(capacity)),
{
}

/// Run alone, a push moves the words of a queue as a push moves the ring
/// they stand for: it fails exactly when the ring is full, and else leaves
/// both words with the head one cell further.
pub proof fn lemma_push_alone<T>(words: DoubleWords, ring: Ring<T>, value: T)
    requires
        ring.wf(),
        words.encodes(ring),
    ensures
        words.push(ring.slots()).encodes(ring.push(value)),
        words.push(ring.slots()) == words <==> ring.is_full(),
{
    let slots = ring.slots();
    let seen = State::spec_unpack(words.wide);
    lemma_advance_cases(ring.head, slots);
    lemma_pack_unpack(words.wide);
    if !ring.is_full() {
        let next = seen.spec_push_step(slots)->0;
        lemma_unpack_pack(next);
    }
}

/// Run alone, a pop moves the words of a queue as a pop moves the ring they
/// stand for: it fails exactly when the ring is empty, and else leaves both
/// words with the tail one cell further.
pub proof fn lemma_pop_alone<T>(words: DoubleWords, ring: Ring<T>)
    requires
        ring.wf(),
        words.encodes(ring),
    ensures
        words.pop(ring.slots()).encodes(ring.pop()),
        words.pop(ring.slots()) == words <==> ring.is_empty(),
{
    let slots = ring.slots();
    let seen = State::spec_unpack(words.narrow);
    lemma_advance_cases(ring.tail, slots);
    lemma_pack_unpack(words.narrow);
    if !ring.is_empty() {
        let next = seen.spec_pop_step(slots)->0;
        lemma_unpack_pack(next);
    }
}

/// The two head/tail pairs of a staged queue while operations are under
/// way.
pub struct Stages {
    pub wide: State,
    pub narrow: State,
}

impl Stages {
    /// The number of cells that pops have reserved and not yet released:
    /// the cells from `wide.tail` up to `narrow.tail`.
    pub open spec fn reading(self, slots: int) -> int {
        spec_distance(self.wide.tail as int, self.narrow.tail as int, slots)
    }

    /// The number of cells that are written and not yet reserved by a pop:
    /// the cells from `narrow.tail` up to `narrow.head`.
    pub open spec fn ready(self, slots: int) -> int {
        spec_distance(self.narrow.tail as int, self.narrow.head as int, slots)
    }

    /// The number of cells that pushes have reserved and not yet published:
    /// the cells from `narrow.head` up to `wide.head`.
    pub open spec fn writing(self, slots: int) -> int {
        spec_distance(self.narrow.head as int, self.wide.head as int, slots)
    }

    /// Whether a pop has reserved cell `index` and not yet released it.
    pub open spec fn in_reading(self, index: int, slots: int) -> bool {
        spec_distance(self.wide.tail as int, index, slots) < self.reading(slots)
    }

    /// Whether cell `index` is written and not yet reserved by a pop.
    pub open spec fn in_ready(self, index: int, slots: int) -> bool {
        spec_distance(self.narrow.tail as int, index, slots) < self.ready(slots)
    }

    /// Whether a push has reserved cell `index` and not yet published it.
    pub open spec fn in_writing(self, index: int, slots: int) -> bool {
        spec_distance(self.narrow.head as int, index, slots) < self.writing(slots)
    }

    /// The four indices stand in the order `wide.tail`, `narrow.tail`,
    /// `narrow.head`, `wide.head` around the ring, and what lies between the
    /// first and the last is no more than the capacity.
    pub open spec fn ordered(self, slots: int) -> bool {
        &&& 2 <= slots <= u32::MAX
        &&& self.wide.in_ring(slots)
        &&& self.narrow.in_ring(slots)
        &&& self.reading(slots) + self.ready(slots) + self.writing(slots) <= slots - 1
    }

    /// The first step of a push: the wide head moves on, unless the wide
    /// pair is full.
    pub open spec fn push_reserve(self, slots: int) -> Option<Stages> {
        match self.wide.spec_push_step(slots) {
            Some(wide) => Some(Stages { wide, narrow: self.narrow }),
            None => None,
        }
    }

    /// The last step of a push: the narrow head moves on, which takes a
    /// push that has reserved and not yet published.
    pub open spec fn push_commit(self, slots: int) -> Option<Stages> {
        if self.writing(slots) >= 1 {
            Some(
                Stages {
                    wide: self.wide,
                    narrow: State {
                        head: spec_advance(self.narrow.head as int, slots) as u32,
                        tail: self.narrow.tail,
                    },
                },
            )
        } else {
            None
        }
    }

    /// The first step of a pop: the narrow tail moves on, unless the narrow
    /// pair is empty.
    pub open spec fn pop_reserve(self, slots: int) -> Option<Stages> {
        match self.narrow.spec_pop_step(slots) {
            Some(narrow) => Some(Stages { wide: self.wide, narrow }),
            None => None,
        }
    }

    /// The last step of a pop: the wide tail moves on, which takes a pop
    /// that has reserved and not yet released.
    pub open spec fn pop_commit(self, slots: int) -> Option<Stages> {
        if self.reading(slots) >= 1 {
            Some(
                Stages {
                    wide: State {
                        head: self.wide.head,
                        tail: spec_advance(self.wide.tail as int, slots) as u32,
                    },
                    narrow: self.narrow,
                },
            )
        } else {
            None
        }
    }
}

/// The three stages and the two spans without the modulus.
proof fn lemma_stage_cases(stages: Stages, slots: int)
    requires
        stages.wide.in_ring(slots),
        stages.narrow.in_ring(slots),
    ensures
        stages.reading(slots) == if stages.narrow.tail >= stages.wide.tail {
            stages.narrow.tail - stages.wide.tail
        } else {
            stages.narrow.tail + slots - stages.wide.tail
        },
        stages.ready(slots) == if stages.narrow.head >= stages.narrow.tail {
            stages.narrow.head - stages.narrow.tail
        } else {
            stages.narrow.head + slots - stages.narrow.tail
        },
        stages.writing(slots) == if stages.wide.head >= stages.narrow.head {
            stages.wide.head - stages.narrow.head
        } else {
            stages.wide.head + slots - stages.narrow.head
        },
        stages.wide.len(slots) == if stages.wide.head >= stages.wide.tail {
            stages.wide.head - stages.wide.tail
        } else {
            stages.wide.head + slots - stages.wide.tail
        },
{
    lemma_distance_cases(stages.wide.tail as int, stages.narrow.tail as int, slots);
    lemma_distance_cases(stages.narrow.tail as int, stages.narrow.head as int, slots);
    lemma_distance_cases(stages.narrow.head as int, stages.wide.head as int, slots);
    lemma_distance_cases(stages.wide.tail as int, stages.wide.head as int, slots);
}

/// The distance from the wide tail to the wide head is the sum of the three
/// stages between them.
pub proof fn lemma_stages_span(stages: Stages, slots: int)
    requires
        stages.ordered(slots),
    ensures
        stages.wide.len(slots) == stages.reading(slots) + stages.ready(slots) + stages.writing(
            slots,
        ),
        stages.narrow.len(slots) == stages.ready(slots),
        0 <= stages.reading(slots),
        0 <= stages.ready(slots),
        0 <= stages.writing(slots),
{
    lemma_stage_cases(stages, slots);
}

/// A new queue is in order, with nothing in any stage.
pub proof fn lemma_new_ordered(slots: int)
    requires
        2 <= slots <= u32::MAX,
    ensures
        (Stages { wide: State { head: 0, tail: 0 }, narrow: State { head: 0, tail: 0 } }).ordered(
            slots,
        ),
{
    lemma_distance_cases(0, 0, slots);
}

/// The reservation of a push keeps the order and adds one cell to those
/// being written. It is refused exactly when the three stages fill the
/// capacity.
pub proof fn lemma_push_reserve_ordered(stages: Stages, slots: int)
    requires
        stages.ordered(slots),
    ensures
        stages.push_reserve(slots) is None <==> stages.reading(slots) + stages.ready(slots)
            + stages.writing(slots) == slots - 1,
        stages.push_reserve(slots) matches Some(after) ==> {
            &&& after.ordered(slots)
            &&& after.writing(slots) == stages.writing(slots) + 1
            &&& after.ready(slots) == stages.ready(slots)
            &&& after.reading(slots) == stages.reading(slots)
        },
{
    lemma_stage_cases(stages, slots);
    lemma_advance_cases(stages.wide.head as int, slots);
    if stages.push_reserve(slots) is Some {
        lemma_stage_cases(stages.push_reserve(slots)->0, slots);
    }
}

/// The publication of a push keeps the order and moves one cell from those
/// being written to those that are ready.
pub proof fn lemma_push_commit_ordered(stages: Stages, slots: int)
    requires
        stages.ordered(slots),
    ensures
        stages.push_commit(slots) is None <==> stages.writing(slots) == 0,
        stages.push_commit(slots) matches Some(after) ==> {
            &&& after.ordered(slots)
            &&& after.writing(slots) == stages.writing(slots) - 1
            &&& after.ready(slots) == stages.ready(slots) + 1
            &&& after.reading(slots) == stages.reading(slots)
        },
{
    lemma_stage_cases(stages, slots);
    lemma_advance_cases(stages.narrow.head as int, slots);
    if stages.push_commit(slots) is Some {
        lemma_stage_cases(stages.push_commit(slots)->0, slots);
    }
}

/// The reservation of a pop keeps the order and moves one cell from those
/// that are ready to those being read. It is refused exactly when no cell
/// is ready.
pub proof fn lemma_pop_reserve_ordered(stages: Stages, slots: int)
    requires
        stages.ordered(slots),
    ensures
        stages.pop_reserve(slots) is None <==> stages.ready(slots) == 0,
        stages.pop_reserve(slots) matches Some(after) ==> {
            &&& after.ordered(slots)
            &&& after.writing(slots) == stages.writing(slots)
            &&& after.ready(slots) == stages.ready(slots) - 1
            &&& after.reading(slots) == stages.reading(slots) + 1
        },
{
    lemma_stage_cases(stages, slots);
    lemma_advance_cases(stages.narrow.tail as int, slots);
    if stages.pop_reserve(slots) is Some {
        lemma_stage_cases(stages.pop_reserve(slots)->0, slots);
    }
}

/// The release of a pop keeps the order and frees one of the cells being
/// read.
pub proof fn lemma_pop_commit_ordered(stages: Stages, slots: int)
    requires
        stages.ordered(slots),
    ensures
        stages.pop_commit(slots) is None <==> stages.reading(slots) == 0,
        stages.pop_commit(slots) matches Some(after) ==> {
            &&& after.ordered(slots)
            &&& after.writing(slots) == stages.writing(slots)
            &&& after.ready(slots) == stages.ready(slots)
            &&& after.reading(slots) == stages.reading(slots) - 1
        },
{
    lemma_stage_cases(stages, slots);
    lemma_advance_cases(stages.wide.tail as int, slots);
    if stages.pop_commit(slots) is Some {
        lemma_stage_cases(stages.pop_commit(slots)->0, slots);
    }
}

/// While the indices are in order no cell is in two stages at once, and the
/// cells that the next push and the next pop reserve are where they must be:
/// the cell at `wide.head` is in no stage, so no operation holds the cell a
/// push takes, and the cell at `narrow.tail`, if any cell is ready, is a
/// ready one, so the cell a pop takes is written and not being read.
pub proof fn lemma_stages_apart(stages: Stages, index: int, slots: int)
    requires
        stages.ordered(slots),
        0 <= index < slots,
    ensures
        !(stages.in_reading(index, slots) && stages.in_ready(index, slots)),
        !(stages.in_ready(index, slots) && stages.in_writing(index, slots)),
        !(stages.in_reading(index, slots) && stages.in_writing(index, slots)),
        index == stages.wide.head ==> !stages.in_reading(index, slots) && !stages.in_ready(
            index,
            slots,
        ) && !stages.in_writing(index, slots),
        index == stages.narrow.tail && stages.ready(slots) >= 1 ==> stages.in_ready(index, slots),
{
    lemma_stage_cases(stages, slots);
    lemma_distance_cases(stages.wide.tail as int, index, slots);
    lemma_distance_cases(stages.narrow.tail as int, index, slots);
    lemma_distance_cases(stages.narrow.head as int, index, slots);
}

/// The compare-and-swap that publishes the push of cell `head` matches the
/// narrow word only while the narrow head stands at `head`: a push cannot
/// publish before the pushes that reserved before it.
pub proof fn lemma_push_commit_in_turn(narrow: u64, seen: State, head: u32)
    ensures
        narrow == (State { head, tail: seen.tail }).spec_pack() ==> State::spec_unpack(
            narrow,
        ).head == head,
{
    lemma_unpack_pack(State { head, tail: seen.tail });
}

/// The compare-and-swap that releases the pop of cell `tail` matches the
/// wide word only while the wide tail stands at `tail`: a pop cannot release
/// before the pops that reserved before it.
pub proof fn lemma_pop_commit_in_turn(wide: u64, seen: State, tail: u32)
    ensures
        wide == (State { head: seen.head, tail }).spec_pack() ==> State::spec_unpack(wide).tail
            == tail,
{
    lemma_unpack_pack(State { head: seen.head, tail });
}

} // verus!
