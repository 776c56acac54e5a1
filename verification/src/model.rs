//! What a queue is, apart from how its words encode it.
//!
//! A `Ring` is the content of a queue at rest: the two indices and what each
//! cell holds. Its view is the sequence of the elements it holds, oldest
//! first. The laws of this module say that a push appends to that sequence
//! unless the ring is full, that a pop removes its first element unless the
//! ring is empty, and that the sequence never outgrows the capacity. Each
//! queue of this crate relates its own words to a `Ring` and shows that an
//! operation that runs alone moves the words as the ring moves.
use vstd::prelude::*;
use crate::ring::lemma_advance_cases;
use crate::ring::lemma_distance_cases;
use crate::ring::spec_advance;
use crate::ring::spec_distance;

verus! {

/// The content of a queue at rest.
pub struct Ring<T> {
    /// The cell that the next push writes.
    pub head: int,
    /// The cell that the next pop reads.
    pub tail: int,
    /// What each cell holds.
    pub cells: Seq<Option<T>>,
}

/// The cell that lies `steps` cells after `from`.
pub open spec fn spec_seek(from: int, steps: int, slots: int) -> int {
    (from + steps) % slots
}

impl<T> Ring<T> {
    /// The number of cells.
    pub open spec fn slots(self) -> int {
        self.cells.len() as int
    }

    /// The most elements the ring holds: one cell always stays empty.
    pub open spec fn capacity(self) -> int {
        self.slots() - 1
    }

    /// The number of elements held.
    pub open spec fn len(self) -> int {
        spec_distance(self.tail, self.head, self.slots())
    }

    /// Whether cell `index` lies between `tail` and `head`.
    pub open spec fn holds(self, index: int) -> bool {
        spec_distance(self.tail, index, self.slots()) < self.len()
    }

    /// Both indices name a cell, and the cells that hold an element are the
    /// ones from `tail` up to `head`.
    pub open spec fn wf(self) -> bool {
        &&& 2 <= self.slots()
        &&& 0 <= self.head < self.slots()
        &&& 0 <= self.tail < self.slots()
        &&& forall|index: int|
            0 <= index < self.slots() ==> (#[trigger] self.cells[index] is Some <==> self.holds(
                index,
            ))
    }

    /// The elements held, oldest first.
    pub open spec fn view(self) -> Seq<T> {
        Seq::new(self.len() as nat, |k: int| self.cells[spec_seek(self.tail, k, self.slots())]->0)
    }

    /// The ring of `capacity + 1` cells that holds nothing.
    pub open spec fn empty(capacity: nat) -> Ring<T> {
        Ring { head: 0, tail: 0, cells: Seq::new(capacity + 1, |index: int| None) }
    }

    /// A push finds no free cell.
    pub open spec fn is_full(self) -> bool {
        spec_advance(self.head, self.slots()) == self.tail
    }

    /// A pop finds no element.
    pub open spec fn is_empty(self) -> bool {
        self.head == self.tail
    }

    /// The ring after a push of `value`: unchanged when full.
    pub open spec fn push(self, value: T) -> Ring<T> {
        if self.is_full() {
            self
        } else {
            Ring {
                head: spec_advance(self.head, self.slots()),
                tail: self.tail,
                cells: self.cells.update(self.head, Some(value)),
            }
        }
    }

    /// What a push of `value` answers: the value itself when full.
    pub open spec fn push_outcome(self, value: T) -> Result<(), T> {
        if self.is_full() {
            Err(value)
        } else {
            Ok(())
        }
    }

    /// The ring after a pop: unchanged when empty.
    pub open spec fn pop(self) -> Ring<T> {
        if self.is_empty() {
            self
        } else {
            Ring {
                head: self.head,
                tail: spec_advance(self.tail, self.slots()),
                cells: self.cells.update(self.tail, None),
            }
        }
    }

    /// What a pop answers: the content of the cell at `tail`, unless empty.
    pub open spec fn pop_outcome(self) -> Option<T> {
        if self.is_empty() {
            None
        } else {
            self.cells[self.tail]
        }
    }

    /// The ring after a push of each of `values` in turn.
    pub open spec fn push_all(self, values: Seq<T>) -> Ring<T>
        decreases values.len(),
    {
        if values.len() == 0 {
            self
        } else {
            self.push(values[0]).push_all(values.drop_first())
        }
    }

    /// The ring after `count` pops.
    pub open spec fn pop_many(self, count: nat) -> Ring<T>
        decreases count,
    {
        if count == 0 {
            self
        } else {
            self.pop().pop_many((count - 1) as nat)
        }
    }

    /// What `count` pops answer, in turn.
    pub open spec fn pop_outcomes(self, count: nat) -> Seq<Option<T>>
        decreases count,
    {
        if count == 0 {
            Seq::empty()
        } else {
            seq![self.pop_outcome()] + self.pop().pop_outcomes((count - 1) as nat)
        }
    }
}

/// The smaller of two numbers.
pub open spec fn spec_min(a: int, b: int) -> int {
    if a <= b {
        a
    } else {
        b
    }
}

/// `spec_seek` without the modulus.
pub proof fn lemma_seek_cases(from: int, steps: int, slots: int)
    requires
        0 <= from < slots,
        0 <= steps < slots,
    ensures
        spec_seek(from, steps, slots) == if from + steps < slots {
            from + steps
        } else {
            from + steps - slots
        },
        0 <= spec_seek(from, steps, slots) < slots,
        spec_distance(from, spec_seek(from, steps, slots), slots) == steps,
{
    let target = if from + steps < slots {
        from + steps
    } else {
        from + steps - slots
    };
    if from + steps < slots {
        vstd::arithmetic::div_mod::lemma_small_mod((from + steps) as nat, slots as nat);
    } else {
        vstd::arithmetic::div_mod::lemma_mod_sub_multiples_vanish(from + steps, slots);
        vstd::arithmetic::div_mod::lemma_small_mod((from + steps - slots) as nat, slots as nat);
    }
    lemma_distance_cases(from, target, slots);
}

/// A cell is found again by seeking as far as it is distant.
pub proof fn lemma_seek_distance(from: int, to: int, slots: int)
    requires
        0 <= from < slots,
        0 <= to < slots,
    ensures
        spec_seek(from, spec_distance(from, to, slots), slots) == to,
{
    lemma_distance_cases(from, to, slots);
    lemma_seek_cases(from, spec_distance(from, to, slots), slots);
}

/// A new queue holds nothing.
pub proof fn lemma_empty<T>(capacity: nat)
    requires
        1 <= capacity,
    ensures
        Ring::<T>::empty(capacity).wf(),
        Ring::<T>::empty(capacity).capacity() == capacity,
        Ring::<T>::empty(capacity).view() == Seq::<T>::empty(),
{
    let ring = Ring::<T>::empty(capacity);
    lemma_distance_cases(0, 0, ring.slots());
    assert forall|index: int| 0 <= index < ring.slots() implies (#[trigger] ring.cells[index]
        is Some <==> ring.holds(index)) by {
        lemma_distance_cases(0, index, ring.slots());
    }
    assert(ring.view() =~= Seq::<T>::empty());
}

/// A queue never holds more than its capacity, and it is full exactly when
/// it holds that many, empty exactly when it holds none.
pub proof fn lemma_bounded<T>(ring: Ring<T>)
    requires
        ring.wf(),
    ensures
        0 <= ring.view().len() <= ring.capacity(),
        ring.is_full() <==> ring.view().len() == ring.capacity(),
        ring.is_empty() <==> ring.view().len() == 0,
{
    lemma_distance_cases(ring.tail, ring.head, ring.slots());
    lemma_advance_cases(ring.head, ring.slots());
}

/// The cells that hold something hold the elements of the view, each of
/// them in one cell: the element that is `k` steps from the oldest lies `k`
/// cells after `tail`, no two of them share a cell, and no other cell holds
/// anything. So a queue that is dropped drops each element it still holds
/// once.
pub proof fn lemma_cells_hold_view<T>(ring: Ring<T>)
    requires
        ring.wf(),
    ensures
        forall|k: int|
            0 <= k < ring.view().len() ==> ring.cells[#[trigger] spec_seek(
                ring.tail,
                k,
                ring.slots(),
            )] == Some(ring.view()[k]),
        forall|j: int, k: int|
            0 <= j < k < ring.view().len() ==> #[trigger] spec_seek(ring.tail, j, ring.slots())
                != #[trigger] spec_seek(ring.tail, k, ring.slots()),
        forall|index: int|
            0 <= index < ring.slots() && #[trigger] ring.cells[index] is Some ==> {
                let k = spec_distance(ring.tail, index, ring.slots());
                0 <= k < ring.view().len() && spec_seek(ring.tail, k, ring.slots()) == index
            },
{
    let slots = ring.slots();
    lemma_bounded(ring);
    assert forall|k: int| 0 <= k < ring.view().len() implies ring.cells[#[trigger] spec_seek(
        ring.tail,
        k,
        slots,
    )] == Some(ring.view()[k]) by {
        lemma_seek_cases(ring.tail, k, slots);
        let index = spec_seek(ring.tail, k, slots);
        assert(ring.cells[index] is Some <==> ring.holds(index));
    }
    assert forall|j: int, k: int| 0 <= j < k < ring.view().len() implies #[trigger] spec_seek(
        ring.tail,
        j,
        slots,
    ) != #[trigger] spec_seek(ring.tail, k, slots) by {
        lemma_seek_cases(ring.tail, j, slots);
        lemma_seek_cases(ring.tail, k, slots);
    }
    assert forall|index: int| 0 <= index < slots && #[trigger] ring.cells[index] is Some implies {
        let k = spec_distance(ring.tail, index, slots);
        0 <= k < ring.view().len() && spec_seek(ring.tail, k, slots) == index
    } by {
        assert(ring.cells[index] is Some <==> ring.holds(index));
        lemma_distance_cases(ring.tail, index, slots);
        lemma_seek_distance(ring.tail, index, slots);
    }
}

/// A push appends the value to the elements held, unless the queue is full:
/// then it hands the value back and changes nothing.
pub proof fn lemma_push<T>(ring: Ring<T>, value: T)
    requires
        ring.wf(),
    ensures
        ring.push(value).wf(),
        ring.push(value).slots() == ring.slots(),
        ring.view().len() < ring.capacity() ==> ring.push_outcome(value) == Ok::<(), T>(())
            && ring.push(value).view() == ring.view().push(value),
        ring.view().len() == ring.capacity() ==> ring.push_outcome(value) == Err::<(), T>(value)
            && ring.push(value) == ring,
{
    let slots = ring.slots();
    let next = ring.push(value);
    lemma_bounded(ring);
    lemma_advance_cases(ring.head, slots);
    lemma_distance_cases(ring.tail, ring.head, slots);
    if !ring.is_full() {
        lemma_distance_cases(ring.tail, next.head, slots);
        assert(next.len() == ring.len() + 1);
        assert forall|index: int| 0 <= index < slots implies (#[trigger] next.cells[index]
            is Some <==> next.holds(index)) by {
            lemma_distance_cases(ring.tail, index, slots);
            assert(ring.cells[index] is Some <==> ring.holds(index));
        }
        assert forall|k: int| 0 <= k < next.len() implies next.view()[k] == ring.view().push(
            value,
        )[k] by {
            lemma_seek_cases(ring.tail, k, slots);
        }
        assert(next.view() =~= ring.view().push(value));
    }
}

/// A pop takes the oldest element out of the queue, unless the queue is
/// empty: then it answers nothing and changes nothing.
pub proof fn lemma_pop<T>(ring: Ring<T>)
    requires
        ring.wf(),
    ensures
        ring.pop().wf(),
        ring.pop().slots() == ring.slots(),
        ring.view().len() > 0 ==> ring.pop_outcome() == Some(ring.view()[0]) && ring.pop().view()
            == ring.view().drop_first(),
        ring.view().len() == 0 ==> ring.pop_outcome() == None::<T> && ring.pop() == ring,
{
    let slots = ring.slots();
    let next = ring.pop();
    lemma_bounded(ring);
    lemma_advance_cases(ring.tail, slots);
    lemma_distance_cases(ring.tail, ring.head, slots);
    if !ring.is_empty() {
        lemma_distance_cases(next.tail, ring.head, slots);
        assert(next.len() == ring.len() - 1);
        lemma_seek_cases(ring.tail, 0, slots);
        lemma_distance_cases(ring.tail, ring.tail, slots);
        assert(ring.cells[ring.tail] is Some <==> ring.holds(ring.tail));
        assert forall|index: int| 0 <= index < slots implies (#[trigger] next.cells[index]
            is Some <==> next.holds(index)) by {
            lemma_distance_cases(ring.tail, index, slots);
            lemma_distance_cases(next.tail, index, slots);
            assert(ring.cells[index] is Some <==> ring.holds(index));
        }
        assert forall|k: int| 0 <= k < next.len() implies next.view()[k]
            == ring.view().drop_first()[k] by {
            lemma_seek_cases(next.tail, k, slots);
            lemma_seek_cases(ring.tail, k + 1, slots);
        }
        assert(next.view() =~= ring.view().drop_first());
    }
}

/// A run of pushes appends the values in their order for as long as there
/// is room, and refuses every value from the first that finds the queue
/// full.
pub proof fn lemma_push_all<T>(ring: Ring<T>, values: Seq<T>)
    requires
        ring.wf(),
    ensures
        ring.push_all(values).wf(),
        ring.push_all(values).slots() == ring.slots(),
        ring.push_all(values).view() == ring.view() + values.take(
            spec_min(ring.capacity() - ring.view().len(), values.len() as int),
        ),
    decreases values.len(),
{
    lemma_bounded(ring);
    let room = ring.capacity() - ring.view().len();
    if values.len() == 0 {
        assert(ring.view() + values.take(0) =~= ring.view());
    } else {
        let first = values[0];
        let rest = values.drop_first();
        let next = ring.push(first);
        lemma_push(ring, first);
        lemma_push_all(next, rest);
        lemma_bounded(next);
        if room > 0 {
            let taken = spec_min(room - 1, rest.len() as int);
            assert(ring.view().push(first) + rest.take(taken) =~= ring.view() + values.take(
                taken + 1,
            ));
        } else {
            assert(rest.take(0) =~= values.take(0));
        }
    }
}

/// A producer that pushes one value more than the capacity into a new queue
/// is refused once, on the last push: the queue then holds the values before
/// it, in their order.
pub proof fn lemma_overflow<T>(capacity: nat, values: Seq<T>)
    requires
        1 <= capacity,
        values.len() == capacity + 1,
    ensures
        Ring::<T>::empty(capacity).push_all(values).view() == values.take(capacity as int),
        Ring::<T>::empty(capacity).push_all(values.take(capacity as int)).view() == values.take(
            capacity as int,
        ),
        Ring::<T>::empty(capacity).push_all(values.take(capacity as int)).push_outcome(
            values[capacity as int],
        ) == Err::<(), T>(values[capacity as int]),
{
    let ring = Ring::<T>::empty(capacity);
    let most = values.take(capacity as int);
    lemma_empty::<T>(capacity);
    lemma_push_all(ring, values);
    lemma_push_all(ring, most);
    assert(Seq::<T>::empty() + values.take(capacity as int) =~= most);
    assert(Seq::<T>::empty() + most.take(capacity as int) =~= most);
    lemma_push(ring.push_all(most), values[capacity as int]);
}

/// A run of pops answers the elements held, oldest first, and nothing from
/// the moment the queue is empty; what it leaves is what it did not reach.
pub proof fn lemma_pop_many<T>(ring: Ring<T>, count: nat)
    requires
        ring.wf(),
    ensures
        ring.pop_many(count).wf(),
        ring.pop_many(count).slots() == ring.slots(),
        ring.pop_many(count).view() == ring.view().skip(
            spec_min(count as int, ring.view().len() as int),
        ),
        ring.pop_outcomes(count).len() == count,
        forall|k: int|
            0 <= k < count ==> #[trigger] ring.pop_outcomes(count)[k] == if k
                < ring.view().len() {
                Some(ring.view()[k])
            } else {
                None
            },
    decreases count,
{
    if count == 0 {
        assert(ring.view().skip(0) =~= ring.view());
    } else {
        let next = ring.pop();
        let rest = (count - 1) as nat;
        lemma_pop(ring);
        lemma_pop_many(next, rest);
        if ring.view().len() > 0 {
            assert(ring.view().drop_first().skip(
                spec_min(rest as int, next.view().len() as int),
            ) =~= ring.view().skip(spec_min(count as int, ring.view().len() as int)));
        } else {
            assert(ring.view().skip(0) =~= ring.view());
        }
        assert forall|k: int| 0 <= k < count implies #[trigger] ring.pop_outcomes(count)[k] == if k
            < ring.view().len() {
            Some(ring.view()[k])
        } else {
            None
        } by {
            if k > 0 {
                assert(ring.pop_outcomes(count)[k] == next.pop_outcomes(rest)[k - 1]);
            }
        }
    }
}

/// With one producer and one consumer that take turns, the queue is first
/// in, first out: what is pushed into a new queue, up to its capacity, is
/// what the same number of pops answers, in the same order.
pub proof fn lemma_fifo<T>(capacity: nat, values: Seq<T>)
    requires
        1 <= capacity,
        values.len() <= capacity,
    ensures
        Ring::<T>::empty(capacity).push_all(values).pop_outcomes(values.len()) == values.map(
            |k: int, value: T| Some(value),
        ),
        Ring::<T>::empty(capacity).push_all(values).pop_many(values.len()).view() == Seq::<
            T,
        >::empty(),
{
    let ring = Ring::<T>::empty(capacity);
    let full = ring.push_all(values);
    lemma_empty::<T>(capacity);
    lemma_push_all(ring, values);
    assert(Seq::<T>::empty() + values.take(values.len() as int) =~= values);
    lemma_pop_many(full, values.len());
    assert(full.pop_outcomes(values.len()) =~= values.map(|k: int, value: T| Some(value)));
    assert(full.pop_many(values.len()).view() =~= Seq::<T>::empty());
}

} // verus!
