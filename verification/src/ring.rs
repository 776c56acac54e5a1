//! Arithmetic on the indices of a ring of `slots` cells.
//!
//! A queue of capacity `c` owns `c + 1` cells; one of them always stays
//! unused so that an empty ring (`head == tail`) differs from a full one
//! (`advance(head) == tail`).
use vstd::prelude::*;
use vstd::arithmetic::div_mod::lemma_small_mod;
use vstd::arithmetic::div_mod::lemma_mod_self_0;
use vstd::arithmetic::div_mod::lemma_mod_add_multiples_vanish;

verus! {

/// The index that follows `index` in a ring of `slots` cells.
pub open spec fn spec_advance(index: int, slots: int) -> int {
    (index + 1) % slots
}

/// The number of steps that lead from `from` forward to `to`.
pub open spec fn spec_distance(from: int, to: int, slots: int) -> int {
    (to - from) % slots
}

/// `spec_advance` without the modulus: one step forward, and back to zero
/// after the last cell.
pub proof fn lemma_advance_cases(index: int, slots: int)
    requires
        0 <= index < slots,
    ensures
        spec_advance(index, slots) == if index + 1 == slots { 0 } else { index + 1 },
        0 <= spec_advance(index, slots) < slots,
{
    if index + 1 == slots {
        lemma_mod_self_0(slots);
    } else {
        lemma_small_mod((index + 1) as nat, slots as nat);
    }
}

/// `spec_distance` without the modulus.
pub proof fn lemma_distance_cases(from: int, to: int, slots: int)
    requires
        0 <= from < slots,
        0 <= to < slots,
    ensures
        spec_distance(from, to, slots) == if to >= from { to - from } else { to + slots - from },
        0 <= spec_distance(from, to, slots) < slots,
{
    if to >= from {
        lemma_small_mod((to - from) as nat, slots as nat);
    } else {
        lemma_mod_add_multiples_vanish(to - from, slots);
        lemma_small_mod((to + slots - from) as nat, slots as nat);
    }
}

/// Steps one cell forward in a ring of `slots` cells.
pub fn advance(index: u32, slots: usize) -> (next: u32)
    requires
        index < slots <= u32::MAX,
    ensures
        next == spec_advance(index as int, slots as int),
        next < slots,
{
    proof {
        lemma_advance_cases(index as int, slots as int);
    }
    if index as usize + 1 == slots {
        0
    } else {
        index + 1
    }
}

} // verus!
