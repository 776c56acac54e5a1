use std::sync::atomic::AtomicU64;
use std::sync::atomic::Ordering;
use synq::axel::bit_mask;
use synq::axel::bit_word;
use synq::axel::occupied;
use synq::double::pop_commit;
use synq::double::push_commit;
use synq::masked::acquire;
use synq::masked::acquire_step;
use synq::masked::acquire_word;
use synq::masked::age_of;
use synq::masked::check_index;
use synq::masked::index_of;
use synq::masked::last_used_index;
use synq::masked::release;
use synq::masked::release_bit;
use synq::masked::shows_empty;
use synq::masked::BoundsCheck;
use synq::ring::advance;
use synq::state::State;
use synq::AxelQueue;
use synq::DoubleQueue;
use synq::MaskedQueue;
use synq::OtherQueue;
use synq::SynQueue;

const BIT: u64 = 1 << 20;

#[test]
fn state_pack_puts_head_low_and_tail_high() {
    assert_eq!(State { head: 1, tail: 2 }.pack(), 0x0000_0002_0000_0001);
    assert_eq!(State { head: 0, tail: 0 }.pack(), 0);
    assert_eq!(State { head: u32::MAX, tail: 0 }.pack(), 0x0000_0000_FFFF_FFFF);
    assert_eq!(State { head: 0, tail: u32::MAX }.pack(), 0xFFFF_FFFF_0000_0000);
    assert_eq!(State { head: u32::MAX, tail: u32::MAX }.pack(), u64::MAX);
}

#[test]
fn state_unpack_splits_the_word() {
    assert_eq!(State::unpack(0x0000_0005_0000_0007), State { head: 7, tail: 5 });
    assert_eq!(State::unpack(0), State { head: 0, tail: 0 });
    assert_eq!(State::unpack(u64::MAX), State { head: u32::MAX, tail: u32::MAX });
    assert_eq!(State::unpack(0x8000_0000_0000_0000), State { head: 0, tail: 0x8000_0000 });
}

#[test]
fn state_pack_and_unpack_undo_each_other() {
    for word in [0u64, 1, 0xFFFF_FFFF, 0x1_0000_0000, 0xDEAD_BEEF_0BAD_F00D, u64::MAX] {
        assert_eq!(State::unpack(word).pack(), word);
    }
    for (head, tail) in [(0u32, 0u32), (3, 9), (u32::MAX, 1), (1, u32::MAX)] {
        assert_eq!(State::unpack(State { head, tail }.pack()), State { head, tail });
    }
}

#[test]
fn state_fits_the_ring() {
    assert!(State { head: 2, tail: 0 }.fits(3));
    assert!(!State { head: 3, tail: 0 }.fits(3));
    assert!(!State { head: 0, tail: 3 }.fits(3));
    assert!(!State { head: 0, tail: 0 }.fits(0));
}

#[test]
fn advance_wraps_after_the_last_cell() {
    assert_eq!(advance(0, 3), 1);
    assert_eq!(advance(1, 3), 2);
    assert_eq!(advance(2, 3), 0);
    assert_eq!(advance(0, 1), 0);
    assert_eq!(advance(4, 5), 0);
    assert_eq!(advance(u32::MAX - 1, u32::MAX as usize), 0);
    assert_eq!(advance(u32::MAX - 2, u32::MAX as usize), u32::MAX - 1);
}

#[test]
fn queue_advance_follows_its_ring() {
    let axel = AxelQueue::<u8>::new(4);
    assert_eq!(axel.advance(0), 1);
    assert_eq!(axel.advance(3), 4);
    assert_eq!(axel.advance(4), 0);
    let double = DoubleQueue::<u8>::new(2);
    assert_eq!(double.advance(1), 2);
    assert_eq!(double.advance(2), 0);
}

#[test]
fn push_step_moves_the_head_unless_full() {
    assert_eq!(State { head: 0, tail: 0 }.push_step(3), Some(State { head: 1, tail: 0 }));
    assert_eq!(State { head: 1, tail: 0 }.push_step(3), Some(State { head: 2, tail: 0 }));
    assert_eq!(State { head: 2, tail: 0 }.push_step(3), None);
    assert_eq!(State { head: 1, tail: 2 }.push_step(3), None);
    assert_eq!(State { head: 2, tail: 2 }.push_step(3), Some(State { head: 0, tail: 2 }));
}

#[test]
fn pop_step_moves_the_tail_unless_empty() {
    assert_eq!(State { head: 1, tail: 1 }.pop_step(3), None);
    assert_eq!(State { head: 1, tail: 2 }.pop_step(3), Some(State { head: 1, tail: 0 }));
    assert_eq!(State { head: 2, tail: 0 }.pop_step(3), Some(State { head: 2, tail: 1 }));
}

#[test]
fn bitmap_places_one_bit_per_cell() {
    assert_eq!(bit_word(0), 0);
    assert_eq!(bit_word(63), 0);
    assert_eq!(bit_word(64), 1);
    assert_eq!(bit_word(200), 3);
    assert_eq!(bit_mask(0), 1);
    assert_eq!(bit_mask(1), 2);
    assert_eq!(bit_mask(63), 1 << 63);
    assert_eq!(bit_mask(64), 1);
    assert_eq!(bit_mask(65), 2);
    assert!(occupied(0b100, 2));
    assert!(occupied(0b100, 66));
    assert!(!occupied(0b100, 3));
    assert!(!occupied(0, 0));
    assert!(occupied(u64::MAX, 63));
}

#[test]
fn commit_words_keep_the_other_index() {
    let seen = State { head: 9, tail: 3 };
    assert_eq!(push_commit(seen, 4, 5), (0x0000_0003_0000_0004, 0x0000_0003_0000_0005));
    assert_eq!(pop_commit(seen, 1, 2), (0x0000_0001_0000_0009, 0x0000_0002_0000_0009));
}

#[test]
fn masked_index_is_the_low_bits() {
    assert_eq!(index_of(5), 5);
    assert_eq!(index_of(3 * BIT + 5), 5);
    assert_eq!(index_of(BIT - 1), (1 << 20) - 1);
    assert_eq!(index_of(BIT), 0);
    assert_eq!(index_of(u64::MAX), (1 << 20) - 1);
}

#[test]
fn masked_age_is_the_height_of_the_window() {
    assert_eq!(age_of(0), 0);
    assert_eq!(age_of(5), 0);
    assert_eq!(age_of(BIT - 1), 0);
    assert_eq!(age_of(BIT + 5), 1);
    assert_eq!(age_of(2 * BIT), 2);
    assert_eq!(age_of(5 * BIT), 3);
    assert_eq!(age_of(1 << 62), 43);
    assert_eq!(age_of(1 << 63), 44);
    assert_eq!(age_of(u64::MAX), 44);
}

#[test]
fn masked_last_used_index_steps_back_by_the_age() {
    assert_eq!(last_used_index(7, 17), 7);
    assert_eq!(last_used_index(BIT + 5, 17), 4);
    assert_eq!(last_used_index(5 * BIT + 1, 17), 15);
    assert_eq!(last_used_index(5 * BIT + 3, 17), 0);
    assert_eq!(last_used_index(BIT, 3), 2);
    assert_eq!(last_used_index(2 * BIT + 1, 3), 2);
    // an age beyond two turns of a small ring
    assert_eq!(last_used_index((1 << 26) + 1, 3), 0);
    assert_eq!(last_used_index((1 << 63) + 2, 5), 3);
}

#[test]
fn queue_last_used_index_follows_its_ring() {
    let masked = MaskedQueue::<u8>::new(16);
    assert_eq!(masked.get_last_used_index(5 * BIT + 1), 15);
    assert_eq!(masked.get_last_used_index(9), 9);
    let other = OtherQueue::<u8>::new(2);
    assert_eq!(other.get_last_used_index(BIT), 2);
    assert_eq!(other.get_last_used_index(2 * BIT + 1), 2);
}

#[test]
fn masked_acquire_shifts_the_window_and_advances() {
    assert_eq!(acquire_word(5, 17), BIT + 6);
    assert_eq!(acquire_word(BIT + 6, 17), 3 * BIT + 7);
    assert_eq!(acquire_word(2 * BIT + 7, 17), 5 * BIT + 8);
    assert_eq!(acquire_word(BIT + 16, 17), 3 * BIT);
    assert_eq!(acquire_word(0, 2), BIT + 1);
    assert_eq!(acquire_word(1, 2), BIT);
    assert_eq!(acquire_word((1 << 62) + 3, 17), (1 << 63) + BIT + 4);
}

#[test]
fn masked_check_index_picks_the_side() {
    assert_eq!(check_index(BoundsCheck::OldValue, 5, BIT + 6), 5);
    assert_eq!(check_index(BoundsCheck::NewValue, 5, BIT + 6), 6);
}

#[test]
fn masked_acquire_step_stops_at_the_bound() {
    assert_eq!(acquire_step(BoundsCheck::NewValue, 5, 6, 17), None);
    assert_eq!(acquire_step(BoundsCheck::NewValue, 5, 7, 17), Some(BIT + 6));
    assert_eq!(acquire_step(BoundsCheck::NewValue, 16, 0, 17), None);
    assert_eq!(acquire_step(BoundsCheck::OldValue, 5, 5, 17), None);
    assert_eq!(acquire_step(BoundsCheck::OldValue, 5, 6, 17), Some(BIT + 6));
}

#[test]
fn masked_release_bit_follows_the_age() {
    assert_eq!(release_bit(BIT + 6, 5, 17), Some(BIT));
    assert_eq!(release_bit(3 * BIT + 7, 5, 17), Some(2 * BIT));
    assert_eq!(release_bit(3 * BIT + 7, 6, 17), Some(BIT));
    assert_eq!(release_bit(BIT + 7, 5, 17), None);
    assert_eq!(release_bit(5, 5, 17), None);
    assert_eq!(release_bit(u64::MAX - BIT + 1 + 5, 5, 17), None);
    assert_eq!(release_bit(BIT, 16, 17), Some(BIT));
    assert_eq!(release_bit((1 << 63) + 44, 0, 64), Some(1 << 63));
    assert_eq!(release_bit(u64::MAX - BIT + 1 + 45, 0, 64), None);
}

#[test]
fn masked_releases_finish_in_any_order() {
    let start = 0u64;
    let first = acquire_word(start, 5);
    assert_eq!(first, BIT + 1);
    let second = acquire_word(first, 5);
    assert_eq!(second, 3 * BIT + 2);
    assert_eq!(last_used_index(second, 5), 0);
    // the later reservation, of cell 1, is released first
    let bit = release_bit(second, 1, 5).unwrap();
    assert_eq!(bit, BIT);
    let third = second ^ bit;
    assert_eq!(third, 2 * BIT + 2);
    assert_eq!(last_used_index(third, 5), 0);
    assert_eq!(release_bit(third, 1, 5), None);
    // then the earlier one, of cell 0
    let bit = release_bit(third, 0, 5).unwrap();
    assert_eq!(bit, 2 * BIT);
    let fourth = third ^ bit;
    assert_eq!(fourth, 2);
    assert_eq!(last_used_index(fourth, 5), 2);
}

#[test]
fn masked_acquire_and_release_on_words() {
    let head = AtomicU64::new(0);
    let tail = AtomicU64::new(0);
    // a ring of three cells holds two elements
    assert_eq!(acquire(&tail, &head, BoundsCheck::OldValue, 3), None);
    assert_eq!(acquire(&head, &tail, BoundsCheck::NewValue, 3), Some((0, BIT + 1)));
    assert_eq!(head.load(Ordering::SeqCst), BIT + 1);
    // the push of cell 0 is in flight: nothing to pop yet
    assert_eq!(acquire(&tail, &head, BoundsCheck::OldValue, 3), None);
    assert_eq!(acquire(&head, &tail, BoundsCheck::NewValue, 3), Some((1, 3 * BIT + 2)));
    assert_eq!(acquire(&head, &tail, BoundsCheck::NewValue, 3), None);
    assert!(release(&head, 3 * BIT + 2, 1, 3));
    assert_eq!(head.load(Ordering::SeqCst), 2 * BIT + 2);
    assert_eq!(acquire(&tail, &head, BoundsCheck::OldValue, 3), None);
    // a stale view of the word is corrected by the failed exchange
    assert!(release(&head, BIT + 1, 0, 3));
    assert_eq!(head.load(Ordering::SeqCst), 2);
    assert!(!release(&head, 2, 0, 3));
    assert_eq!(head.load(Ordering::SeqCst), 2);
    assert_eq!(acquire(&tail, &head, BoundsCheck::OldValue, 3), Some((0, BIT + 1)));
    assert!(release(&tail, BIT + 1, 0, 3));
    assert_eq!(tail.load(Ordering::SeqCst), 1);
}

#[test]
fn masked_acquire_refuses_a_word_outside_the_ring() {
    let head = AtomicU64::new(7);
    let tail = AtomicU64::new(0);
    assert_eq!(acquire(&head, &tail, BoundsCheck::NewValue, 3), None);
    assert_eq!(head.load(Ordering::SeqCst), 7);
}

#[test]
fn queue_acquire_and_release_on_words() {
    let masked = MaskedQueue::<u8>::new(2);
    let head = AtomicU64::new(2);
    let tail = AtomicU64::new(1);
    assert_eq!(
        masked.cas_acquire(&head, &tail, BoundsCheck::NewValue),
        Some((2, BIT))
    );
    assert_eq!(masked.cas_acquire(&head, &tail, BoundsCheck::NewValue), None);
    assert!(masked.cas_release(&head, BIT, 2));
    assert_eq!(head.load(Ordering::SeqCst), 0);
    let other = OtherQueue::<u8>::new(2);
    assert_eq!(
        other.cas_acquire(&tail, &head, BoundsCheck::OldValue),
        Some((1, BIT + 2))
    );
    assert!(other.cas_release(&tail, BIT + 2, 1));
    assert_eq!(tail.load(Ordering::SeqCst), 2);
    assert!(!other.cas_release(&tail, 2, 1));
}

#[test]
fn packed_queues_accept_what_fits_an_index() {
    assert!(!synq::state::accepts(0));
    assert!(synq::state::accepts(1));
    assert!(synq::state::accepts(3));
    assert!(synq::state::accepts(0xFFFF_FFFE));
    assert!(!synq::state::accepts(0xFFFF_FFFF));
    assert!(!synq::state::accepts(usize::MAX));
}

#[test]
fn state_is_empty_when_head_meets_tail() {
    assert!(State { head: 3, tail: 3 }.is_empty());
    assert!(State { head: 0, tail: 0 }.is_empty());
    assert!(!State { head: 3, tail: 4 }.is_empty());
    assert!(!State { head: 0, tail: u32::MAX }.is_empty());
    assert!(State::unpack(0x0000_0007_0000_0007).is_empty());
    assert!(!State::unpack(0x0000_0007_0000_0008).is_empty());
}

#[test]
fn masked_words_show_empty_up_to_the_oldest_push_in_flight() {
    assert!(shows_empty(0, 0, 3));
    assert!(shows_empty(2, 2, 3));
    assert!(!shows_empty(2, 0, 3));
    assert!(!shows_empty(0, 2, 3));
    // the push of cell 0 is in flight: nothing shows yet
    assert!(shows_empty(BIT + 1, 0, 3));
    // cell 1 is written, but the push of cell 0 before it is not
    assert!(shows_empty(2 * BIT + 2, 0, 3));
    // cell 0 is written, the push of cell 1 is in flight
    assert!(!shows_empty(BIT + 2, 0, 3));
    assert!(shows_empty(BIT + 2, 1, 3));
    // the window of the tail word plays no part
    assert!(shows_empty(1, BIT + 1, 3));
    assert!(!shows_empty(2, BIT + 1, 3));
}

#[test]
fn masked_release_leaves_the_word_where_nothing_is_in_flight() {
    let head = AtomicU64::new(3 * BIT + 2);
    // the caller's view shows no reservation of cell 0 in flight
    assert!(!release(&head, BIT + 2, 0, 3));
    assert_eq!(head.load(Ordering::SeqCst), 3 * BIT + 2);
    assert!(!release(&head, 2, 1, 3));
    assert_eq!(head.load(Ordering::SeqCst), 3 * BIT + 2);
    let masked = MaskedQueue::<u8>::new(2);
    assert!(!masked.cas_release(&head, 2, 1));
    let other = OtherQueue::<u8>::new(2);
    assert!(!other.cas_release(&head, BIT + 2, 0));
    assert_eq!(head.load(Ordering::SeqCst), 3 * BIT + 2);
    // a view that shows it in flight lets the release go through
    assert!(release(&head, 3 * BIT + 2, 0, 3));
    assert_eq!(head.load(Ordering::SeqCst), BIT + 2);
}
