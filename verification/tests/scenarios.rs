use std::sync::atomic::AtomicUsize;
use std::sync::atomic::Ordering;
use std::sync::Arc;
use synq::masked::accepts;
use synq::AxelQueue;
use synq::DoubleQueue;
use synq::MaskedQueue;
use synq::OtherQueue;
use synq::SynQueue;

struct Counted {
    drops: Arc<AtomicUsize>,
}

impl Drop for Counted {
    fn drop(&mut self) {
        self.drops.fetch_add(1, Ordering::SeqCst);
    }
}

fn overflow_then_drain<Q: SynQueue<i32>>() {
    let sq = Q::new(2);
    assert_eq!(sq.push(2), Ok(()));
    assert_eq!(sq.push(3), Ok(()));
    assert_eq!(sq.push(4), Err(4));
    assert_eq!(sq.pop(), Some(2));
    assert_eq!(sq.pop(), Some(3));
    assert_eq!(sq.pop(), None);
}

fn smoke_then_empty<Q: SynQueue<i32>>() {
    let sq = Q::new(16);
    assert_eq!(sq.pop(), None);
    assert_eq!(sq.push(5), Ok(()));
    assert_eq!(sq.push(10), Ok(()));
    assert_eq!(sq.pop(), Some(5));
    assert_eq!(sq.pop(), Some(10));
    assert_eq!(sq.pop(), None);
}

fn wraparound<Q: SynQueue<u32>>() {
    let sq = Q::new(4);
    for i in 0..10 {
        assert_eq!(sq.push(i), Ok(()));
        assert_eq!(sq.pop(), Some(i));
    }
    assert_eq!(sq.pop(), None);
}

fn wraparound_while_full<Q: SynQueue<u32>>() {
    let sq = Q::new(4);
    for i in 0..4 {
        assert_eq!(sq.push(i), Ok(()));
    }
    for i in 4..30 {
        assert_eq!(sq.push(i), Err(i));
        assert_eq!(sq.pop(), Some(i - 4));
        assert_eq!(sq.push(i), Ok(()));
    }
    for i in 26..30 {
        assert_eq!(sq.pop(), Some(i));
    }
    assert_eq!(sq.pop(), None);
}

fn destructor_count<Q: SynQueue<Counted>>() {
    let drops = Arc::new(AtomicUsize::new(0));
    let sq = Q::new(8);
    for _ in 0..7 {
        assert!(sq.push(Counted { drops: Arc::clone(&drops) }).is_ok());
    }
    assert_eq!(drops.load(Ordering::SeqCst), 0);
    drop(sq);
    assert_eq!(drops.load(Ordering::SeqCst), 7);
}

fn destructor_count_after_pops<Q: SynQueue<Counted>>() {
    let drops = Arc::new(AtomicUsize::new(0));
    let sq = Q::new(4);
    for _ in 0..3 {
        for _ in 0..4 {
            assert!(sq.push(Counted { drops: Arc::clone(&drops) }).is_ok());
        }
        assert!(sq.pop().is_some());
        assert!(sq.pop().is_some());
        assert!(sq.pop().is_some());
        assert!(sq.pop().is_some());
    }
    assert_eq!(drops.load(Ordering::SeqCst), 12);
    assert!(sq.push(Counted { drops: Arc::clone(&drops) }).is_ok());
    assert!(sq.push(Counted { drops: Arc::clone(&drops) }).is_ok());
    assert!(sq.pop().is_some());
    assert_eq!(drops.load(Ordering::SeqCst), 13);
    drop(sq);
    assert_eq!(drops.load(Ordering::SeqCst), 14);
}

fn refusal_returns_the_value<Q: SynQueue<String>>() {
    let sq = Q::new(1);
    assert_eq!(sq.push(String::from("first")), Ok(()));
    assert_eq!(sq.push(String::from("second")), Err(String::from("second")));
    assert_eq!(sq.pop(), Some(String::from("first")));
    assert_eq!(sq.push(String::from("third")), Ok(()));
    assert_eq!(sq.pop(), Some(String::from("third")));
    assert_eq!(sq.pop(), None);
}

fn emptiness<Q: SynQueue<u8>>() {
    let sq = Q::new(2);
    assert!(sq.is_empty());
    assert_eq!(sq.push(1), Ok(()));
    assert!(!sq.is_empty());
    assert_eq!(sq.push(2), Ok(()));
    assert!(!sq.is_empty());
    assert_eq!(sq.pop(), Some(1));
    assert!(!sq.is_empty());
    assert_eq!(sq.pop(), Some(2));
    assert!(sq.is_empty());
}

fn fifo_over_many_cells<Q: SynQueue<usize>>(capacity: usize) {
    let sq = Q::new(capacity);
    for round in 0..3 {
        for i in 0..capacity {
            assert_eq!(sq.push(round * capacity + i), Ok(()));
        }
        assert_eq!(sq.push(usize::MAX), Err(usize::MAX));
        for i in 0..capacity {
            assert_eq!(sq.pop(), Some(round * capacity + i));
        }
        assert_eq!(sq.pop(), None);
        // shift the ring by one cell for the next round
        assert_eq!(sq.push(0), Ok(()));
        assert_eq!(sq.pop(), Some(0));
    }
}

#[test]
fn axel_overflow_then_drain() {
    overflow_then_drain::<AxelQueue<i32>>();
}

#[test]
fn double_overflow_then_drain() {
    overflow_then_drain::<DoubleQueue<i32>>();
}

#[test]
fn masked_overflow_then_drain() {
    overflow_then_drain::<MaskedQueue<i32>>();
}

#[test]
fn other_overflow_then_drain() {
    let sq = OtherQueue::<i32>::new(2);
    assert_eq!(sq.push(2), Ok(()));
    assert_eq!(sq.push(3), Ok(()));
    assert_eq!(sq.push(4), Err(4));
    assert_eq!(sq.pop(), Some(2));
    assert_eq!(sq.pop(), Some(3));
    assert_eq!(sq.pop(), None);
}

#[test]
fn axel_smoke_then_empty() {
    smoke_then_empty::<AxelQueue<i32>>();
}

#[test]
fn double_smoke_then_empty() {
    smoke_then_empty::<DoubleQueue<i32>>();
}

#[test]
fn masked_smoke_then_empty() {
    smoke_then_empty::<MaskedQueue<i32>>();
}

#[test]
fn masked_accepts_powers_of_two_only() {
    assert!(!accepts(3));
    assert!(accepts(4));
    let sq = MaskedQueue::<i32>::new(4);
    for i in 0..4 {
        assert_eq!(sq.push(i), Ok(()));
    }
    assert_eq!(sq.push(4), Err(4));
    for i in 0..4 {
        assert_eq!(sq.pop(), Some(i));
    }
    assert_eq!(sq.pop(), None);
}

#[test]
fn masked_accepts_exact_range() {
    assert!(!accepts(0));
    assert!(accepts(1));
    assert!(accepts(2));
    assert!(!accepts(5));
    assert!(!accepts(6));
    assert!(accepts(1 << 16));
    assert!(accepts(1 << 19));
    assert!(!accepts((1 << 19) + 1));
    assert!(!accepts((1 << 20) - 1));
    assert!(!accepts(1 << 20));
    assert!(!accepts(1 << 21));
    assert!(!accepts(usize::MAX));
    let mut accepted = 0;
    for capacity in 0..(1usize << 21) {
        if accepts(capacity) {
            assert!(capacity.is_power_of_two());
            accepted += 1;
        }
    }
    assert_eq!(accepted, 20);
}

#[test]
fn axel_wraparound() {
    wraparound::<AxelQueue<u32>>();
    wraparound_while_full::<AxelQueue<u32>>();
}

#[test]
fn double_wraparound() {
    wraparound::<DoubleQueue<u32>>();
    wraparound_while_full::<DoubleQueue<u32>>();
}

#[test]
fn masked_wraparound() {
    wraparound::<MaskedQueue<u32>>();
    wraparound_while_full::<MaskedQueue<u32>>();
}

#[test]
fn other_wraparound() {
    let sq = OtherQueue::<u32>::new(4);
    for i in 0..10 {
        assert_eq!(sq.push(i), Ok(()));
        assert_eq!(sq.pop(), Some(i));
    }
    assert_eq!(sq.pop(), None);
}

#[test]
fn axel_destructor_count() {
    destructor_count::<AxelQueue<Counted>>();
    destructor_count_after_pops::<AxelQueue<Counted>>();
}

#[test]
fn double_destructor_count() {
    destructor_count::<DoubleQueue<Counted>>();
    destructor_count_after_pops::<DoubleQueue<Counted>>();
}

#[test]
fn masked_destructor_count() {
    destructor_count::<MaskedQueue<Counted>>();
    destructor_count_after_pops::<MaskedQueue<Counted>>();
}

#[test]
fn other_destructor_count() {
    let drops = Arc::new(AtomicUsize::new(0));
    let sq = OtherQueue::<Counted>::new(8);
    for _ in 0..7 {
        assert!(sq.push(Counted { drops: Arc::clone(&drops) }).is_ok());
    }
    drop(sq);
    assert_eq!(drops.load(Ordering::SeqCst), 7);
}

#[test]
fn axel_refusal_returns_the_value() {
    refusal_returns_the_value::<AxelQueue<String>>();
}

#[test]
fn double_refusal_returns_the_value() {
    refusal_returns_the_value::<DoubleQueue<String>>();
}

#[test]
fn masked_refusal_returns_the_value() {
    refusal_returns_the_value::<MaskedQueue<String>>();
}

#[test]
fn axel_emptiness() {
    emptiness::<AxelQueue<u8>>();
}

#[test]
fn double_emptiness() {
    emptiness::<DoubleQueue<u8>>();
}

#[test]
fn masked_emptiness() {
    emptiness::<MaskedQueue<u8>>();
}

#[test]
fn axel_fifo_over_many_bitmap_words() {
    fifo_over_many_cells::<AxelQueue<usize>>(1);
    fifo_over_many_cells::<AxelQueue<usize>>(63);
    fifo_over_many_cells::<AxelQueue<usize>>(64);
    fifo_over_many_cells::<AxelQueue<usize>>(200);
}

#[test]
fn double_fifo_over_many_cells() {
    fifo_over_many_cells::<DoubleQueue<usize>>(1);
    fifo_over_many_cells::<DoubleQueue<usize>>(200);
}

#[test]
fn masked_fifo_over_many_cells() {
    fifo_over_many_cells::<MaskedQueue<usize>>(1);
    fifo_over_many_cells::<MaskedQueue<usize>>(256);
}

#[test]
fn other_barrage() {
    const NUM_WORKERS: usize = 8;
    const NUM_ELEMENTS: usize = 1 << 17;
    let sq = OtherQueue::<usize>::new(NUM_ELEMENTS);
    let mut pushed = vec![0usize; NUM_ELEMENTS];
    let mut popped = vec![0usize; NUM_ELEMENTS];
    for i in 0..NUM_ELEMENTS {
        for _ in 0..NUM_WORKERS {
            if sq.push(i).is_ok() {
                pushed[i] += 1;
            }
        }
        for _ in 0..NUM_WORKERS {
            if let Some(value) = sq.pop() {
                popped[value] += 1;
            }
        }
    }
    while let Some(value) = sq.pop() {
        popped[value] += 1;
    }
    assert_eq!(pushed, popped);
}
