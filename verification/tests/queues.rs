use synq::AxelQueue;
use synq::DoubleQueue;
use synq::MaskedQueue;
use synq::OtherQueue;
use synq::SynQueue;

fn test_overflow<Q: SynQueue<i32>>() {
    let sq = Q::new(2);
    sq.push(2).unwrap();
    sq.push(3).unwrap();
    assert_eq!(sq.push(4), Err(4));
}

fn test_smoke<Q: SynQueue<i32>>() {
    let sq = Q::new(16);
    assert_eq!(sq.pop(), None);
    sq.push(5).unwrap();
    sq.push(10).unwrap();
    assert_eq!(sq.pop(), Some(5));
    assert_eq!(sq.pop(), Some(10));
}

fn test_barrage<Q: SynQueue<usize>>() {
    const NUM_WORKERS: usize = 8;
    const NUM_ELEMENTS: usize = 1 << 16;
    let sq = Q::new(NUM_ELEMENTS);
    let mut pushed = vec![0usize; NUM_ELEMENTS];
    let mut popped = vec![0usize; NUM_ELEMENTS];
    for i in 0..NUM_ELEMENTS {
        for _ in 0..NUM_WORKERS {
            if sq.push(i).is_ok() {
                pushed[i] += 1;
            }
        }
        for _ in 0..NUM_WORKERS {
            if let Some(value) = sq.pop() {
                popped[value] += 1;
            }
        }
    }
    while let Some(value) = sq.pop() {
        popped[value] += 1;
    }
    assert_eq!(pushed, popped);
}

#[test]
fn axel_overflow() {
    test_overflow::<AxelQueue<i32>>();
}

#[test]
fn axel_smoke() {
    test_smoke::<AxelQueue<i32>>();
}

#[test]
fn axel_barrage() {
    test_barrage::<AxelQueue<usize>>();
}

#[test]
fn double_overflow() {
    test_overflow::<DoubleQueue<i32>>();
}

#[test]
fn double_smoke() {
    test_smoke::<DoubleQueue<i32>>();
}

#[test]
fn double_barrage() {
    test_barrage::<DoubleQueue<usize>>();
}

#[test]
fn masked_overflow() {
    test_overflow::<MaskedQueue<i32>>();
}

#[test]
fn masked_smoke() {
    test_smoke::<MaskedQueue<i32>>();
}

#[test]
fn masked_barrage() {
    test_barrage::<MaskedQueue<usize>>();
}

#[test]
fn other_overflow() {
    let sq = OtherQueue::<i32>::new(2);
    sq.push(2).unwrap();
    sq.push(3).unwrap();
    assert_eq!(sq.push(4), Err(4));
}

#[test]
fn other_smoke() {
    let sq = OtherQueue::<i32>::new(16);
    assert_eq!(sq.pop(), None);
    sq.push(5).unwrap();
    sq.push(10).unwrap();
    assert_eq!(sq.pop(), Some(5));
    assert_eq!(sq.pop(), Some(10));
}
