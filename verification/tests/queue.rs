use spsc::Spsc;

#[test]
fn capacity_law() {
    // A queue over n = 5 slots accepts exactly n - 1 = 4 consecutive writes;
    // the 5th, with no interleaved read, is rejected.
    let mut q: Spsc<u32> = Spsc::new(5);
    assert_eq!(q.capacity(), 4);
    for v in 0..4u32 {
        assert!(q.write(v));
    }
    assert!(q.is_full());
    assert!(!q.write(99));
    assert_eq!(q.size_guess(), 4);
}

#[test]
fn capacity_law_smallest() {
    // The smallest legal queue has two slots and one usable element.
    let mut q: Spsc<u8> = Spsc::new(2);
    assert_eq!(q.capacity(), 1);
    assert!(q.write(1));
    assert!(!q.write(2));
    assert_eq!(q.read(), Some(1));
    assert_eq!(q.read(), None);
}

#[test]
fn round_trip() {
    // Writing v then reading, with no other read in between, yields Some(v).
    let mut q: Spsc<u64> = Spsc::new(8);
    assert!(q.write(12345));
    assert_eq!(q.read(), Some(12345));
    assert!(q.is_empty());
}

#[test]
fn fifo_order_interleaved() {
    // Writes interleaved with reads on one thread come back in write order.
    let mut q: Spsc<u32> = Spsc::new(4);
    let mut next_write: u32 = 0;
    let mut next_read: u32 = 0;
    while next_read < 1000 {
        if q.write(next_write) {
            next_write += 1;
        }
        if next_write % 3 == 0 || q.is_full() {
            if let Some(v) = q.read() {
                assert_eq!(v, next_read);
                next_read += 1;
            }
        }
    }
}

#[test]
fn empty_full_exclusive() {
    // is_empty and is_full are never simultaneously true, at every fill
    // level of queues of several capacities.
    for slots in 2..8usize {
        let mut q: Spsc<usize> = Spsc::new(slots);
        assert!(!(q.is_empty() && q.is_full()));
        for v in 0..slots - 1 {
            assert!(q.write(v));
            assert!(!(q.is_empty() && q.is_full()));
        }
        for _ in 0..slots - 1 {
            assert!(q.read().is_some());
            assert!(!(q.is_empty() && q.is_full()));
        }
    }
}

#[test]
fn drain_completeness() {
    // After writing k <= capacity values, read_all returns exactly those k
    // values in write order and leaves the queue empty.
    let mut q: Spsc<u32> = Spsc::new(5);
    q.write_all(vec![7, 8, 9]);
    assert_eq!(q.size_guess(), 3);
    let out = q.read_all();
    assert_eq!(out, vec![7, 8, 9]);
    assert!(q.is_empty());
    assert_eq!(q.size_guess(), 0);
}

#[test]
fn write_all_stops_at_full() {
    // A batch larger than the free room stores only what fits; the rest is
    // dropped silently and the stored prefix keeps its order.
    let mut q: Spsc<u32> = Spsc::new(4);
    assert!(q.write(1));
    q.write_all(vec![2, 3, 4, 5, 6]);
    assert!(q.is_full());
    assert_eq!(q.read_all(), vec![1, 2, 3]);
}

#[test]
fn peek_pop_consistency() {
    // front_ptr exposes the same element that a read would return and that
    // pop_front then discards.
    let mut q: Spsc<u32> = Spsc::new(4);
    assert!(q.write(41));
    assert!(q.write(42));
    let peeked = *q.front_ptr().expect("non-empty queue must expose a front");
    let mut twin: Spsc<u32> = Spsc::new(4);
    assert!(twin.write(41));
    assert!(twin.write(42));
    assert_eq!(twin.read(), Some(peeked));
    q.pop_front();
    assert_eq!(q.read(), Some(42));
    assert_eq!(twin.read(), Some(42));
}

#[test]
fn peek_mutates_in_place() {
    // The reference front_ptr loans out writes through to the stored
    // element: a later read returns the updated value.
    let mut q: Spsc<u32> = Spsc::new(3);
    assert!(q.write(5));
    if let Some(p) = q.front_ptr() {
        *p = 50;
    } else {
        panic!("queue was not empty");
    }
    assert_eq!(q.size_guess(), 1);
    assert_eq!(q.read(), Some(50));
}

#[test]
fn front_ptr_empty() {
    let mut q: Spsc<u32> = Spsc::new(3);
    assert!(q.front_ptr().is_none());
    assert!(q.read().is_none());
    assert!(q.is_empty());
    assert_eq!(q.size_guess(), 0);
}

#[test]
fn wraparound_keeps_order() {
    // Drive the cursors past the end of storage several times and check
    // that order and size stay exact across the wrap.
    let mut q: Spsc<u32> = Spsc::new(4);
    assert!(q.write(0));
    assert!(q.write(1));
    assert!(q.write(2));
    assert_eq!(q.read(), Some(0));
    assert_eq!(q.read(), Some(1));
    assert!(q.write(3));
    assert!(q.write(4));
    assert_eq!(q.size_guess(), 3);
    assert_eq!(q.read_all(), vec![2, 3, 4]);
}

#[test]
fn stress_monotonic_single_thread() {
    // A single-threaded stand-in for the producer/consumer stress run:
    // 200_000 increasing values through a 1024-slot queue, the producer
    // retrying on full, the consumer checking strict increase with no gaps.
    let mut q: Spsc<u64> = Spsc::new(1024);
    let total: u64 = 200_000;
    let mut produced: u64 = 0;
    let mut expected: u64 = 0;
    while expected < total {
        while produced < total && q.write(produced) {
            produced += 1;
        }
        while let Some(v) = q.read() {
            assert_eq!(v, expected);
            expected += 1;
        }
    }
    assert!(q.is_empty());
    assert_eq!(produced, total);
}
