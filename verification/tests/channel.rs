use genzero::{empty, new};

#[test]
fn single_thread_reader_writer() {
    let (mut ch, mut tx, rx) = new::<u32>(8);

    assert_eq!(rx.recv(&mut ch), Some(8));

    tx.send(&mut ch, 10);
    assert_eq!(rx.recv(&mut ch), Some(10));
}

#[test]
fn empty_after_drop() {
    let (mut ch, tx, rx) = new::<u32>(42);
    assert_eq!(rx.recv(&mut ch), Some(42));
    tx.close(&mut ch);
    assert_eq!(rx.recv(&mut ch), None);
}

#[test]
fn borrow_after_drop() {
    let (mut ch, tx, rx) = new::<u32>(42);
    let b = match rx.borrow(&mut ch) {
        Some(s) => s,
        None => panic!("Empty borrow after init"),
    };

    tx.close(&mut ch);
    assert_eq!(rx.recv(&mut ch), None);

    assert_eq!(*b.deref(&ch), 42);
}

#[test]
fn starts_empty_then_sends_then_closes() {
    let (mut ch, mut tx, rx) = empty::<u32>();
    assert_eq!(rx.recv(&mut ch), None);
    assert!(rx.borrow(&mut ch).is_none());

    tx.send(&mut ch, 10);
    assert_eq!(rx.recv(&mut ch), Some(10));

    tx.close(&mut ch);
    assert_eq!(rx.recv(&mut ch), None);
    assert!(rx.borrow(&mut ch).is_none());
    assert!(!ch.is_open());
}

#[test]
fn last_of_many_sends_is_received() {
    let (mut ch, mut tx, rx) = empty::<u64>();
    for v in 1..=200u64 {
        tx.send(&mut ch, v);
    }
    assert_eq!(rx.recv(&mut ch), Some(200));
    assert_eq!(rx.recv(&mut ch), Some(200));
}

#[test]
fn every_receiver_sees_the_same_value() {
    let (mut ch, mut tx, rx) = new::<String>(String::from("first"));
    let other = rx.clone();
    assert_eq!(rx.recv(&mut ch), Some(String::from("first")));
    assert_eq!(other.recv(&mut ch), Some(String::from("first")));
    tx.send(&mut ch, String::from("second"));
    assert_eq!(other.recv(&mut ch), Some(String::from("second")));
    assert_eq!(rx.recv(&mut ch), Some(String::from("second")));
}

#[test]
fn borrow_survives_sends_close_and_receivers() {
    let (mut ch, mut tx, rx) = new::<u32>(42);
    let b = rx.borrow(&mut ch).expect("a value was there");
    assert_eq!(*b.deref(&ch), 42);

    for v in 0..100u32 {
        tx.send(&mut ch, v);
        assert_eq!(*b.deref(&ch), 42);
    }
    assert_eq!(rx.recv(&mut ch), Some(99));

    tx.close(&mut ch);
    assert_eq!(*b.deref(&ch), 42);
    assert_eq!(rx.recv(&mut ch), None);

    drop(rx);
    assert_eq!(*b.deref(&ch), 42);
    b.release(&mut ch);
}

#[test]
fn two_borrows_keep_their_own_snapshots() {
    let (mut ch, mut tx, rx) = new::<u32>(1);
    let first = rx.borrow(&mut ch).expect("a value was there");
    tx.send(&mut ch, 2);
    let second = rx.borrow(&mut ch).expect("a value was there");
    tx.send(&mut ch, 3);
    assert_eq!(*first.deref(&ch), 1);
    assert_eq!(*second.deref(&ch), 2);
    first.release(&mut ch);
    assert_eq!(*second.deref(&ch), 2);
    assert_eq!(rx.recv(&mut ch), Some(3));
    second.release(&mut ch);
}

#[test]
fn writer_counts_to_fifty_while_a_reader_polls() {
    let (mut ch, mut tx, rx) = new::<u32>(0);
    let mut seen: u32 = 0;
    let mut count: u32 = 0;
    for round in 0..50u32 {
        count += 1;
        tx.send(&mut ch, count);
        if round % 3 == 0 {
            let v = rx.recv(&mut ch).expect("the sender is still there");
            assert!(v >= seen);
            assert!(v <= count);
            seen = v;
        }
    }
    assert_eq!(rx.recv(&mut ch), Some(50));
}

#[test]
fn writer_counts_to_fifty_while_a_reader_borrows() {
    let (mut ch, mut tx, rx) = new::<u32>(0);
    let mut seen: u32 = 0;
    let mut count: u32 = 0;
    for round in 0..50u32 {
        count += 1;
        tx.send(&mut ch, count);
        if round % 7 == 0 {
            let b = rx.borrow(&mut ch).expect("the sender is still there");
            let v = *b.deref(&ch);
            assert!(v >= seen);
            assert!(v <= count);
            seen = v;
            b.release(&mut ch);
        }
    }
    let last = rx.borrow(&mut ch).expect("the sender is still there");
    assert_eq!(*last.deref(&ch), 50);
    last.release(&mut ch);
}

#[test]
fn replaced_values_are_freed_after_two_epochs() {
    let (mut ch, mut tx, _rx) = new::<u32>(1);
    assert!(ch.is_allocated(0));
    assert_eq!(ch.epoch(), 0);

    // Sending retires address 0 at epoch 0; the round that follows moves to epoch 1.
    tx.send(&mut ch, 2);
    assert_eq!(ch.epoch(), 1);
    assert!(ch.is_allocated(0));
    assert!(ch.is_allocated(1));

    // The next round moves to epoch 2: two steps past the retirement.
    tx.send(&mut ch, 3);
    assert_eq!(ch.epoch(), 2);
    assert!(!ch.is_allocated(0));
    assert!(ch.is_allocated(1));
    assert!(ch.is_allocated(2));
}

#[test]
fn borrowed_value_is_freed_only_after_release() {
    let (mut ch, mut tx, rx) = new::<u32>(1);
    let b = rx.borrow(&mut ch).expect("a value was there");
    for v in 2..20u32 {
        tx.send(&mut ch, v);
    }
    // The pin saw epoch 0, so the epoch moved once and then stood still.
    assert_eq!(ch.epoch(), 1);
    assert!(ch.is_allocated(0));
    assert_eq!(*b.deref(&ch), 1);

    b.release(&mut ch);
    assert!(ch.is_allocated(0));
    assert_eq!(ch.reclaim_round(), 1);
    assert!(!ch.is_allocated(0));
    assert_eq!(ch.reclaim_round(), 17);
    assert!(ch.is_allocated(18));
    assert_eq!(rx.recv(&mut ch), Some(19));
}

#[test]
fn close_frees_everything_when_nothing_is_pinned() {
    let (mut ch, mut tx, rx) = new::<u32>(1);
    tx.send(&mut ch, 2);
    tx.send(&mut ch, 3);
    tx.close(&mut ch);
    assert!(!ch.is_allocated(0));
    assert!(!ch.is_allocated(1));
    assert!(!ch.is_allocated(2));
    assert!(!ch.is_allocated(3));
    assert_eq!(rx.recv(&mut ch), None);
}

#[test]
fn close_leaves_a_borrowed_value_allocated() {
    let (mut ch, tx, rx) = new::<u32>(7);
    let b = rx.borrow(&mut ch).expect("a value was there");
    tx.close(&mut ch);
    assert!(ch.is_allocated(0));
    assert_eq!(*b.deref(&ch), 7);
    b.release(&mut ch);
    ch.reclaim_round();
    ch.reclaim_round();
    assert!(!ch.is_allocated(0));
}

#[test]
fn try_advance_waits_for_a_lagging_pin() {
    let (mut ch, _tx, rx) = new::<u32>(5);
    let b = rx.borrow(&mut ch).expect("a value was there");
    assert!(ch.try_advance());
    assert_eq!(ch.epoch(), 1);
    assert!(!ch.try_advance());
    assert_eq!(ch.epoch(), 1);
    b.release(&mut ch);
    assert!(ch.try_advance());
    assert_eq!(ch.epoch(), 2);
    assert_eq!(ch.collect(), 0);
}
