use genzero::epoch::EpochRegistry;
use genzero::garbage::{GarbageQueue, Retired};
use genzero::heap::Heap;
use genzero::slot::Slot;

#[test]
fn pin_takes_the_first_free_record() {
    let mut registry = EpochRegistry::new();
    let a = registry.pin();
    let b = registry.pin();
    let c = registry.pin();
    assert_eq!(a.index(), 0);
    assert_eq!(b.index(), 1);
    assert_eq!(c.index(), 2);
    registry.unpin(b);
    let d = registry.pin();
    assert_eq!(d.index(), 1);
    registry.unpin(a);
    registry.unpin(c);
    let e = registry.pin();
    assert_eq!(e.index(), 0);
    registry.unpin(d);
    registry.unpin(e);
}

#[test]
fn epoch_moves_only_when_every_pin_has_seen_it() {
    let mut registry = EpochRegistry::new();
    assert_eq!(registry.epoch(), 0);
    assert!(registry.can_advance());
    assert!(registry.try_advance());
    assert_eq!(registry.epoch(), 1);

    let guard = registry.pin();
    assert!(registry.can_advance());
    assert!(registry.try_advance());
    assert_eq!(registry.epoch(), 2);
    assert!(!registry.can_advance());
    assert!(!registry.try_advance());
    assert_eq!(registry.epoch(), 2);

    registry.unpin(guard);
    assert!(registry.try_advance());
    assert_eq!(registry.epoch(), 3);
}

#[test]
fn a_fresh_pin_does_not_hold_the_epoch_back() {
    let mut registry = EpochRegistry::new();
    let old = registry.pin();
    assert!(registry.try_advance());
    let fresh = registry.pin();
    assert!(!registry.try_advance());
    registry.unpin(old);
    assert!(registry.try_advance());
    assert_eq!(registry.epoch(), 2);
    registry.unpin(fresh);
}

#[test]
fn collect_hands_out_what_is_two_epochs_old() {
    let mut registry = EpochRegistry::new();
    registry.retire(10, 0);
    registry.retire(11, 0);
    assert!(registry.collect().is_empty());

    assert!(registry.try_advance());
    registry.retire(12, 1);
    registry.retire(13, 0);
    assert!(registry.collect().is_empty());

    assert!(registry.try_advance());
    let expired = registry.collect();
    assert_eq!(
        expired,
        vec![
            Retired { ptr: 10, epoch: 0 },
            Retired { ptr: 11, epoch: 0 },
            Retired { ptr: 13, epoch: 0 },
        ]
    );
    assert!(registry.collect().is_empty());

    assert!(registry.try_advance());
    assert_eq!(registry.collect(), vec![Retired { ptr: 12, epoch: 1 }]);
}

#[test]
fn retire_into_the_oldest_bag_is_collected_at_once() {
    let mut registry = EpochRegistry::new();
    assert!(registry.try_advance());
    assert!(registry.try_advance());
    assert!(registry.try_advance());
    registry.retire(4, 1);
    registry.retire(5, 0);
    assert_eq!(
        registry.collect(),
        vec![Retired { ptr: 4, epoch: 1 }, Retired { ptr: 5, epoch: 0 }]
    );
}

#[test]
fn unpin_of_an_unknown_guard_changes_nothing() {
    let mut one = EpochRegistry::new();
    let mut other = EpochRegistry::new();
    let a = one.pin();
    let b = one.pin();
    assert_eq!(b.index(), 1);
    other.unpin(b);
    assert!(other.try_advance());
    assert!(one.try_advance());
    assert!(!one.try_advance());
    one.unpin(a);
    assert!(!one.try_advance());
}

#[test]
fn garbage_queue_ages_its_bags() {
    let mut queue = GarbageQueue::new();
    assert!(queue.is_empty());
    queue.retire(1, 5, 5);
    queue.retire(2, 4, 5);
    queue.retire(3, 3, 5);
    assert!(!queue.is_empty());
    assert_eq!(queue.take_expired(), vec![Retired { ptr: 3, epoch: 3 }]);
    assert!(queue.take_expired().is_empty());
    queue.rotate();
    assert_eq!(queue.take_expired(), vec![Retired { ptr: 2, epoch: 4 }]);
    queue.rotate();
    assert_eq!(queue.take_expired(), vec![Retired { ptr: 1, epoch: 5 }]);
    assert!(queue.is_empty());
}

#[test]
fn heap_hands_out_each_address_once() {
    let mut heap: Heap<String> = Heap::new();
    assert_eq!(heap.len(), 0);
    assert_eq!(heap.get(0), None);
    assert_eq!(heap.allocate(String::from("a")), 0);
    assert_eq!(heap.allocate(String::from("b")), 1);
    assert_eq!(heap.get(0), Some(&String::from("a")));
    heap.free(0);
    assert_eq!(heap.get(0), None);
    assert_eq!(heap.get(1), Some(&String::from("b")));
    assert_eq!(heap.allocate(String::from("c")), 2);
    heap.free(7);
    assert_eq!(heap.len(), 3);
    assert_eq!(heap.get(2), Some(&String::from("c")));
}

#[test]
fn slot_swaps_hand_back_what_was_held() {
    let mut registry = EpochRegistry::new();
    let guard = registry.pin();
    let mut slot = Slot::empty();
    assert_eq!(slot.load(&guard), None);
    assert_eq!(slot.swap(3), None);
    assert_eq!(slot.load(&guard), Some(3));
    assert_eq!(slot.swap(4), Some(3));
    assert_eq!(slot.swap_to_empty(), Some(4));
    assert_eq!(slot.load(&guard), None);
    assert_eq!(slot.swap_to_empty(), None);
    let held = Slot::new(9);
    assert_eq!(held.load(&guard), Some(9));
    registry.unpin(guard);
}
