//! The channel as a state machine: what a channel holds, how each operation changes it, and
//! what every change keeps.

use crate::epoch::RegistryView;
use crate::garbage::{names, Retired};
use crate::heap::is_live;
use vstd::prelude::*;

verus! {

/// The heap after every address named by `dead` was freed.
pub open spec fn reclaim<T>(heap: Seq<Option<T>>, dead: Seq<Retired>) -> Seq<Option<T>> {
    Seq::new(
        heap.len(),
        |p: int|
            if names(dead, p) {
                None
            } else {
                heap[p]
            },
    )
}

/// What a channel holds: the registry, the heap of published values, the slot, and whether
/// the sender is still there.
pub struct ChannelView<T> {
    pub registry: RegistryView,
    pub heap: Seq<Option<T>>,
    pub slot: Option<usize>,
    pub open: bool,
}

impl<T> ChannelView<T> {
    /// A new channel whose current value is `value`.
    pub open spec fn create(value: T) -> ChannelView<T> {
        ChannelView {
            registry: RegistryView::new(),
            heap: seq![Some(value)],
            slot: Some(0usize),
            open: true,
        }
    }

    /// A new channel with no current value.
    pub open spec fn create_empty() -> ChannelView<T> {
        ChannelView {
            registry: RegistryView::new(),
            heap: Seq::empty(),
            slot: None,
            open: true,
        }
    }

    /// Every retired address that has not been reclaimed, oldest first.
    pub open spec fn retired(self) -> Seq<Retired> {
        self.registry.garbage.all()
    }

    /// The value that a reader observes now.
    pub open spec fn current(self) -> Option<T> {
        match self.slot {
            Some(p) => if p < self.heap.len() {
                self.heap[p as int]
            } else {
                None
            },
            None => None,
        }
    }

    /// The registry is well formed; a closed channel is empty; the slot and every retired
    /// entry address an allocated cell; no address is retired twice or while it is current;
    /// and every allocated cell is either current or retired.
    pub open spec fn wf(self) -> bool {
        &&& self.registry.wf()
        &&& self.heap.len() <= usize::MAX
        &&& !self.open ==> self.slot is None
        &&& self.slot matches Some(p) ==> is_live(self.heap, p as int)
        &&& forall|k: int|
            0 <= k < self.retired().len() ==> is_live(
                self.heap,
                (#[trigger] self.retired()[k]).ptr as int,
            ) && self.slot != Some(self.retired()[k].ptr)
        &&& forall|j: int, k: int|
            0 <= j < k < self.retired().len() ==> (#[trigger] self.retired()[j]).ptr != (
            #[trigger] self.retired()[k]).ptr
        &&& forall|p: int| #[trigger]
            is_live(self.heap, p) ==> self.slot == Some(p as usize) || names(self.retired(), p)
    }

    /// Whether the pin on participant record `id` keeps the value at `ptr` from being freed:
    /// the record is pinned, and the address is current or was retired no earlier than the
    /// epoch the pin saw.
    pub open spec fn protects(self, id: int, ptr: usize) -> bool {
        &&& self.registry.is_pinned(id)
        &&& (self.slot == Some(ptr) || exists|k: int|
            0 <= k < self.retired().len() && (#[trigger] self.retired()[k]).ptr == ptr
                && self.retired()[k].epoch >= self.registry.participants[id].local_epoch)
    }

    /// How a later state `next` relates to this one, where of all pins only those on the
    /// records in `released` may have ended in between: `next` is well formed; no address
    /// was taken back; an allocated cell holds the value it was given; a closed channel
    /// stayed closed; the slot holds what it held or an address handed out since; and every
    /// address that a pin outside `released` protected is still protected, with its value.
    pub open spec fn evolves(self, next: ChannelView<T>, released: Set<int>) -> bool {
        &&& next.wf()
        &&& next.heap.len() >= self.heap.len()
        &&& forall|p: int|
            0 <= p < self.heap.len() && (#[trigger] next.heap[p]) is Some ==> next.heap[p]
                == self.heap[p]
        &&& next.open ==> self.open
        &&& next.slot matches Some(q) ==> self.slot == Some(q) || q >= self.heap.len()
        &&& forall|id: int, ptr: usize|
            !released.contains(id) && #[trigger] self.protects(id, ptr) ==> next.protects(
                id,
                ptr,
            ) && next.heap[ptr as int] == self.heap[ptr as int]
    }

    /// Whether `next` shows readers the same as this state: the same address in the slot,
    /// with the same value.
    pub open spec fn same_current(self, next: ChannelView<T>) -> bool {
        &&& next.slot == self.slot
        &&& next.open == self.open
        &&& next.current() == self.current()
    }

    /// The channel after `value` was published: it lies in a fresh cell, the slot holds that
    /// cell's address, and the address that the slot held is retired at the global epoch.
    pub open spec fn publish(self, value: T) -> ChannelView<T> {
        ChannelView {
            registry: match self.slot {
                Some(old) => self.registry.retire(old, self.registry.epoch as u64),
                None => self.registry,
            },
            heap: self.heap.push(Some(value)),
            slot: Some(self.heap.len() as usize),
            open: self.open,
        }
    }

    /// The channel after its sender withdrew: the slot is empty, the address that it held is
    /// retired at the global epoch, and the channel is closed.
    pub open spec fn withdraw(self) -> ChannelView<T> {
        ChannelView {
            registry: match self.slot {
                Some(old) => self.registry.retire(old, self.registry.epoch as u64),
                None => self.registry,
            },
            heap: self.heap,
            slot: None,
            open: false,
        }
    }

    /// The channel after an attempt to move the global epoch.
    pub open spec fn try_advance(self) -> ChannelView<T> {
        ChannelView { registry: self.registry.try_advance(), ..self }
    }

    /// The channel after every address in the oldest bag was freed.
    pub open spec fn collect(self) -> ChannelView<T> {
        ChannelView {
            registry: self.registry.collect(),
            heap: reclaim(self.heap, self.registry.garbage.expired),
            ..self
        }
    }

    /// The channel after one round of reclamation: an attempt to move the global epoch, then
    /// a collection.
    pub open spec fn reclaim_round(self) -> ChannelView<T> {
        self.try_advance().collect()
    }

    /// The channel after a pin was taken.
    pub open spec fn pin(self) -> ChannelView<T> {
        ChannelView { registry: self.registry.pin(), ..self }
    }

    /// The channel after the pin on record `id` ended.
    pub open spec fn unpin(self, id: int) -> ChannelView<T> {
        ChannelView { registry: self.registry.unpin(id), ..self }
    }

    /// The channel after `send(value)`: the value is published, then one round of
    /// reclamation runs.
    pub open spec fn send(self, value: T) -> ChannelView<T> {
        self.publish(value).reclaim_round()
    }

    /// The channel after its sender was closed: the sender withdraws, then two rounds of
    /// reclamation run.
    pub open spec fn close(self) -> ChannelView<T> {
        self.withdraw().reclaim_round().reclaim_round()
    }

    /// The channel after `recv()`: a pin was taken and ended.
    pub open spec fn recv(self) -> ChannelView<T> {
        self.pin().unpin(self.registry.free_slot())
    }

    /// The channel after `borrow()`: with a current value the pin stays; without one it has
    /// ended.
    pub open spec fn borrow(self) -> ChannelView<T> {
        if self.slot is Some {
            self.pin()
        } else {
            self.recv()
        }
    }
}

} // verus!

verus! {

impl<T> ChannelView<T> {
    /// A new channel, with or without a first value, is well formed.
    pub proof fn lemma_create(value: T)
        ensures
            Self::create(value).wf(),
            Self::create(value).current() == Some(value),
            Self::create_empty().wf(),
            Self::create_empty().current() == None::<T>,
    {
        let full = Self::create(value);
        let empty = Self::create_empty();
        assert(full.retired() =~= Seq::empty());
        assert(empty.retired() =~= Seq::empty());
    }

    /// A protected address is an allocated cell.
    pub proof fn lemma_protected_is_live(self, id: int, ptr: usize)
        requires
            self.wf(),
            self.protects(id, ptr),
        ensures
            is_live(self.heap, ptr as int),
    {
    }

    /// Protection carries over to a state with the same slot and the same retired entries,
    /// where the record is pinned at no later an epoch.
    pub proof fn lemma_protection_carries(self, next: ChannelView<T>, id: int, ptr: usize)
        requires
            self.protects(id, ptr),
            next.slot == self.slot,
            next.retired() == self.retired(),
            next.registry.is_pinned(id),
            next.registry.participants[id].local_epoch
                <= self.registry.participants[id].local_epoch,
        ensures
            next.protects(id, ptr),
    {
        if self.slot != Some(ptr) {
            let k = choose|k: int|
                0 <= k < self.retired().len() && (#[trigger] self.retired()[k]).ptr == ptr
                    && self.retired()[k].epoch >= self.registry.participants[id].local_epoch;
            assert(next.retired()[k] == self.retired()[k]);
        }
    }

    /// Publishing shows the new value to readers, retires the old address without freeing
    /// anything, and ends no protection.
    pub proof fn lemma_publish(self, value: T)
        requires
            self.wf(),
            self.open,
            self.heap.len() < usize::MAX,
        ensures
            self.evolves(self.publish(value), Set::empty()),
            self.publish(value).current() == Some(value),
            self.publish(value).slot == Some(self.heap.len() as usize),
            self.publish(value).open,
    {
        let next = self.publish(value);
        let fresh = self.heap.len() as usize;
        let all = self.retired();
        match self.slot {
            Some(old) => {
                let entry = Retired { ptr: old, epoch: self.registry.epoch as u64 };
                self.registry.lemma_retire(old, self.registry.epoch as u64);
                assert(next.retired() == all.push(entry));
                assert forall|p: int| #[trigger] is_live(next.heap, p) implies next.slot == Some(
                    p as usize,
                ) || names(next.retired(), p) by {
                    if p != fresh {
                        assert(is_live(self.heap, p));
                        if self.slot == Some(p as usize) {
                            assert(next.retired()[all.len() as int].ptr == p);
                        } else {
                            let k = choose|k: int| 0 <= k < all.len() && (#[trigger] all[k]).ptr == p;
                            assert(next.retired()[k].ptr == p);
                        }
                    }
                }
                assert forall|id: int, ptr: usize| #[trigger] self.protects(id, ptr) implies next.protects(
                    id,
                    ptr,
                ) && next.heap[ptr as int] == self.heap[ptr as int] by {
                    if self.slot == Some(ptr) {
                        assert(next.retired()[all.len() as int] == entry);
                    } else {
                        let k = choose|k: int|
                            0 <= k < all.len() && (#[trigger] all[k]).ptr == ptr && all[k].epoch
                                >= self.registry.participants[id].local_epoch;
                        assert(next.retired()[k] == all[k]);
                    }
                }
            },
            None => {
                assert forall|p: int| #[trigger] is_live(next.heap, p) implies next.slot == Some(
                    p as usize,
                ) || names(next.retired(), p) by {
                    if p != fresh {
                        assert(is_live(self.heap, p));
                    }
                }
            },
        }
    }

    /// A send hands out exactly one address.
    pub proof fn lemma_send_grows(self, value: T)
        ensures
            self.send(value).heap.len() == self.heap.len() + 1,
    {
    }

    /// While no participant is pinned, a send leaves nothing waiting but what was retired at
    /// the epoch it started in: the value it replaced, and what the newest bag held.
    pub proof fn lemma_idle_send(self, value: T)
        requires
            self.wf(),
            self.registry.idle(),
            self.registry.epoch < u64::MAX,
        ensures
            self.send(value).registry.idle(),
            self.send(value).registry.epoch == self.registry.epoch + 1,
            self.send(value).registry.garbage.expired.len() == 0,
            self.send(value).registry.garbage.current.len() == 0,
            self.send(value).registry.garbage.previous.len() <= self.registry.garbage.current.len()
                + 1,
    {
        assert(self.publish(value).registry.can_advance());
    }

    /// The sender's withdrawal empties the slot for good, retires the old address without
    /// freeing anything, and ends no protection.
    pub proof fn lemma_withdraw(self)
        requires
            self.wf(),
        ensures
            self.evolves(self.withdraw(), Set::empty()),
            self.withdraw().slot == None::<usize>,
            !self.withdraw().open,
    {
        let next = self.withdraw();
        let all = self.retired();
        match self.slot {
            Some(old) => {
                let entry = Retired { ptr: old, epoch: self.registry.epoch as u64 };
                self.registry.lemma_retire(old, self.registry.epoch as u64);
                assert(next.retired() == all.push(entry));
                assert forall|p: int| #[trigger] is_live(next.heap, p) implies names(
                    next.retired(),
                    p,
                ) by {
                    if self.slot == Some(p as usize) {
                        assert(next.retired()[all.len() as int].ptr == p);
                    } else {
                        let k = choose|k: int| 0 <= k < all.len() && (#[trigger] all[k]).ptr == p;
                        assert(next.retired()[k].ptr == p);
                    }
                }
                assert forall|id: int, ptr: usize| #[trigger] self.protects(id, ptr) implies next.protects(
                    id,
                    ptr,
                ) && next.heap[ptr as int] == self.heap[ptr as int] by {
                    if self.slot == Some(ptr) {
                        assert(next.retired()[all.len() as int] == entry);
                    } else {
                        let k = choose|k: int|
                            0 <= k < all.len() && (#[trigger] all[k]).ptr == ptr && all[k].epoch
                                >= self.registry.participants[id].local_epoch;
                        assert(next.retired()[k] == all[k]);
                    }
                }
            },
            None => {},
        }
    }

    /// An attempt to move the global epoch changes nothing that a reader sees and ends no
    /// protection.
    pub proof fn lemma_try_advance(self)
        requires
            self.wf(),
        ensures
            self.evolves(self.try_advance(), Set::empty()),
            self.same_current(self.try_advance()),
    {
        self.registry.lemma_try_advance();
        let next = self.try_advance();
        assert(next.retired() == self.retired());
        assert forall|id: int, ptr: usize| #[trigger] self.protects(id, ptr) implies next.protects(
            id,
            ptr,
        ) && next.heap[ptr as int] == self.heap[ptr as int] by {
            self.lemma_protection_carries(next, id, ptr);
        }
    }

    /// A collection frees only addresses that no pin protects and that the slot does not
    /// hold.
    pub proof fn lemma_collect(self)
        requires
            self.wf(),
        ensures
            self.evolves(self.collect(), Set::empty()),
            self.same_current(self.collect()),
    {
        let next = self.collect();
        let all = self.retired();
        let garbage = self.registry.garbage;
        let gone = garbage.expired.len() as int;
        assert(next.retired() =~= all.skip(gone));
        assert forall|k: int| 0 <= k < gone implies #[trigger] all[k] == garbage.expired[k] by {}
        assert forall|p: int| names(garbage.expired, p) implies exists|k: int|
            0 <= k < gone && (#[trigger] all[k]).ptr == p by {
            let k = choose|k: int| 0 <= k < gone && (#[trigger] garbage.expired[k]).ptr == p;
            assert(all[k].ptr == p);
        }
        assert forall|k: int| 0 <= k < next.retired().len() implies is_live(
            next.heap,
            (#[trigger] next.retired()[k]).ptr as int,
        ) && next.slot != Some(next.retired()[k].ptr) by {
            assert(next.retired()[k] == all[k + gone]);
            let p = all[k + gone].ptr as int;
            if names(garbage.expired, p) {
                let j = choose|j: int| 0 <= j < gone && (#[trigger] all[j]).ptr == p;
                assert(all[j].ptr != all[k + gone].ptr);
            }
        }
        assert forall|j: int, k: int| 0 <= j < k < next.retired().len() implies (
        #[trigger] next.retired()[j]).ptr != (#[trigger] next.retired()[k]).ptr by {
            assert(next.retired()[j] == all[j + gone]);
            assert(next.retired()[k] == all[k + gone]);
        }
        assert forall|p: int| #[trigger] is_live(next.heap, p) implies next.slot == Some(
            p as usize,
        ) || names(next.retired(), p) by {
            assert(is_live(self.heap, p));
            assert(!names(garbage.expired, p));
            if self.slot != Some(p as usize) {
                let k = choose|k: int| 0 <= k < all.len() && (#[trigger] all[k]).ptr == p;
                if k < gone {
                    assert(garbage.expired[k].ptr == p);
                }
                assert(next.retired()[k - gone].ptr == p);
            }
        }
        match self.slot {
            Some(p) => {
                if names(garbage.expired, p as int) {
                    let j = choose|j: int| 0 <= j < gone && (#[trigger] all[j]).ptr == p;
                    assert(self.slot != Some(all[j].ptr));
                }
            },
            None => {},
        }
        assert forall|id: int, ptr: usize| #[trigger] self.protects(id, ptr) implies next.protects(
            id,
            ptr,
        ) && next.heap[ptr as int] == self.heap[ptr as int] by {
            if self.slot == Some(ptr) {
            } else {
                let k = choose|k: int|
                    0 <= k < all.len() && (#[trigger] all[k]).ptr == ptr && all[k].epoch
                        >= self.registry.participants[id].local_epoch;
                if k < gone {
                    assert(garbage.expired[k].epoch + 2 <= self.registry.epoch);
                    assert(self.registry.participants[id].active);
                }
                assert(next.retired()[k - gone] == all[k]);
                if names(garbage.expired, ptr as int) {
                    let j = choose|j: int| 0 <= j < gone && (#[trigger] all[j]).ptr == ptr;
                    assert(all[j].ptr != all[k].ptr);
                }
            }
        }
    }

    /// A collection frees exactly the values that were retired two or more epochs before the
    /// global epoch: every other allocated cell stays allocated.
    pub proof fn lemma_collect_frees_expired(self, ptr: int)
        requires
            self.wf(),
            is_live(self.heap, ptr),
        ensures
            !is_live(self.collect().heap, ptr) <==> exists|k: int|
                0 <= k < self.retired().len() && (#[trigger] self.retired()[k]).ptr == ptr
                    && self.retired()[k].epoch + 2 <= self.registry.epoch,
    {
        let all = self.retired();
        let garbage = self.registry.garbage;
        let gone = garbage.expired.len() as int;
        assert forall|k: int| 0 <= k < gone implies #[trigger] all[k] == garbage.expired[k] by {}
        if names(garbage.expired, ptr) {
            let k = choose|k: int| 0 <= k < gone && (#[trigger] garbage.expired[k]).ptr == ptr;
            assert(all[k].ptr == ptr && all[k].epoch + 2 <= self.registry.epoch);
        }
        if exists|k: int|
            0 <= k < all.len() && (#[trigger] all[k]).ptr == ptr && all[k].epoch + 2
                <= self.registry.epoch {
            let k = choose|k: int|
                0 <= k < all.len() && (#[trigger] all[k]).ptr == ptr && all[k].epoch + 2
                    <= self.registry.epoch;
            assert(all.contains(all[k]));
            self.registry.lemma_expired(all[k]);
            let j = choose|j: int| 0 <= j < gone && garbage.expired[j] == all[k];
            assert(garbage.expired[j].ptr == ptr);
        }
    }

    /// One round of reclamation changes nothing that a reader sees and ends no protection.
    pub proof fn lemma_reclaim_round(self)
        requires
            self.wf(),
        ensures
            self.evolves(self.reclaim_round(), Set::empty()),
            self.same_current(self.reclaim_round()),
    {
        self.lemma_try_advance();
        self.try_advance().lemma_collect();
    }

    /// A pin changes nothing that a reader sees, ends no protection, and protects the
    /// address that the slot holds.
    pub proof fn lemma_pin(self)
        requires
            self.wf(),
        ensures
            self.evolves(self.pin(), Set::empty()),
            self.same_current(self.pin()),
            self.pin().registry.is_pinned(self.registry.free_slot()),
            !self.registry.is_pinned(self.registry.free_slot()),
            self.slot matches Some(p) ==> self.pin().protects(self.registry.free_slot(), p),
    {
        self.registry.lemma_pin();
        let next = self.pin();
        assert(next.retired() == self.retired());
        assert forall|id: int, ptr: usize| #[trigger] self.protects(id, ptr) implies next.protects(
            id,
            ptr,
        ) && next.heap[ptr as int] == self.heap[ptr as int] by {
            assert(next.registry.participants[id] == self.registry.participants[id]);
            self.lemma_protection_carries(next, id, ptr);
        }
    }

    /// The end of a pin changes nothing that a reader sees and ends no protection but that
    /// pin's own.
    pub proof fn lemma_unpin(self, id: int)
        requires
            self.wf(),
        ensures
            self.evolves(self.unpin(id), set![id]),
            self.same_current(self.unpin(id)),
            !self.unpin(id).registry.is_pinned(id),
    {
        self.registry.lemma_unpin(id);
        let next = self.unpin(id);
        assert(next.retired() == self.retired());
        assert forall|other: int, ptr: usize|
            !set![id].contains(other) && #[trigger] self.protects(other, ptr) implies next.protects(
            other,
            ptr,
        )
            && next.heap[ptr as int] == self.heap[ptr as int] by {
            assert(next.registry.participants[other] == self.registry.participants[other]);
            self.lemma_protection_carries(next, other, ptr);
        }
    }

    /// What holds from one state to a second and from the second to a third holds from the
    /// first to the third.
    pub proof fn lemma_evolves_trans(
        self,
        mid: ChannelView<T>,
        next: ChannelView<T>,
        released: Set<int>,
    )
        requires
            self.evolves(mid, released),
            mid.evolves(next, released),
        ensures
            self.evolves(next, released),
    {
        assert forall|id: int, ptr: usize|
            !released.contains(id) && #[trigger] self.protects(id, ptr) implies next.protects(
            id,
            ptr,
        ) && next.heap[ptr as int] == self.heap[ptr as int] by {
            assert(mid.protects(id, ptr));
        }
        assert forall|p: int|
            0 <= p < self.heap.len() && (#[trigger] next.heap[p]) is Some implies next.heap[p]
            == self.heap[p] by {
            assert(mid.heap[p] is Some);
        }
    }

    /// A pin that is taken and ended changes nothing that a reader sees and ends no
    /// protection.
    pub proof fn lemma_recv(self)
        requires
            self.wf(),
        ensures
            self.evolves(self.recv(), Set::empty()),
            self.same_current(self.recv()),
    {
        let id = self.registry.free_slot();
        self.lemma_pin();
        self.pin().lemma_unpin(id);
        self.lemma_evolves_weaken(self.pin(), Set::empty(), set![id]);
        self.lemma_evolves_trans(self.pin(), self.recv(), set![id]);
    }

    /// A borrow changes nothing that a reader sees and ends no protection; with a current
    /// value, the pin that it leaves protects that value's address.
    pub proof fn lemma_borrow(self)
        requires
            self.wf(),
        ensures
            self.evolves(self.borrow(), Set::empty()),
            self.same_current(self.borrow()),
            !self.registry.is_pinned(self.registry.free_slot()),
            self.slot matches Some(p) ==> self.borrow().protects(self.registry.free_slot(), p),
    {
        self.lemma_pin();
        self.lemma_recv();
    }

    /// What holds when few pins may have ended holds as well when more may have.
    pub proof fn lemma_evolves_weaken(self, next: ChannelView<T>, fewer: Set<int>, more: Set<int>)
        requires
            self.evolves(next, fewer),
            fewer.subset_of(more),
        ensures
            self.evolves(next, more),
    {
    }
}

} // verus!
