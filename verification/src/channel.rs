//! The handles: a sender that publishes, receivers that clone or borrow the latest value, and
//! borrows that outlive them both.

use crate::epoch::{EpochRegistry, ParticipantGuard};
use crate::garbage::{names, Retired};
use crate::heap::{is_live, Heap};
use crate::model::{reclaim, ChannelView};
use crate::slot::Slot;
use std::marker::PhantomData;
use vstd::prelude::*;

verus! {

/// The state that a sender, its receivers and their borrows share: the registry, the heap of
/// published values and the slot.
pub struct Channel<T> {
    registry: EpochRegistry,
    heap: Heap<T>,
    slot: Slot,
    open: bool,
}

impl<T> View for Channel<T> {
    type V = ChannelView<T>;

    closed spec fn view(&self) -> ChannelView<T> {
        ChannelView {
            registry: self.registry@,
            heap: self.heap@,
            slot: self.slot@,
            open: self.open,
        }
    }
}

/// Updates receivers with the newest value.
pub struct Sender<T> {
    _payload: PhantomData<T>,
}

/// Clones or borrows the newest value from the sender.
pub struct Receiver<T> {
    _payload: PhantomData<T>,
}

impl<T> Clone for Receiver<T> {
    /// Another receiver on the same channel.
    fn clone(&self) -> (receiver: Receiver<T>) {
        Receiver { _payload: PhantomData }
    }
}

/// A reference to the value that was current when it was borrowed. It holds a pin, and with
/// it the value, for as long as it lives.
pub struct Borrow<T> {
    guard: ParticipantGuard,
    ptr: usize,
    _payload: PhantomData<T>,
}

/// Builds a channel whose current value is `value`, with its sender and a receiver.
pub fn new<T>(value: T) -> (made: (Channel<T>, Sender<T>, Receiver<T>))
    ensures
        made.0@ == ChannelView::create(value),
        made.0@.wf(),
        made.0@.current() == Some(value),
{
    let mut heap = Heap::new();
    let ptr = heap.allocate(value);
    let channel = Channel { registry: EpochRegistry::new(), heap, slot: Slot::new(ptr), open: true };
    proof {
        ChannelView::lemma_create(value);
        assert(channel@.heap =~= seq![Some(value)]);
    }
    (channel, Sender { _payload: PhantomData }, Receiver { _payload: PhantomData })
}

/// Builds a channel that starts with no value, with its sender and a receiver.
pub fn empty<T>() -> (made: (Channel<T>, Sender<T>, Receiver<T>))
    ensures
        made.0@ == ChannelView::<T>::create_empty(),
        made.0@.wf(),
        made.0@.current() == None::<T>,
{
    let channel = Channel {
        registry: EpochRegistry::new(),
        heap: Heap::new(),
        slot: Slot::empty(),
        open: true,
    };
    proof {
        assert(channel@.retired() =~= Seq::empty());
    }
    (channel, Sender { _payload: PhantomData }, Receiver { _payload: PhantomData })
}

impl<T> Channel<T> {
    /// Whether the sender has not been closed.
    pub fn is_open(&self) -> (open: bool)
        ensures
            open == self@.open,
    {
        self.open
    }

    /// The global epoch.
    pub fn epoch(&self) -> (epoch: u64)
        ensures
            epoch == self@.registry.epoch,
    {
        self.registry.epoch()
    }

    /// Tries to move the global epoch one step; says whether it moved.
    pub fn try_advance(&mut self) -> (advanced: bool)
        requires
            old(self)@.wf(),
        ensures
            advanced == old(self)@.registry.can_advance(),
            final(self)@ == old(self)@.try_advance(),
            old(self)@.evolves(final(self)@, Set::empty()),
            old(self)@.same_current(final(self)@),
    {
        proof {
            self@.lemma_try_advance();
        }
        self.registry.try_advance()
    }

    /// Frees every value that was retired two or more epochs before the global epoch; says
    /// how many entries that were.
    pub fn collect(&mut self) -> (freed: usize)
        requires
            old(self)@.wf(),
        ensures
            freed == old(self)@.registry.garbage.expired.len(),
            final(self)@ == old(self)@.collect(),
            old(self)@.evolves(final(self)@, Set::empty()),
            old(self)@.same_current(final(self)@),
    {
        proof {
            self@.lemma_collect();
        }
        let expired: Vec<Retired> = self.registry.collect();
        let mut k: usize = 0;
        while k < expired.len()
            invariant
                k <= expired.len(),
                self.registry@ == old(self)@.registry.collect(),
                self.slot@ == old(self).slot@,
                self.open == old(self).open,
                self.heap@ == reclaim(old(self).heap@, expired@.take(k as int)),
            decreases expired.len() - k,
        {
            let ghost before = self.heap@;
            self.heap.free(expired[k].ptr);
            proof {
                let done = expired@.take(k as int);
                let more = expired@.take(k + 1);
                let base = old(self).heap@;
                assert forall|p: int| 0 <= p < base.len() implies #[trigger] self.heap@[p]
                    == reclaim(base, more)[p] by {
                    if names(done, p) {
                        let j = choose|j: int| 0 <= j < done.len() && (#[trigger] done[j]).ptr == p;
                        assert(more[j].ptr == p);
                    } else if expired@[k as int].ptr == p {
                        assert(more[k as int].ptr == p);
                    } else if names(more, p) {
                        let j = choose|j: int| 0 <= j < more.len() && (#[trigger] more[j]).ptr == p;
                        assert(done[j].ptr == p);
                    }
                }
                assert(self.heap@ =~= reclaim(base, more));
            }
            k += 1;
        }
        proof {
            assert(expired@.take(expired.len() as int) =~= expired@);
        }
        expired.len()
    }

    /// Runs one round of reclamation: an attempt to move the global epoch, then a
    /// collection. Says how many entries were freed.
    pub fn reclaim_round(&mut self) -> (freed: usize)
        requires
            old(self)@.wf(),
        ensures
            freed == old(self)@.try_advance().registry.garbage.expired.len(),
            final(self)@ == old(self)@.reclaim_round(),
            old(self)@.evolves(final(self)@, Set::empty()),
            old(self)@.same_current(final(self)@),
    {
        proof {
            self@.lemma_reclaim_round();
        }
        self.try_advance();
        self.collect()
    }

    /// Whether the cell at `ptr` is allocated: handed out and not freed.
    pub fn is_allocated(&self, ptr: usize) -> (live: bool)
        ensures
            live == is_live(self@.heap, ptr as int),
    {
        self.heap.get(ptr).is_some()
    }
}

impl<T> Sender<T> {
    /// Publishes `value`: it becomes the current value, the value it replaces is retired at
    /// the global epoch, and one round of reclamation runs.
    pub fn send(&mut self, channel: &mut Channel<T>, value: T)
        requires
            old(channel)@.wf(),
            old(channel)@.open,
        ensures
            final(channel)@ == old(channel)@.send(value),
            final(channel)@.current() == Some(value),
            final(channel)@.open,
            old(channel)@.evolves(final(channel)@, Set::empty()),
    {
        let ghost before = channel@;
        let ptr = channel.heap.allocate(value);
        let old_ptr = channel.slot.swap(ptr);
        match old_ptr {
            Some(old) => {
                let epoch = channel.registry.epoch();
                channel.registry.retire(old, epoch);
            },
            None => {},
        }
        proof {
            before.lemma_publish(value);
            assert(channel@ == before.publish(value));
            channel@.lemma_reclaim_round();
            before.lemma_evolves_trans(channel@, channel@.reclaim_round(), Set::empty());
        }
        channel.reclaim_round();
    }

    /// Closes the sender: the slot is emptied for good, the value it held is retired at the
    /// global epoch, and two rounds of reclamation run.
    pub fn close(self, channel: &mut Channel<T>)
        requires
            old(channel)@.wf(),
        ensures
            final(channel)@ == old(channel)@.close(),
            final(channel)@.slot == None::<usize>,
            !final(channel)@.open,
            old(channel)@.evolves(final(channel)@, Set::empty()),
    {
        let ghost before = channel@;
        let old_ptr = channel.slot.swap_to_empty();
        channel.open = false;
        match old_ptr {
            Some(old) => {
                let epoch = channel.registry.epoch();
                channel.registry.retire(old, epoch);
            },
            None => {},
        }
        proof {
            before.lemma_withdraw();
            assert(channel@ == before.withdraw());
            let first = channel@.reclaim_round();
            channel@.lemma_reclaim_round();
            first.lemma_reclaim_round();
            channel@.lemma_evolves_trans(first, first.reclaim_round(), Set::empty());
            before.lemma_evolves_trans(channel@, first.reclaim_round(), Set::empty());
        }
        channel.reclaim_round();
        channel.reclaim_round();
    }
}

impl<T> Receiver<T> {
    /// Borrows the current value. With a current value the borrow holds a pin that protects
    /// it; without one there is no borrow and no pin is left.
    pub fn borrow(&self, channel: &mut Channel<T>) -> (borrowed: Option<Borrow<T>>)
        requires
            old(channel)@.wf(),
        ensures
            final(channel)@ == old(channel)@.borrow(),
            old(channel)@.evolves(final(channel)@, Set::empty()),
            old(channel)@.same_current(final(channel)@),
            match borrowed {
                Some(b) => {
                    &&& old(channel)@.slot == Some(b.ptr())
                    &&& b.id() == old(channel)@.registry.free_slot()
                    &&& !old(channel)@.registry.is_pinned(b.id())
                    &&& final(channel)@.protects(b.id(), b.ptr())
                },
                None => old(channel)@.slot == None::<usize>,
            },
    {
        proof {
            channel@.lemma_borrow();
        }
        let guard = channel.registry.pin();
        match channel.slot.load(&guard) {
            Some(ptr) => Some(Borrow { guard, ptr, _payload: PhantomData }),
            None => {
                channel.registry.unpin(guard);
                None
            },
        }
    }
}

impl<T: Clone> Receiver<T> {
    /// Clones the current value, under a pin that ends before the call returns. `None`
    /// exactly when there is no current value.
    pub fn recv(&self, channel: &mut Channel<T>) -> (value: Option<T>)
        requires
            old(channel)@.wf(),
        ensures
            final(channel)@ == old(channel)@.recv(),
            old(channel)@.evolves(final(channel)@, Set::empty()),
            old(channel)@.same_current(final(channel)@),
            match value {
                Some(v) => old(channel)@.current() matches Some(c) && cloned(c, v),
                None => old(channel)@.current() == None::<T>,
            },
    {
        proof {
            channel@.lemma_recv();
        }
        let guard = channel.registry.pin();
        let value = match channel.slot.load(&guard) {
            Some(ptr) => match channel.heap.get(ptr) {
                Some(current) => Some(current.clone()),
                None => None,
            },
            None => None,
        };
        channel.registry.unpin(guard);
        value
    }
}

impl<T> Borrow<T> {
    /// The participant record whose pin this borrow holds.
    pub closed spec fn id(&self) -> int {
        self.guard.id()
    }

    /// The address of the borrowed value.
    pub closed spec fn ptr(&self) -> usize {
        self.ptr
    }

    /// The borrowed value: the one that was current when the borrow was made, whatever has
    /// been sent or closed since.
    pub fn deref<'a>(&self, channel: &'a Channel<T>) -> (value: &'a T)
        requires
            channel@.wf(),
            channel@.protects(self.id(), self.ptr()),
        ensures
            channel@.heap[self.ptr() as int] == Some(*value),
    {
        channel.heap.get(self.ptr).unwrap()
    }

    /// Ends the borrow: its pin ends, and with it the protection of the borrowed value.
    pub fn release(self, channel: &mut Channel<T>)
        requires
            old(channel)@.wf(),
        ensures
            final(channel)@ == old(channel)@.unpin(self.id()),
            !final(channel)@.registry.is_pinned(self.id()),
            old(channel)@.evolves(final(channel)@, set![self.id()]),
            old(channel)@.same_current(final(channel)@),
    {
        proof {
            channel@.lemma_unpin(self.guard.id());
        }
        channel.registry.unpin(self.guard);
    }
}

} // verus!
