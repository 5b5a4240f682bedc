//! The epoch registry: the global epoch, the participants pinned against it, and the garbage
//! that waits for them.

use crate::garbage::{GarbageQueue, GarbageView, Retired};
use vstd::prelude::*;

verus! {

/// One participant's record: the global epoch it saw at its latest pin, and whether it is
/// pinned now.
#[derive(Clone, Copy, Debug, PartialEq, Eq, Structural)]
pub struct Participant {
    pub local_epoch: u64,
    pub active: bool,
}

/// The token of one pin. It names the participant record that the pin occupies.
pub struct ParticipantGuard {
    id: usize,
}

impl ParticipantGuard {
    /// The index of the participant record that this pin occupies.
    pub closed spec fn id(&self) -> int {
        self.id as int
    }

    /// The index of the participant record that this pin occupies.
    pub fn index(&self) -> (id: usize)
        ensures
            id == self.id(),
    {
        self.id
    }
}

/// The first index at or after `from` whose participant is not pinned; the length of `ps`
/// where there is none.
pub open spec fn first_inactive(ps: Seq<Participant>, from: int) -> int
    decreases ps.len() - from,
{
    if from < 0 || from >= ps.len() {
        ps.len() as int
    } else if !ps[from].active {
        from
    } else {
        first_inactive(ps, from + 1)
    }
}

/// `first_inactive` finds a record that is not pinned, passes over pinned ones only, and
/// answers with the length when every record from `from` on is pinned.
pub proof fn lemma_first_inactive(ps: Seq<Participant>, from: int)
    requires
        0 <= from <= ps.len(),
    ensures
        from <= first_inactive(ps, from) <= ps.len(),
        first_inactive(ps, from) < ps.len() ==> !ps[first_inactive(ps, from)].active,
        forall|j: int| from <= j < first_inactive(ps, from) ==> (#[trigger] ps[j]).active,
    decreases ps.len() - from,
{
    if from < ps.len() && ps[from].active {
        lemma_first_inactive(ps, from + 1);
    }
}

/// What an epoch registry holds.
pub struct RegistryView {
    /// The global epoch.
    pub epoch: nat,
    /// The participant records, by index.
    pub participants: Seq<Participant>,
    /// The retired addresses that have not been reclaimed.
    pub garbage: GarbageView,
}

impl RegistryView {
    /// The registry at epoch 0, with no participant and no garbage.
    pub open spec fn new() -> RegistryView {
        RegistryView { epoch: 0, participants: Seq::empty(), garbage: GarbageView::empty() }
    }

    /// No participant is ahead of the global epoch, a pinned one is at most one step behind
    /// it, and every retired address lies in the bag of its age.
    pub open spec fn wf(self) -> bool {
        &&& self.epoch <= u64::MAX
        &&& forall|i: int|
            0 <= i < self.participants.len() ==> (#[trigger] self.participants[i]).local_epoch
                <= self.epoch
        &&& forall|i: int|
            0 <= i < self.participants.len() && (#[trigger] self.participants[i]).active
                ==> self.participants[i].local_epoch + 1 >= self.epoch
        &&& self.garbage.wf(self.epoch)
    }

    /// Whether the participant record `id` exists and is pinned.
    pub open spec fn is_pinned(self, id: int) -> bool {
        0 <= id < self.participants.len() && self.participants[id].active
    }

    /// Whether no participant is pinned.
    pub open spec fn idle(self) -> bool {
        forall|i: int| 0 <= i < self.participants.len() ==> !(#[trigger] self.participants[i]).active
    }

    /// The record that the next pin occupies: the first one that is not pinned, or a new one
    /// behind the last.
    pub open spec fn free_slot(self) -> int {
        first_inactive(self.participants, 0)
    }

    /// The registry after a pin: the free record is pinned at the global epoch.
    pub open spec fn pin(self) -> RegistryView {
        let fresh = Participant { local_epoch: self.epoch as u64, active: true };
        let id = self.free_slot();
        if id < self.participants.len() {
            RegistryView { participants: self.participants.update(id, fresh), ..self }
        } else {
            RegistryView { participants: self.participants.push(fresh), ..self }
        }
    }

    /// The registry after the pin on record `id` ended. Without such a record nothing changes.
    pub open spec fn unpin(self, id: int) -> RegistryView {
        if 0 <= id < self.participants.len() {
            let released = Participant {
                local_epoch: self.participants[id].local_epoch,
                active: false,
            };
            RegistryView { participants: self.participants.update(id, released), ..self }
        } else {
            self
        }
    }

    /// Whether the global epoch may move: every pinned participant has seen it, and the
    /// counter has room for one more step.
    pub open spec fn can_advance(self) -> bool {
        &&& self.epoch < u64::MAX
        &&& forall|i: int|
            0 <= i < self.participants.len() && (#[trigger] self.participants[i]).active
                ==> self.participants[i].local_epoch == self.epoch
    }

    /// The registry after an attempt to move the global epoch: one step further with every
    /// bag aged where that was possible, unchanged where it was not.
    pub open spec fn try_advance(self) -> RegistryView {
        if self.can_advance() {
            RegistryView { epoch: self.epoch + 1, garbage: self.garbage.rotate(), ..self }
        } else {
            self
        }
    }

    /// The registry after its oldest bag was handed out for reclamation.
    pub open spec fn collect(self) -> RegistryView {
        RegistryView { garbage: self.garbage.drain(), ..self }
    }

    /// The registry after `ptr` was retired at `epoch`.
    pub open spec fn retire(self, ptr: usize, epoch: u64) -> RegistryView {
        RegistryView { garbage: self.garbage.retire(ptr, epoch, self.epoch), ..self }
    }

    /// A pin occupies a record that was not pinned, leaves every other record as it was, and
    /// keeps the registry well formed.
    pub proof fn lemma_pin(self)
        requires
            self.wf(),
        ensures
            self.pin().wf(),
            0 <= self.free_slot() <= self.participants.len(),
            !self.is_pinned(self.free_slot()),
            self.pin().is_pinned(self.free_slot()),
            self.pin().participants[self.free_slot()].local_epoch == self.epoch,
            self.pin().participants.len() >= self.participants.len(),
            forall|i: int|
                0 <= i < self.participants.len() && i != self.free_slot() ==> (
                #[trigger] self.pin().participants[i]) == self.participants[i],
    {
        lemma_first_inactive(self.participants, 0);
    }

    /// The end of a pin keeps the registry well formed.
    pub proof fn lemma_unpin(self, id: int)
        requires
            self.wf(),
        ensures
            self.unpin(id).wf(),
    {
    }

    /// An attempt to move the global epoch keeps the registry well formed and drops no
    /// retired address.
    pub proof fn lemma_try_advance(self)
        requires
            self.wf(),
        ensures
            self.try_advance().wf(),
            self.try_advance().garbage.all() == self.garbage.all(),
    {
        if self.can_advance() {
            self.garbage.lemma_rotate(self.epoch);
        }
    }

    /// A retirement at or before the global epoch keeps the registry well formed.
    pub proof fn lemma_retire(self, ptr: usize, epoch: u64)
        requires
            self.wf(),
            epoch <= self.epoch,
        ensures
            self.retire(ptr, epoch).wf(),
            epoch == self.epoch ==> self.retire(ptr, epoch).garbage.all()
                == self.garbage.all().push(Retired { ptr, epoch }),
    {
        self.garbage.lemma_retire(ptr, epoch, self.epoch);
    }

    /// Exactly the entries that were retired two or more epochs ago lie in the oldest bag.
    pub proof fn lemma_expired(self, entry: Retired)
        requires
            self.wf(),
            self.garbage.all().contains(entry),
        ensures
            self.garbage.expired.contains(entry) <==> entry.epoch + 2 <= self.epoch,
    {
        let g = self.garbage;
        let k = choose|k: int| 0 <= k < g.all().len() && g.all()[k] == entry;
        if k < g.expired.len() {
            assert(g.expired[k] == entry);
        } else if k < g.expired.len() + g.previous.len() {
            assert(g.previous[k - g.expired.len()] == entry);
        } else {
            assert(g.current[k - g.expired.len() - g.previous.len()] == entry);
        }
    }
}

/// The global epoch, the participant records and the garbage queue.
pub struct EpochRegistry {
    epoch: u64,
    participants: Vec<Participant>,
    garbage: GarbageQueue,
}

impl View for EpochRegistry {
    type V = RegistryView;

    closed spec fn view(&self) -> RegistryView {
        RegistryView {
            epoch: self.epoch as nat,
            participants: self.participants@,
            garbage: self.garbage@,
        }
    }
}

impl EpochRegistry {
    /// A registry at epoch 0, with no participant and no garbage.
    pub fn new() -> (registry: EpochRegistry)
        ensures
            registry@ == RegistryView::new(),
            registry@.wf(),
    {
        EpochRegistry { epoch: 0, participants: Vec::new(), garbage: GarbageQueue::new() }
    }

    /// The global epoch.
    pub fn epoch(&self) -> (epoch: u64)
        ensures
            epoch == self@.epoch,
    {
        self.epoch
    }

    /// Pins a participant at the global epoch: the first record that is not pinned is taken
    /// again, and a new one is added only where every record is pinned.
    pub fn pin(&mut self) -> (guard: ParticipantGuard)
        ensures
            guard.id() == old(self)@.free_slot(),
            final(self)@ == old(self)@.pin(),
            old(self)@.wf() ==> final(self)@.wf(),
    {
        let fresh = Participant { local_epoch: self.epoch, active: true };
        let mut id: usize = 0;
        while id < self.participants.len() && self.participants[id].active
            invariant
                id <= self.participants.len(),
                first_inactive(self.participants@, 0) == first_inactive(
                    self.participants@,
                    id as int,
                ),
            decreases self.participants.len() - id,
        {
            id += 1;
        }
        if id < self.participants.len() {
            self.participants[id] = fresh;
        } else {
            self.participants.push(fresh);
        }
        proof {
            if old(self)@.wf() {
                old(self)@.lemma_pin();
            }
        }
        ParticipantGuard { id }
    }

    /// Ends the pin that `guard` stands for. A guard that names no record changes nothing.
    pub fn unpin(&mut self, guard: ParticipantGuard)
        ensures
            final(self)@ == old(self)@.unpin(guard.id()),
            old(self)@.wf() ==> final(self)@.wf(),
    {
        if guard.id < self.participants.len() {
            let local_epoch: u64 = self.participants[guard.id].local_epoch;
            self.participants[guard.id] = Participant { local_epoch, active: false };
        }
    }

    /// Whether the global epoch may move now: every pinned participant has seen it, and the
    /// counter has room for one more step.
    pub fn can_advance(&self) -> (ready: bool)
        ensures
            ready == self@.can_advance(),
    {
        if self.epoch == u64::MAX {
            return false;
        }
        let mut i: usize = 0;
        while i < self.participants.len()
            invariant
                i <= self.participants.len(),
                forall|j: int|
                    0 <= j < i && (#[trigger] self.participants@[j]).active
                        ==> self.participants@[j].local_epoch == self.epoch,
            decreases self.participants.len() - i,
        {
            let participant = self.participants[i];
            if participant.active && participant.local_epoch != self.epoch {
                assert(self@.participants[i as int].active);
                return false;
            }
            i += 1;
        }
        true
    }

    /// Tries to move the global epoch one step. It moves exactly when every pinned
    /// participant has seen the global epoch and the counter has room; the bags are aged
    /// with it. Otherwise nothing changes.
    pub fn try_advance(&mut self) -> (advanced: bool)
        ensures
            advanced == old(self)@.can_advance(),
            final(self)@ == old(self)@.try_advance(),
            old(self)@.wf() ==> final(self)@.wf(),
    {
        if !self.can_advance() {
            return false;
        }
        self.epoch = self.epoch + 1;
        self.garbage.rotate();
        proof {
            if old(self)@.wf() {
                old(self)@.lemma_try_advance();
            }
        }
        true
    }

    /// Hands out the oldest bag for reclamation: once the registry is well formed, exactly
    /// the entries retired two or more epochs before the global epoch.
    pub fn collect(&mut self) -> (expired: Vec<Retired>)
        ensures
            expired@ == old(self)@.garbage.expired,
            final(self)@ == old(self)@.collect(),
            old(self)@.wf() ==> final(self)@.wf(),
    {
        self.garbage.take_expired()
    }

    /// Records that `ptr` stopped being reachable at `epoch`. Nothing is freed.
    pub fn retire(&mut self, ptr: usize, epoch: u64)
        requires
            epoch <= old(self)@.epoch,
        ensures
            final(self)@ == old(self)@.retire(ptr, epoch),
            old(self)@.wf() ==> final(self)@.wf(),
    {
        self.garbage.retire(ptr, epoch, self.epoch);
        assert(self@.participants == old(self)@.participants);
    }
}

} // verus!
