//! The garbage queue: retired addresses, kept in three bags by age until they may be freed.

use vstd::prelude::*;

verus! {

/// One retired value: its address and the epoch at which it stopped being reachable.
#[derive(Clone, Copy, Debug, PartialEq, Eq, Structural)]
pub struct Retired {
    pub ptr: usize,
    pub epoch: u64,
}

/// Whether some entry of `entries` is for the address `ptr`.
pub open spec fn names(entries: Seq<Retired>, ptr: int) -> bool {
    exists|k: int| 0 <= k < entries.len() && (#[trigger] entries[k]).ptr == ptr
}

/// What a garbage queue holds: the entries of each bag, oldest first.
pub struct GarbageView {
    /// Retired at the global epoch.
    pub current: Seq<Retired>,
    /// Retired one epoch before the global epoch.
    pub previous: Seq<Retired>,
    /// Retired two or more epochs before the global epoch: free to reclaim.
    pub expired: Seq<Retired>,
}

impl GarbageView {
    /// The queue that holds nothing.
    pub open spec fn empty() -> GarbageView {
        GarbageView { current: Seq::empty(), previous: Seq::empty(), expired: Seq::empty() }
    }

    /// Every entry of the queue, oldest bag first.
    pub open spec fn all(self) -> Seq<Retired> {
        self.expired + self.previous + self.current
    }

    /// Each bag holds the entries of its own age, relative to the global epoch `global`.
    pub open spec fn wf(self, global: nat) -> bool {
        &&& forall|k: int| 0 <= k < self.current.len() ==> (#[trigger] self.current[k]).epoch == global
        &&& forall|k: int|
            0 <= k < self.previous.len() ==> (#[trigger] self.previous[k]).epoch + 1 == global
        &&& forall|k: int|
            0 <= k < self.expired.len() ==> (#[trigger] self.expired[k]).epoch + 2 <= global
    }

    /// The queue after `ptr` was retired at `epoch`, while the global epoch is `global`.
    pub open spec fn retire(self, ptr: usize, epoch: u64, global: nat) -> GarbageView {
        let entry = Retired { ptr, epoch };
        if epoch == global {
            GarbageView { current: self.current.push(entry), ..self }
        } else if epoch + 1 == global {
            GarbageView { previous: self.previous.push(entry), ..self }
        } else {
            GarbageView { expired: self.expired.push(entry), ..self }
        }
    }

    /// The queue after the global epoch moved one step: every bag is one step older.
    pub open spec fn rotate(self) -> GarbageView {
        GarbageView {
            current: Seq::empty(),
            previous: self.current,
            expired: self.expired + self.previous,
        }
    }

    /// The queue after its oldest bag was emptied.
    pub open spec fn drain(self) -> GarbageView {
        GarbageView { expired: Seq::empty(), ..self }
    }

    /// A retirement at or before the global epoch keeps every entry in the bag of its age;
    /// one at the global epoch puts the new entry behind all others.
    pub proof fn lemma_retire(self, ptr: usize, epoch: u64, global: nat)
        requires
            self.wf(global),
            epoch <= global,
        ensures
            self.retire(ptr, epoch, global).wf(global),
            epoch == global ==> self.retire(ptr, epoch, global).all() == self.all().push(
                Retired { ptr, epoch },
            ),
    {
        if epoch == global {
            assert(self.retire(ptr, epoch, global).all() =~= self.all().push(
                Retired { ptr, epoch },
            ));
        }
    }

    /// Ageing the bags keeps each entry in the bag of its age once the global epoch has moved
    /// one step, and drops no entry.
    pub proof fn lemma_rotate(self, global: nat)
        requires
            self.wf(global),
        ensures
            self.rotate().wf(global + 1),
            self.rotate().all() == self.all(),
    {
        let aged = self.rotate();
        assert forall|k: int| 0 <= k < aged.expired.len() implies (#[trigger] aged.expired[k]).epoch
            + 2 <= global + 1 by {
            if k < self.expired.len() {
                assert(aged.expired[k] == self.expired[k]);
            } else {
                assert(aged.expired[k] == self.previous[k - self.expired.len()]);
            }
        }
        assert(aged.all() =~= self.all());
    }
}

/// Retired addresses in three bags: retired at the global epoch, one epoch before it, and
/// earlier than that.
pub struct GarbageQueue {
    current: Vec<Retired>,
    previous: Vec<Retired>,
    expired: Vec<Retired>,
}

impl View for GarbageQueue {
    type V = GarbageView;

    closed spec fn view(&self) -> GarbageView {
        GarbageView { current: self.current@, previous: self.previous@, expired: self.expired@ }
    }
}

impl GarbageQueue {
    /// A queue that holds nothing.
    pub fn new() -> (queue: GarbageQueue)
        ensures
            queue@ == GarbageView::empty(),
    {
        GarbageQueue { current: Vec::new(), previous: Vec::new(), expired: Vec::new() }
    }

    /// Appends `(ptr, epoch)` to the bag for `epoch`. Nothing is freed.
    pub fn retire(&mut self, ptr: usize, epoch: u64, global: u64)
        requires
            epoch <= global,
        ensures
            final(self)@ == old(self)@.retire(ptr, epoch, global as nat),
            old(self)@.wf(global as nat) ==> final(self)@.wf(global as nat),
    {
        let entry = Retired { ptr, epoch };
        if epoch == global {
            self.current.push(entry);
        } else if global - epoch == 1 {
            self.previous.push(entry);
        } else {
            self.expired.push(entry);
        }
    }

    /// Ages every bag by one step, for a global epoch that has just moved one step.
    pub fn rotate(&mut self)
        ensures
            final(self)@ == old(self)@.rotate(),
    {
        self.expired.append(&mut self.previous);
        core::mem::swap(&mut self.previous, &mut self.current);
    }

    /// Empties the oldest bag and hands back what it held.
    pub fn take_expired(&mut self) -> (expired: Vec<Retired>)
        ensures
            expired@ == old(self)@.expired,
            final(self)@ == old(self)@.drain(),
    {
        let mut expired: Vec<Retired> = Vec::new();
        core::mem::swap(&mut expired, &mut self.expired);
        expired
    }

    /// Whether no entry is left in any bag.
    pub fn is_empty(&self) -> (none: bool)
        ensures
            none == (self@.all().len() == 0),
    {
        self.current.len() == 0 && self.previous.len() == 0 && self.expired.len() == 0
    }
}

} // verus!
