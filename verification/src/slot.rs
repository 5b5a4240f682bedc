//! The slot: the one cell through which a writer publishes and readers observe.

use crate::epoch::ParticipantGuard;
use vstd::prelude::*;

verus! {

/// A pointer-sized cell holding either nothing or the address of the current value.
pub struct Slot {
    ptr: Option<usize>,
}

impl View for Slot {
    type V = Option<usize>;

    closed spec fn view(&self) -> Option<usize> {
        self.ptr
    }
}

impl Slot {
    /// A slot that holds the address `ptr`.
    pub fn new(ptr: usize) -> (slot: Slot)
        ensures
            slot@ == Some(ptr),
    {
        Slot { ptr: Some(ptr) }
    }

    /// A slot that holds no address.
    pub fn empty() -> (slot: Slot)
        ensures
            slot@ == None::<usize>,
    {
        Slot { ptr: None }
    }

    /// Reads the held address. The reader shows the pin under which it will use the address.
    pub fn load(&self, _guard: &ParticipantGuard) -> (ptr: Option<usize>)
        ensures
            ptr == self@,
    {
        self.ptr
    }

    /// Exchanges the held address for `new_ptr` and hands back what was held.
    pub fn swap(&mut self, new_ptr: usize) -> (old_ptr: Option<usize>)
        ensures
            old_ptr == old(self)@,
            final(self)@ == Some(new_ptr),
    {
        let old_ptr = self.ptr;
        self.ptr = Some(new_ptr);
        old_ptr
    }

    /// Empties the slot and hands back what was held.
    pub fn swap_to_empty(&mut self) -> (old_ptr: Option<usize>)
        ensures
            old_ptr == old(self)@,
            final(self)@ == None::<usize>,
    {
        let old_ptr = self.ptr;
        self.ptr = None;
        old_ptr
    }
}

} // verus!
