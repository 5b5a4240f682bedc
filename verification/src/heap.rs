//! The heap: where published values live, each at an address that is never handed out twice.

use vstd::prelude::*;

verus! {

/// An arena of payloads. An address is an index into it; a cell is `Some` while its value is
/// allocated and `None` once it has been freed.
pub struct Heap<T> {
    cells: Vec<Option<T>>,
}

impl<T> View for Heap<T> {
    type V = Seq<Option<T>>;

    closed spec fn view(&self) -> Seq<Option<T>> {
        self.cells@
    }
}

/// Whether `ptr` addresses an allocated cell of `heap`.
pub open spec fn is_live<T>(heap: Seq<Option<T>>, ptr: int) -> bool {
    0 <= ptr < heap.len() && heap[ptr] is Some
}

impl<T> Heap<T> {
    /// A heap with no cell.
    pub fn new() -> (heap: Heap<T>)
        ensures
            heap@ == Seq::<Option<T>>::empty(),
    {
        Heap { cells: Vec::new() }
    }

    /// Stores `value` in a fresh cell and returns its address, the number of cells handed out
    /// before it.
    pub fn allocate(&mut self, value: T) -> (ptr: usize)
        ensures
            ptr == old(self)@.len(),
            ptr < usize::MAX,
            final(self)@ == old(self)@.push(Some(value)),
    {
        let ptr: usize = self.cells.len();
        self.cells.push(Some(value));
        assert(self.cells.len() <= usize::MAX);
        ptr
    }

    /// Drops the value at `ptr`, if there is one. An address outside the heap is left alone.
    pub fn free(&mut self, ptr: usize)
        ensures
            ptr < old(self)@.len() ==> final(self)@ == old(self)@.update(ptr as int, None),
            ptr >= old(self)@.len() ==> final(self)@ == old(self)@,
    {
        if ptr < self.cells.len() {
            self.cells[ptr] = None;
        }
    }

    /// Reads the value at `ptr`: `None` exactly when the address is outside the heap or its
    /// cell has been freed.
    pub fn get(&self, ptr: usize) -> (value: Option<&T>)
        ensures
            match value {
                Some(v) => is_live(self@, ptr as int) && self@[ptr as int] == Some(*v),
                None => !is_live(self@, ptr as int),
            },
    {
        if ptr < self.cells.len() {
            self.cells[ptr].as_ref()
        } else {
            None
        }
    }

    /// The number of cells handed out so far, freed ones included.
    pub fn len(&self) -> (n: usize)
        ensures
            n == self@.len(),
    {
        self.cells.len()
    }
}

} // verus!
