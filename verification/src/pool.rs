//! The work pool: a LIFO container of pending items, shared by all workers.
//!
//! Push and pop act on the same end, so each pop returns the most recently
//! pushed available item — a deliberate depth-first bias. The pool itself
//! carries no locking: a host that shares it between threads wraps it in a
//! mutual-exclusion lock and keeps every critical section to one call.

use vstd::prelude::*;

verus! {

/// A LIFO stack of pending work items, viewed as the sequence of items from
/// bottom to top.
pub struct WorkPool<I> {
    items: Vec<I>,
}

impl<I> View for WorkPool<I> {
    type V = Seq<I>;

    closed spec fn view(&self) -> Seq<I> {
        self.items@
    }
}

impl<I> WorkPool<I> {
    /// Creates a pool holding the given items; the last item of `items` is
    /// the top of the stack and will be popped first.
    pub fn new(items: Vec<I>) -> (pool: WorkPool<I>)
        ensures
            pool@ == items@,
    {
        WorkPool { items }
    }

    /// Pushes one item on top of the stack.
    pub fn push(&mut self, item: I)
        ensures
            final(self)@ == old(self)@.push(item),
    {
        self.items.push(item);
    }

    /// Pushes every item of `items`, in order, so the last one ends on top.
    pub fn push_all(&mut self, items: Vec<I>)
        ensures
            final(self)@ == old(self)@ + items@,
    {
        let mut items = items;
        self.items.append(&mut items);
    }

    /// Pops the most recently pushed item, or nothing if the pool is empty.
    pub fn pop(&mut self) -> (popped: Option<I>)
        ensures
            old(self)@.len() == 0 ==> popped is None && final(self)@ == old(self)@,
            old(self)@.len() > 0 ==> popped == Some(old(self)@.last()) && final(self)@ == old(
                self,
            )@.drop_last(),
    {
        self.items.pop()
    }

    /// The number of pending items.
    pub fn len(&self) -> (n: usize)
        ensures
            n == self@.len(),
    {
        self.items.len()
    }

    /// Whether no item is pending.
    pub fn is_empty(&self) -> (empty: bool)
        ensures
            empty == (self@.len() == 0),
    {
        self.items.len() == 0
    }
}

} // verus!
