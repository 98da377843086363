//! A buffer that is filled item by item and drained as a whole.

use vstd::prelude::*;

verus! {

/// The items that a `ClearVec` held when it was drained, handed out one
/// by one in the order in which they had been pushed.
#[derive(Debug)]
pub struct Drain<T> {
    items: Vec<T>,
    next: usize,
}

impl<T: Copy> Drain<T> {
    /// The walk is sound: it has not gone past the last item.
    pub closed spec fn wf(&self) -> bool {
        self.next <= self.items@.len()
    }

    /// The items that are still to come, the next one first.
    pub closed spec fn view(&self) -> Seq<T> {
        self.items@.subrange(self.next as int, self.items@.len() as int)
    }

    /// Hands out the next item, or `None` once all have been handed out.
    pub fn next(&mut self) -> (item: Option<T>)
        requires
            old(self).wf(),
        ensures
            final(self).wf(),
            old(self)@.len() == 0 ==> item is None && final(self)@ == old(self)@,
            old(self)@.len() > 0 ==> item == Some(old(self)@[0]),
            old(self)@.len() > 0 ==> final(self)@ == old(self)@.drop_first(),
    {
        if self.next == self.items.len() {
            None
        } else {
            let item = self.items[self.next];
            self.next += 1;
            Some(item)
        }
    }

    /// The number of items still to come, as a lower and an upper bound
    /// that agree.
    pub fn size_hint(&self) -> (bounds: (usize, Option<usize>))
        requires
            self.wf(),
        ensures
            bounds.0 == self@.len(),
            bounds.1 == Some(bounds.0),
    {
        let left = self.items.len() - self.next;
        (left, Some(left))
    }
}

/// A run of at most `N` items in the order in which they were pushed,
/// held in a fixed array of slots.
#[derive(Debug)]
pub struct ClearVec<T: Copy, const N: usize> {
    data: [Option<T>; N],
    cursor: usize,
}

impl<T: Copy, const N: usize> Clone for ClearVec<T, N> {
    /// A buffer with the same items in the same order.
    fn clone(&self) -> (copy: Self)
        ensures
            copy == *self,
            copy@ == self@,
            self.wf() ==> copy.wf(),
    {
        *self
    }
}

impl<T: Copy, const N: usize> Copy for ClearVec<T, N> {

}

impl<T: Copy, const N: usize> ClearVec<T, N> {
    /// The buffer is sound: the cursor lies within the array and every
    /// slot before it holds an item.
    pub closed spec fn wf(&self) -> bool {
        &&& self.cursor <= N
        &&& forall|i: int| 0 <= i < self.cursor ==> (#[trigger] self.data@[i]) is Some
    }

    /// The items of the buffer, in the order in which they were pushed.
    pub closed spec fn view(&self) -> Seq<T> {
        Seq::new(self.cursor as nat, |i: int| self.data@[i]->0)
    }

    /// An empty buffer.
    pub fn new() -> (buffer: Self)
        ensures
            buffer.wf(),
            buffer@ == Seq::<T>::empty(),
    {
        Self { data: [None; N], cursor: 0 }
    }

    /// Appends `value` at the end.
    pub fn push(&mut self, value: T)
        requires
            old(self).wf(),
            old(self)@.len() < N,
        ensures
            final(self).wf(),
            final(self)@ == old(self)@.push(value),
    {
        self.data[self.cursor] = Some(value);
        self.cursor += 1;
    }

    /// Empties the buffer and hands out what it held.
    pub fn drain(&mut self) -> (drained: Drain<T>)
        requires
            old(self).wf(),
        ensures
            final(self).wf(),
            final(self)@ == Seq::<T>::empty(),
            drained.wf(),
            drained@ == old(self)@,
    {
        let items = self.iter();
        self.cursor = 0;
        Drain { items, next: 0 }
    }

    /// A copy of the items, in the order in which they were pushed.
    pub fn iter(&self) -> (items: Vec<T>)
        requires
            self.wf(),
        ensures
            items@ == self@,
    {
        let mut items: Vec<T> = Vec::with_capacity(self.cursor);
        let mut i: usize = 0;
        while i < self.cursor
            invariant
                self.wf(),
                i <= self.cursor,
                items@.len() == i,
                forall|j: int| 0 <= j < i ==> items@[j] == self@[j],
            decreases self.cursor - i,
        {
            let item = self.data[i].unwrap();
            items.push(item);
            i += 1;
        }
        items
    }

    /// Whether the buffer holds no item.
    pub fn is_empty(&self) -> (empty: bool)
        ensures
            empty == (self@.len() == 0),
    {
        self.cursor == 0
    }
}

} // verus!
