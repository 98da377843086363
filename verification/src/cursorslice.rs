//! A buffer that is only ever appended to and emptied as a whole.

use vstd::prelude::*;

verus! {

/// A run of at most `N` items in the order in which they were pushed. It
/// takes one item at a time at its end and gives all of them up at once.
/// The room for `N` items is set aside when the buffer is made, and
/// emptying it gives none of that room back.
#[derive(Debug)]
pub struct CursorSlice<T: Copy, const N: usize> {
    data: Vec<T>,
}

impl<T: Copy, const N: usize> Clone for CursorSlice<T, N> {
    /// A buffer with the same items in the same order.
    fn clone(&self) -> (copy: Self)
        ensures
            copy@ == self@,
            self.wf() ==> copy.wf(),
    {
        let mut data: Vec<T> = Vec::with_capacity(N);
        let mut i: usize = 0;
        while i < self.data.len()
            invariant
                i <= self.data@.len(),
                data@ == self.data@.subrange(0, i as int),
            decreases self.data@.len() - i,
        {
            data.push(self.data[i]);
            i += 1;
        }
        Self { data }
    }
}

impl<T: Copy, const N: usize> CursorSlice<T, N> {
    /// The buffer is sound: it holds no more than `N` items.
    pub closed spec fn wf(&self) -> bool {
        self.data@.len() <= N
    }

    /// The items of the buffer, in the order in which they were pushed.
    pub closed spec fn view(&self) -> Seq<T> {
        self.data@
    }

    /// An empty buffer.
    pub fn new() -> (buffer: Self)
        ensures
            buffer.wf(),
            buffer@ == Seq::<T>::empty(),
    {
        Self { data: Vec::with_capacity(N) }
    }

    /// Appends `value` at the end.
    pub fn push_unchecked(&mut self, value: T)
        requires
            old(self).wf(),
            old(self)@.len() < N,
        ensures
            final(self).wf(),
            final(self)@ == old(self)@.push(value),
    {
        self.data.push(value);
    }

    /// The items of the buffer, in the order in which they were pushed.
    pub fn slice(&self) -> (items: &[T])
        ensures
            items@ == self@,
    {
        self.data.as_slice()
    }

    /// Empties the buffer.
    pub fn clear(&mut self)
        ensures
            final(self).wf(),
            final(self)@ == Seq::<T>::empty(),
    {
        self.data.clear();
    }

    /// A copy of the items, in the order in which they were pushed.
    pub fn iter(&self) -> (items: Vec<T>)
        ensures
            items@ == self@,
    {
        let mut items: Vec<T> = Vec::with_capacity(self.data.len());
        let mut i: usize = 0;
        while i < self.data.len()
            invariant
                i <= self.data@.len(),
                items@ == self.data@.subrange(0, i as int),
            decreases self.data@.len() - i,
        {
            items.push(self.data[i]);
            i += 1;
        }
        items
    }

    /// The number of items in the buffer.
    pub fn len(&self) -> (n: usize)
        requires
            self.wf(),
        ensures
            n == self@.len(),
            n <= N,
    {
        self.data.len()
    }

    /// Whether the buffer holds no item.
    pub fn is_empty(&self) -> (empty: bool)
        ensures
            empty == (self@.len() == 0),
    {
        self.data.len() == 0
    }
}

} // verus!
