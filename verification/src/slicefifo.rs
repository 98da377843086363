//! A circular first-in, first-out queue over a ring of any size, which
//! makes room for a new item by giving up its oldest one.

use vstd::arithmetic::div_mod::lemma_fundamental_div_mod_converse;
use vstd::prelude::*;

verus! {

/// A queue of at most `N` items held in a ring of `N` slots. Items enter at
/// the tail and leave at the head; an item pushed onto a full queue takes
/// the place of the oldest one.
#[derive(Debug)]
pub struct SliceFifo<T, const N: usize> {
    head: usize,
    len: usize,
    data: [Option<T>; N],
}

/// The slot that index `i` falls on in a ring of `n` slots, for an index
/// that has gone round the ring at most once.
pub open spec fn wrap(i: int, n: int) -> int {
    if i >= n {
        i - n
    } else {
        i
    }
}

/// On indices below `2 * n`, wrapping takes the remainder by `n`.
pub proof fn lemma_wrap_is_remainder(i: int, n: int)
    requires
        0 < n,
        0 <= i < 2 * n,
    ensures
        i % n == wrap(i, n),
{
    if i >= n {
        lemma_fundamental_div_mod_converse(i, n, 1, i - n);
    } else {
        lemma_fundamental_div_mod_converse(i, n, 0, i);
    }
}

impl<T: Copy, const N: usize> Clone for SliceFifo<T, N> {
    /// A queue with the same items in the same order.
    fn clone(&self) -> (q: Self)
        ensures
            q == *self,
            q@ == self@,
            self.wf() ==> q.wf(),
    {
        *self
    }
}

impl<T: Copy, const N: usize> Copy for SliceFifo<T, N> {

}

impl<T: Copy, const N: usize> SliceFifo<T, N> {
    /// The queue is sound: its head lies on the ring, it holds no more
    /// items than the ring has slots, and each of its items is in place.
    pub closed spec fn wf(&self) -> bool {
        &&& self.len <= N
        &&& self.head < N || (self.head == 0 && N == 0)
        &&& forall|i: int|
            0 <= i < self.len ==> (#[trigger] self.data@[wrap(self.head + i, N as int)]) is Some
    }

    /// The items of the queue, oldest first.
    pub closed spec fn view(&self) -> Seq<T> {
        Seq::new(self.len as nat, |i: int| self.data@[wrap(self.head + i, N as int)]->0)
    }

    /// The slot that lies `offset` places behind the head. The sum of head
    /// and offset is never formed, so it cannot overflow.
    fn slot(&self, offset: usize) -> (s: usize)
        requires
            self.head < N,
            offset <= N,
        ensures
            s == wrap(self.head + offset, N as int),
            s < N,
    {
        let room = N - self.head;
        if offset >= room {
            offset - room
        } else {
            self.head + offset
        }
    }

    /// An empty queue.
    pub fn new() -> (q: Self)
        ensures
            q.wf(),
            q@ == Seq::<T>::empty(),
    {
        Self { head: 0, len: 0, data: [None; N] }
    }

    /// A queue that holds the items of `slice`, the first of them at the head.
    pub fn from_slice(slice: &[T]) -> (q: Self)
        requires
            slice@.len() <= N,
        ensures
            q.wf(),
            q@ == slice@,
    {
        let mut data: [Option<T>; N] = [None; N];
        let len = slice.len();
        let mut i: usize = 0;
        while i < len
            invariant
                len == slice@.len(),
                len <= N,
                i <= len,
                forall|j: int| 0 <= j < i ==> data@[j] == Some(slice@[j]),
            decreases len - i,
        {
            data[i] = Some(slice[i]);
            i += 1;
        }
        Self { head: 0, len, data }
    }

    /// Appends `item` at the tail. A full queue first gives up the item at
    /// its head.
    pub fn push(&mut self, item: T)
        requires
            old(self).wf(),
            N > 0,
        ensures
            final(self).wf(),
            old(self)@.len() < N ==> final(self)@ == old(self)@.push(item),
            old(self)@.len() == N ==> final(self)@ == old(self)@.drop_first().push(item),
    {
        proof {
            lemma_wrap_is_remainder(self.head + 1, N as int);
        }
        let tail = self.slot(self.len);
        self.data[tail] = Some(item);
        if self.len == N {
            proof {
                let next: int = wrap(self.head + 1, N as int);
                assert forall|i: int| 0 <= i < self.len implies (#[trigger] self.data@[wrap(
                    next + i,
                    N as int,
                )]) is Some by {
                    if i + 1 < N {
                        assert(wrap(next + i, N as int) == wrap(self.head + (i + 1), N as int));
                        assert(self.data@[wrap(self.head + (i + 1), N as int)] is Some);
                    } else {
                        assert(wrap(next + i, N as int) == tail);
                    }
                }
                assert forall|i: int| 0 <= i < self.len implies (#[trigger] self.data@[wrap(
                    next + i,
                    N as int,
                )])->0 == old(self)@.drop_first().push(item)[i] by {
                    if i + 1 < N {
                        assert(wrap(next + i, N as int) == wrap(self.head + (i + 1), N as int));
                    } else {
                        assert(wrap(next + i, N as int) == tail);
                    }
                }
            }
            self.head = (self.head + 1) % N;
        } else {
            self.len += 1;
        }
    }

    /// Appends the items of `slice` at the tail, in their order.
    pub fn push_slice(&mut self, slice: &[T])
        requires
            old(self).wf(),
            old(self)@.len() + slice@.len() <= N,
        ensures
            final(self).wf(),
            final(self)@ == old(self)@ + slice@,
    {
        let mut i: usize = 0;
        while i < slice.len()
            invariant
                self.wf(),
                i <= slice@.len(),
                old(self)@.len() + slice@.len() <= N,
                self@ == old(self)@ + slice@.subrange(0, i as int),
            decreases slice@.len() - i,
        {
            self.push(slice[i]);
            proof {
                assert(slice@.subrange(0, i + 1) == slice@.subrange(0, i as int).push(slice@[i as int]));
            }
            i += 1;
        }
        proof {
            assert(slice@.subrange(0, i as int) == slice@);
        }
    }

    /// Removes the item at the head and returns it.
    pub fn pop_unchecked(&mut self) -> (item: T)
        requires
            old(self).wf(),
            old(self)@.len() > 0,
        ensures
            final(self).wf(),
            item == old(self)@[0],
            final(self)@ == old(self)@.drop_first(),
    {
        proof {
            lemma_wrap_is_remainder(self.head + 1, N as int);
            assert(self.data@[wrap(self.head + 0, N as int)] is Some);
        }
        let item = self.data[self.head].unwrap();
        self.len -= 1;
        proof {
            let next: int = wrap(self.head + 1, N as int);
            assert forall|i: int| 0 <= i < self.len implies (#[trigger] self.data@[wrap(
                next + i,
                N as int,
            )]) is Some by {
                assert(wrap(next + i, N as int) == wrap(self.head + (i + 1), N as int));
                assert(self.data@[wrap(self.head + (i + 1), N as int)] is Some);
            }
        }
        self.head = (self.head + 1) % N;
        item
    }

    /// The items of the queue, oldest first; the queue is left as it is.
    pub fn as_slice(&self) -> (items: Vec<T>)
        requires
            self.wf(),
        ensures
            items@ == self@,
    {
        let mut items: Vec<T> = Vec::with_capacity(self.len);
        let mut i: usize = 0;
        while i < self.len
            invariant
                self.wf(),
                i <= self.len,
                items@.len() == i,
                forall|j: int| 0 <= j < i ==> items@[j] == self@[j],
            decreases self.len - i,
        {
            proof {
                assert(self.data@[wrap(self.head + i, N as int)] is Some);
            }
            let item = self.data[self.slot(i)].unwrap();
            items.push(item);
            i += 1;
        }
        items
    }

    /// The items of the queue in the order in which they will leave it.
    pub fn iter(&self) -> (items: Vec<T>)
        requires
            self.wf(),
        ensures
            items@ == self@,
    {
        self.as_slice()
    }

    /// Whether the queue holds no item.
    pub fn is_empty(&self) -> (empty: bool)
        ensures
            empty == (self@.len() == 0),
    {
        self.len == 0
    }
}

} // verus!
