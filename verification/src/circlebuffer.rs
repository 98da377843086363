//! A fixed-capacity circular first-in, first-out queue.

use vstd::prelude::*;

verus! {

/// The number of slots of every `CircularBuffer`: a power of two, so that
/// wrapping an index is a mask, and no smaller than a deck of 52 cards.
pub const CAPACITY: usize = 64;

/// A queue of at most `CAPACITY` items held in a ring of slots: items enter
/// at the tail and leave at the head, and both ends wrap round the ring.
#[derive(Debug)]
pub struct CircularBuffer<T> {
    head: usize,
    len: usize,
    data: [Option<T>; CAPACITY],
}

/// The slot that lies `offset` places behind slot `head` on the ring.
pub open spec fn slot_of(head: int, offset: int) -> int {
    (head + offset) % (CAPACITY as int)
}

/// Masking an index with `CAPACITY - 1` takes its remainder by `CAPACITY`.
proof fn lemma_mask_wraps(x: usize)
    ensures
        x & 63 == x % 64,
{
    assert(x & 63 == x % 64) by (bit_vector);
}

impl<T: Copy> Clone for CircularBuffer<T> {
    /// A queue with the same items in the same order.
    fn clone(&self) -> (q: Self)
        ensures
            q == *self,
            q@ == self@,
            self.wf() ==> q.wf(),
    {
        *self
    }
}

impl<T: Copy> Copy for CircularBuffer<T> {

}

impl<T: Copy> CircularBuffer<T> {
    /// The queue is sound: its head lies on the ring, it holds no more
    /// items than the ring has slots, and each of its items is in place.
    pub closed spec fn wf(&self) -> bool {
        &&& self.head < CAPACITY
        &&& self.len <= CAPACITY
        &&& forall|i: int|
            0 <= i < self.len ==> (#[trigger] self.data@[slot_of(self.head as int, i)]) is Some
    }

    /// The items of the queue, oldest first.
    pub closed spec fn view(&self) -> Seq<T> {
        Seq::new(self.len as nat, |i: int| self.data@[slot_of(self.head as int, i)]->0)
    }

    /// An empty queue.
    pub fn new() -> (q: Self)
        ensures
            q.wf(),
            q@ == Seq::<T>::empty(),
    {
        Self { head: 0, len: 0, data: [None;CAPACITY] }
    }

    /// The number of items in the queue.
    pub fn len(&self) -> (n: usize)
        requires
            self.wf(),
        ensures
            n == self@.len(),
            n <= CAPACITY,
    {
        self.len
    }

    /// Whether the queue holds no item.
    pub fn is_empty(&self) -> (empty: bool)
        ensures
            empty == (self@.len() == 0),
    {
        self.len == 0
    }

    /// A queue that holds the items of `source`, the first of them at the head.
    pub fn from_memory(source: &[T]) -> (q: Self)
        requires
            source@.len() <= CAPACITY,
        ensures
            q.wf(),
            q@ == source@,
    {
        let mut data: [Option<T>; CAPACITY] = [None;CAPACITY];
        let len = source.len();
        let mut i: usize = 0;
        while i < len
            invariant
                len == source@.len(),
                len <= CAPACITY,
                i <= len,
                forall|j: int| 0 <= j < i ==> data@[j] == Some(source@[j]),
            decreases len - i,
        {
            data[i] = Some(source[i]);
            i += 1;
        }
        Self { head: 0, len, data }
    }

    /// Appends `item` at the tail.
    pub fn push(&mut self, item: T)
        requires
            old(self).wf(),
            old(self)@.len() < CAPACITY,
        ensures
            final(self).wf(),
            final(self)@ == old(self)@.push(item),
    {
        proof {
            lemma_mask_wraps((self.head + self.len) as usize);
        }
        let tail = (self.head + self.len) & (CAPACITY - 1);
        self.data[tail] = Some(item);
        self.len += 1;
    }

    /// Appends the items of `slice` at the tail, in their order.
    pub fn push_slice(&mut self, slice: &[T])
        requires
            old(self).wf(),
            old(self)@.len() + slice@.len() <= CAPACITY,
        ensures
            final(self).wf(),
            final(self)@ == old(self)@ + slice@,
    {
        proof {
            lemma_mask_wraps((self.head + self.len) as usize);
        }
        let count = slice.len();
        let tail = (self.head + self.len) & (CAPACITY - 1);
        // The run up to the end of the ring, then the run from its start.
        let room = CAPACITY - tail;
        let first = if count > room { room } else { count };
        let mut i: usize = 0;
        while i < first
            invariant
                count == slice@.len(),
                self.head == old(self).head,
                self.len == old(self).len,
                self.len + count <= CAPACITY,
                self.head < CAPACITY,
                tail == slot_of(self.head as int, self.len as int),
                first <= count,
                tail + first <= CAPACITY,
                i <= first,
                forall|j: int| 0 <= j < i ==> self.data@[tail + j] == Some(slice@[j]),
                forall|j: int|
                    0 <= j < self.len ==> (#[trigger] self.data@[slot_of(self.head as int, j)])
                        == old(self).data@[slot_of(self.head as int, j)],
                forall|j: int|
                    0 <= j < self.len ==> (#[trigger] old(self).data@[slot_of(
                        self.head as int,
                        j,
                    )]) is Some,
            decreases first - i,
        {
            self.data[tail + i] = Some(slice[i]);
            i += 1;
        }
        let mut k: usize = first;
        while k < count
            invariant
                count == slice@.len(),
                self.head == old(self).head,
                self.len == old(self).len,
                self.len + count <= CAPACITY,
                self.head < CAPACITY,
                tail == slot_of(self.head as int, self.len as int),
                first <= k <= count,
                first < count ==> tail + first == CAPACITY,
                forall|j: int| 0 <= j < first ==> self.data@[tail + j] == Some(slice@[j]),
                forall|j: int| first <= j < k ==> self.data@[j - first] == Some(slice@[j]),
                forall|j: int|
                    0 <= j < self.len ==> (#[trigger] self.data@[slot_of(self.head as int, j)])
                        == old(self).data@[slot_of(self.head as int, j)],
                forall|j: int|
                    0 <= j < self.len ==> (#[trigger] old(self).data@[slot_of(
                        self.head as int,
                        j,
                    )]) is Some,
            decreases count - k,
        {
            self.data[k - first] = Some(slice[k]);
            k += 1;
        }
        proof {
            assert forall|j: int| 0 <= j < self.len + count implies (#[trigger] self.data@[slot_of(
                self.head as int,
                j,
            )]) == Some((old(self)@ + slice@)[j]) by {
                if j >= self.len {
                    let m = j - self.len;
                    if m < first {
                        assert(slot_of(self.head as int, j) == tail + m);
                    } else {
                        assert(slot_of(self.head as int, j) == m - first);
                    }
                }
            }
        }
        self.len += count;
    }

    /// Removes the item at the head and returns it.
    pub fn pop_unchecked(&mut self) -> (item: T)
        requires
            old(self).wf(),
            old(self)@.len() > 0,
        ensures
            final(self).wf(),
            item == old(self)@[0],
            final(self)@ == old(self)@.drop_first(),
    {
        proof {
            assert(self.data@[slot_of(self.head as int, 0)] is Some);
        }
        let item = self.data[self.head].unwrap();
        self.len -= 1;
        proof {
            let next: int = if self.head == CAPACITY - 1 {
                0
            } else {
                self.head + 1
            };
            assert forall|i: int| 0 <= i < self.len implies (#[trigger] self.data@[slot_of(
                next,
                i,
            )]) is Some by {
                assert(slot_of(next, i) == slot_of(self.head as int, i + 1));
                assert(self.data@[slot_of(self.head as int, i + 1)] is Some);
            }
        }
        if self.head == CAPACITY - 1 {
            self.head = 0;
        } else {
            self.head += 1;
        }
        item
    }

    /// The items of the queue, oldest first; the queue is left as it is.
    pub fn slice(&self) -> (items: Vec<T>)
        requires
            self.wf(),
        ensures
            items@ == self@,
    {
        let mut items: Vec<T> = Vec::with_capacity(self.len);
        let mut i: usize = 0;
        while i < self.len
            invariant
                self.head < CAPACITY,
                self.len <= CAPACITY,
                i <= self.len,
                items@.len() == i,
                forall|j: int|
                    0 <= j < self.len ==> (#[trigger] self.data@[slot_of(self.head as int, j)]) is Some,
                forall|j: int| 0 <= j < i ==> items@[j] == self@[j],
            decreases self.len - i,
        {
            proof {
                lemma_mask_wraps((self.head + i) as usize);
                assert(self.data@[slot_of(self.head as int, i as int)] is Some);
            }
            let item = self.data[(self.head + i) & (CAPACITY - 1)].unwrap();
            items.push(item);
            i += 1;
        }
        items
    }

    /// The items of the queue in the order in which they will leave it.
    pub fn iter(&self) -> (items: Vec<T>)
        requires
            self.wf(),
        ensures
            items@ == self@,
    {
        self.slice()
    }
}

} // verus!
