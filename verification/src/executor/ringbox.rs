//! A queue with room for `capacity - 1` items in a ring of `capacity` slots,
//! allocated when it is made, for `capacity` a power of two.
use super::{is_pow2, mod_power_of_2, ring_slot};
use vstd::prelude::*;

verus! {

/// The error of inserting into a full buffer.
#[derive(Debug, PartialEq, Eq, Structural, Clone, Copy)]
pub enum BufError {
    /// There is no room for another item.
    Full,
}

/// A first-in first-out queue in a number of slots fixed when it is made,
/// holding one item fewer than that.
pub struct RingBufferBox<T> {
    write_head: usize,
    read_head: usize,
    data: Vec<Option<T>>,
}

impl<T> RingBufferBox<T> {
    /// The number of slots.
    pub closed spec fn slots(self) -> int {
        self.data@.len() as int
    }

    /// The number of items queued.
    pub closed spec fn count(self) -> int {
        if self.write_head >= self.read_head {
            self.write_head - self.read_head
        } else {
            self.write_head + self.slots() - self.read_head
        }
    }

    /// The items queued, oldest first.
    pub closed spec fn view(self) -> Seq<T> {
        Seq::new(
            self.count() as nat,
            |k: int| self.data@[ring_slot(self.read_head as int, k, self.slots())]->Some_0,
        )
    }

    /// The heads lie in the ring and every queued slot holds an item.
    pub closed spec fn wf(self) -> bool {
        &&& is_pow2(self.data@.len() as usize)
        &&& self.write_head < self.data@.len()
        &&& self.read_head < self.data@.len()
        &&& forall|k: int|
            0 <= k < self.count() ==> (#[trigger] self.data@[ring_slot(
                self.read_head as int,
                k,
                self.slots(),
            )]) is Some
    }

    /// The largest number of items the buffer holds.
    pub open spec fn capacity(self) -> int {
        self.slots() - 1
    }

    /// An empty buffer with `capacity` slots.
    pub fn new(capacity: usize) -> (r: Self)
        requires
            is_pow2(capacity),
        ensures
            r.wf(),
            r.slots() == capacity,
            r.view() == Seq::<T>::empty(),
    {
        let mut data: Vec<Option<T>> = Vec::new();
        let mut i: usize = 0;
        while i < capacity
            invariant
                i <= capacity,
                data@.len() == i,
            decreases capacity - i,
        {
            data.push(None);
            i = i + 1;
        }
        RingBufferBox { write_head: 0, read_head: 0, data }
    }

    /// An empty buffer with `capacity` slots, as `new_in` with the global
    /// allocator.
    pub fn new_in(capacity: usize) -> (r: Self)
        requires
            is_pow2(capacity),
        ensures
            r.wf(),
            r.slots() == capacity,
            r.view() == Seq::<T>::empty(),
    {
        Self::new(capacity)
    }

    /// Appends `value` unless the buffer already holds `N - 1` items.
    pub fn try_insert(&mut self, value: T) -> (r: Result<(), BufError>)
        requires
            old(self).wf(),
        ensures
            final(self).wf(),
            final(self).slots() == old(self).slots(),
            old(self).view().len() == old(self).capacity() ==> r == Err::<(), BufError>(BufError::Full)
                && final(self).view() == old(self).view(),
            old(self).view().len() < old(self).capacity() ==> r is Ok && final(self).view() == old(
                self,
            ).view().push(value),
    {
        let len = self.data.len();
        let tip = self.write_head;
        let tail = self.read_head;
        let next = mod_power_of_2(tip + 1, len);
        if tail == next {
            return Err(BufError::Full);
        }
        let ghost old_view = self.view();
        let ghost c = self.count();
        assert(ring_slot(tail as int, c, self.slots()) == tip);
        self.data.set(tip, Some(value));
        self.write_head = next;
        assert(self.count() == c + 1);
        assert forall|k: int| 0 <= k < self.count() implies (#[trigger] self.data@[ring_slot(
            self.read_head as int,
            k,
            self.slots(),
        )]) is Some by {
            if k < c {
                assert(ring_slot(tail as int, k, self.slots()) != tip as int);
            }
        }
        assert(self.view() =~= old_view.push(value)) by {
            assert forall|k: int| 0 <= k < c implies self.view()[k] == old_view[k] by {
                assert(ring_slot(tail as int, k, self.slots()) != tip as int);
            }
        }
        Ok(())
    }

    /// Removes and returns the oldest item, or `None` when the buffer is empty.
    pub fn try_read(&mut self) -> (r: Option<T>)
        requires
            old(self).wf(),
        ensures
            final(self).wf(),
            final(self).slots() == old(self).slots(),
            old(self).view().len() == 0 ==> r is None && final(self).view() == old(self).view(),
            old(self).view().len() > 0 ==> r == Some(old(self).view()[0]) && final(self).view()
                == old(self).view().drop_first(),
    {
        let len = self.data.len();
        let read_head = self.read_head;
        let write_head = self.write_head;
        if read_head != write_head {
            let ghost old_view = self.view();
            let ghost c = self.count();
            assert(self.data@[ring_slot(read_head as int, 0, self.slots())] is Some);
            let data = self.data[read_head].take();
            let next_read = mod_power_of_2(read_head + 1, len);
            self.read_head = next_read;
            assert(self.count() == c - 1);
            assert forall|k: int| 0 <= k < self.count() implies (#[trigger] self.data@[ring_slot(
                self.read_head as int,
                k,
                self.slots(),
            )]) is Some by {
                assert(ring_slot(next_read as int, k, self.slots()) == ring_slot(
                    read_head as int,
                    k + 1,
                    self.slots(),
                ));
                assert(self.data@[ring_slot(read_head as int, k + 1, self.slots())] is Some);
            }
            assert(self.view() =~= old_view.drop_first()) by {
                assert forall|k: int| 0 <= k < c - 1 implies self.view()[k] == old_view[k + 1] by {
                    assert(ring_slot(next_read as int, k, self.slots()) == ring_slot(
                        read_head as int,
                        k + 1,
                        self.slots(),
                    ));
                }
            }
            data
        } else {
            None
        }
    }
}

} // verus!
