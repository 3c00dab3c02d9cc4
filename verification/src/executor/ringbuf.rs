//! A queue with room for `N - 1` items in a ring of `N` slots, for `N` a power
//! of two.
use super::{is_pow2, mod_power_of_2, ring_slot};
use vstd::prelude::*;

verus! {

/// The error of inserting into a full buffer.
#[derive(Debug, PartialEq, Eq, Structural, Clone, Copy)]
pub enum BufError {
    /// There is no room for another item.
    Full,
}

/// A first-in first-out queue in `N` slots, holding at most `N - 1` items.
pub struct RingBuffer<T, const N: usize> {
    write_head: usize,
    read_head: usize,
    data: Vec<Option<T>>,
}

impl<T, const N: usize> RingBuffer<T, N> {
    /// The number of items queued.
    pub closed spec fn count(self) -> int {
        if self.write_head >= self.read_head {
            self.write_head - self.read_head
        } else {
            self.write_head + N - self.read_head
        }
    }

    /// The items queued, oldest first.
    pub closed spec fn view(self) -> Seq<T> {
        Seq::new(
            self.count() as nat,
            |k: int| self.data@[ring_slot(self.read_head as int, k, N as int)]->Some_0,
        )
    }

    /// The heads lie in the ring and every queued slot holds an item.
    pub closed spec fn wf(self) -> bool {
        &&& is_pow2(N)
        &&& self.data@.len() == N
        &&& self.write_head < N
        &&& self.read_head < N
        &&& forall|k: int|
            0 <= k < self.count() ==> (#[trigger] self.data@[ring_slot(
                self.read_head as int,
                k,
                N as int,
            )]) is Some
    }

    /// The largest number of items the buffer holds.
    pub open spec fn capacity() -> int {
        N - 1
    }

    /// An empty buffer.
    pub fn new() -> (r: Self)
        requires
            is_pow2(N),
        ensures
            r.wf(),
            r.view() == Seq::<T>::empty(),
    {
        let mut data: Vec<Option<T>> = Vec::new();
        let mut i: usize = 0;
        while i < N
            invariant
                i <= N,
                data@.len() == i,
            decreases N - i,
        {
            data.push(None);
            i = i + 1;
        }
        RingBuffer { write_head: 0, read_head: 0, data }
    }

    /// Appends `value` unless the buffer already holds `N - 1` items.
    pub fn try_insert(&mut self, value: T) -> (r: Result<(), BufError>)
        requires
            old(self).wf(),
        ensures
            final(self).wf(),
            old(self).view().len() == Self::capacity() ==> r == Err::<(), BufError>(BufError::Full)
                && final(self).view() == old(self).view(),
            old(self).view().len() < Self::capacity() ==> r is Ok && final(self).view() == old(
                self,
            ).view().push(value),
    {
        let tip = self.write_head;
        let tail = self.read_head;
        let next = mod_power_of_2(tip + 1, N);
        if tail == next {
            return Err(BufError::Full);
        }
        let ghost old_view = self.view();
        let ghost c = self.count();
        assert(ring_slot(tail as int, c, N as int) == tip);
        self.data.set(tip, Some(value));
        self.write_head = next;
        assert(self.count() == c + 1);
        assert forall|k: int| 0 <= k < self.count() implies (#[trigger] self.data@[ring_slot(
            self.read_head as int,
            k,
            N as int,
        )]) is Some by {
            if k < c {
                assert(ring_slot(tail as int, k, N as int) != tip as int);
            }
        }
        assert(self.view() =~= old_view.push(value)) by {
            assert forall|k: int| 0 <= k < c implies self.view()[k] == old_view[k] by {
                assert(ring_slot(tail as int, k, N as int) != tip as int);
            }
        }
        Ok(())
    }

    /// Removes and returns the oldest item, or `None` when the buffer is empty.
    pub fn try_read(&mut self) -> (r: Option<T>)
        requires
            old(self).wf(),
        ensures
            final(self).wf(),
            old(self).view().len() == 0 ==> r is None && final(self).view() == old(self).view(),
            old(self).view().len() > 0 ==> r == Some(old(self).view()[0]) && final(self).view()
                == old(self).view().drop_first(),
    {
        let read_head = self.read_head;
        let write_head = self.write_head;
        if read_head != write_head {
            let ghost old_view = self.view();
            let ghost c = self.count();
            assert(self.data@[ring_slot(read_head as int, 0, N as int)] is Some);
            let data = self.data[read_head].take();
            let next_read = mod_power_of_2(read_head + 1, N);
            self.read_head = next_read;
            assert(self.count() == c - 1);
            assert forall|k: int| 0 <= k < self.count() implies (#[trigger] self.data@[ring_slot(
                self.read_head as int,
                k,
                N as int,
            )]) is Some by {
                assert(ring_slot(next_read as int, k, N as int) == ring_slot(
                    read_head as int,
                    k + 1,
                    N as int,
                ));
                assert(self.data@[ring_slot(read_head as int, k + 1, N as int)] is Some);
            }
            assert(self.view() =~= old_view.drop_first()) by {
                assert forall|k: int| 0 <= k < c - 1 implies self.view()[k] == old_view[k + 1] by {
                    assert(ring_slot(next_read as int, k, N as int) == ring_slot(
                        read_head as int,
                        k + 1,
                        N as int,
                    ));
                }
            }
            data
        } else {
            None
        }
    }
}

} // verus!
