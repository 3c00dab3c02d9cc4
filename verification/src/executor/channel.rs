//! A single threaded channel between one writer and one reader.
//!
//! The queue is kept as a read head and a length, so no slot is wasted to tell
//! a full ring from an empty one. Which end is still alive is given to the
//! operations that depend on it as the number of live handles to the shared
//! state: one means the other end has been dropped.
use super::{is_pow2, lemma_pow2_sum_fits, mod_power_of_2, ring_slot};
use vstd::prelude::*;

verus! {

/// The errors of channel operations.
#[derive(Clone, Copy, PartialEq, Eq, Structural, Debug, Hash)]
pub enum ChannelError {
    /// The other end of the channel has been dropped.
    Closed,
    /// The channel holds as many items as it has room for.
    Full,
}

/// The outcome of one attempt to write, as a future polled once.
#[derive(PartialEq, Eq, Debug)]
pub enum WritePoll<T> {
    /// The write finished with this result.
    Ready(Result<(), ChannelError>),
    /// The channel is full: the value is handed back, to be written once the
    /// reader has made room.
    Pending(T),
}

/// The outcome of one attempt to read, as a future polled once.
#[derive(PartialEq, Eq, Debug)]
pub enum ReadPoll<T> {
    /// The read finished with this result.
    Ready(Result<T, ChannelError>),
    /// The channel is empty but the writer is alive: wait for it.
    Pending,
}

/// The state shared by the two ends of a channel.
pub struct Channel<T> {
    read_head: usize,
    length: usize,
    data: Vec<Option<T>>,
}

impl<T> Channel<T> {
    /// The number of slots.
    pub closed spec fn slots(self) -> int {
        self.data@.len() as int
    }

    /// The items queued, oldest first.
    pub closed spec fn view(self) -> Seq<T> {
        Seq::new(
            self.length as nat,
            |k: int| self.data@[ring_slot(self.read_head as int, k, self.slots())]->Some_0,
        )
    }

    /// The read head lies in the ring, the length fits and every queued slot
    /// holds an item.
    pub closed spec fn wf(self) -> bool {
        &&& is_pow2(self.data@.len() as usize)
        &&& self.read_head < self.data@.len()
        &&& self.length <= self.data@.len()
        &&& forall|k: int|
            0 <= k < self.length ==> (#[trigger] self.data@[ring_slot(
                self.read_head as int,
                k,
                self.slots(),
            )]) is Some
    }

    /// An empty channel with room for `capacity` items.
    pub fn new_with_capacity(capacity: usize) -> (r: Self)
        requires
            is_pow2(capacity),
        ensures
            r.wf(),
            r.slots() == capacity,
            r.view() == Seq::<T>::empty(),
    {
        let mut data: Vec<Option<T>> = Vec::new();
        let mut i: usize = 0;
        while i < capacity
            invariant
                i <= capacity,
                data@.len() == i,
            decreases capacity - i,
        {
            data.push(None);
            i = i + 1;
        }
        Channel { read_head: 0, length: 0, data }
    }

    /// Whether the channel holds no item.
    pub fn is_empty(&self) -> (r: bool)
        requires
            self.wf(),
        ensures
            r == (self.view().len() == 0),
    {
        self.length == 0
    }

    /// Whether the channel holds as many items as it has slots.
    pub fn is_full(&self) -> (r: bool)
        requires
            self.wf(),
        ensures
            r == (self.view().len() == self.slots()),
    {
        self.length == self.data.len()
    }

    /// Removes and returns the oldest item, or `None` when there is none.
    pub fn read(&mut self) -> (r: Option<T>)
        requires
            old(self).wf(),
        ensures
            final(self).wf(),
            final(self).slots() == old(self).slots(),
            old(self).view().len() == 0 ==> r is None && final(self).view() == old(self).view(),
            old(self).view().len() > 0 ==> r == Some(old(self).view()[0]) && final(self).view()
                == old(self).view().drop_first(),
    {
        if self.length == 0 {
            None
        } else {
            let len = self.data.len();
            let ghost old_view = self.view();
            let rh = self.read_head;
            assert(self.data@[ring_slot(rh as int, 0, self.slots())] is Some);
            self.length = self.length - 1;
            let data = self.data[rh].take();
            self.read_head = mod_power_of_2(rh + 1, len);
            assert forall|k: int| 0 <= k < self.length implies (#[trigger] self.data@[ring_slot(
                self.read_head as int,
                k,
                self.slots(),
            )]) is Some by {
                assert(ring_slot(self.read_head as int, k, self.slots()) == ring_slot(
                    rh as int,
                    k + 1,
                    self.slots(),
                ));
            }
            assert(self.view() =~= old_view.drop_first()) by {
                assert forall|k: int| 0 <= k < self.length implies self.view()[k] == old_view[k
                    + 1] by {
                    assert(ring_slot(self.read_head as int, k, self.slots()) == ring_slot(
                        rh as int,
                        k + 1,
                        self.slots(),
                    ));
                }
            }
            data
        }
    }

    /// Appends `value`, or fails with `Full` when there is no room.
    pub fn write(&mut self, value: T) -> (r: Result<(), ChannelError>)
        requires
            old(self).wf(),
        ensures
            final(self).wf(),
            final(self).slots() == old(self).slots(),
            old(self).view().len() == old(self).slots() ==> r == Err::<(), ChannelError>(
                ChannelError::Full,
            ) && final(self).view() == old(self).view(),
            old(self).view().len() < old(self).slots() ==> r is Ok && final(self).view() == old(
                self,
            ).view().push(value),
    {
        if self.is_full() {
            Err(ChannelError::Full)
        } else {
            self.write_assume_not_full(value);
            Ok(())
        }
    }

    /// Appends `value` to a channel that is not full.
    pub fn write_assume_not_full(&mut self, value: T)
        requires
            old(self).wf(),
            old(self).view().len() < old(self).slots(),
        ensures
            final(self).wf(),
            final(self).slots() == old(self).slots(),
            final(self).view() == old(self).view().push(value),
    {
        let len = self.data.len();
        let ghost old_view = self.view();
        let ghost c = self.length as int;
        proof {
            lemma_pow2_sum_fits(len);
        }
        let slot = mod_power_of_2(self.read_head + self.length, len);
        assert(slot == ring_slot(self.read_head as int, c, self.slots()));
        self.data.set(slot, Some(value));
        self.length = self.length + 1;
        assert forall|k: int| 0 <= k < self.length implies (#[trigger] self.data@[ring_slot(
            self.read_head as int,
            k,
            self.slots(),
        )]) is Some by {
            if k < c {
                assert(ring_slot(self.read_head as int, k, self.slots()) != slot as int);
            }
        }
        assert(self.view() =~= old_view.push(value)) by {
            assert forall|k: int| 0 <= k < c implies self.view()[k] == old_view[k] by {
                assert(ring_slot(self.read_head as int, k, self.slots()) != slot as int);
            }
        }
    }

    /// Reads without waiting, for a reader whose shared state has
    /// `strong_count` live handles: the oldest item if there is one, else
    /// `Closed` when the writer has been dropped, else `None`.
    pub fn read_immediate(&mut self, strong_count: usize) -> (r: Result<Option<T>, ChannelError>)
        requires
            old(self).wf(),
        ensures
            final(self).wf(),
            final(self).slots() == old(self).slots(),
            old(self).view().len() > 0 ==> r == Ok::<Option<T>, ChannelError>(
                Some(old(self).view()[0]),
            ) && final(self).view() == old(self).view().drop_first(),
            old(self).view().len() == 0 ==> final(self).view() == old(self).view() && (if strong_count
                == 1 {
                r == Err::<Option<T>, ChannelError>(ChannelError::Closed)
            } else {
                r == Ok::<Option<T>, ChannelError>(None)
            }),
    {
        match self.read() {
            Some(x) => Ok(Some(x)),
            None => {
                if strong_count == 1 {
                    Err(ChannelError::Closed)
                } else {
                    Ok(None)
                }
            },
        }
    }

    /// Writes without waiting, as the writer's `write_immediate`.
    pub fn write_immediate(&mut self, value: T) -> (r: Result<(), ChannelError>)
        requires
            old(self).wf(),
        ensures
            final(self).wf(),
            final(self).slots() == old(self).slots(),
            old(self).view().len() == old(self).slots() ==> r == Err::<(), ChannelError>(
                ChannelError::Full,
            ) && final(self).view() == old(self).view(),
            old(self).view().len() < old(self).slots() ==> r is Ok && final(self).view() == old(
                self,
            ).view().push(value),
    {
        self.write(value)
    }

    /// One poll of the writer's `write` future: `Closed` once the reader has
    /// been dropped, `Pending` with the value handed back while the channel is
    /// full, else the value is appended.
    pub fn poll_write(&mut self, strong_count: usize, value: T) -> (r: WritePoll<T>)
        requires
            old(self).wf(),
        ensures
            final(self).wf(),
            final(self).slots() == old(self).slots(),
            strong_count == 1 ==> r == WritePoll::<T>::Ready(Err(ChannelError::Closed))
                && final(self).view() == old(self).view(),
            strong_count != 1 && old(self).view().len() == old(self).slots() ==> r
                == WritePoll::<T>::Pending(value) && final(self).view() == old(self).view(),
            strong_count != 1 && old(self).view().len() < old(self).slots() ==> r
                == WritePoll::<T>::Ready(Ok(())) && final(self).view() == old(self).view().push(
                value,
            ),
    {
        if strong_count == 1 {
            return WritePoll::Ready(Err(ChannelError::Closed));
        }
        if self.is_full() {
            return WritePoll::Pending(value);
        }
        self.write_assume_not_full(value);
        WritePoll::Ready(Ok(()))
    }

    /// One poll of the reader's `read` future: the oldest item if there is
    /// one, else `Closed` once the writer has been dropped, else `Pending`.
    pub fn poll_read(&mut self, strong_count: usize) -> (r: ReadPoll<T>)
        requires
            old(self).wf(),
        ensures
            final(self).wf(),
            final(self).slots() == old(self).slots(),
            old(self).view().len() > 0 ==> r == ReadPoll::<T>::Ready(Ok(old(self).view()[0]))
                && final(self).view() == old(self).view().drop_first(),
            old(self).view().len() == 0 ==> final(self).view() == old(self).view() && (if strong_count
                == 1 {
                r == ReadPoll::<T>::Ready(Err(ChannelError::Closed))
            } else {
                r == ReadPoll::<T>::Pending
            }),
    {
        match self.read() {
            Some(x) => ReadPoll::Ready(Ok(x)),
            None => {
                if strong_count == 1 {
                    ReadPoll::Ready(Err(ChannelError::Closed))
                } else {
                    ReadPoll::Pending
                }
            },
        }
    }
}

/// A new channel with room for `capacity` items, whose capacity must be a
/// power of two.
pub fn new_with_capacity<T>(capacity: usize) -> (r: Channel<T>)
    requires
        is_pow2(capacity),
    ensures
        r.wf(),
        r.slots() == capacity,
        r.view() == Seq::<T>::empty(),
{
    Channel::new_with_capacity(capacity)
}

} // verus!
