//! A bounded queue that gives up its oldest item to make room.

use std::collections::VecDeque;

use vstd::prelude::*;

use crate::arith::{count_up, saturate_count};

verus! {

/// A queue of at most `capacity` items.
#[derive(Debug)]
pub struct ChunkRing<T> {
    items: VecDeque<T>,
    capacity: usize,
    dropped: u64,
}

impl<T> ChunkRing<T> {
    /// The items, oldest first.
    pub closed spec fn items(&self) -> Seq<T> {
        self.items@
    }

    /// How many items the ring holds at most.
    pub closed spec fn capacity(&self) -> nat {
        self.capacity as nat
    }

    /// How many items it has given up.
    pub closed spec fn dropped(&self) -> u64 {
        self.dropped
    }

    /// The ring never holds more than its capacity, which is at least one.
    pub open spec fn wf(&self) -> bool {
        0 < self.capacity() && self.items().len() <= self.capacity()
    }

    /// Whether the next push gives up an item.
    pub open spec fn full(&self) -> bool {
        self.items().len() == self.capacity()
    }

    /// An empty ring.
    pub fn new(capacity: usize) -> (r: Self)
        requires
            capacity > 0,
        ensures
            r.wf(),
            r.items() == Seq::<T>::empty(),
            r.capacity() == capacity,
            r.dropped() == 0,
    {
        ChunkRing { items: VecDeque::new(), capacity, dropped: 0 }
    }

    /// Decides whether the next push gives up an item.
    pub fn is_full(&self) -> (r: bool)
        requires
            self.wf(),
        ensures
            r == self.full(),
    {
        self.items.len() == self.capacity
    }

    /// Appends an item. A full ring first gives up its oldest one; the new
    /// total of items given up is then returned.
    pub fn push(&mut self, item: T) -> (r: Option<u64>)
        requires
            old(self).wf(),
        ensures
            final(self).wf(),
            final(self).capacity() == old(self).capacity(),
            !old(self).full() ==> {
                &&& r is None
                &&& final(self).items() == old(self).items().push(item)
                &&& final(self).dropped() == old(self).dropped()
            },
            old(self).full() ==> {
                &&& r == Some(final(self).dropped())
                &&& final(self).items() == old(self).items().skip(1).push(item)
                &&& final(self).dropped() == saturate_count(old(self).dropped() + 1)
            },
    {
        if self.items.len() == self.capacity {
            let _ = self.items.pop_front();
            self.dropped = count_up(self.dropped, 1);
            self.items.push_back(item);
            Some(self.dropped)
        } else {
            self.items.push_back(item);
            None
        }
    }

    /// Takes the oldest item, if there is one.
    pub fn try_pop(&mut self) -> (r: Option<T>)
        requires
            old(self).wf(),
        ensures
            final(self).wf(),
            final(self).capacity() == old(self).capacity(),
            final(self).dropped() == old(self).dropped(),
            old(self).items().len() == 0 ==> r is None && final(self).items() == old(self).items(),
            old(self).items().len() > 0 ==> r == Some(old(self).items()[0]) && final(self).items()
                == old(self).items().skip(1),
    {
        self.items.pop_front()
    }

    /// The total of items given up.
    pub fn dropped_count(&self) -> (r: u64)
        ensures
            r == self.dropped(),
    {
        self.dropped
    }
}

} // verus!
