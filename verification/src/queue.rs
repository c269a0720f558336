//! The queue itself: a heap of at most `capacity` elements.

use crate::heap::{heap_ordered, insert, take_highest};
use crate::model::QueueModel;
use crate::order::lawful_order;
use vstd::prelude::*;

verus! {

/// Why an insertion was turned away.
#[derive(Debug, Clone, Copy, PartialEq, Eq, Structural)]
pub enum Error {
    /// The queue already holds as many elements as its capacity allows.
    QueueCapacityReached,
}

/// A priority queue with a fixed capacity.
///
/// Elements are ranked by `T`'s total order; [`pop`](Self::pop) hands out the
/// highest-ranked one. The value owns its elements and is changed through
/// `&mut self`: to share one queue between threads, keep it behind a lock
/// and let a consumer that finds it empty wait there until a producer has
/// pushed.
#[derive(Debug)]
pub struct PriorityBlockingQueue<T: Ord> {
    elements: Vec<T>,
    max_capacity: usize,
}

impl<T: Ord> View for PriorityBlockingQueue<T> {
    type V = QueueModel<T>;

    closed spec fn view(&self) -> QueueModel<T> {
        QueueModel { contents: self.elements@.to_multiset(), capacity: self.max_capacity as nat }
    }
}

impl<T: Ord> PriorityBlockingQueue<T> {
    /// The queue is in a state that its own operations can have left: it
    /// holds no more elements than its capacity allows, and they are stored
    /// so that the highest-ranked one is found at once.
    pub closed spec fn well_formed(&self) -> bool {
        &&& self.elements@.len() <= self.max_capacity
        &&& lawful_order::<T>() ==> heap_ordered(self.elements@)
    }

    /// A well-formed queue never holds more elements than its capacity.
    pub proof fn lemma_within_capacity(&self)
        requires
            self.well_formed(),
        ensures
            self@.within_capacity(),
    {
        vstd::seq_lib::to_multiset_len(self.elements@);
    }

    /// Makes an empty queue that accepts up to `max_capacity` elements, and
    /// sets storage for that many aside where the allocator grants it. With
    /// a capacity of zero every insertion is turned away.
    pub fn new(max_capacity: usize) -> (queue: Self)
        ensures
            queue.well_formed(),
            queue@ == QueueModel::<T>::empty(max_capacity as nat),
    {
        let mut elements: Vec<T> = Vec::new();
        let _ = elements.try_reserve(max_capacity);
        proof {
            vstd::seq_lib::to_multiset_len(elements@);
            vstd::multiset::lemma_multiset_empty_len(elements@.to_multiset());
        }
        PriorityBlockingQueue { elements, max_capacity }
    }

    /// The number of elements waiting in the queue.
    pub fn len(&self) -> (count: usize)
        ensures
            count == self@.len(),
    {
        proof {
            vstd::seq_lib::to_multiset_len(self.elements@);
        }
        self.elements.len()
    }

    /// Inserts `t`, unless the queue is full: then the queue stays as it is
    /// and the answer is [`Error::QueueCapacityReached`].
    pub fn push(&mut self, t: T) -> (outcome: Result<(), Error>)
        requires
            old(self).well_formed(),
        ensures
            final(self).well_formed(),
            outcome == old(self)@.push_outcome(),
            final(self)@ == old(self)@.pushed(t),
    {
        proof {
            vstd::seq_lib::to_multiset_len(self.elements@);
        }
        if self.elements.len() >= self.max_capacity {
            Err(Error::QueueCapacityReached)
        } else {
            insert(&mut self.elements, t);
            proof {
                vstd::seq_lib::to_multiset_len(self.elements@);
            }
            Ok(())
        }
    }

    /// Removes the highest-ranked element and returns it.
    ///
    /// The queue must hold an element. An empty queue has nothing to hand
    /// out, and while it is borrowed here nobody else can put anything in:
    /// where that can happen, ask with [`try_pop`](Self::try_pop).
    pub fn pop(&mut self) -> (highest: T)
        requires
            old(self).well_formed(),
            old(self)@.len() > 0,
        ensures
            final(self).well_formed(),
            old(self)@.is_highest(highest),
            final(self)@ == old(self)@.without(highest),
    {
        proof {
            vstd::seq_lib::to_multiset_len(self.elements@);
        }
        let highest = take_highest(&mut self.elements);
        proof {
            vstd::seq_lib::to_multiset_len(self.elements@);
        }
        highest
    }

    /// Removes the highest-ranked element if there is one. `None` says that
    /// the queue is empty and was left so: a consumer that may wait for a
    /// producer does so and then asks again.
    pub fn try_pop(&mut self) -> (taken: Option<T>)
        requires
            old(self).well_formed(),
        ensures
            final(self).well_formed(),
            match taken {
                Some(highest) => {
                    &&& old(self)@.is_highest(highest)
                    &&& final(self)@ == old(self)@.without(highest)
                },
                None => {
                    &&& old(self)@.len() == 0
                    &&& final(self)@ == old(self)@
                },
            },
    {
        if self.len() == 0 {
            None
        } else {
            Some(self.pop())
        }
    }
}

} // verus!
