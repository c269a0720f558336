//! The abstract state of a queue: which elements it holds, how many times
//! each, and how many it may hold at most.

use crate::order::{lawful_order, ranks_le};
use crate::queue::Error;
use vstd::multiset::Multiset;
use vstd::prelude::*;

verus! {

/// What a queue is, apart from how it is stored.
pub struct QueueModel<T> {
    /// The elements waiting in the queue, each as often as it was inserted
    /// and not yet removed.
    pub contents: Multiset<T>,
    /// The number of elements the queue accepts before it turns insertions
    /// away. Fixed when the queue is made.
    pub capacity: nat,
}

impl<T: Ord> QueueModel<T> {
    /// The queue without elements that accepts up to `capacity` of them.
    pub open spec fn empty(capacity: nat) -> Self {
        QueueModel { contents: Multiset::empty(), capacity }
    }

    /// The number of elements waiting.
    pub open spec fn len(self) -> nat {
        self.contents.len()
    }

    /// The queue holds no more elements than its capacity allows.
    pub open spec fn within_capacity(self) -> bool {
        self.contents.len() <= self.capacity
    }

    /// The queue has no room for another element.
    pub open spec fn is_full(self) -> bool {
        self.contents.len() >= self.capacity
    }

    /// What an insertion answers: it is turned away exactly when the queue
    /// is full.
    pub open spec fn push_outcome(self) -> Result<(), Error> {
        if self.is_full() {
            Err(Error::QueueCapacityReached)
        } else {
            Ok(())
        }
    }

    /// The state an insertion of `value` leaves: one more occurrence of
    /// `value`, or the same state where the queue was full.
    pub open spec fn pushed(self, value: T) -> Self {
        if self.is_full() {
            self
        } else {
            QueueModel { contents: self.contents.insert(value), capacity: self.capacity }
        }
    }

    /// `value` waits in the queue and nothing that waits there outranks it.
    /// Where several elements rank alike at the top, each of them qualifies.
    pub open spec fn is_highest(self, value: T) -> bool {
        &&& self.contents.contains(value)
        &&& lawful_order::<T>() ==> forall|e: T| #[trigger]
            self.contents.contains(e) ==> ranks_le(e, value)
    }

    /// The state a removal of `value` leaves: one occurrence of `value`
    /// fewer, everything else as it was.
    pub open spec fn without(self, value: T) -> Self {
        QueueModel { contents: self.contents.remove(value), capacity: self.capacity }
    }
}

} // verus!
