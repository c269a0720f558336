//! Histories: what a queue goes through when operations are applied to it
//! one after another, in whatever order their callers come to it.

use crate::model::QueueModel;
use vstd::multiset::Multiset;
use vstd::prelude::*;

verus! {

/// One completed operation, with what it answered.
pub enum Event<T> {
    /// An insertion of this value, which was accepted.
    Pushed(T),
    /// An insertion of this value, which was turned away for want of room.
    Rejected(T),
    /// A removal, which handed out this value.
    Popped(T),
}

impl<T: Ord> QueueModel<T> {
    /// An operation on a queue in this state can end as `event` says.
    pub open spec fn admits(self, event: Event<T>) -> bool {
        match event {
            Event::Pushed(_) => self.push_outcome() is Ok,
            Event::Rejected(_) => self.push_outcome() is Err,
            Event::Popped(value) => self.is_highest(value),
        }
    }

    /// The state in which `event` leaves a queue that was in this state.
    pub open spec fn after(self, event: Event<T>) -> Self {
        match event {
            Event::Pushed(value) => self.pushed(value),
            Event::Rejected(_) => self,
            Event::Popped(value) => self.without(value),
        }
    }
}

/// `states` are the states a queue passes through while the operations of
/// `history` complete in this order: each event is one its state admits, and
/// leads to the next state.
pub open spec fn is_run<T: Ord>(states: Seq<QueueModel<T>>, history: Seq<Event<T>>) -> bool {
    &&& states.len() == history.len() + 1
    &&& forall|i: int|
        #![trigger history[i]]
        0 <= i < history.len() ==> states[i].admits(history[i]) && states[i + 1]
            == states[i].after(history[i])
}

/// The values that the accepted insertions of `history` put in, each as
/// often as it was put in.
pub open spec fn inserted<T>(history: Seq<Event<T>>) -> Multiset<T>
    decreases history.len(),
{
    if history.len() == 0 {
        Multiset::empty()
    } else {
        let earlier = inserted(history.drop_last());
        match history.last() {
            Event::Pushed(value) => earlier.insert(value),
            _ => earlier,
        }
    }
}

/// The values that the removals of `history` handed out, each as often as
/// it was handed out.
pub open spec fn delivered<T>(history: Seq<Event<T>>) -> Multiset<T>
    decreases history.len(),
{
    if history.len() == 0 {
        Multiset::empty()
    } else {
        let earlier = delivered(history.drop_last());
        match history.last() {
            Event::Popped(value) => earlier.insert(value),
            _ => earlier,
        }
    }
}

/// The history in which `values` are inserted in turn, each successfully.
pub open spec fn pushes<T>(values: Seq<T>) -> Seq<Event<T>> {
    Seq::new(values.len(), |i: int| Event::Pushed(values[i]))
}

/// The history of removals that hand out `values` in turn.
pub open spec fn pops<T>(values: Seq<T>) -> Seq<Event<T>> {
    Seq::new(values.len(), |i: int| Event::Popped(values[i]))
}

} // verus!
