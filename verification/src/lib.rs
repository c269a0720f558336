//! A capacity-bounded priority queue: elements are ranked by their total
//! order, the highest-ranked element leaves first, and an insertion into a
//! full queue is turned away instead of growing the store.
//!
//! * [`queue`] holds the queue and its operations.
//! * [`model`] says what a queue is, apart from how it is stored: the
//!   elements that wait in it and its capacity.
//! * [`order`] says what ranking means for an element type.
//! * [`history`] describes sequences of operations, and [`laws`] proves what
//!   holds of all of them: elements leave in descending order, a queue fills
//!   up exactly at its capacity, and every element that went in comes out
//!   once.

mod heap;
pub mod history;
pub mod laws;
pub mod model;
pub mod order;
pub mod queue;

pub use model::QueueModel;
pub use queue::{Error, PriorityBlockingQueue};
