//! What holds of every queue, whatever is done to it and in whatever order.

use crate::history::{delivered, inserted, is_run, pops, pushes, Event};
use crate::model::QueueModel;
use crate::order::{lawful_order, ranks_le};
use crate::queue::Error;
use vstd::multiset::Multiset;
use vstd::prelude::*;

verus! {

/// A shorter history of the same queue: the first `k` operations of a run,
/// with the states they pass through, are a run as well.
pub proof fn lemma_run_prefix<T: Ord>(
    states: Seq<QueueModel<T>>,
    history: Seq<Event<T>>,
    k: int,
)
    requires
        is_run(states, history),
        0 <= k <= history.len(),
    ensures
        is_run(states.take(k + 1), history.take(k)),
{
    let shorter = history.take(k);
    assert forall|i: int| #![trigger shorter[i]] 0 <= i < shorter.len() implies states.take(
        k + 1,
    )[i].admits(shorter[i]) && states.take(k + 1)[i + 1] == states.take(k + 1)[i].after(
        shorter[i],
    ) by {
        assert(shorter[i] == history[i]);
    }
}

/// Throughout a run the capacity stays what it was, and a queue that
/// started with no more elements than its capacity never holds more.
pub proof fn lemma_capacity_is_kept<T: Ord>(
    states: Seq<QueueModel<T>>,
    history: Seq<Event<T>>,
    k: int,
)
    requires
        is_run(states, history),
        states[0].within_capacity(),
        0 <= k < states.len(),
    ensures
        states[k].capacity == states[0].capacity,
        states[k].within_capacity(),
    decreases k,
{
    if k > 0 {
        lemma_capacity_is_kept(states, history, k - 1);
        let before = states[k - 1];
        match history[k - 1] {
            Event::Popped(value) => {
                assert(Multiset::singleton(value).subset_of(before.contents));
            },
            _ => {},
        }
    }
}

/// Nothing is lost and nothing is doubled: at the end of a run, the
/// elements still waiting together with those handed out are the elements
/// that waited at the start together with those put in.
pub proof fn lemma_elements_are_conserved<T: Ord>(
    states: Seq<QueueModel<T>>,
    history: Seq<Event<T>>,
)
    requires
        is_run(states, history),
    ensures
        states.last().contents.add(delivered(history)) == states[0].contents.add(
            inserted(history),
        ),
    decreases history.len(),
{
    let n: int = history.len() as int;
    if n == 0 {
        assert(states.last().contents.add(delivered(history)) =~= states[0].contents.add(
            inserted(history),
        ));
    } else {
        lemma_run_prefix(states, history, n - 1);
        assert(history.take(n - 1) == history.drop_last());
        lemma_elements_are_conserved(states.take(n), history.drop_last());
        assert(states.take(n).last() == states[n - 1]);
        assert(states.take(n)[0] == states[0]);
        let before = states[n - 1];
        let earlier = history.drop_last();
        let kept = before.contents.add(delivered(earlier));
        assert(kept == states[0].contents.add(inserted(earlier)));
        assert(before.admits(history[n - 1]));
        assert(states.last() == before.after(history[n - 1]));
        assert forall|v: T|
            states.last().contents.add(delivered(history)).count(v) == states[0].contents.add(
                inserted(history),
            ).count(v) by {
            assert(kept.count(v) == before.contents.count(v) + delivered(earlier).count(v));
        }
        assert(states.last().contents.add(delivered(history)) =~= states[0].contents.add(
            inserted(history),
        ));
    }
}

/// Each element is handed out once: in a run that starts with an empty
/// queue, no value is handed out more often than it was put in; and where
/// as many elements were handed out as were put in, those handed out are
/// exactly those put in, and the queue is empty again.
pub proof fn lemma_each_element_is_delivered_once<T: Ord>(
    states: Seq<QueueModel<T>>,
    history: Seq<Event<T>>,
)
    requires
        is_run(states, history),
        states[0].contents == Multiset::<T>::empty(),
    ensures
        delivered(history).subset_of(inserted(history)),
        delivered(history).len() == inserted(history).len() ==> {
            &&& delivered(history) == inserted(history)
            &&& states.last().contents == Multiset::<T>::empty()
        },
{
    lemma_elements_are_conserved(states, history);
    let rest = states.last().contents;
    assert(rest.add(delivered(history)) =~= inserted(history));
    assert forall|v: T| delivered(history).count(v) <= inserted(history).count(v) by {
        assert(rest.add(delivered(history)).count(v) == rest.count(v) + delivered(
            history,
        ).count(v));
    }
    if delivered(history).len() == inserted(history).len() {
        assert(rest.add(delivered(history)).len() == rest.len() + delivered(history).len());
        vstd::multiset::lemma_multiset_empty_len(rest);
        assert(rest =~= Multiset::<T>::empty());
        assert(delivered(history) =~= inserted(history));
    }
}

/// A history of accepted insertions puts in the inserted values and hands
/// nothing out.
pub proof fn lemma_pushes_insert_their_values<T>(values: Seq<T>)
    ensures
        inserted(pushes(values)) == values.to_multiset(),
        delivered(pushes(values)) == Multiset::<T>::empty(),
    decreases values.len(),
{
    if values.len() == 0 {
        vstd::seq_lib::to_multiset_len(values);
        vstd::multiset::lemma_multiset_empty_len(values.to_multiset());
    } else {
        let earlier = values.drop_last();
        lemma_pushes_insert_their_values(earlier);
        assert(pushes(values).drop_last() == pushes(earlier));
        assert(values == earlier.push(values.last()));
        vstd::seq_lib::to_multiset_build(earlier, values.last());
    }
}

/// Removals that follow a history hand out their values and put nothing in.
pub proof fn lemma_pops_deliver_their_values<T>(history: Seq<Event<T>>, values: Seq<T>)
    ensures
        inserted(history + pops(values)) == inserted(history),
        delivered(history + pops(values)) == delivered(history).add(values.to_multiset()),
    decreases values.len(),
{
    if values.len() == 0 {
        vstd::seq_lib::to_multiset_len(values);
        vstd::multiset::lemma_multiset_empty_len(values.to_multiset());
        assert(history + pops(values) == history);
        assert(delivered(history).add(values.to_multiset()) =~= delivered(history));
    } else {
        let earlier = values.drop_last();
        lemma_pops_deliver_their_values(history, earlier);
        assert((history + pops(values)).drop_last() == history + pops(earlier));
        assert(values == earlier.push(values.last()));
        vstd::seq_lib::to_multiset_build(earlier, values.last());
        assert(delivered(history + pops(values)) =~= delivered(history).add(
            values.to_multiset(),
        ));
    }
}

/// While only removals complete, the queue holds nothing that it did not
/// hold before them.
pub proof fn lemma_removals_only_shrink<T: Ord>(
    states: Seq<QueueModel<T>>,
    history: Seq<Event<T>>,
    from: int,
    to: int,
)
    requires
        is_run(states, history),
        0 <= from <= to <= history.len(),
        forall|k: int| from <= k < to ==> #[trigger] history[k] is Popped,
    ensures
        states[to].contents.subset_of(states[from].contents),
    decreases to - from,
{
    if from < to {
        lemma_removals_only_shrink(states, history, from, to - 1);
        assert(history[to - 1] is Popped);
    }
}

/// Elements leave in descending order: where a queue has accepted a number
/// of insertions and then handed out as many elements, no element handed
/// out outranks one handed out before it. Where the queue was empty before
/// the insertions, those handed out are, taken together, those put in, and
/// the queue is empty again.
pub proof fn lemma_pops_come_in_descending_order<T: Ord>(
    states: Seq<QueueModel<T>>,
    pushed: Seq<T>,
    popped: Seq<T>,
)
    requires
        lawful_order::<T>(),
        is_run(states, pushes(pushed) + pops(popped)),
        popped.len() == pushed.len(),
    ensures
        forall|i: int, j: int| 0 <= i <= j < popped.len() ==> ranks_le(popped[j], popped[i]),
        states[0].contents == Multiset::<T>::empty() ==> {
            &&& popped.to_multiset() == pushed.to_multiset()
            &&& states.last().contents == Multiset::<T>::empty()
        },
{
    let history = pushes(pushed) + pops(popped);
    let n: int = pushed.len() as int;
    assert forall|i: int, j: int| 0 <= i <= j < popped.len() implies ranks_le(
        popped[j],
        popped[i],
    ) by {
        assert(history[n + i] == Event::Popped(popped[i]));
        assert(history[n + j] == Event::Popped(popped[j]));
        assert forall|k: int| n + i <= k < n + j implies #[trigger] history[k] is Popped by {
            assert(history[k] == Event::Popped(popped[k - n]));
        }
        lemma_removals_only_shrink(states, history, n + i, n + j);
        assert(states[n + j].contents.contains(popped[j]));
        assert(states[n + i].contents.contains(popped[j]));
    }
    if states[0].contents == Multiset::<T>::empty() {
        lemma_pushes_insert_their_values(pushed);
        lemma_pops_deliver_their_values(pushes(pushed), popped);
        lemma_each_element_is_delivered_once(states, history);
        vstd::seq_lib::to_multiset_len(pushed);
        vstd::seq_lib::to_multiset_len(popped);
        assert(delivered(history) =~= popped.to_multiset());
    }
}

/// A queue fills up at its capacity: after as many accepted insertions into
/// an empty queue as its capacity allows, it holds that many elements, and
/// a further insertion is turned away and leaves it as it is.
pub proof fn lemma_full_after_capacity_pushes<T: Ord>(
    states: Seq<QueueModel<T>>,
    pushed: Seq<T>,
    extra: T,
)
    requires
        is_run(states, pushes(pushed)),
        states[0] == QueueModel::<T>::empty(pushed.len()),
    ensures
        states.last().len() == pushed.len(),
        states.last().push_outcome() == Err::<(), Error>(Error::QueueCapacityReached),
        states.last().pushed(extra) == states.last(),
{
    lemma_elements_are_conserved(states, pushes(pushed));
    lemma_pushes_insert_their_values(pushed);
    lemma_capacity_is_kept(states, pushes(pushed), states.len() - 1);
    vstd::seq_lib::to_multiset_len(pushed);
    let waiting = states.last().contents;
    assert(waiting.add(Multiset::empty()) == Multiset::<T>::empty().add(pushed.to_multiset()));
    assert(waiting =~= waiting.add(Multiset::empty()));
    assert(pushed.to_multiset() =~= Multiset::<T>::empty().add(pushed.to_multiset()));
}

/// A removal makes room for one insertion and no more: where a queue has
/// turned an insertion away, it accepts the next one after an element was
/// handed out, and turns the one after that away again.
pub proof fn lemma_pop_frees_one_slot<T: Ord>(
    full: QueueModel<T>,
    popped: T,
    first: T,
    second: T,
)
    requires
        full.within_capacity(),
        full.push_outcome() is Err,
        full.is_highest(popped),
    ensures
        full.without(popped).push_outcome() is Ok,
        full.without(popped).pushed(first).contents == full.contents.remove(popped).insert(
            first,
        ),
        full.without(popped).pushed(first).push_outcome() is Err,
        full.without(popped).pushed(first).pushed(second) == full.without(popped).pushed(first),
{
    assert(Multiset::singleton(popped).subset_of(full.contents));
}

} // verus!
