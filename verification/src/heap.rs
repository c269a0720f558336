//! A binary max-heap laid out in a vector: the element at index `i` has its
//! parent at index `(i - 1) / 2`, and no element outranks its parent.
//!
//! Elements are moved by exchanging a carried element with a slot of the
//! vector, so the operations work for element types that can be neither
//! copied nor default-constructed.

use crate::order::{
    lawful_order, lemma_ranks_le_reflexive, lemma_ranks_le_total, lemma_ranks_le_transitive,
    outranks, ranks_le,
};
use vstd::prelude::*;

verus! {

/// The element at index `i` ranks no higher than its parent.
pub(crate) open spec fn link_holds<T: Ord>(s: Seq<T>, i: int) -> bool {
    ranks_le(s[i], s[(i - 1) / 2])
}

/// No element of `s` outranks its parent.
pub(crate) open spec fn heap_ordered<T: Ord>(s: Seq<T>) -> bool {
    forall|i: int| 0 < i < s.len() ==> #[trigger] link_holds(s, i)
}

/// In a heap no element outranks the root.
pub(crate) proof fn lemma_root_is_highest<T: Ord>(s: Seq<T>, i: int)
    requires
        lawful_order::<T>(),
        heap_ordered(s),
        0 <= i < s.len(),
    ensures
        ranks_le(s[i], s[0]),
    decreases i,
{
    if i == 0 {
        lemma_ranks_le_reflexive(s[0]);
    } else {
        let p: int = (i - 1) / 2;
        assert(link_holds(s, i));
        lemma_root_is_highest(s, p);
        lemma_ranks_le_transitive(s[i], s[p], s[0]);
    }
}

/// A heap stays a heap when its last element is taken away.
pub(crate) proof fn lemma_prefix_is_heap<T: Ord>(s: Seq<T>)
    requires
        heap_ordered(s),
        s.len() > 0,
    ensures
        heap_ordered(s.drop_last()),
{
    let t = s.drop_last();
    assert forall|i: int| 0 < i < t.len() implies #[trigger] link_holds(t, i) by {
        assert(link_holds(s, i));
    }
}

/// Prepares a heap for a new element at index `slot`: walks the path from
/// the root to `slot`, leaving in each node the higher of the node's element
/// and the carried one and carrying the other further down. What is carried
/// at the end fits at `slot`.
pub(crate) fn settle_along_path<T: Ord>(v: &mut Vec<T>, carried: &mut T, slot: usize)
    requires
        slot <= old(v)@.len(),
        lawful_order::<T>() ==> heap_ordered(old(v)@),
    ensures
        final(v)@.len() == old(v)@.len(),
        final(v)@.to_multiset().insert(*final(carried)) == old(v)@.to_multiset().insert(
            *old(carried),
        ),
        lawful_order::<T>() ==> heap_ordered(final(v)@),
        lawful_order::<T>() && slot > 0 ==> ranks_le(*final(carried), final(v)@[(slot - 1) / 2]),
    decreases slot,
{
    if slot > 0 {
        let p: usize = (slot - 1) / 2;
        settle_along_path(v, carried, p);
        let ghost before = v@;
        let ghost held = *carried;
        if outranks(carried, &v[p]) {
            v.set_and_swap(p, carried);
            proof {
                vstd::seq_lib::to_multiset_update(before, p as int, held);
                assert(before.to_multiset().contains(before[p as int])) by {
                    vstd::seq_lib::to_multiset_contains(before, before[p as int]);
                    assert(before.contains(before[p as int]));
                }
                assert(v@.to_multiset().insert(*carried) =~= before.to_multiset().insert(held));
                if lawful_order::<T>() {
                    lemma_ranks_le_total(held, before[p as int]);
                    assert forall|i: int| 0 < i < v@.len() implies #[trigger] link_holds(
                        v@,
                        i,
                    ) by {
                        assert(link_holds(before, i));
                        if (i - 1) / 2 == p as int {
                            lemma_ranks_le_transitive(before[i], before[p as int], held);
                        }
                    }
                }
            }
        }
    }
}

/// Adds `value` to a heap.
pub(crate) fn insert<T: Ord>(v: &mut Vec<T>, value: T)
    requires
        lawful_order::<T>() ==> heap_ordered(old(v)@),
    ensures
        final(v)@.len() == old(v)@.len() + 1,
        final(v)@.to_multiset() == old(v)@.to_multiset().insert(value),
        lawful_order::<T>() ==> heap_ordered(final(v)@),
{
    let mut carried = value;
    let slot: usize = v.len();
    settle_along_path(v, &mut carried, slot);
    let ghost settled = v@;
    v.push(carried);
    proof {
        vstd::seq_lib::to_multiset_build(settled, carried);
        if lawful_order::<T>() {
            assert forall|i: int| 0 < i < v@.len() implies #[trigger] link_holds(v@, i) by {
                if i < settled.len() {
                    assert(link_holds(settled, i));
                }
            }
        }
    }
}

/// The index of the higher-ranked child of the node at `top`; the left one
/// where the two rank alike or the right one is missing.
pub(crate) open spec fn higher_child<T: Ord>(s: Seq<T>, top: int) -> int {
    let left = 2 * top + 1;
    if left + 1 < s.len() && !ranks_le(s[left + 1], s[left]) {
        left + 1
    } else {
        left
    }
}

/// Neither child of `top` outranks its higher child.
pub(crate) proof fn lemma_higher_child_is_highest<T: Ord>(s: Seq<T>, top: int, i: int)
    requires
        lawful_order::<T>(),
        0 <= top,
        0 < i < s.len(),
        (i - 1) / 2 == top,
    ensures
        0 < higher_child(s, top) < s.len(),
        (higher_child(s, top) - 1) / 2 == top,
        ranks_le(s[i], s[higher_child(s, top)]),
{
    let left: int = 2 * top + 1;
    let c: int = higher_child(s, top);
    assert(i == left || i == left + 1);
    if i == c {
        lemma_ranks_le_reflexive(s[i]);
    } else if c == left {
        assert(ranks_le(s[left + 1], s[left]));
    } else {
        lemma_ranks_le_total(s[left + 1], s[left]);
    }
}

/// Puts `carried` into the subtree rooted at `top` in place of that subtree's
/// root, which is handed back in `carried`. The higher child moves up for as
/// long as it outranks the carried element.
pub(crate) fn replace_top<T: Ord>(v: &mut Vec<T>, carried: &mut T, top: usize)
    requires
        top < old(v)@.len(),
        lawful_order::<T>() ==> heap_ordered(old(v)@),
        lawful_order::<T>() ==> ranks_le(*old(carried), old(v)@[top as int]),
    ensures
        final(v)@.len() == old(v)@.len(),
        *final(carried) == old(v)@[top as int],
        final(v)@.to_multiset().insert(old(v)@[top as int]) == old(v)@.to_multiset().insert(
            *old(carried),
        ),
        forall|j: int| 0 <= j < top ==> final(v)@[j] == old(v)@[j],
        lawful_order::<T>() ==> heap_ordered(final(v)@),
        lawful_order::<T>() ==> forall|j: int|
            0 <= j < old(v)@.len() ==> ranks_le(#[trigger] final(v)@[j], old(v)@[j]),
    decreases old(v)@.len() - top,
{
    let n: usize = v.len();
    let ghost start = v@;
    let ghost incoming = *carried;
    let mut descended = false;
    if top < n / 2 {
        let left: usize = 2 * top + 1;
        let right: usize = left + 1;
        let child: usize = if right < n && outranks(&v[right], &v[left]) {
            right
        } else {
            left
        };
        if outranks(&v[child], carried) {
            proof {
                if lawful_order::<T>() {
                    lemma_ranks_le_total(start[child as int], incoming);
                }
            }
            replace_top(v, carried, child);
            descended = true;
        }
    }
    let ghost sunk = v@;
    let ghost rising = *carried;
    v.set_and_swap(top, carried);
    proof {
        vstd::seq_lib::to_multiset_update(sunk, top as int, rising);
        vstd::seq_lib::to_multiset_contains(sunk, sunk[top as int]);
        assert(sunk.contains(sunk[top as int]));
        assert(v@.to_multiset().insert(start[top as int]) =~= start.to_multiset().insert(
            incoming,
        ));
        if lawful_order::<T>() {
            let c: int = higher_child(start, top as int);
            assert(ranks_le(rising, start[top as int])) by {
                if descended {
                    assert(link_holds(start, c));
                }
            }
            assert forall|j: int| 0 <= j < n implies ranks_le(#[trigger] v@[j], start[j]) by {
                if j != top && !descended {
                    lemma_ranks_le_reflexive(start[j]);
                }
            }
            assert forall|i: int| 0 < i < v@.len() implies #[trigger] link_holds(v@, i) by {
                let p: int = (i - 1) / 2;
                assert(link_holds(start, i));
                assert(link_holds(sunk, i));
                if i == top {
                    lemma_ranks_le_transitive(rising, start[i], start[p]);
                } else if p == top {
                    lemma_higher_child_is_highest(start, top as int, i);
                    if descended {
                        lemma_ranks_le_transitive(sunk[i], start[i], start[c]);
                    } else {
                        lemma_ranks_le_transitive(start[i], start[c], incoming);
                    }
                }
            }
        }
    }
}

/// Takes the highest-ranked element out of a non-empty heap.
pub(crate) fn take_highest<T: Ord>(v: &mut Vec<T>) -> (highest: T)
    requires
        old(v)@.len() > 0,
        lawful_order::<T>() ==> heap_ordered(old(v)@),
    ensures
        final(v)@.len() == old(v)@.len() - 1,
        old(v)@.to_multiset().contains(highest),
        final(v)@.to_multiset() == old(v)@.to_multiset().remove(highest),
        lawful_order::<T>() ==> heap_ordered(final(v)@),
        lawful_order::<T>() ==> forall|e: T| #[trigger]
            old(v)@.to_multiset().contains(e) ==> ranks_le(e, highest),
{
    let ghost start = v@;
    let mut carried = v.pop().unwrap();
    proof {
        assert(start =~= v@.push(carried));
        vstd::seq_lib::to_multiset_build(v@, carried);
        if lawful_order::<T>() {
            lemma_prefix_is_heap(start);
            lemma_root_is_highest(start, start.len() - 1);
        }
    }
    if v.len() > 0 {
        replace_top(v, &mut carried, 0);
    }
    proof {
        assert(v@.to_multiset() =~= start.to_multiset().remove(carried));
        assert(carried == start[0]);
        vstd::seq_lib::to_multiset_contains(start, carried);
        assert(start.contains(carried));
        if lawful_order::<T>() {
            assert forall|e: T| #[trigger]
                start.to_multiset().contains(e) implies ranks_le(e, carried) by {
                vstd::seq_lib::to_multiset_contains(start, e);
                let i: int = choose|i: int| 0 <= i < start.len() && start[i] == e;
                lemma_root_is_highest(start, i);
            }
        }
    }
    carried
}

} // verus!
