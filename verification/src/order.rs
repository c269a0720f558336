//! The ranking of elements: what it means for one element to rank no higher
//! than another, and the facts about that relation the queue relies on.

use core::cmp::Ordering;
use vstd::prelude::*;
use vstd::std_specs::cmp::{OrdSpec, PartialOrdSpec};

verus! {

/// `T`'s comparison behaves as a total order: it is deterministic, the
/// partial and total comparisons agree with each other and with equality
/// testing, and "less" and "greater" are transitive mirror images.
pub open spec fn lawful_order<T: Ord>() -> bool {
    vstd::laws_cmp::obeys_cmp::<T>()
}

/// `a` ranks no higher than `b`.
pub open spec fn ranks_le<T: Ord>(a: T, b: T) -> bool {
    a.cmp_spec(&b) != Ordering::Greater
}

/// Every element ranks no higher than itself.
pub proof fn lemma_ranks_le_reflexive<T: Ord>(a: T)
    requires
        lawful_order::<T>(),
    ensures
        ranks_le(a, a),
{
    reveal(vstd::laws_cmp::obeys_cmp_ord);
    reveal(vstd::laws_cmp::obeys_partial_cmp_spec_properties);
    assert(a.partial_cmp_spec(&a) == Some(a.cmp_spec(&a)));
}

/// Of any two elements, one ranks no higher than the other.
pub proof fn lemma_ranks_le_total<T: Ord>(a: T, b: T)
    requires
        lawful_order::<T>(),
    ensures
        ranks_le(a, b) || ranks_le(b, a),
{
    reveal(vstd::laws_cmp::obeys_cmp_ord);
    reveal(vstd::laws_cmp::obeys_partial_cmp_spec_properties);
    assert(a.partial_cmp_spec(&b) == Some(a.cmp_spec(&b)));
    assert(b.partial_cmp_spec(&a) == Some(b.cmp_spec(&a)));
}

/// Ranking is transitive.
pub proof fn lemma_ranks_le_transitive<T: Ord>(a: T, b: T, c: T)
    requires
        lawful_order::<T>(),
        ranks_le(a, b),
        ranks_le(b, c),
    ensures
        ranks_le(a, c),
{
    reveal(vstd::laws_cmp::obeys_cmp_ord);
    reveal(vstd::laws_cmp::obeys_cmp_partial_ord);
    reveal(vstd::laws_cmp::obeys_partial_cmp_spec_properties);
    reveal(vstd::laws_eq::obeys_eq_spec_properties);
    assert(a.partial_cmp_spec(&b) == Some(a.cmp_spec(&b)));
    assert(b.partial_cmp_spec(&c) == Some(b.cmp_spec(&c)));
    assert(a.partial_cmp_spec(&c) == Some(a.cmp_spec(&c)));
    assert(c.partial_cmp_spec(&a) == Some(c.cmp_spec(&a)));
    assert(c.partial_cmp_spec(&b) == Some(c.cmp_spec(&b)));
    assert(b.partial_cmp_spec(&a) == Some(b.cmp_spec(&a)));
}

/// Tells whether `a` ranks strictly higher than `b`.
pub fn outranks<T: Ord>(a: &T, b: &T) -> (higher: bool)
    ensures
        lawful_order::<T>() ==> higher == !ranks_le(*a, *b),
{
    proof {
        reveal(vstd::laws_cmp::obeys_cmp_ord);
    }
    match a.cmp(b) {
        Ordering::Greater => true,
        _ => false,
    }
}

} // verus!
