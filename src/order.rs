//! Priority orders that a heap can be built with.

use core::cmp::Ordering;
use vstd::laws_cmp::{obeys_cmp, obeys_cmp_ord, obeys_cmp_partial_ord, obeys_partial_cmp_spec_properties};
use vstd::laws_eq::obeys_eq_spec_properties;
use vstd::prelude::*;
use vstd::std_specs::cmp::{PartialEqSpec, PartialOrdSpec};

verus! {

/// A strategy that decides which of two elements has the higher priority.
///
/// The relation must be a strict weak order whenever `lawful()` holds:
/// irreflexive, transitive, and with "does not outrank" transitive too.
pub trait Comparator<T>: Sized {
    /// `a` has strictly higher priority than `b`.
    spec fn spec_outranks(a: T, b: T) -> bool;

    /// The conditions under which the order laws hold and `outranks` computes `spec_outranks`.
    spec fn lawful() -> bool;

    /// Nothing outranks itself.
    proof fn lemma_irreflexive(a: T)
        requires
            Self::lawful(),
        ensures
            !Self::spec_outranks(a, a),
    ;

    /// Outranking is transitive.
    proof fn lemma_transitive(a: T, b: T, c: T)
        requires
            Self::lawful(),
            Self::spec_outranks(a, b),
            Self::spec_outranks(b, c),
        ensures
            Self::spec_outranks(a, c),
    ;

    /// Not outranking is transitive too.
    proof fn lemma_not_outranked_transitive(a: T, b: T, c: T)
        requires
            Self::lawful(),
            !Self::spec_outranks(a, b),
            !Self::spec_outranks(b, c),
        ensures
            !Self::spec_outranks(a, c),
    ;

    /// Decides whether `a` has strictly higher priority than `b`.
    fn outranks(&self, a: &T, b: &T) -> (r: bool)
        requires
            Self::lawful(),
        ensures
            r == Self::spec_outranks(*a, *b),
    ;
}

/// Natural order, smallest element first.
pub struct MinFirst;

/// Natural order, largest element first.
pub struct MaxFirst;

/// What `obeys_cmp` says of `partial_cmp_spec` and `eq_spec`, with its opaque parts opened.
proof fn lemma_total_order_facts<T: Ord>()
    requires
        obeys_cmp::<T>(),
    ensures
        T::obeys_partial_cmp_spec(),
        forall|x: T, y: T|
            #![trigger x.partial_cmp_spec(&y)]
            x.partial_cmp_spec(&y) is Some,
        forall|x: T, y: T|
            #[trigger] x.partial_cmp_spec(&y) == Some(Ordering::Equal) <==> x.eq_spec(&y),
        forall|x: T, y: T|
            #[trigger] x.partial_cmp_spec(&y) == Some(Ordering::Less) <==> y.partial_cmp_spec(&x)
                == Some(Ordering::Greater),
        forall|x: T, y: T, z: T|
            x.partial_cmp_spec(&y) == Some(Ordering::Less) && #[trigger] y.partial_cmp_spec(&z)
                == Some(Ordering::Less) ==> #[trigger] x.partial_cmp_spec(&z) == Some(
                Ordering::Less,
            ),
        forall|x: T, y: T, z: T|
            x.partial_cmp_spec(&y) == Some(Ordering::Greater) && #[trigger] y.partial_cmp_spec(&z)
                == Some(Ordering::Greater) ==> #[trigger] x.partial_cmp_spec(&z) == Some(
                Ordering::Greater,
            ),
        forall|x: T, y: T| #[trigger] x.eq_spec(&y) <==> y.eq_spec(&x),
        forall|x: T, y: T, z: T| x.eq_spec(&y) && #[trigger] y.eq_spec(&z) ==> #[trigger] x.eq_spec(&z),
{
    reveal(obeys_cmp_partial_ord);
    reveal(obeys_cmp_ord);
    reveal(obeys_partial_cmp_spec_properties);
    reveal(obeys_eq_spec_properties);
}

/// Under a total order, `a >= b` and `b >= c` give `a >= c`, and `a <= b` and `b <= c` give `a <= c`.
proof fn lemma_not_outranked_facts<T: Ord>(a: T, b: T, c: T)
    requires
        obeys_cmp::<T>(),
    ensures
        a.partial_cmp_spec(&b) != Some(Ordering::Less) && b.partial_cmp_spec(&c) != Some(
            Ordering::Less,
        ) ==> a.partial_cmp_spec(&c) != Some(Ordering::Less),
        a.partial_cmp_spec(&b) != Some(Ordering::Greater) && b.partial_cmp_spec(&c) != Some(
            Ordering::Greater,
        ) ==> a.partial_cmp_spec(&c) != Some(Ordering::Greater),
{
    lemma_total_order_facts::<T>();
    let ab = a.partial_cmp_spec(&b);
    let bc = b.partial_cmp_spec(&c);
    let ac = a.partial_cmp_spec(&c);
    let ca = c.partial_cmp_spec(&a);
    let ba = b.partial_cmp_spec(&a);
    let cb = c.partial_cmp_spec(&b);
    assert(ab is Some && bc is Some && ac is Some && ca is Some && ba is Some && cb is Some);
    assert(ab == Some(ab->0) && bc == Some(bc->0) && ac == Some(ac->0));
    if ab == Some(Ordering::Equal) {
        assert(a.eq_spec(&b) && b.eq_spec(&a));
        assert(ba == Some(Ordering::Equal));
    }
    if bc == Some(Ordering::Equal) {
        assert(b.eq_spec(&c) && c.eq_spec(&b));
        assert(cb == Some(Ordering::Equal));
    }
    if ab == Some(Ordering::Equal) && bc == Some(Ordering::Equal) {
        assert(a.eq_spec(&c));
        assert(ac == Some(Ordering::Equal));
    }
    if ac == Some(Ordering::Less) {
        assert(ca == Some(Ordering::Greater));
    }
    if ac == Some(Ordering::Greater) {
        assert(ca == Some(Ordering::Less));
    }
    if ab == Some(Ordering::Greater) {
        assert(ba == Some(Ordering::Less));
    }
    if ab == Some(Ordering::Less) {
        assert(ba == Some(Ordering::Greater));
    }
    if bc == Some(Ordering::Greater) {
        assert(cb == Some(Ordering::Less));
    }
    if bc == Some(Ordering::Less) {
        assert(cb == Some(Ordering::Greater));
    }
}

impl<T: Ord> Comparator<T> for MinFirst {
    open spec fn spec_outranks(a: T, b: T) -> bool {
        a.partial_cmp_spec(&b) == Some(Ordering::Less)
    }

    open spec fn lawful() -> bool {
        obeys_cmp::<T>()
    }

    /// Nothing outranks itself.
    proof fn lemma_irreflexive(a: T) {
        lemma_total_order_facts::<T>();
    }

    proof fn lemma_transitive(a: T, b: T, c: T) {
        lemma_total_order_facts::<T>();
    }

    proof fn lemma_not_outranked_transitive(a: T, b: T, c: T) {
        lemma_not_outranked_facts::<T>(a, b, c);
    }

    fn outranks(&self, a: &T, b: &T) -> (r: bool) {
        proof {
            lemma_total_order_facts::<T>();
        }
        a.lt(b)
    }
}

impl<T: Ord> Comparator<T> for MaxFirst {
    open spec fn spec_outranks(a: T, b: T) -> bool {
        a.partial_cmp_spec(&b) == Some(Ordering::Greater)
    }

    open spec fn lawful() -> bool {
        obeys_cmp::<T>()
    }

    /// Nothing outranks itself.
    proof fn lemma_irreflexive(a: T) {
        lemma_total_order_facts::<T>();
    }

    proof fn lemma_transitive(a: T, b: T, c: T) {
        lemma_total_order_facts::<T>();
    }

    proof fn lemma_not_outranked_transitive(a: T, b: T, c: T) {
        lemma_not_outranked_facts::<T>(a, b, c);
    }

    fn outranks(&self, a: &T, b: &T) -> (r: bool) {
        proof {
            lemma_total_order_facts::<T>();
        }
        a.gt(b)
    }
}

} // verus!
