//! The two reducers.

use vstd::prelude::*;
use vstd::std_specs::iter::IteratorSpec;

verus! {

/// A type that can be made by summing up the items of an iterator.
///
/// An implementation says in `sum_defined` which sequences of items it can
/// sum up, and in `sum_of` what their sum is.
pub trait Sum<A = Self>: Sized {
    /// Whether `items` can be summed up in order: no step of the summation
    /// fails.
    spec fn sum_defined(items: Seq<A>) -> bool;

    /// The sum of `items`, taken in order.
    spec fn sum_of(items: Seq<A>) -> Self;

    /// Takes the items that `iter` yields and sums them up.
    ///
    /// `iter` has to be known to end: it keeps the iterator laws and has a
    /// measure that goes down with each item.
    fn sum<I: Iterator<Item = A>>(iter: I) -> (result: Self)
        requires
            iter.obeys_prophetic_iter_laws(),
            iter.decrease() is Some,
            Self::sum_defined(iter.remaining()),
        ensures
            result == Self::sum_of(iter.remaining()),
    ;
}

/// A type that can be made by multiplying the items of an iterator.
///
/// An implementation says in `product_defined` which sequences of items it
/// can multiply, and in `product_of` what their product is.
pub trait Product<A = Self>: Sized {
    /// Whether `items` can be multiplied in order: no step of the
    /// multiplication fails.
    spec fn product_defined(items: Seq<A>) -> bool;

    /// The product of `items`, taken in order.
    spec fn product_of(items: Seq<A>) -> Self;

    /// Takes the items that `iter` yields and multiplies them.
    ///
    /// `iter` has to be known to end: it keeps the iterator laws and has a
    /// measure that goes down with each item.
    fn product<I: Iterator<Item = A>>(iter: I) -> (result: Self)
        requires
            iter.obeys_prophetic_iter_laws(),
            iter.decrease() is Some,
            Self::product_defined(iter.remaining()),
        ensures
            result == Self::product_of(iter.remaining()),
    ;
}

} // verus!
