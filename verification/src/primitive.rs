//! The primitive integer kinds, as far as reducing needs them.

use vstd::prelude::*;
use crate::wrap::wrapped;

verus! {

/// A primitive integer kind: a value stands for one integer between
/// `least()` and `greatest()`, and the kind can add and multiply, either
/// exactly or wrapping.
pub trait Primitive: Copy {
    /// The integer that `self` stands for.
    spec fn value(self) -> int;

    /// The least integer of this kind.
    spec fn least() -> int;

    /// The greatest integer of this kind.
    spec fn greatest() -> int;

    /// The value of this kind that stands for `v`, where `v` is in range.
    spec fn from_value(v: int) -> Self;

    /// The range holds 0 and 1. A value stands for an integer in range, each
    /// integer in range has its value, and no two values stand for the same
    /// integer.
    proof fn lemma_kind()
        ensures
            Self::least() <= 0,
            1 <= Self::greatest(),
            forall|x: Self| Self::least() <= #[trigger] x.value() <= Self::greatest(),
            forall|x: Self| Self::from_value(#[trigger] x.value()) == x,
            forall|v: int|
                Self::least() <= v <= Self::greatest() ==> (#[trigger] Self::from_value(
                    v,
                )).value() == v,
    ;

    /// The additive identity.
    fn zero() -> (z: Self)
        ensures
            z.value() == 0,
    ;

    /// The multiplicative identity.
    fn one() -> (o: Self)
        ensures
            o.value() == 1,
    ;

    /// Exact addition, where the result is in range.
    fn plus(self, rhs: Self) -> (r: Self)
        requires
            Self::least() <= self.value() + rhs.value() <= Self::greatest(),
        ensures
            r.value() == self.value() + rhs.value(),
    ;

    /// Exact multiplication, where the result is in range.
    fn times(self, rhs: Self) -> (r: Self)
        requires
            Self::least() <= self.value() * rhs.value() <= Self::greatest(),
        ensures
            r.value() == self.value() * rhs.value(),
    ;

    /// Addition that wraps round the range.
    fn wrapping_plus(self, rhs: Self) -> (r: Self)
        ensures
            r.value() == wrapped(self.value() + rhs.value(), Self::least(), Self::greatest()),
    ;

    /// Multiplication that wraps round the range.
    fn wrapping_times(self, rhs: Self) -> (r: Self)
        ensures
            r.value() == wrapped(self.value() * rhs.value(), Self::least(), Self::greatest()),
    ;
}

/// The integers that the values of `items` stand for.
pub open spec fn values<T: Primitive>(items: Seq<T>) -> Seq<int> {
    Seq::new(items.len(), |i: int| items[i].value())
}

} // verus!
