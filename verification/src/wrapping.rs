//! Sums and products of wrapping integers.
//!
//! A `Wrapping<T>` adds and multiplies round the range of `T`, so these
//! reductions are defined on every sequence. The outcome is the exact total
//! (or product) of the items, wrapped once into the range.

use core::num::Wrapping;
use vstd::prelude::*;
use vstd::std_specs::iter::IteratorSpec;
use crate::primitive::{values, Primitive};
use crate::reducer::{Product, Sum};
use crate::running::{
    lemma_running_product_of_prefix,
    lemma_running_sum_of_prefix,
    product,
    running_product,
    running_sum,
    total,
};
use crate::wrap::{
    lemma_wrapped_in_range,
    lemma_wrapped_in_range_is_same,
    lemma_wrapped_plus,
    lemma_wrapped_times,
    wrapped,
};

verus! {

/// `core::num::Wrapping`, as the standard library declares it: a tuple struct
/// whose one public field is the integer inside. No more is taken from the
/// standard library about it: the reducers below read and fill that field,
/// and wrap by the arithmetic of [`Primitive`].
#[verifier::external_type_specification]
#[verifier::reject_recursive_types(T)]
pub struct ExWrapping<T>(core::num::Wrapping<T>);

/// The integers inside `items`.
pub open spec fn unwrapped<T>(items: Seq<Wrapping<T>>) -> Seq<T> {
    Seq::new(items.len(), |i: int| items[i].0)
}

/// `items`, each as a wrapping integer.
pub open spec fn wrapping_each<T>(items: Seq<T>) -> Seq<Wrapping<T>> {
    Seq::new(items.len(), |i: int| Wrapping(items[i]))
}

/// The wrapping integer that stands for `v` after wrapping it into the range
/// of `T`.
pub open spec fn wrapping_from<T: Primitive>(v: int) -> Wrapping<T> {
    Wrapping(T::from_value(wrapped(v, T::least(), T::greatest())))
}

/// The wrapping sum of owned wrapping integers: always defined, and the
/// total wrapped into the range.
impl<T: Primitive> Sum for Wrapping<T> {
    open spec fn sum_defined(items: Seq<Wrapping<T>>) -> bool {
        true
    }

    open spec fn sum_of(items: Seq<Wrapping<T>>) -> Wrapping<T> {
        wrapping_from(total(values(unwrapped(items))))
    }

    fn sum<I: Iterator<Item = Wrapping<T>>>(iter: I) -> (result: Wrapping<T>)
        ensures
            result.0.value() == wrapped(
                total(values(unwrapped(iter.remaining()))),
                T::least(),
                T::greatest(),
            ),
            iter.remaining().len() == 0 ==> result.0.value() == 0,
    {
        let mut iter = iter;
        let ghost items = iter.remaining();
        let ghost ints = values(unwrapped(items));
        let ghost mut seen: int = 0;
        let mut acc = T::zero();
        proof {
            T::lemma_kind();
            lemma_wrapped_in_range_is_same(0, T::least(), T::greatest());
        }
        loop
            invariant
                iter.obeys_prophetic_iter_laws(),
                iter.decrease() is Some,
                0 <= seen <= items.len(),
                iter.remaining() == items.skip(seen),
                ints == values(unwrapped(items)),
                T::least() <= T::greatest(),
                acc.value() == wrapped(running_sum(ints, seen), T::least(), T::greatest()),
            ensures
                acc.value() == wrapped(total(ints), T::least(), T::greatest()),
            decreases iter.decrease()->0,
        {
            match iter.next() {
                Some(x) => {
                    proof {
                        assert(items.skip(seen).drop_first() == items.skip(seen + 1));
                        assert(running_sum(ints, seen + 1) == running_sum(ints, seen)
                            + x.0.value());
                        lemma_wrapped_plus(
                            running_sum(ints, seen),
                            x.0.value(),
                            T::least(),
                            T::greatest(),
                        );
                        seen = seen + 1;
                    }
                    acc = acc.wrapping_plus(x.0);
                },
                None => {
                    break ;
                },
            }
        }
        Wrapping(acc)
    }
}

/// The wrapping product of owned wrapping integers: always defined, and the
/// product wrapped into the range.
impl<T: Primitive> Product for Wrapping<T> {
    open spec fn product_defined(items: Seq<Wrapping<T>>) -> bool {
        true
    }

    open spec fn product_of(items: Seq<Wrapping<T>>) -> Wrapping<T> {
        wrapping_from(product(values(unwrapped(items))))
    }

    fn product<I: Iterator<Item = Wrapping<T>>>(iter: I) -> (result: Wrapping<T>)
        ensures
            result.0.value() == wrapped(
                product(values(unwrapped(iter.remaining()))),
                T::least(),
                T::greatest(),
            ),
            iter.remaining().len() == 0 ==> result.0.value() == 1,
    {
        let mut iter = iter;
        let ghost items = iter.remaining();
        let ghost ints = values(unwrapped(items));
        let ghost mut seen: int = 0;
        let mut acc = T::one();
        proof {
            T::lemma_kind();
            lemma_wrapped_in_range_is_same(1, T::least(), T::greatest());
        }
        loop
            invariant
                iter.obeys_prophetic_iter_laws(),
                iter.decrease() is Some,
                0 <= seen <= items.len(),
                iter.remaining() == items.skip(seen),
                ints == values(unwrapped(items)),
                T::least() <= T::greatest(),
                acc.value() == wrapped(running_product(ints, seen), T::least(), T::greatest()),
            ensures
                acc.value() == wrapped(product(ints), T::least(), T::greatest()),
            decreases iter.decrease()->0,
        {
            match iter.next() {
                Some(x) => {
                    proof {
                        assert(items.skip(seen).drop_first() == items.skip(seen + 1));
                        assert(running_product(ints, seen + 1) == running_product(ints, seen)
                            * x.0.value());
                        lemma_wrapped_times(
                            running_product(ints, seen),
                            x.0.value(),
                            T::least(),
                            T::greatest(),
                        );
                        seen = seen + 1;
                    }
                    acc = acc.wrapping_times(x.0);
                },
                None => {
                    break ;
                },
            }
        }
        Wrapping(acc)
    }
}

/// The wrapping sum of borrowed wrapping integers: that of the wrapping
/// integers themselves.
impl<'a, T: Primitive> Sum<&'a Wrapping<T>> for Wrapping<T> {
    open spec fn sum_defined(items: Seq<&'a Wrapping<T>>) -> bool {
        true
    }

    open spec fn sum_of(items: Seq<&'a Wrapping<T>>) -> Wrapping<T> {
        <Wrapping<T> as Sum>::sum_of(items.unref())
    }

    fn sum<I: Iterator<Item = &'a Wrapping<T>>>(iter: I) -> (result: Wrapping<T>)
        ensures
            result.0.value() == wrapped(
                total(values(unwrapped(iter.remaining().unref()))),
                T::least(),
                T::greatest(),
            ),
            iter.remaining().len() == 0 ==> result.0.value() == 0,
    {
        let mut iter = iter;
        let ghost items = iter.remaining();
        let ghost ints = values(unwrapped(items.unref()));
        let ghost mut seen: int = 0;
        let mut acc = T::zero();
        proof {
            T::lemma_kind();
            lemma_wrapped_in_range_is_same(0, T::least(), T::greatest());
        }
        loop
            invariant
                iter.obeys_prophetic_iter_laws(),
                iter.decrease() is Some,
                0 <= seen <= items.len(),
                iter.remaining() == items.skip(seen),
                ints == values(unwrapped(items.unref())),
                T::least() <= T::greatest(),
                acc.value() == wrapped(running_sum(ints, seen), T::least(), T::greatest()),
            ensures
                acc.value() == wrapped(total(ints), T::least(), T::greatest()),
            decreases iter.decrease()->0,
        {
            match iter.next() {
                Some(x) => {
                    proof {
                        assert(items.skip(seen).drop_first() == items.skip(seen + 1));
                        assert(running_sum(ints, seen + 1) == running_sum(ints, seen)
                            + x.0.value());
                        lemma_wrapped_plus(
                            running_sum(ints, seen),
                            x.0.value(),
                            T::least(),
                            T::greatest(),
                        );
                        seen = seen + 1;
                    }
                    acc = acc.wrapping_plus(x.0);
                },
                None => {
                    break ;
                },
            }
        }
        Wrapping(acc)
    }
}

/// The wrapping product of borrowed wrapping integers: that of the wrapping
/// integers themselves.
impl<'a, T: Primitive> Product<&'a Wrapping<T>> for Wrapping<T> {
    open spec fn product_defined(items: Seq<&'a Wrapping<T>>) -> bool {
        true
    }

    open spec fn product_of(items: Seq<&'a Wrapping<T>>) -> Wrapping<T> {
        <Wrapping<T> as Product>::product_of(items.unref())
    }

    fn product<I: Iterator<Item = &'a Wrapping<T>>>(iter: I) -> (result: Wrapping<T>)
        ensures
            result.0.value() == wrapped(
                product(values(unwrapped(iter.remaining().unref()))),
                T::least(),
                T::greatest(),
            ),
            iter.remaining().len() == 0 ==> result.0.value() == 1,
    {
        let mut iter = iter;
        let ghost items = iter.remaining();
        let ghost ints = values(unwrapped(items.unref()));
        let ghost mut seen: int = 0;
        let mut acc = T::one();
        proof {
            T::lemma_kind();
            lemma_wrapped_in_range_is_same(1, T::least(), T::greatest());
        }
        loop
            invariant
                iter.obeys_prophetic_iter_laws(),
                iter.decrease() is Some,
                0 <= seen <= items.len(),
                iter.remaining() == items.skip(seen),
                ints == values(unwrapped(items.unref())),
                T::least() <= T::greatest(),
                acc.value() == wrapped(running_product(ints, seen), T::least(), T::greatest()),
            ensures
                acc.value() == wrapped(product(ints), T::least(), T::greatest()),
            decreases iter.decrease()->0,
        {
            match iter.next() {
                Some(x) => {
                    proof {
                        assert(items.skip(seen).drop_first() == items.skip(seen + 1));
                        assert(running_product(ints, seen + 1) == running_product(ints, seen)
                            * x.0.value());
                        lemma_wrapped_times(
                            running_product(ints, seen),
                            x.0.value(),
                            T::least(),
                            T::greatest(),
                        );
                        seen = seen + 1;
                    }
                    acc = acc.wrapping_times(x.0);
                },
                None => {
                    break ;
                },
            }
        }
        Wrapping(acc)
    }
}

/// Wrapping integers can always be summed, and their sum stands for the
/// total of what they stand for, wrapped into the range.
pub proof fn lemma_wrapping_sum_is_wrapped_total<T: Primitive>(items: Seq<Wrapping<T>>)
    ensures
        <Wrapping<T> as Sum>::sum_defined(items),
        <Wrapping<T> as Sum>::sum_of(items).0.value() == wrapped(
            total(values(unwrapped(items))),
            T::least(),
            T::greatest(),
        ),
{
    T::lemma_kind();
    lemma_wrapped_in_range(total(values(unwrapped(items))), T::least(), T::greatest());
}

/// Wrapping integers can always be multiplied, and their product stands for
/// the product of what they stand for, wrapped into the range.
pub proof fn lemma_wrapping_product_is_wrapped_product<T: Primitive>(items: Seq<Wrapping<T>>)
    ensures
        <Wrapping<T> as Product>::product_defined(items),
        <Wrapping<T> as Product>::product_of(items).0.value() == wrapped(
            product(values(unwrapped(items))),
            T::least(),
            T::greatest(),
        ),
{
    T::lemma_kind();
    lemma_wrapped_in_range(product(values(unwrapped(items))), T::least(), T::greatest());
}

/// No wrapping integers at all sum to zero.
pub proof fn lemma_wrapping_sum_of_nothing<T: Primitive>()
    ensures
        <Wrapping<T> as Sum>::sum_of(Seq::<Wrapping<T>>::empty()).0.value() == 0,
{
    T::lemma_kind();
    lemma_wrapped_in_range_is_same(0, T::least(), T::greatest());
}

/// No wrapping integers at all multiply to one.
pub proof fn lemma_wrapping_product_of_nothing<T: Primitive>()
    ensures
        <Wrapping<T> as Product>::product_of(Seq::<Wrapping<T>>::empty()).0.value() == 1,
{
    T::lemma_kind();
    lemma_wrapped_in_range_is_same(1, T::least(), T::greatest());
}

/// Summing goes from left to right: the sum of items with one more at the
/// end is the wrapping sum of the last one and the sum of those ahead of it.
pub proof fn lemma_wrapping_sum_with_one_more<T: Primitive>(
    items: Seq<Wrapping<T>>,
    last: Wrapping<T>,
)
    ensures
        <Wrapping<T> as Sum>::sum_of(items.push(last)).0.value() == wrapped(
            <Wrapping<T> as Sum>::sum_of(items).0.value() + last.0.value(),
            T::least(),
            T::greatest(),
        ),
{
    T::lemma_kind();
    let ahead = values(unwrapped(items));
    let all = values(unwrapped(items.push(last)));
    let len = items.len() as int;
    lemma_running_sum_of_prefix(ahead, all, len);
    assert(running_sum(all, len + 1) == running_sum(all, len) + last.0.value());
    lemma_wrapped_in_range(total(ahead), T::least(), T::greatest());
    lemma_wrapped_in_range(total(all), T::least(), T::greatest());
    lemma_wrapped_plus(total(ahead), last.0.value(), T::least(), T::greatest());
}

/// Multiplying goes from left to right: the product of items with one more
/// at the end is the wrapping product of the product of those ahead of it
/// and the last one.
pub proof fn lemma_wrapping_product_with_one_more<T: Primitive>(
    items: Seq<Wrapping<T>>,
    last: Wrapping<T>,
)
    ensures
        <Wrapping<T> as Product>::product_of(items.push(last)).0.value() == wrapped(
            <Wrapping<T> as Product>::product_of(items).0.value() * last.0.value(),
            T::least(),
            T::greatest(),
        ),
{
    T::lemma_kind();
    let ahead = values(unwrapped(items));
    let all = values(unwrapped(items.push(last)));
    let len = items.len() as int;
    lemma_running_product_of_prefix(ahead, all, len);
    assert(running_product(all, len + 1) == running_product(all, len) * last.0.value());
    lemma_wrapped_in_range(product(ahead), T::least(), T::greatest());
    lemma_wrapped_in_range(product(all), T::least(), T::greatest());
    lemma_wrapped_times(product(ahead), last.0.value(), T::least(), T::greatest());
}

/// Where the exact sum of some integers is defined, their sum as wrapping
/// integers holds the same value.
pub proof fn lemma_wrapping_sum_like_exact<T: Primitive>(items: Seq<T>)
    requires
        <T as Sum>::sum_defined(items),
    ensures
        <Wrapping<T> as Sum>::sum_of(wrapping_each(items)).0 == <T as Sum>::sum_of(items),
{
    assert(unwrapped(wrapping_each(items)) =~= items);
    assert(T::least() <= running_sum(values(items), items.len() as int) <= T::greatest());
    lemma_wrapped_in_range_is_same(total(values(items)), T::least(), T::greatest());
}

/// Where the exact product of some integers is defined, their product as
/// wrapping integers holds the same value.
pub proof fn lemma_wrapping_product_like_exact<T: Primitive>(items: Seq<T>)
    requires
        <T as Product>::product_defined(items),
    ensures
        <Wrapping<T> as Product>::product_of(wrapping_each(items)).0 == <T as Product>::product_of(
            items,
        ),
{
    assert(unwrapped(wrapping_each(items)) =~= items);
    assert(T::least() <= running_product(values(items), items.len() as int) <= T::greatest());
    lemma_wrapped_in_range_is_same(product(values(items)), T::least(), T::greatest());
}

/// Borrowed wrapping integers sum to what the same ones sum to when owned.
pub proof fn lemma_borrowed_wrapping_sum_like_owned<'a, T: Primitive>(items: Seq<Wrapping<T>>)
    ensures
        <Wrapping<T> as Sum<&'a Wrapping<T>>>::sum_defined(items.as_ref()) == <Wrapping<
            T,
        > as Sum>::sum_defined(items),
        <Wrapping<T> as Sum<&'a Wrapping<T>>>::sum_of(items.as_ref()) == <Wrapping<
            T,
        > as Sum>::sum_of(items),
{
    assert(items.as_ref().unref() =~= items);
}

/// Borrowed wrapping integers multiply to what the same ones multiply to
/// when owned.
pub proof fn lemma_borrowed_wrapping_product_like_owned<'a, T: Primitive>(
    items: Seq<Wrapping<T>>,
)
    ensures
        <Wrapping<T> as Product<&'a Wrapping<T>>>::product_defined(items.as_ref()) == <Wrapping<
            T,
        > as Product>::product_defined(items),
        <Wrapping<T> as Product<&'a Wrapping<T>>>::product_of(items.as_ref()) == <Wrapping<
            T,
        > as Product>::product_of(items),
{
    assert(items.as_ref().unref() =~= items);
}

} // verus!
