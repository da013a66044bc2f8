//! Sums and products of the primitive integer kinds, with exact arithmetic.
//!
//! The items are added (or multiplied) from the left, starting at 0 (or 1).
//! The reduction is defined where every running result is in the kind's
//! range; then the outcome is the exact total (or product). Where a running
//! result would leave the range, reduce `Wrapping` values instead: they wrap.

use vstd::prelude::*;
use vstd::std_specs::iter::IteratorSpec;
use crate::primitive::{values, Primitive};
use crate::reducer::{Product, Sum};
use crate::running::{
    lemma_running_product_of_prefix,
    lemma_running_sum_of_naturals_grows,
    lemma_running_sum_of_prefix,
    product,
    products_stay_within,
    running_product,
    running_sum,
    sums_stay_within,
    total,
};

verus! {

/// The exact sum of owned integers: defined where every running total is in
/// range, and then the value that stands for the total.
impl<T: Primitive> Sum for T {
    open spec fn sum_defined(items: Seq<T>) -> bool {
        sums_stay_within(values(items), T::least(), T::greatest())
    }

    open spec fn sum_of(items: Seq<T>) -> T {
        T::from_value(total(values(items)))
    }

    fn sum<I: Iterator<Item = T>>(iter: I) -> (result: T)
        ensures
            result.value() == total(values(iter.remaining())),
            iter.remaining().len() == 0 ==> result.value() == 0,
    {
        let mut iter = iter;
        let ghost items = iter.remaining();
        let ghost mut seen: int = 0;
        let mut acc = T::zero();
        loop
            invariant
                iter.obeys_prophetic_iter_laws(),
                iter.decrease() is Some,
                0 <= seen <= items.len(),
                iter.remaining() == items.skip(seen),
                acc.value() == running_sum(values(items), seen),
                sums_stay_within(values(items), T::least(), T::greatest()),
            ensures
                acc.value() == total(values(items)),
            decreases iter.decrease()->0,
        {
            match iter.next() {
                Some(x) => {
                    proof {
                        assert(items.skip(seen).drop_first() == items.skip(seen + 1));
                        assert(running_sum(values(items), seen + 1) == acc.value() + x.value());
                        seen = seen + 1;
                    }
                    acc = acc.plus(x);
                },
                None => {
                    break ;
                },
            }
        }
        proof {
            T::lemma_kind();
        }
        acc
    }
}

/// The exact product of owned integers: defined where every running product
/// is in range, and then the value that stands for the product.
impl<T: Primitive> Product for T {
    open spec fn product_defined(items: Seq<T>) -> bool {
        products_stay_within(values(items), T::least(), T::greatest())
    }

    open spec fn product_of(items: Seq<T>) -> T {
        T::from_value(product(values(items)))
    }

    fn product<I: Iterator<Item = T>>(iter: I) -> (result: T)
        ensures
            result.value() == product(values(iter.remaining())),
            iter.remaining().len() == 0 ==> result.value() == 1,
    {
        let mut iter = iter;
        let ghost items = iter.remaining();
        let ghost mut seen: int = 0;
        let mut acc = T::one();
        loop
            invariant
                iter.obeys_prophetic_iter_laws(),
                iter.decrease() is Some,
                0 <= seen <= items.len(),
                iter.remaining() == items.skip(seen),
                acc.value() == running_product(values(items), seen),
                products_stay_within(values(items), T::least(), T::greatest()),
            ensures
                acc.value() == product(values(items)),
            decreases iter.decrease()->0,
        {
            match iter.next() {
                Some(x) => {
                    proof {
                        assert(items.skip(seen).drop_first() == items.skip(seen + 1));
                        assert(running_product(values(items), seen + 1) == acc.value() * x.value());
                        seen = seen + 1;
                    }
                    acc = acc.times(x);
                },
                None => {
                    break ;
                },
            }
        }
        proof {
            T::lemma_kind();
        }
        acc
    }
}

/// The exact sum of borrowed integers: that of the integers themselves.
impl<'a, T: Primitive> Sum<&'a T> for T {
    open spec fn sum_defined(items: Seq<&'a T>) -> bool {
        <T as Sum>::sum_defined(items.unref())
    }

    open spec fn sum_of(items: Seq<&'a T>) -> T {
        <T as Sum>::sum_of(items.unref())
    }

    fn sum<I: Iterator<Item = &'a T>>(iter: I) -> (result: T)
        ensures
            result.value() == total(values(iter.remaining().unref())),
            iter.remaining().len() == 0 ==> result.value() == 0,
    {
        let mut iter = iter;
        let ghost items = iter.remaining();
        let ghost mut seen: int = 0;
        let mut acc = T::zero();
        loop
            invariant
                iter.obeys_prophetic_iter_laws(),
                iter.decrease() is Some,
                0 <= seen <= items.len(),
                iter.remaining() == items.skip(seen),
                acc.value() == running_sum(values(items.unref()), seen),
                sums_stay_within(values(items.unref()), T::least(), T::greatest()),
            ensures
                acc.value() == total(values(items.unref())),
            decreases iter.decrease()->0,
        {
            match iter.next() {
                Some(x) => {
                    proof {
                        assert(items.skip(seen).drop_first() == items.skip(seen + 1));
                        assert(running_sum(values(items.unref()), seen + 1) == acc.value()
                            + x.value());
                        seen = seen + 1;
                    }
                    acc = acc.plus(*x);
                },
                None => {
                    break ;
                },
            }
        }
        proof {
            T::lemma_kind();
        }
        acc
    }
}

/// The exact product of borrowed integers: that of the integers themselves.
impl<'a, T: Primitive> Product<&'a T> for T {
    open spec fn product_defined(items: Seq<&'a T>) -> bool {
        <T as Product>::product_defined(items.unref())
    }

    open spec fn product_of(items: Seq<&'a T>) -> T {
        <T as Product>::product_of(items.unref())
    }

    fn product<I: Iterator<Item = &'a T>>(iter: I) -> (result: T)
        ensures
            result.value() == product(values(iter.remaining().unref())),
            iter.remaining().len() == 0 ==> result.value() == 1,
    {
        let mut iter = iter;
        let ghost items = iter.remaining();
        let ghost mut seen: int = 0;
        let mut acc = T::one();
        loop
            invariant
                iter.obeys_prophetic_iter_laws(),
                iter.decrease() is Some,
                0 <= seen <= items.len(),
                iter.remaining() == items.skip(seen),
                acc.value() == running_product(values(items.unref()), seen),
                products_stay_within(values(items.unref()), T::least(), T::greatest()),
            ensures
                acc.value() == product(values(items.unref())),
            decreases iter.decrease()->0,
        {
            match iter.next() {
                Some(x) => {
                    proof {
                        assert(items.skip(seen).drop_first() == items.skip(seen + 1));
                        assert(running_product(values(items.unref()), seen + 1) == acc.value()
                            * x.value());
                        seen = seen + 1;
                    }
                    acc = acc.times(*x);
                },
                None => {
                    break ;
                },
            }
        }
        proof {
            T::lemma_kind();
        }
        acc
    }
}

/// No items at all can be summed in every kind, and their sum is zero.
pub proof fn lemma_sum_of_nothing<T: Primitive>()
    ensures
        <T as Sum>::sum_defined(Seq::<T>::empty()),
        <T as Sum>::sum_of(Seq::<T>::empty()).value() == 0,
{
    T::lemma_kind();
}

/// No items at all can be multiplied in every kind, and their product is one.
pub proof fn lemma_product_of_nothing<T: Primitive>()
    ensures
        <T as Product>::product_defined(Seq::<T>::empty()),
        <T as Product>::product_of(Seq::<T>::empty()).value() == 1,
{
    T::lemma_kind();
}

/// Where a sum is defined, it stands for the total of what the items stand
/// for.
pub proof fn lemma_sum_stands_for_total<T: Primitive>(items: Seq<T>)
    requires
        <T as Sum>::sum_defined(items),
    ensures
        <T as Sum>::sum_of(items).value() == total(values(items)),
{
    T::lemma_kind();
    assert(T::least() <= running_sum(values(items), items.len() as int) <= T::greatest());
}

/// Where a product is defined, it stands for the product of what the items
/// stand for.
pub proof fn lemma_product_stands_for_product<T: Primitive>(items: Seq<T>)
    requires
        <T as Product>::product_defined(items),
    ensures
        <T as Product>::product_of(items).value() == product(values(items)),
{
    T::lemma_kind();
    assert(T::least() <= running_product(values(items), items.len() as int) <= T::greatest());
}

/// Summing goes from left to right: items with one more at the end can be
/// summed where the items ahead of it can and adding the last one to their
/// sum stays in range, and the sum is then that.
pub proof fn lemma_sum_with_one_more<T: Primitive>(items: Seq<T>, last: T)
    ensures
        <T as Sum>::sum_defined(items.push(last)) <==> <T as Sum>::sum_defined(items) && T::least()
            <= <T as Sum>::sum_of(items).value() + last.value() <= T::greatest(),
        <T as Sum>::sum_defined(items.push(last)) ==> <T as Sum>::sum_of(
            items.push(last),
        ).value() == <T as Sum>::sum_of(items).value() + last.value(),
{
    T::lemma_kind();
    let ahead = values(items);
    let all = values(items.push(last));
    let len = items.len() as int;
    assert forall|n: int| 0 <= n <= len implies running_sum(ahead, n) == running_sum(all, n) by {
        lemma_running_sum_of_prefix(ahead, all, n);
    }
    assert(running_sum(all, len + 1) == running_sum(all, len) + last.value());
    if <T as Sum>::sum_defined(items.push(last)) {
        assert forall|n: int| 0 <= n <= len implies T::least() <= #[trigger] running_sum(ahead, n)
            <= T::greatest() by {
            assert(T::least() <= running_sum(all, n) <= T::greatest());
        }
        assert(T::least() <= running_sum(all, len + 1) <= T::greatest());
    }
    if <T as Sum>::sum_defined(items) {
        assert(T::least() <= running_sum(ahead, len) <= T::greatest());
        if T::least() <= running_sum(ahead, len) + last.value() <= T::greatest() {
            assert forall|n: int| 0 <= n <= len + 1 implies T::least() <= #[trigger] running_sum(
                all,
                n,
            ) <= T::greatest() by {
                if n <= len {
                    assert(T::least() <= running_sum(ahead, n) <= T::greatest());
                }
            }
        }
    }
}

/// Multiplying goes from left to right: items with one more at the end can
/// be multiplied where the items ahead of it can and multiplying their
/// product by the last one stays in range, and the product is then that.
pub proof fn lemma_product_with_one_more<T: Primitive>(items: Seq<T>, last: T)
    ensures
        <T as Product>::product_defined(items.push(last)) <==> <T as Product>::product_defined(
            items,
        ) && T::least() <= <T as Product>::product_of(items).value() * last.value()
            <= T::greatest(),
        <T as Product>::product_defined(items.push(last)) ==> <T as Product>::product_of(
            items.push(last),
        ).value() == <T as Product>::product_of(items).value() * last.value(),
{
    T::lemma_kind();
    let ahead = values(items);
    let all = values(items.push(last));
    let len = items.len() as int;
    assert forall|n: int| 0 <= n <= len implies running_product(ahead, n) == running_product(
        all,
        n,
    ) by {
        lemma_running_product_of_prefix(ahead, all, n);
    }
    assert(running_product(all, len + 1) == running_product(all, len) * last.value());
    if <T as Product>::product_defined(items.push(last)) {
        assert forall|n: int| 0 <= n <= len implies T::least() <= #[trigger] running_product(
            ahead,
            n,
        ) <= T::greatest() by {
            assert(T::least() <= running_product(all, n) <= T::greatest());
        }
        assert(T::least() <= running_product(all, len + 1) <= T::greatest());
    }
    if <T as Product>::product_defined(items) {
        assert(T::least() <= running_product(ahead, len) <= T::greatest());
        if T::least() <= running_product(ahead, len) * last.value() <= T::greatest() {
            assert forall|n: int| 0 <= n <= len + 1 implies T::least()
                <= #[trigger] running_product(all, n) <= T::greatest() by {
                if n <= len {
                    assert(T::least() <= running_product(ahead, n) <= T::greatest());
                }
            }
        }
    }
}

/// Borrowed items sum to what the same items sum to when owned, and can be
/// summed where those can.
pub proof fn lemma_borrowed_sum_like_owned<'a, T: Primitive>(items: Seq<T>)
    ensures
        <T as Sum<&'a T>>::sum_defined(items.as_ref()) == <T as Sum>::sum_defined(items),
        <T as Sum<&'a T>>::sum_of(items.as_ref()) == <T as Sum>::sum_of(items),
{
    assert(items.as_ref().unref() =~= items);
}

/// Borrowed items multiply to what the same items multiply to when owned,
/// and can be multiplied where those can.
pub proof fn lemma_borrowed_product_like_owned<'a, T: Primitive>(items: Seq<T>)
    ensures
        <T as Product<&'a T>>::product_defined(items.as_ref()) == <T as Product>::product_defined(
            items,
        ),
        <T as Product<&'a T>>::product_of(items.as_ref()) == <T as Product>::product_of(items),
{
    assert(items.as_ref().unref() =~= items);
}

/// In a kind without negative values, the running totals only grow, so the
/// items can be summed where their total is in range.
pub proof fn lemma_unsigned_sum_defined<T: Primitive>(items: Seq<T>)
    requires
        T::least() == 0,
    ensures
        <T as Sum>::sum_defined(items) <==> total(values(items)) <= T::greatest(),
{
    T::lemma_kind();
    let ints = values(items);
    let len = items.len() as int;
    if <T as Sum>::sum_defined(items) {
        assert(T::least() <= running_sum(ints, len) <= T::greatest());
    }
    if total(ints) <= T::greatest() {
        assert forall|n: int| 0 <= n <= len implies T::least() <= #[trigger] running_sum(ints, n)
            <= T::greatest() by {
            lemma_running_sum_of_naturals_grows(ints, n, len);
        }
    }
}

} // verus!
