//! Sums and products of optional values.
//!
//! The first absent item ends the reduction: nothing after it is taken from
//! the iterator, and the outcome is `None`. Where no item is absent, the
//! outcome is `Some` of what the inner reducer makes of the values.

use vstd::prelude::*;
use vstd::std_specs::iter::IteratorSpec;
use crate::reducer::{Product, Sum};

verus! {

/// Every item is present.
pub open spec fn all_present<U>(items: Seq<Option<U>>) -> bool {
    forall|i: int| 0 <= i < items.len() ==> (#[trigger] items[i]) is Some
}

/// How many present items stand ahead of the first absent one; the length of
/// `items` where none is absent.
pub open spec fn present_run<U>(items: Seq<Option<U>>) -> nat
    decreases items.len(),
{
    if items.len() == 0 || items[0] is None {
        0
    } else {
        1 + present_run(items.drop_first())
    }
}

/// The values of the present items that stand ahead of the first absent one.
pub open spec fn present_values<U>(items: Seq<Option<U>>) -> Seq<U> {
    Seq::new(present_run(items), |i: int| items[i]->0)
}

/// `values`, each as a present item.
pub open spec fn present_each<U>(values: Seq<U>) -> Seq<Option<U>> {
    Seq::new(values.len(), |i: int| Some(values[i]))
}

/// `present_run(items)` is the place of the first absent item.
pub proof fn lemma_present_run<U>(items: Seq<Option<U>>)
    ensures
        present_run(items) <= items.len(),
        forall|i: int| 0 <= i < present_run(items) ==> (#[trigger] items[i]) is Some,
        present_run(items) < items.len() ==> items[present_run(items) as int] is None,
        present_run(items) == items.len() <==> all_present(items),
    decreases items.len(),
{
    if items.len() != 0 && items[0] is Some {
        let rest = items.drop_first();
        lemma_present_run(rest);
        assert forall|i: int| 0 <= i < present_run(items) implies (#[trigger] items[i]) is Some by {
            if i > 0 {
                assert(items[i] == rest[i - 1]);
            }
        }
        if present_run(items) < items.len() {
            assert(items[present_run(items) as int] == rest[present_run(rest) as int]);
        }
    }
}

/// A place that only present items stand ahead of, and that is the end or
/// holds an absent item, is `present_run(items)`.
pub proof fn lemma_present_run_is<U>(items: Seq<Option<U>>, n: int)
    requires
        0 <= n <= items.len(),
        forall|i: int| 0 <= i < n ==> (#[trigger] items[i]) is Some,
        n < items.len() ==> items[n] is None,
    ensures
        present_run(items) == n,
{
    lemma_present_run(items);
    let run = present_run(items) as int;
    if run < n {
        assert(items[run] is Some);
    } else if n < run {
        assert(items[n] is Some);
    }
}

/// Where every item is present, the values ahead of the first absent one
/// are all the values.
pub proof fn lemma_present_values_of_present_each<U>(values: Seq<U>)
    ensures
        all_present(present_each(values)),
        present_values(present_each(values)) == values,
{
    lemma_present_run(present_each(values));
    assert(present_values(present_each(values)) =~= values);
}

/// Sequences that agree up to an absent item, that item included, have the
/// same first absent item and the same values ahead of it.
pub proof fn lemma_present_values_end_at_absent<U>(
    items: Seq<Option<U>>,
    other: Seq<Option<U>>,
    at: int,
)
    requires
        0 <= at < items.len(),
        at < other.len(),
        items[at] is None,
        items.take(at + 1) == other.take(at + 1),
    ensures
        !all_present(items),
        !all_present(other),
        present_run(items) == present_run(other),
        present_values(items) == present_values(other),
{
    lemma_present_run(items);
    let run = present_run(items) as int;
    if at < run {
        assert(items[at] is Some);
    }
    assert forall|i: int| 0 <= i <= at implies items[i] == other[i] by {
        assert(items[i] == items.take(at + 1)[i]);
        assert(other[i] == other.take(at + 1)[i]);
    }
    lemma_present_run_is(other, run);
    lemma_present_run(other);
    assert(present_values(items) =~= present_values(other));
}

/// Takes items from `iter` up to the first absent one, which is taken too,
/// and nothing after it. Returns the values of the present items that came
/// ahead of it, and whether an absent item was met.
pub fn take_present<U, I: Iterator<Item = Option<U>>>(iter: &mut I) -> (taken: (Vec<U>, bool))
    requires
        (*old(iter)).obeys_prophetic_iter_laws(),
        (*old(iter)).decrease() is Some,
    ensures
        taken.0@ == present_values((*old(iter)).remaining()),
        taken.1 == !all_present((*old(iter)).remaining()),
        (*final(iter)).remaining() == (*old(iter)).remaining().skip(
            present_run((*old(iter)).remaining()) + if taken.1 {
                1int
            } else {
                0int
            },
        ),
        (*final(iter)).obeys_prophetic_iter_laws(),
        (*final(iter)).decrease() is Some,
{
    let ghost items = (*iter).remaining();
    let mut values: Vec<U> = Vec::new();
    let mut absent = false;
    loop
        invariant_except_break
            !absent,
        invariant
            (*iter).obeys_prophetic_iter_laws(),
            (*iter).decrease() is Some,
            values@.len() <= items.len(),
            forall|i: int| 0 <= i < values@.len() ==> (#[trigger] items[i]) == Some(values@[i]),
            (*iter).remaining() == items.skip(
                values@.len() + if absent {
                    1int
                } else {
                    0int
                },
            ),
        ensures
            absent ==> values@.len() < items.len() && items[values@.len() as int] is None,
            !absent ==> values@.len() == items.len(),
        decreases (*iter).decrease()->0,
    {
        let ghost before = values@.len() as int;
        match iter.next() {
            Some(Some(value)) => {
                values.push(value);
                proof {
                    assert(items.skip(before).drop_first() == items.skip(before + 1));
                }
            },
            Some(None) => {
                absent = true;
                proof {
                    assert(items.skip(before).drop_first() == items.skip(before + 1));
                }
                break ;
            },
            None => {
                break ;
            },
        }
    }
    proof {
        lemma_present_run_is(items, values@.len() as int);
        lemma_present_run(items);
        assert(values@ =~= present_values(items));
    }
    (values, absent)
}

/// The sum of optional items: `None` where an item is absent, else `Some` of
/// the inner sum of the values.
impl<T, U> Sum<Option<U>> for Option<T> where T: Sum<U> {
    /// The inner reducer works on the values ahead of the first absent item
    /// before the absence is known, so it has to be defined on them.
    open spec fn sum_defined(items: Seq<Option<U>>) -> bool {
        T::sum_defined(present_values(items))
    }

    open spec fn sum_of(items: Seq<Option<U>>) -> Option<T> {
        if all_present(items) {
            Some(T::sum_of(present_values(items)))
        } else {
            None
        }
    }

    fn sum<I: Iterator<Item = Option<U>>>(iter: I) -> (result: Option<T>) {
        let mut iter = iter;
        let (values, absent) = take_present(&mut iter);
        let inner = T::sum(values.into_iter());
        if absent {
            None
        } else {
            Some(inner)
        }
    }
}

/// The product of optional items: `None` where an item is absent, else
/// `Some` of the inner product of the values.
impl<T, U> Product<Option<U>> for Option<T> where T: Product<U> {
    /// The inner reducer works on the values ahead of the first absent item
    /// before the absence is known, so it has to be defined on them.
    open spec fn product_defined(items: Seq<Option<U>>) -> bool {
        T::product_defined(present_values(items))
    }

    open spec fn product_of(items: Seq<Option<U>>) -> Option<T> {
        if all_present(items) {
            Some(T::product_of(present_values(items)))
        } else {
            None
        }
    }

    fn product<I: Iterator<Item = Option<U>>>(iter: I) -> (result: Option<T>) {
        let mut iter = iter;
        let (values, absent) = take_present(&mut iter);
        let inner = T::product(values.into_iter());
        if absent {
            None
        } else {
            Some(inner)
        }
    }
}

/// Where every item is present, the sum is `Some` of the sum of the values,
/// and is defined where that is.
pub proof fn lemma_sum_of_present_each<T: Sum<U>, U>(values: Seq<U>)
    ensures
        <Option<T> as Sum<Option<U>>>::sum_defined(present_each(values)) == T::sum_defined(values),
        <Option<T> as Sum<Option<U>>>::sum_of(present_each(values)) == Some(T::sum_of(values)),
{
    lemma_present_values_of_present_each(values);
}

/// Where every item is present, the product is `Some` of the product of the
/// values, and is defined where that is.
pub proof fn lemma_product_of_present_each<T: Product<U>, U>(values: Seq<U>)
    ensures
        <Option<T> as Product<Option<U>>>::product_defined(present_each(values))
            == T::product_defined(values),
        <Option<T> as Product<Option<U>>>::product_of(present_each(values)) == Some(
            T::product_of(values),
        ),
{
    lemma_present_values_of_present_each(values);
}

/// An absent item makes the sum `None`, and nothing that follows it counts:
/// sequences that agree up to an absent item, that item included, can be
/// summed on the same terms.
pub proof fn lemma_sum_ends_at_absent<T: Sum<U>, U>(
    items: Seq<Option<U>>,
    other: Seq<Option<U>>,
    at: int,
)
    requires
        0 <= at < items.len(),
        at < other.len(),
        items[at] is None,
        items.take(at + 1) == other.take(at + 1),
    ensures
        <Option<T> as Sum<Option<U>>>::sum_of(items) is None,
        <Option<T> as Sum<Option<U>>>::sum_of(other) is None,
        <Option<T> as Sum<Option<U>>>::sum_defined(items) == <Option<T> as Sum<
            Option<U>,
        >>::sum_defined(other),
{
    lemma_present_values_end_at_absent(items, other, at);
}

/// An absent item makes the product `None`, and nothing that follows it
/// counts: sequences that agree up to an absent item, that item included,
/// can be multiplied on the same terms.
pub proof fn lemma_product_ends_at_absent<T: Product<U>, U>(
    items: Seq<Option<U>>,
    other: Seq<Option<U>>,
    at: int,
)
    requires
        0 <= at < items.len(),
        at < other.len(),
        items[at] is None,
        items.take(at + 1) == other.take(at + 1),
    ensures
        <Option<T> as Product<Option<U>>>::product_of(items) is None,
        <Option<T> as Product<Option<U>>>::product_of(other) is None,
        <Option<T> as Product<Option<U>>>::product_defined(items) == <Option<T> as Product<
            Option<U>,
        >>::product_defined(other),
{
    lemma_present_values_end_at_absent(items, other, at);
}

} // verus!
