//! Sums and products of results.
//!
//! The first failed item ends the reduction: nothing after it is taken from
//! the iterator, and the outcome is its error. Where no item has failed, the
//! outcome is `Ok` of what the inner reducer makes of the values.

use vstd::prelude::*;
use vstd::std_specs::iter::IteratorSpec;
use crate::reducer::{Product, Sum};

verus! {

/// Every item is a success.
pub open spec fn all_ok<U, E>(items: Seq<Result<U, E>>) -> bool {
    forall|i: int| 0 <= i < items.len() ==> (#[trigger] items[i]) is Ok
}

/// How many successes stand ahead of the first failure; the length of
/// `items` where nothing has failed.
pub open spec fn ok_run<U, E>(items: Seq<Result<U, E>>) -> nat
    decreases items.len(),
{
    if items.len() == 0 || items[0] is Err {
        0
    } else {
        1 + ok_run(items.drop_first())
    }
}

/// The values of the successes that stand ahead of the first failure.
pub open spec fn ok_values<U, E>(items: Seq<Result<U, E>>) -> Seq<U> {
    Seq::new(ok_run(items), |i: int| items[i]->Ok_0)
}

/// The error of the first failure, where there is one.
pub open spec fn first_failure<U, E>(items: Seq<Result<U, E>>) -> Option<E> {
    if ok_run(items) < items.len() {
        Some(items[ok_run(items) as int]->Err_0)
    } else {
        None
    }
}

/// `values`, each as a success.
pub open spec fn ok_each<U, E>(values: Seq<U>) -> Seq<Result<U, E>> {
    Seq::new(values.len(), |i: int| Ok(values[i]))
}

/// `ok_run(items)` is the place of the first failure.
pub proof fn lemma_ok_run<U, E>(items: Seq<Result<U, E>>)
    ensures
        ok_run(items) <= items.len(),
        forall|i: int| 0 <= i < ok_run(items) ==> (#[trigger] items[i]) is Ok,
        ok_run(items) < items.len() ==> items[ok_run(items) as int] is Err,
        ok_run(items) == items.len() <==> all_ok(items),
        first_failure(items) is None <==> all_ok(items),
    decreases items.len(),
{
    if items.len() != 0 && items[0] is Ok {
        let rest = items.drop_first();
        lemma_ok_run(rest);
        assert forall|i: int| 0 <= i < ok_run(items) implies (#[trigger] items[i]) is Ok by {
            if i > 0 {
                assert(items[i] == rest[i - 1]);
            }
        }
        if ok_run(items) < items.len() {
            assert(items[ok_run(items) as int] == rest[ok_run(rest) as int]);
        }
    }
}

/// A place that only successes stand ahead of, and that is the end or holds
/// a failure, is `ok_run(items)`.
pub proof fn lemma_ok_run_is<U, E>(items: Seq<Result<U, E>>, n: int)
    requires
        0 <= n <= items.len(),
        forall|i: int| 0 <= i < n ==> (#[trigger] items[i]) is Ok,
        n < items.len() ==> items[n] is Err,
    ensures
        ok_run(items) == n,
{
    lemma_ok_run(items);
    let run = ok_run(items) as int;
    if run < n {
        assert(items[run] is Ok);
    } else if n < run {
        assert(items[n] is Ok);
    }
}

/// Where every item is a success, nothing has failed and the values ahead
/// of the first failure are all the values.
pub proof fn lemma_ok_values_of_ok_each<U, E>(values: Seq<U>)
    ensures
        all_ok(ok_each::<U, E>(values)),
        first_failure(ok_each::<U, E>(values)) is None,
        ok_values(ok_each::<U, E>(values)) == values,
{
    lemma_ok_run(ok_each::<U, E>(values));
    assert(ok_values(ok_each::<U, E>(values)) =~= values);
}

/// Sequences that agree up to a failure, that item included, have the same
/// first failure and the same values ahead of it.
pub proof fn lemma_ok_values_end_at_failure<U, E>(
    items: Seq<Result<U, E>>,
    other: Seq<Result<U, E>>,
    at: int,
)
    requires
        0 <= at < items.len(),
        at < other.len(),
        items[at] is Err,
        items.take(at + 1) == other.take(at + 1),
    ensures
        first_failure(items) is Some,
        first_failure(items) == first_failure(other),
        ok_run(items) == ok_run(other),
        ok_values(items) == ok_values(other),
{
    lemma_ok_run(items);
    let run = ok_run(items) as int;
    if at < run {
        assert(items[at] is Ok);
    }
    assert forall|i: int| 0 <= i <= at implies items[i] == other[i] by {
        assert(items[i] == items.take(at + 1)[i]);
        assert(other[i] == other.take(at + 1)[i]);
    }
    lemma_ok_run_is(other, run);
    lemma_ok_run(other);
    assert(ok_values(items) =~= ok_values(other));
}

/// A failure that only successes stand ahead of is the first failure.
pub proof fn lemma_first_failure_is<U, E>(items: Seq<Result<U, E>>, at: int)
    requires
        0 <= at < items.len(),
        items[at] is Err,
        forall|i: int| 0 <= i < at ==> (#[trigger] items[i]) is Ok,
    ensures
        first_failure(items) == Some(items[at]->Err_0),
{
    lemma_ok_run_is(items, at);
}

/// Takes items from `iter` up to the first failure, which is taken too, and
/// nothing after it. Returns the values of the successes that came ahead of
/// it, and the error of that failure where one was met.
pub fn take_ok<U, E, I: Iterator<Item = Result<U, E>>>(iter: &mut I) -> (taken: (
    Vec<U>,
    Option<E>,
))
    requires
        (*old(iter)).obeys_prophetic_iter_laws(),
        (*old(iter)).decrease() is Some,
    ensures
        taken.0@ == ok_values((*old(iter)).remaining()),
        taken.1 == first_failure((*old(iter)).remaining()),
        (*final(iter)).remaining() == (*old(iter)).remaining().skip(
            ok_run((*old(iter)).remaining()) + if taken.1 is Some {
                1int
            } else {
                0int
            },
        ),
        (*final(iter)).obeys_prophetic_iter_laws(),
        (*final(iter)).decrease() is Some,
{
    let ghost items = (*iter).remaining();
    let mut values: Vec<U> = Vec::new();
    let mut failure: Option<E> = None;
    loop
        invariant_except_break
            failure is None,
        invariant
            (*iter).obeys_prophetic_iter_laws(),
            (*iter).decrease() is Some,
            values@.len() <= items.len(),
            forall|i: int| 0 <= i < values@.len() ==> (#[trigger] items[i]) == Ok::<U, E>(values@[i]),
            (*iter).remaining() == items.skip(
                values@.len() + if failure is Some {
                    1int
                } else {
                    0int
                },
            ),
        ensures
            failure matches Some(error) ==> values@.len() < items.len()
                && items[values@.len() as int] == Err::<U, E>(error),
            failure is None ==> values@.len() == items.len(),
        decreases (*iter).decrease()->0,
    {
        let ghost before = values@.len() as int;
        match iter.next() {
            Some(Ok(value)) => {
                values.push(value);
                proof {
                    assert(items.skip(before).drop_first() == items.skip(before + 1));
                }
            },
            Some(Err(error)) => {
                failure = Some(error);
                proof {
                    assert(items.skip(before).drop_first() == items.skip(before + 1));
                }
                break ;
            },
            None => {
                break ;
            },
        }
    }
    proof {
        lemma_ok_run_is(items, values@.len() as int);
        lemma_ok_run(items);
        assert(values@ =~= ok_values(items));
    }
    (values, failure)
}

/// The sum of results: the error of the first failure where there is one,
/// else `Ok` of the inner sum of the values.
impl<T, U, E> Sum<Result<U, E>> for Result<T, E> where T: Sum<U> {
    /// The inner reducer works on the values ahead of the first failure
    /// before the failure is known, so it has to be defined on them.
    open spec fn sum_defined(items: Seq<Result<U, E>>) -> bool {
        T::sum_defined(ok_values(items))
    }

    open spec fn sum_of(items: Seq<Result<U, E>>) -> Result<T, E> {
        match first_failure(items) {
            Some(error) => Err(error),
            None => Ok(T::sum_of(ok_values(items))),
        }
    }

    fn sum<I: Iterator<Item = Result<U, E>>>(iter: I) -> (result: Result<T, E>) {
        let mut iter = iter;
        let (values, failure) = take_ok(&mut iter);
        let inner = T::sum(values.into_iter());
        match failure {
            Some(error) => Err(error),
            None => Ok(inner),
        }
    }
}

/// The product of results: the error of the first failure where there is
/// one, else `Ok` of the inner product of the values.
impl<T, U, E> Product<Result<U, E>> for Result<T, E> where T: Product<U> {
    /// The inner reducer works on the values ahead of the first failure
    /// before the failure is known, so it has to be defined on them.
    open spec fn product_defined(items: Seq<Result<U, E>>) -> bool {
        T::product_defined(ok_values(items))
    }

    open spec fn product_of(items: Seq<Result<U, E>>) -> Result<T, E> {
        match first_failure(items) {
            Some(error) => Err(error),
            None => Ok(T::product_of(ok_values(items))),
        }
    }

    fn product<I: Iterator<Item = Result<U, E>>>(iter: I) -> (result: Result<T, E>) {
        let mut iter = iter;
        let (values, failure) = take_ok(&mut iter);
        let inner = T::product(values.into_iter());
        match failure {
            Some(error) => Err(error),
            None => Ok(inner),
        }
    }
}

/// Where every item is a success, the sum is `Ok` of the sum of the values,
/// and is defined where that is.
pub proof fn lemma_sum_of_ok_each<T: Sum<U>, U, E>(values: Seq<U>)
    ensures
        <Result<T, E> as Sum<Result<U, E>>>::sum_defined(ok_each(values)) == T::sum_defined(
            values,
        ),
        <Result<T, E> as Sum<Result<U, E>>>::sum_of(ok_each(values)) == Ok::<T, E>(
            T::sum_of(values),
        ),
{
    lemma_ok_values_of_ok_each::<U, E>(values);
}

/// Where every item is a success, the product is `Ok` of the product of the
/// values, and is defined where that is.
pub proof fn lemma_product_of_ok_each<T: Product<U>, U, E>(values: Seq<U>)
    ensures
        <Result<T, E> as Product<Result<U, E>>>::product_defined(ok_each(values))
            == T::product_defined(values),
        <Result<T, E> as Product<Result<U, E>>>::product_of(ok_each(values)) == Ok::<T, E>(
            T::product_of(values),
        ),
{
    lemma_ok_values_of_ok_each::<U, E>(values);
}

/// The first failure wins: where only successes stand ahead of a failure,
/// the sum is the error of that failure.
pub proof fn lemma_sum_is_first_failure<T: Sum<U>, U, E>(items: Seq<Result<U, E>>, at: int)
    requires
        0 <= at < items.len(),
        items[at] is Err,
        forall|i: int| 0 <= i < at ==> (#[trigger] items[i]) is Ok,
    ensures
        <Result<T, E> as Sum<Result<U, E>>>::sum_of(items) == Err::<T, E>(items[at]->Err_0),
{
    lemma_first_failure_is(items, at);
}

/// The first failure wins: where only successes stand ahead of a failure,
/// the product is the error of that failure.
pub proof fn lemma_product_is_first_failure<T: Product<U>, U, E>(
    items: Seq<Result<U, E>>,
    at: int,
)
    requires
        0 <= at < items.len(),
        items[at] is Err,
        forall|i: int| 0 <= i < at ==> (#[trigger] items[i]) is Ok,
    ensures
        <Result<T, E> as Product<Result<U, E>>>::product_of(items) == Err::<T, E>(
            items[at]->Err_0,
        ),
{
    lemma_first_failure_is(items, at);
}

/// Nothing that follows a failure counts: sequences that agree up to a
/// failure, that item included, have the same sum, an error, and can be
/// summed on the same terms.
pub proof fn lemma_sum_ends_at_failure<T: Sum<U>, U, E>(
    items: Seq<Result<U, E>>,
    other: Seq<Result<U, E>>,
    at: int,
)
    requires
        0 <= at < items.len(),
        at < other.len(),
        items[at] is Err,
        items.take(at + 1) == other.take(at + 1),
    ensures
        <Result<T, E> as Sum<Result<U, E>>>::sum_of(items) is Err,
        <Result<T, E> as Sum<Result<U, E>>>::sum_of(items) == <Result<T, E> as Sum<
            Result<U, E>,
        >>::sum_of(other),
        <Result<T, E> as Sum<Result<U, E>>>::sum_defined(items) == <Result<T, E> as Sum<
            Result<U, E>,
        >>::sum_defined(other),
{
    lemma_ok_values_end_at_failure(items, other, at);
}

/// Nothing that follows a failure counts: sequences that agree up to a
/// failure, that item included, have the same product, an error, and can be
/// multiplied on the same terms.
pub proof fn lemma_product_ends_at_failure<T: Product<U>, U, E>(
    items: Seq<Result<U, E>>,
    other: Seq<Result<U, E>>,
    at: int,
)
    requires
        0 <= at < items.len(),
        at < other.len(),
        items[at] is Err,
        items.take(at + 1) == other.take(at + 1),
    ensures
        <Result<T, E> as Product<Result<U, E>>>::product_of(items) is Err,
        <Result<T, E> as Product<Result<U, E>>>::product_of(items) == <Result<T, E> as Product<
            Result<U, E>,
        >>::product_of(other),
        <Result<T, E> as Product<Result<U, E>>>::product_defined(items) == <Result<
            T,
            E,
        > as Product<Result<U, E>>>::product_defined(other),
{
    lemma_ok_values_end_at_failure(items, other, at);
}

} // verus!
