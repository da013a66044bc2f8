use accum::{take_ok, Product, Sum};
use std::cell::Cell;
use std::num::Wrapping;

#[test]
fn product_of_successes_is_a_success() {
    let total: Result<i32, &str> = Product::product(vec![Ok(2), Ok(3)].into_iter());
    assert_eq!(total, Ok(6));
}

#[test]
fn product_with_a_failure_is_that_failure() {
    let mut items = vec![Ok(2), Err("e"), Ok(3)].into_iter();
    let total: Result<i32, &str> = Product::product(items.by_ref());
    assert_eq!(total, Err("e"));
    assert_eq!(items.next(), Some(Ok(3)));
    assert_eq!(items.next(), None);
}

#[test]
fn product_does_not_touch_what_follows_a_failure() {
    let touched = Cell::new(false);
    let items = vec![Ok(2), Err("e")].into_iter().chain(std::iter::once_with(|| {
        touched.set(true);
        Ok(3)
    }));
    let total: Result<i32, &str> = Product::product(items);
    assert_eq!(total, Err("e"));
    assert!(!touched.get());
}

#[test]
fn the_first_failure_wins() {
    let mut items = vec![Ok(1u8), Err("first"), Err("second"), Ok(2)].into_iter();
    let total: Result<u8, &str> = Sum::sum(items.by_ref());
    assert_eq!(total, Err("first"));
    assert_eq!(items.next(), Some(Err("second")));
}

#[test]
fn sum_of_successes_is_a_success() {
    let numbers = vec![1i32, 2];
    let total: Result<i32, &'static str> = Sum::sum(numbers.iter().map(|&x: &i32| {
        if x < 0 {
            Err("Negative element found")
        } else {
            Ok(x)
        }
    }));
    assert_eq!(total, Ok(3));
}

#[test]
fn sum_with_a_rejected_item_is_rejected() {
    let numbers = vec![1i32, -2, 3];
    let total: Result<i32, &'static str> = Sum::sum(numbers.iter().map(|&x: &i32| {
        if x < 0 {
            Err("Negative element found")
        } else {
            Ok(x)
        }
    }));
    assert_eq!(total, Err("Negative element found"));
}

#[test]
fn fallible_sum_of_nothing_is_zero() {
    let total: Result<u64, String> = Sum::sum(Vec::<Result<u64, String>>::new().into_iter());
    assert_eq!(total, Ok(0));
}

#[test]
fn fallible_product_of_nothing_is_one() {
    let total: Result<u64, String> = Product::product(
        Vec::<Result<u64, String>>::new().into_iter(),
    );
    assert_eq!(total, Ok(1));
}

#[test]
fn fallible_sum_keeps_an_owned_error() {
    let items: Vec<Result<i16, String>> = vec![Ok(5), Ok(-7), Err(String::from("no number"))];
    let total: Result<i16, String> = Sum::sum(items.into_iter());
    assert_eq!(total, Err(String::from("no number")));
}

#[test]
fn fallible_product_of_wrapping_values_wraps() {
    let items: Vec<Result<Wrapping<i8>, u32>> = vec![Ok(Wrapping(64)), Ok(Wrapping(2))];
    let total: Result<Wrapping<i8>, u32> = Product::product(items.into_iter());
    assert_eq!(total, Ok(Wrapping(i8::MIN)));
}

#[test]
fn fallible_sum_of_optional_values() {
    let items: Vec<Result<Option<u8>, char>> = vec![Ok(Some(1)), Ok(None), Ok(Some(2))];
    let total: Result<Option<u8>, char> = Sum::sum(items.into_iter());
    assert_eq!(total, Ok(None));
    let items: Vec<Result<Option<u8>, char>> = vec![Ok(Some(1)), Err('x'), Ok(None)];
    let total: Result<Option<u8>, char> = Sum::sum(items.into_iter());
    assert_eq!(total, Err('x'));
}

#[test]
fn take_ok_stops_after_the_first_failure() {
    let mut items = vec![Ok(1u8), Ok(2), Err("bad"), Ok(3), Err("worse")].into_iter();
    let (values, failure) = take_ok(&mut items);
    assert_eq!(values, vec![1, 2]);
    assert_eq!(failure, Some("bad"));
    assert_eq!(items.next(), Some(Ok(3)));
    let (values, failure) = take_ok(&mut items);
    assert_eq!(values, Vec::<u8>::new());
    assert_eq!(failure, Some("worse"));
    assert_eq!(items.next(), None);
}

#[test]
fn take_ok_takes_all_where_nothing_failed() {
    let mut items = vec![Ok::<u8, &str>(1), Ok(2)].into_iter();
    let (values, failure) = take_ok(&mut items);
    assert_eq!(values, vec![1, 2]);
    assert_eq!(failure, None);
    assert_eq!(items.next(), None);
}
