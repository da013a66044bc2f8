use accum::{take_present, Product, Sum};
use std::cell::Cell;
use std::num::Wrapping;

#[test]
fn sum_of_present_values_is_present() {
    let total: Option<i32> = Sum::sum(vec![Some(1), Some(2)].into_iter());
    assert_eq!(total, Some(3));
}

#[test]
fn sum_with_an_absent_value_is_absent() {
    let total: Option<i32> = Sum::sum(vec![Some(1), None, Some(2)].into_iter());
    assert_eq!(total, None);
}

#[test]
fn sum_does_not_touch_what_follows_an_absent_value() {
    let touched = Cell::new(false);
    let items = vec![Some(1), None].into_iter().chain(std::iter::once_with(|| {
        touched.set(true);
        Some(2)
    }));
    let total: Option<i32> = Sum::sum(items);
    assert_eq!(total, None);
    assert!(!touched.get());
}

#[test]
fn sum_leaves_what_follows_an_absent_value_in_the_iterator() {
    let mut items = vec![Some(1), None, Some(2), Some(3)].into_iter();
    let total: Option<i32> = Sum::sum(items.by_ref());
    assert_eq!(total, None);
    assert_eq!(items.next(), Some(Some(2)));
    assert_eq!(items.next(), Some(Some(3)));
    assert_eq!(items.next(), None);
}

#[test]
fn sum_touches_every_present_value() {
    let touched = Cell::new(0u32);
    let items = (1u32..=4).map(|n| {
        touched.set(touched.get() + 1);
        Some(n)
    });
    let total: Option<u32> = Sum::sum(items);
    assert_eq!(total, Some(10));
    assert_eq!(touched.get(), 4);
}

#[test]
fn optional_sum_of_nothing_is_zero() {
    let total: Option<u8> = Sum::sum(Vec::<Option<u8>>::new().into_iter());
    assert_eq!(total, Some(0));
}

#[test]
fn optional_product_of_nothing_is_one() {
    let total: Option<u8> = Product::product(Vec::<Option<u8>>::new().into_iter());
    assert_eq!(total, Some(1));
}

#[test]
fn product_of_present_values_is_present() {
    let total: Option<i64> = Product::product(vec![Some(-4i64), Some(5), Some(6)].into_iter());
    assert_eq!(total, Some(-120));
}

#[test]
fn product_with_an_absent_value_is_absent() {
    let mut items = vec![Some(4u8), Some(5), None, Some(6)].into_iter();
    let total: Option<u8> = Product::product(items.by_ref());
    assert_eq!(total, None);
    assert_eq!(items.next(), Some(Some(6)));
}

#[test]
fn absent_first_or_last_is_absent() {
    let total: Option<u16> = Sum::sum(vec![None, Some(1u16)].into_iter());
    assert_eq!(total, None);
    let total: Option<u16> = Sum::sum(vec![Some(1u16), None].into_iter());
    assert_eq!(total, None);
    let total: Option<u16> = Sum::sum(vec![None::<u16>].into_iter());
    assert_eq!(total, None);
}

#[test]
fn optional_sum_of_borrowed_values() {
    let numbers = vec![10u32, 20, 30];
    let total: Option<u32> = Sum::sum(numbers.iter().map(|n| Some(n)));
    assert_eq!(total, Some(60));
}

#[test]
fn optional_sum_of_wrapping_values_wraps() {
    let total: Option<Wrapping<u8>> = Sum::sum(
        vec![Some(Wrapping(200u8)), Some(Wrapping(100))].into_iter(),
    );
    assert_eq!(total, Some(Wrapping(44)));
}

#[test]
fn optional_sum_of_optional_values() {
    let total: Option<Option<u8>> = Sum::sum(
        vec![Some(Some(1u8)), Some(Some(2))].into_iter(),
    );
    assert_eq!(total, Some(Some(3)));
    let total: Option<Option<u8>> = Sum::sum(
        vec![Some(Some(1u8)), Some(None), Some(Some(2))].into_iter(),
    );
    assert_eq!(total, Some(None));
    let total: Option<Option<u8>> = Sum::sum(
        vec![Some(Some(1u8)), None, Some(Some(2))].into_iter(),
    );
    assert_eq!(total, None);
}

#[test]
fn take_present_stops_after_the_first_absent_value() {
    let mut items = vec![Some('a'), Some('b'), None, Some('c'), None].into_iter();
    let (values, absent) = take_present(&mut items);
    assert_eq!(values, vec!['a', 'b']);
    assert!(absent);
    assert_eq!(items.next(), Some(Some('c')));
    let (values, absent) = take_present(&mut items);
    assert_eq!(values, Vec::<char>::new());
    assert!(absent);
    assert_eq!(items.next(), None);
}

#[test]
fn take_present_takes_all_where_none_is_absent() {
    let mut items = vec![Some('a'), Some('b')].into_iter();
    let (values, absent) = take_present(&mut items);
    assert_eq!(values, vec!['a', 'b']);
    assert!(!absent);
    assert_eq!(items.next(), None);
    let mut nothing = Vec::<Option<char>>::new().into_iter();
    let (values, absent) = take_present(&mut nothing);
    assert_eq!(values, Vec::<char>::new());
    assert!(!absent);
}
