use accum::{Product, Sum};
use std::num::Wrapping;

#[test]
fn wrapping_sum_wraps_past_the_greatest_value() {
    let total: Wrapping<u8> = Sum::sum(vec![Wrapping(200u8), Wrapping(100)].into_iter());
    assert_eq!(total, Wrapping(44));
}

#[test]
fn wrapping_product_wraps_past_the_greatest_value() {
    let total: Wrapping<u8> = Product::product(vec![Wrapping(16u8), Wrapping(17)].into_iter());
    assert_eq!(total, Wrapping(16));
    let total: Wrapping<u8> = Product::product(vec![Wrapping(16u8), Wrapping(16)].into_iter());
    assert_eq!(total, Wrapping(0));
}

#[test]
fn wrapping_sum_of_nothing_is_zero() {
    let total: Wrapping<i32> = Sum::sum(Vec::<Wrapping<i32>>::new().into_iter());
    assert_eq!(total, Wrapping(0));
}

#[test]
fn wrapping_product_of_nothing_is_one() {
    let total: Wrapping<u64> = Product::product(Vec::<Wrapping<u64>>::new().into_iter());
    assert_eq!(total, Wrapping(1));
}

#[test]
fn signed_wrapping_sum_wraps_both_ways() {
    let total: Wrapping<i8> = Sum::sum(vec![Wrapping(i8::MAX), Wrapping(1)].into_iter());
    assert_eq!(total, Wrapping(i8::MIN));
    let total: Wrapping<i8> = Sum::sum(vec![Wrapping(i8::MIN), Wrapping(-1)].into_iter());
    assert_eq!(total, Wrapping(i8::MAX));
    let total: Wrapping<i8> = Sum::sum(
        vec![Wrapping(100i8), Wrapping(100), Wrapping(100)].into_iter(),
    );
    assert_eq!(total, Wrapping(44));
}

#[test]
fn signed_wrapping_product_wraps() {
    let total: Wrapping<i8> = Product::product(vec![Wrapping(i8::MIN), Wrapping(-1)].into_iter());
    assert_eq!(total, Wrapping(i8::MIN));
    let total: Wrapping<i16> = Product::product(
        vec![Wrapping(300i16), Wrapping(-300), Wrapping(7)].into_iter(),
    );
    assert_eq!(total, Wrapping(25360));
    let total: Wrapping<i32> = Product::product(
        vec![Wrapping(65536i32), Wrapping(32768), Wrapping(3)].into_iter(),
    );
    assert_eq!(total, Wrapping(i32::MIN));
}

#[test]
fn wrapping_sum_in_range_is_the_exact_sum() {
    let items = vec![5u16, 60000, 535];
    let exact: u16 = Sum::sum(items.iter());
    let wrapping: Wrapping<u16> = Sum::sum(items.iter().map(|n| Wrapping(*n)));
    assert_eq!(exact, 60540);
    assert_eq!(wrapping, Wrapping(exact));
}

#[test]
fn wrapping_product_in_range_is_the_exact_product() {
    let items = vec![-5i32, 60000, 535];
    let exact: i32 = Product::product(items.iter());
    let wrapping: Wrapping<i32> = Product::product(items.iter().map(|n| Wrapping(*n)));
    assert_eq!(exact, -160500000);
    assert_eq!(wrapping, Wrapping(exact));
}

#[test]
fn borrowed_wrapping_items_reduce_like_owned_ones() {
    let items = vec![Wrapping(250u8), Wrapping(7), Wrapping(9)];
    let borrowed: Wrapping<u8> = Sum::sum(items.iter());
    let owned: Wrapping<u8> = Sum::sum(items.clone().into_iter());
    assert_eq!(borrowed, Wrapping(10));
    assert_eq!(borrowed, owned);
    let borrowed: Wrapping<u8> = Product::product(items.iter());
    let owned: Wrapping<u8> = Product::product(items.clone().into_iter());
    assert_eq!(borrowed, Wrapping(134));
    assert_eq!(borrowed, owned);
}

#[test]
fn every_wrapping_kind_wraps() {
    assert_eq!(<Wrapping<u8> as Sum>::sum(vec![Wrapping(u8::MAX), Wrapping(2)].into_iter()), Wrapping(1));
    assert_eq!(<Wrapping<u16> as Sum>::sum(vec![Wrapping(u16::MAX), Wrapping(2)].into_iter()), Wrapping(1));
    assert_eq!(<Wrapping<u32> as Sum>::sum(vec![Wrapping(u32::MAX), Wrapping(2)].into_iter()), Wrapping(1));
    assert_eq!(<Wrapping<u64> as Sum>::sum(vec![Wrapping(u64::MAX), Wrapping(2)].into_iter()), Wrapping(1));
    assert_eq!(<Wrapping<u128> as Sum>::sum(vec![Wrapping(u128::MAX), Wrapping(2)].into_iter()), Wrapping(1));
    assert_eq!(<Wrapping<usize> as Sum>::sum(vec![Wrapping(usize::MAX), Wrapping(2)].into_iter()), Wrapping(1));
    assert_eq!(<Wrapping<i8> as Sum>::sum(vec![Wrapping(i8::MAX), Wrapping(2)].into_iter()), Wrapping(i8::MIN + 1));
    assert_eq!(<Wrapping<i16> as Sum>::sum(vec![Wrapping(i16::MAX), Wrapping(2)].into_iter()), Wrapping(i16::MIN + 1));
    assert_eq!(<Wrapping<i32> as Sum>::sum(vec![Wrapping(i32::MAX), Wrapping(2)].into_iter()), Wrapping(i32::MIN + 1));
    assert_eq!(<Wrapping<i64> as Sum>::sum(vec![Wrapping(i64::MAX), Wrapping(2)].into_iter()), Wrapping(i64::MIN + 1));
    assert_eq!(<Wrapping<i128> as Sum>::sum(vec![Wrapping(i128::MAX), Wrapping(2)].into_iter()), Wrapping(i128::MIN + 1));
    assert_eq!(<Wrapping<isize> as Sum>::sum(vec![Wrapping(isize::MAX), Wrapping(2)].into_iter()), Wrapping(isize::MIN + 1));
}

#[test]
fn every_wrapping_kind_wraps_products() {
    assert_eq!(<Wrapping<u8> as Product>::product(vec![Wrapping(u8::MAX), Wrapping(2)].into_iter()), Wrapping(u8::MAX - 1));
    assert_eq!(<Wrapping<u16> as Product>::product(vec![Wrapping(u16::MAX), Wrapping(2)].into_iter()), Wrapping(u16::MAX - 1));
    assert_eq!(<Wrapping<u32> as Product>::product(vec![Wrapping(u32::MAX), Wrapping(2)].into_iter()), Wrapping(u32::MAX - 1));
    assert_eq!(<Wrapping<u64> as Product>::product(vec![Wrapping(u64::MAX), Wrapping(2)].into_iter()), Wrapping(u64::MAX - 1));
    assert_eq!(<Wrapping<u128> as Product>::product(vec![Wrapping(u128::MAX), Wrapping(2)].into_iter()), Wrapping(u128::MAX - 1));
    assert_eq!(<Wrapping<usize> as Product>::product(vec![Wrapping(usize::MAX), Wrapping(2)].into_iter()), Wrapping(usize::MAX - 1));
    assert_eq!(<Wrapping<i8> as Product>::product(vec![Wrapping(i8::MAX), Wrapping(2)].into_iter()), Wrapping(-2));
    assert_eq!(<Wrapping<i16> as Product>::product(vec![Wrapping(i16::MAX), Wrapping(2)].into_iter()), Wrapping(-2));
    assert_eq!(<Wrapping<i32> as Product>::product(vec![Wrapping(i32::MAX), Wrapping(2)].into_iter()), Wrapping(-2));
    assert_eq!(<Wrapping<i64> as Product>::product(vec![Wrapping(i64::MAX), Wrapping(2)].into_iter()), Wrapping(-2));
    assert_eq!(<Wrapping<i128> as Product>::product(vec![Wrapping(i128::MAX), Wrapping(2)].into_iter()), Wrapping(-2));
    assert_eq!(<Wrapping<isize> as Product>::product(vec![Wrapping(isize::MAX), Wrapping(2)].into_iter()), Wrapping(-2));
}
