use std::cmp::Ordering;

use elrond_wasm::api::Sign;
use elrond_wasm::arena::Arena;
use elrond_wasm::big_num_api::BigUintApi;
use elrond_wasm::big_uint::BigUint;
use elrond_wasm::big_uint_cmp::{cmp_i64, cmp_u64};

#[test]
fn three_hundred_is_two_bytes() {
    let mut api = Arena::new();
    let number = BigUint::from_u32(&mut api, 300);
    assert_eq!(number.to_bytes_be(&api), vec![0x01, 0x2C]);
    assert_eq!(number.byte_length(&api), 2);
}

#[test]
fn three_hundred_padded_to_thirty_two_bytes() {
    let mut api = Arena::new();
    let number = BigUint::from_u32(&mut api, 300);
    let mut target = [0xffu8; 32];
    number.copy_to_array_big_endian_pad_right(&api, &mut target);
    let mut expected = [0u8; 32];
    expected[30] = 0x01;
    expected[31] = 0x2C;
    assert_eq!(target, expected);
}

#[test]
fn full_width_value_fills_the_array() {
    let mut api = Arena::new();
    let bytes = [0xabu8; 32];
    let number = BigUint::from_bytes_be(&mut api, &bytes);
    let mut target = [0u8; 32];
    number.copy_to_array_big_endian_pad_right(&api, &mut target);
    assert_eq!(target, bytes);
}

#[test]
fn zero_has_no_bytes_and_no_sign() {
    let mut api = Arena::new();
    let zero = BigUint::zero(&mut api);
    assert_eq!(zero.to_bytes_be(&api), Vec::<u8>::new());
    assert_eq!(zero.byte_length(&api), 0);
    assert_eq!(zero.sign(&api), Sign::NoSign);
    let mut target = [9u8; 32];
    zero.copy_to_array_big_endian_pad_right(&api, &mut target);
    assert_eq!(target, [0u8; 32]);
}

#[test]
fn leading_zero_bytes_do_not_count() {
    let mut api = Arena::new();
    let number = BigUint::from_bytes_be(&mut api, &[0, 0, 1, 0]);
    assert_eq!(number.to_bytes_be(&api), vec![1, 0]);
    let same = BigUint::from_u64(&mut api, 256);
    assert!(number.eq(&api, &same));
}

#[test]
fn pad_right_gives_none_when_too_long() {
    let mut api = Arena::new();
    let number = BigUint::from_u64(&mut api, 0x010203);
    assert_eq!(number.to_bytes_be_pad_right(&api, 2), None);
    assert_eq!(number.to_bytes_be_pad_right(&api, 3), Some(vec![1, 2, 3]));
    assert_eq!(
        number.to_bytes_be_pad_right(&api, 5),
        Some(vec![0, 0, 1, 2, 3])
    );
}

#[test]
fn copy_to_slice_leaves_the_rest() {
    let mut api = Arena::new();
    let number = BigUint::from_u64(&mut api, 0x0102);
    let mut slice = [7u8; 4];
    let len = number.copy_to_slice_big_endian(&api, &mut slice);
    assert_eq!(len, 2);
    assert_eq!(slice, [1, 2, 7, 7]);
}

#[test]
fn order_agrees_with_the_bytes() {
    let mut api = Arena::new();
    let small = BigUint::from_u64(&mut api, 255);
    let large = BigUint::from_u64(&mut api, 256);
    let huge = BigUint::from_bytes_be(&mut api, &[1; 40]);
    assert_eq!(small.cmp(&api, &large), Ordering::Less);
    assert_eq!(large.cmp(&api, &small), Ordering::Greater);
    assert_eq!(large.cmp(&api, &large), Ordering::Equal);
    assert_eq!(large.cmp(&api, &huge), Ordering::Less);
    assert_eq!(huge.partial_cmp(&api, &small), Some(Ordering::Greater));
    assert!(!small.eq(&api, &large));
    assert!(small.to_bytes_be(&api).len() < large.to_bytes_be(&api).len());
}

#[test]
fn comparing_with_zero_allocates_nothing() {
    let mut api = Arena::new();
    let zero = BigUint::zero(&mut api);
    let one = BigUint::from_u32(&mut api, 1);
    let before = api.handle_count();
    assert_eq!(cmp_i64(&mut api, &zero, 0), Ordering::Equal);
    assert_eq!(cmp_i64(&mut api, &one, 0), Ordering::Greater);
    assert!(zero.eq_i64(&mut api, &0));
    assert_eq!(zero.eq_i64(&mut api, &0), zero.sign(&api) == Sign::NoSign);
    assert_eq!(one.eq_i64(&mut api, &0), one.sign(&api) == Sign::NoSign);
    assert_eq!(api.handle_count(), before);
}

#[test]
fn comparing_with_a_native_integer_allocates_one_handle() {
    let mut api = Arena::new();
    let number = BigUint::from_u32(&mut api, 1000);
    let before = api.handle_count();
    assert_eq!(cmp_i64(&mut api, &number, 999), Ordering::Greater);
    assert_eq!(api.handle_count(), before + 1);
    assert_eq!(cmp_i64(&mut api, &number, 1000), Ordering::Equal);
    assert_eq!(cmp_i64(&mut api, &number, 1001), Ordering::Less);
    assert_eq!(cmp_i64(&mut api, &number, -5), Ordering::Greater);
    assert_eq!(cmp_i64(&mut api, &number, i64::MIN), Ordering::Greater);
    assert_eq!(number.to_bytes_be(&api), vec![0x03, 0xe8]);
}

#[test]
fn comparing_with_each_native_width() {
    let mut api = Arena::new();
    let number = BigUint::from_u64(&mut api, 70000);
    assert!(number.eq_i32(&mut api, &70000));
    assert!(!number.eq_i32(&mut api, &-70000));
    assert!(number.eq_u32(&mut api, &70000));
    assert!(number.eq_u64(&mut api, &70000));
    assert_eq!(number.partial_cmp_i32(&mut api, &-1), Some(Ordering::Greater));
    assert_eq!(number.partial_cmp_i64(&mut api, &70001), Some(Ordering::Less));
    assert_eq!(number.partial_cmp_u32(&mut api, &u32::MAX), Some(Ordering::Less));
    assert_eq!(number.partial_cmp_u64(&mut api, &u64::MAX), Some(Ordering::Less));
    let top = BigUint::from_u64(&mut api, u64::MAX);
    assert_eq!(cmp_u64(&mut api, &top, u64::MAX), Ordering::Equal);
    assert_eq!(cmp_u64(&mut api, &top, u64::MAX - 1), Ordering::Greater);
    assert_eq!(top.to_bytes_be(&api), vec![0xff; 8]);
}

#[test]
fn clone_has_its_own_handle() {
    let mut api = Arena::new();
    let number = BigUint::from_u32(&mut api, 77);
    let copy = number.clone(&mut api);
    assert_ne!(number.get_raw_handle(), copy.get_raw_handle());
    assert!(number.eq(&api, &copy));
}
