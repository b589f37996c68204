use elrond_wasm::api::{Comparison, Sign};
use elrond_wasm::arena::Arena;
use elrond_wasm::big_int::BigInt;
use elrond_wasm::big_num_api::{BigIntApi, BigUintApi};
use elrond_wasm::big_uint::BigUint;

fn unsigned(api: &mut Arena, value: u128) -> BigUint {
    BigUint::from_bytes_be(api, &value.to_be_bytes())
}

fn value_of(api: &Arena, number: &BigUint) -> u128 {
    let bytes = number.to_bytes_be(api);
    assert!(bytes.len() <= 16);
    let mut value: u128 = 0;
    for byte in bytes {
        value = value * 256 + byte as u128;
    }
    value
}

fn signed(api: &mut Arena, value: i64) -> BigInt {
    <BigInt as BigIntApi<BigUint>>::from_i64(api, value)
}

fn int_value(api: &mut Arena, number: &BigInt) -> i128 {
    let magnitude = number.abs_uint(api);
    let magnitude = value_of(api, &magnitude) as i128;
    match <BigInt as BigIntApi<BigUint>>::sign(number, api) {
        Sign::Minus => -magnitude,
        Sign::NoSign => {
            assert_eq!(magnitude, 0);
            0
        }
        Sign::Plus => magnitude,
    }
}

const SAMPLES: [u128; 9] = [
    0,
    1,
    2,
    255,
    256,
    65535,
    0xdead_beef,
    0xffff_ffff_ffff_ffff,
    0x0123_4567_89ab_cdef_0011,
];

#[test]
fn sums_and_differences() {
    let mut api = Arena::new();
    for a in SAMPLES {
        for b in SAMPLES {
            let x = unsigned(&mut api, a);
            let y = unsigned(&mut api, b);
            let sum = x.add(&mut api, &y);
            assert_eq!(value_of(&api, &sum), a + b);
            if a >= b {
                let difference = x.sub(&mut api, &y);
                assert_eq!(value_of(&api, &difference), a - b);
            }
            assert_eq!(value_of(&api, &x), a);
            assert_eq!(value_of(&api, &y), b);
        }
    }
}

#[test]
fn products_quotients_and_remainders() {
    let mut api = Arena::new();
    for a in SAMPLES {
        for b in SAMPLES {
            let x = unsigned(&mut api, a);
            let y = unsigned(&mut api, b);
            if a < (1 << 64) && b < (1 << 64) {
                let product = x.mul(&mut api, &y);
                assert_eq!(value_of(&api, &product), a * b);
            }
            if b != 0 {
                let quotient = x.div(&mut api, &y);
                let remainder = x.rem(&mut api, &y);
                assert_eq!(value_of(&api, &quotient), a / b);
                assert_eq!(value_of(&api, &remainder), a % b);
            }
        }
    }
}

#[test]
fn a_product_beyond_every_native_width() {
    let mut api = Arena::new();
    let x = BigUint::from_bytes_be(&mut api, &[0xff; 20]);
    let y = BigUint::from_bytes_be(&mut api, &[0xff; 20]);
    let product = x.mul(&mut api, &y);
    let mut expected = vec![0xff; 19];
    expected.push(0xfe);
    expected.extend_from_slice(&[0; 19]);
    expected.push(1);
    assert_eq!(product.to_bytes_be(&api), expected);
    let back = product.div(&mut api, &y);
    assert!(back.eq(&api, &x));
}

#[test]
fn bit_operations() {
    let mut api = Arena::new();
    for a in SAMPLES {
        for b in SAMPLES {
            let x = unsigned(&mut api, a);
            let y = unsigned(&mut api, b);
            let and = x.bitand(&mut api, &y);
            let or = x.bitor(&mut api, &y);
            let xor = x.bitxor(&mut api, &y);
            assert_eq!(value_of(&api, &and), a & b);
            assert_eq!(value_of(&api, &or), a | b);
            assert_eq!(value_of(&api, &xor), a ^ b);
        }
    }
}

#[test]
fn shifts() {
    let mut api = Arena::new();
    for a in SAMPLES {
        for bits in [0usize, 1, 7, 8, 9, 16, 31, 40] {
            let x = unsigned(&mut api, a);
            let right = x.shr(&mut api, bits);
            assert_eq!(value_of(&api, &right), a >> bits);
            if a < (1 << 80) {
                let left = x.shl(&mut api, bits);
                assert_eq!(value_of(&api, &left), a << bits);
            }
        }
    }
    let one = unsigned(&mut api, 1);
    let gone = one.shr(&mut api, usize::MAX);
    assert_eq!(value_of(&api, &gone), 0);
}

#[test]
fn assign_forms_keep_the_handle() {
    let mut api = Arena::new();
    let mut x = unsigned(&mut api, 1000);
    let y = unsigned(&mut api, 7);
    let handle = x.get_raw_handle();
    x.add_assign(&mut api, &y);
    assert_eq!(value_of(&api, &x), 1007);
    x.sub_assign(&mut api, &y);
    assert_eq!(value_of(&api, &x), 1000);
    x.mul_assign(&mut api, &y);
    assert_eq!(value_of(&api, &x), 7000);
    x.div_assign(&mut api, &y);
    assert_eq!(value_of(&api, &x), 1000);
    x.rem_assign(&mut api, &y);
    assert_eq!(value_of(&api, &x), 6);
    x.bitor_assign(&mut api, &y);
    assert_eq!(value_of(&api, &x), 7);
    x.bitand_assign(&mut api, &y);
    assert_eq!(value_of(&api, &x), 7);
    x.bitxor_assign(&mut api, &y);
    assert_eq!(value_of(&api, &x), 0);
    x.add_assign(&mut api, &y);
    x.shl_assign(&mut api, 4);
    assert_eq!(value_of(&api, &x), 112);
    x.shr_assign(&mut api, 5);
    assert_eq!(value_of(&api, &x), 3);
    assert_eq!(x.get_raw_handle(), handle);
    assert_eq!(value_of(&api, &y), 7);
}

#[test]
fn from_native_integers() {
    let mut api = Arena::new();
    let a = <BigUint as BigUintApi>::from_i64(&mut api, i64::MAX);
    assert_eq!(value_of(&api, &a), i64::MAX as u128);
    let b = <BigUint as BigUintApi>::from_i32(&mut api, 12);
    assert_eq!(value_of(&api, &b), 12);
}

#[test]
fn signed_arithmetic() {
    let mut api = Arena::new();
    let samples: [i64; 7] = [0, 1, -1, 255, -256, 1_000_000_007, -987_654_321];
    for a in samples {
        for b in samples {
            let x = signed(&mut api, a);
            let y = signed(&mut api, b);
            let sum = x.add(&mut api, &y);
            let difference = x.sub(&mut api, &y);
            let product = x.mul(&mut api, &y);
            assert_eq!(int_value(&mut api, &sum), a as i128 + b as i128);
            assert_eq!(int_value(&mut api, &difference), a as i128 - b as i128);
            assert_eq!(int_value(&mut api, &product), a as i128 * b as i128);
            if b != 0 {
                let quotient = x.div(&mut api, &y);
                let remainder = x.rem(&mut api, &y);
                assert_eq!(int_value(&mut api, &quotient), (a / b) as i128);
                assert_eq!(int_value(&mut api, &remainder), (a % b) as i128);
            }
            let expected = if a < b {
                Comparison::Less
            } else if a == b {
                Comparison::Equal
            } else {
                Comparison::Greater
            };
            assert_eq!(x.compare_to(&api, &y), expected);
            assert_eq!(x.eq(&api, &y), a == b);
        }
    }
}

#[test]
fn signs_and_magnitudes() {
    let mut api = Arena::new();
    let negative = signed(&mut api, -5);
    let zero = signed(&mut api, 0);
    let positive = signed(&mut api, 5);
    assert_eq!(<BigInt as BigIntApi<BigUint>>::sign(&negative, &api), Sign::Minus);
    assert_eq!(<BigInt as BigIntApi<BigUint>>::sign(&zero, &api), Sign::NoSign);
    assert_eq!(<BigInt as BigIntApi<BigUint>>::sign(&positive, &api), Sign::Plus);
    let magnitude = negative.abs_uint(&mut api);
    assert_eq!(magnitude.to_bytes_be(&api), vec![5]);
    let flipped = negative.neg(&mut api);
    assert!(flipped.eq(&api, &positive));
    let nothing = zero.neg(&mut api);
    assert_eq!(<BigInt as BigIntApi<BigUint>>::sign(&nothing, &api), Sign::NoSign);
    let lowest = signed(&mut api, i64::MIN);
    let magnitude = lowest.abs_uint(&mut api);
    assert_eq!(magnitude.to_bytes_be(&api), vec![0x80, 0, 0, 0, 0, 0, 0, 0]);
    let natural = BigUint::from_u32(&mut api, 9);
    let handle = natural.get_raw_handle();
    let signed = <BigInt as BigIntApi<BigUint>>::from_big_uint(natural);
    assert_eq!(signed.get_raw_handle(), handle);
    assert_eq!(int_value(&mut api, &signed), 9);
    let copy = signed.clone(&mut api);
    assert_ne!(copy.get_raw_handle(), handle);
    assert!(copy.eq(&api, &signed));
}

#[test]
fn twos_complement_forms() {
    let mut api = Arena::new();
    let cases: [(i64, Vec<u8>); 12] = [
        (0, vec![]),
        (1, vec![1]),
        (127, vec![127]),
        (128, vec![0, 128]),
        (255, vec![0, 255]),
        (256, vec![1, 0]),
        (-1, vec![255]),
        (-128, vec![128]),
        (-129, vec![255, 127]),
        (-256, vec![255, 0]),
        (-32768, vec![128, 0]),
        (-32769, vec![255, 127, 255]),
    ];
    for (value, bytes) in cases {
        let number = signed(&mut api, value);
        assert_eq!(number.to_signed_bytes_be(&api), bytes);
        let back = BigInt::from_signed_bytes_be(&mut api, &bytes);
        assert!(back.eq(&api, &number));
    }
    let padded = BigInt::from_signed_bytes_be(&mut api, &[255, 255, 254]);
    assert_eq!(int_value(&mut api, &padded), -2);
    assert_eq!(padded.to_signed_bytes_be(&api), vec![254]);
    let lowest = signed(&mut api, i64::MIN);
    assert_eq!(
        lowest.to_signed_bytes_be(&api),
        vec![0x80, 0, 0, 0, 0, 0, 0, 0]
    );
}

#[test]
fn placeholders_hold_the_greatest_handle() {
    let unsigned_one = <BigUint as BigUintApi>::phantom();
    let signed_one = <BigInt as BigIntApi<BigUint>>::phantom();
    assert_eq!(unsigned_one.get_raw_handle(), usize::MAX);
    assert_eq!(signed_one.get_raw_handle(), usize::MAX);
}
