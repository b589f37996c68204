use elrond_wasm::arena::Arena;
use elrond_wasm::big_int::BigInt;
use elrond_wasm::big_num_api::BigIntApi;
use elrond_wasm::big_uint::BigUint;
use elrond_wasm::boxed_bytes::BoxedBytes;
use elrond_wasm::codec::error::{DecodeError, EncodeError};
use elrond_wasm::codec::format::{NestedDecode, NestedEncode, TopDecode, TopEncode};
use elrond_wasm::codec::input::{NestedDecodeInput, SliceInput};
use elrond_wasm::managed_buffer::ManagedBuffer;

fn nested<T: NestedEncode>(api: &mut Arena, value: &T) -> Vec<u8> {
    let mut out: Vec<u8> = Vec::new();
    assert!(value.dep_encode(api, &mut out).is_ok());
    out
}

fn top<T: TopEncode>(api: &mut Arena, value: &T) -> Vec<u8> {
    let mut out: Vec<u8> = Vec::new();
    assert!(value.top_encode(api, &mut out).is_ok());
    out
}

#[test]
fn struct_of_buffer_and_two_bytes() {
    let mut api = Arena::new();
    let buffer = ManagedBuffer::new_from_bytes(&mut api, b"ab");
    let value = (buffer, [1u8, 2u8]);
    assert_eq!(nested(&mut api, &value), vec![0, 0, 0, 2, b'a', b'b', 1, 2]);
    let fields = (ManagedBuffer::new_from_bytes(&mut api, b"ab"), (1u8, 2u8));
    assert_eq!(nested(&mut api, &fields), vec![0, 0, 0, 2, b'a', b'b', 1, 2]);
}

#[test]
fn struct_of_buffer_and_two_bytes_into_a_managed_output() {
    let mut api = Arena::new();
    let buffer = ManagedBuffer::new_from_bytes(&mut api, b"ab");
    let value = (buffer, [1u8, 2u8]);
    let mut out = ManagedBuffer::new_empty(&mut api);
    assert!(value.dep_encode(&mut api, &mut out).is_ok());
    assert_eq!(
        out.to_boxed_bytes(&api).as_slice(),
        &[0, 0, 0, 2, b'a', b'b', 1, 2]
    );
    assert_eq!(value.0.to_boxed_bytes(&api).as_slice(), b"ab");
}

#[test]
fn integers_are_fixed_width_big_endian() {
    let mut api = Arena::new();
    assert_eq!(nested(&mut api, &5u8), vec![5]);
    assert_eq!(nested(&mut api, &0x0102u16), vec![1, 2]);
    assert_eq!(nested(&mut api, &5u32), vec![0, 0, 0, 5]);
    assert_eq!(
        nested(&mut api, &0x0102030405060708u64),
        vec![1, 2, 3, 4, 5, 6, 7, 8]
    );
    assert_eq!(top(&mut api, &5u32), vec![0, 0, 0, 5]);
    assert_eq!(nested(&mut api, &true), vec![1]);
    assert_eq!(nested(&mut api, &false), vec![0]);
}

#[test]
fn integers_round_trip() {
    let mut api = Arena::new();
    for value in [0u32, 1, 255, 256, u32::MAX] {
        let bytes = nested(&mut api, &value);
        let mut input = SliceInput::new(&bytes);
        assert_eq!(u32::dep_decode(&mut api, &mut input), Ok(value));
        assert_eq!(input.remaining_len(), 0);
        let payload = top(&mut api, &value);
        assert_eq!(u32::top_decode(&mut api, &payload), Ok(value));
    }
    assert_eq!(u64::top_decode(&mut api, &[0xff; 8]), Ok(u64::MAX));
    assert_eq!(u16::top_decode(&mut api, &[1, 0]), Ok(256));
    assert_eq!(u8::top_decode(&mut api, &[9]), Ok(9));
}

#[test]
fn decode_errors() {
    let mut api = Arena::new();
    assert_eq!(
        u32::top_decode(&mut api, &[1, 2, 3]),
        Err(DecodeError::InputTooShort)
    );
    assert_eq!(
        u32::top_decode(&mut api, &[1, 2, 3, 4, 5]),
        Err(DecodeError::InputTooLong)
    );
    assert_eq!(bool::top_decode(&mut api, &[2]), Err(DecodeError::InvalidValue));
    assert_eq!(
        Option::<u8>::top_decode(&mut api, &[7, 1]),
        Err(DecodeError::InvalidValue)
    );
    let mut input = SliceInput::new(&[0, 0, 0, 3, 1, 2]);
    assert!(matches!(
        BoxedBytes::dep_decode(&mut api, &mut input),
        Err(DecodeError::InputTooShort)
    ));
    assert_eq!(
        <(u8, u8)>::top_decode(&mut api, &[1, 2, 3]),
        Err(DecodeError::InputTooLong)
    );
    assert_eq!(DecodeError::InputTooShort.message(), "input too short");
    assert_eq!(DecodeError::InputTooLong.message(), "input too long");
    assert_eq!(DecodeError::InvalidValue.message(), "invalid value");
}

#[test]
fn byte_arrays_have_no_prefix() {
    let mut api = Arena::new();
    let word: [u8; 4] = [9, 8, 7, 6];
    assert_eq!(nested(&mut api, &word), vec![9, 8, 7, 6]);
    assert_eq!(top(&mut api, &word), vec![9, 8, 7, 6]);
    let buffer = ManagedBuffer::new_from_bytes(&mut api, b"ab");
    let value = (buffer, [1u8, 2u8]);
    assert_eq!(nested(&mut api, &value), vec![0, 0, 0, 2, b'a', b'b', 1, 2]);
    let mut input = SliceInput::new(&[9, 8, 7, 6, 5]);
    assert_eq!(<[u8; 4]>::dep_decode(&mut api, &mut input), Ok(word));
    assert_eq!(input.remaining_len(), 1);
    assert_eq!(<[u8; 4]>::top_decode(&mut api, &[9, 8, 7, 6]), Ok(word));
    assert_eq!(
        <[u8; 4]>::top_decode(&mut api, &[9, 8, 7]),
        Err(DecodeError::InputTooShort)
    );
    assert_eq!(
        <[u8; 4]>::top_decode(&mut api, &[9, 8, 7, 6, 5]),
        Err(DecodeError::InputTooLong)
    );
    let nothing: [u8; 0] = [];
    let mut out: Vec<u8> = Vec::new();
    assert_eq!(
        nothing.dep_encode(&mut api, &mut out),
        Err(EncodeError::InvalidLength)
    );
    assert_eq!(EncodeError::InvalidLength.message(), "invalid length");
    assert_eq!(top(&mut api, &nothing), Vec::<u8>::new());
}

#[test]
fn bytes_have_a_prefix_when_nested_and_none_at_top_level() {
    let mut api = Arena::new();
    let bytes = BoxedBytes::from_slice(b"xyz");
    assert_eq!(nested(&mut api, &bytes), vec![0, 0, 0, 3, b'x', b'y', b'z']);
    assert_eq!(top(&mut api, &bytes), b"xyz".to_vec());
    let empty = BoxedBytes::empty();
    assert_eq!(nested(&mut api, &empty), vec![0, 0, 0, 0]);
    assert_eq!(top(&mut api, &empty), Vec::<u8>::new());
}

#[test]
fn managed_buffer_round_trip() {
    let mut api = Arena::new();
    let buffer = ManagedBuffer::new_from_bytes(&mut api, b"hello");
    let bytes = nested(&mut api, &buffer);
    assert_eq!(bytes, vec![0, 0, 0, 5, b'h', b'e', b'l', b'l', b'o']);
    let mut input = SliceInput::new(&bytes);
    let decoded = ManagedBuffer::dep_decode(&mut api, &mut input).unwrap();
    assert_ne!(decoded.get_raw_handle(), buffer.get_raw_handle());
    assert_eq!(decoded.to_boxed_bytes(&api).as_slice(), b"hello");
    let payload = top(&mut api, &buffer);
    assert_eq!(payload, b"hello".to_vec());
    let again = ManagedBuffer::top_decode(&mut api, &payload).unwrap();
    assert_eq!(again.to_boxed_bytes(&api).as_slice(), b"hello");
}

#[test]
fn same_content_same_bytes() {
    let mut api = Arena::new();
    let first = ManagedBuffer::new_from_bytes(&mut api, b"same");
    let second = ManagedBuffer::new_from_bytes(&mut api, b"same");
    assert_eq!(nested(&mut api, &first), nested(&mut api, &second));
    assert_eq!(nested(&mut api, &first), nested(&mut api, &first));
    let mut fast = ManagedBuffer::new_empty(&mut api);
    assert!(first.dep_encode(&mut api, &mut fast).is_ok());
    let slow = nested(&mut api, &first);
    assert_eq!(fast.to_boxed_bytes(&api).as_slice(), slow.as_slice());
}

#[test]
fn big_uint_round_trip() {
    let mut api = Arena::new();
    let number = BigUint::from_u32(&mut api, 300);
    assert_eq!(nested(&mut api, &number), vec![0, 0, 0, 2, 1, 0x2c]);
    assert_eq!(top(&mut api, &number), vec![1, 0x2c]);
    let decoded = BigUint::top_decode(&mut api, &[1, 0x2c]).unwrap();
    assert!(decoded.eq(&api, &number));
    let mut input = SliceInput::new(&[0, 0, 0, 2, 1, 0x2c, 9]);
    let nested_back = BigUint::dep_decode(&mut api, &mut input).unwrap();
    assert!(nested_back.eq(&api, &number));
    assert_eq!(input.remaining_len(), 1);
}

#[test]
fn options() {
    let mut api = Arena::new();
    assert_eq!(nested(&mut api, &Some(7u16)), vec![1, 0, 7]);
    assert_eq!(nested(&mut api, &None::<u16>), vec![0]);
    assert_eq!(top(&mut api, &Some(7u16)), vec![1, 0, 7]);
    assert_eq!(top(&mut api, &None::<u16>), Vec::<u8>::new());
    assert_eq!(Option::<u16>::top_decode(&mut api, &[]), Ok(None));
    assert_eq!(Option::<u16>::top_decode(&mut api, &[1, 0, 7]), Ok(Some(7)));
    let mut input = SliceInput::new(&[0, 1, 0, 7]);
    assert_eq!(Option::<u16>::dep_decode(&mut api, &mut input), Ok(None));
    assert_eq!(
        Option::<u16>::dep_decode(&mut api, &mut input),
        Ok(Some(7))
    );
}

#[test]
fn sequences() {
    let mut api = Arena::new();
    let values: Vec<u16> = vec![1, 2, 3];
    assert_eq!(nested(&mut api, &values), vec![0, 0, 0, 3, 0, 1, 0, 2, 0, 3]);
    assert_eq!(top(&mut api, &values), vec![0, 1, 0, 2, 0, 3]);
    assert_eq!(
        Vec::<u16>::top_decode(&mut api, &[0, 1, 0, 2, 0, 3]),
        Ok(values.clone())
    );
    let mut input = SliceInput::new(&[0, 0, 0, 3, 0, 1, 0, 2, 0, 3]);
    assert_eq!(Vec::<u16>::dep_decode(&mut api, &mut input), Ok(values));
    assert_eq!(
        Vec::<u16>::top_decode(&mut api, &[0, 1, 0]),
        Err(DecodeError::InputTooShort)
    );
    assert_eq!(Vec::<u16>::top_decode(&mut api, &[]), Ok(vec![]));
}

#[test]
fn sequence_of_managed_buffers() {
    let mut api = Arena::new();
    let buffers = vec![
        ManagedBuffer::new_from_bytes(&mut api, b"a"),
        ManagedBuffer::new_from_bytes(&mut api, b""),
        ManagedBuffer::new_from_bytes(&mut api, b"bc"),
    ];
    let bytes = nested(&mut api, &buffers);
    assert_eq!(
        bytes,
        vec![0, 0, 0, 3, 0, 0, 0, 1, b'a', 0, 0, 0, 0, 0, 0, 0, 2, b'b', b'c']
    );
    let mut input = SliceInput::new(&bytes);
    let decoded = Vec::<ManagedBuffer>::dep_decode(&mut api, &mut input).unwrap();
    assert_eq!(decoded.len(), 3);
    assert_eq!(decoded[0].to_boxed_bytes(&api).as_slice(), b"a");
    assert_eq!(decoded[1].to_boxed_bytes(&api).as_slice(), b"");
    assert_eq!(decoded[2].to_boxed_bytes(&api).as_slice(), b"bc");
}

#[test]
fn big_int_round_trip() {
    let mut api = Arena::new();
    let number = <BigInt as BigIntApi<BigUint>>::from_i64(&mut api, -129);
    assert_eq!(nested(&mut api, &number), vec![0, 0, 0, 2, 255, 127]);
    assert_eq!(top(&mut api, &number), vec![255, 127]);
    let decoded = BigInt::top_decode(&mut api, &[255, 127]).unwrap();
    assert!(decoded.eq(&api, &number));
    let mut input = SliceInput::new(&[0, 0, 0, 2, 255, 127]);
    let nested_back = BigInt::dep_decode(&mut api, &mut input).unwrap();
    assert!(nested_back.eq(&api, &number));
    let zero = <BigInt as BigIntApi<BigUint>>::from_i64(&mut api, 0);
    assert_eq!(nested(&mut api, &zero), vec![0, 0, 0, 0]);
}
