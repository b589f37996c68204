//! Integers of fixed width and booleans: the same bytes in both forms, most
//! significant byte first, with no prefix.
use vstd::prelude::*;
use crate::api::{agree_outside, Handle, ManagedTypeApi, Store};
use crate::codec::error::{DecodeError, EncodeError};
use crate::codec::format::{NestedDecode, NestedEncode, TopDecode, TopEncode, WireFormat};
use crate::codec::input::NestedDecodeInput;
use crate::codec::output::NestedEncodeOutput;
use crate::magnitude::{
    be_fixed, be_value, fixed_be_bytes, lemma_be_fixed_len, lemma_be_fixed_value,
    lemma_be_value_bound, lemma_pow256_widths, pow256, value_of_bytes,
};

verus! {

/// Reads a number of `width` bytes from the front of `input`.
pub open spec fn fixed_parse(input: Seq<u8>, width: nat) -> Result<(nat, int), DecodeError> {
    if input.len() < width {
        Err(DecodeError::InputTooShort)
    } else {
        Ok((be_value(input.take(width as int)), width as int))
    }
}

/// Reads the number of `width` bytes that is the whole of `input`.
pub open spec fn fixed_top_parse(input: Seq<u8>, width: nat) -> Result<nat, DecodeError> {
    if input.len() < width {
        Err(DecodeError::InputTooShort)
    } else if input.len() > width {
        Err(DecodeError::InputTooLong)
    } else {
        Ok(be_value(input))
    }
}

/// Reading the fixed-width form of a number that fits gives the number back.
pub proof fn lemma_fixed_round_trip(value: nat, width: nat, rest: Seq<u8>)
    requires
        value < pow256(width),
    ensures
        fixed_parse(be_fixed(value, width) + rest, width) == Ok::<_, DecodeError>(
            (value, width as int),
        ),
        fixed_top_parse(be_fixed(value, width), width) == Ok::<_, DecodeError>(value),
{
    lemma_be_fixed_len(value, width);
    lemma_be_fixed_value(value, width);
    assert((be_fixed(value, width) + rest).take(width as int) =~= be_fixed(value, width));
}

/// Appends `value` in `width` bytes to `dest`.
pub fn write_fixed<M: ManagedTypeApi, O: NestedEncodeOutput>(
    api: &mut M,
    dest: &mut O,
    value: u64,
    width: usize,
)
    requires
        old(dest).ready(old(api)@),
    ensures
        final(dest).ready(final(api)@),
        final(dest).owned() == old(dest).owned(),
        agree_outside(old(api)@, final(api)@, old(dest).owned()),
        final(dest).written(final(api)@) == old(dest).written(old(api)@) + be_fixed(
            value as nat,
            width as nat,
        ),
{
    let bytes = fixed_be_bytes(value, width);
    dest.write(api, bytes.as_slice());
}

/// Reads a number of `width` bytes from the front of `input`.
pub fn read_fixed<I: NestedDecodeInput>(input: &mut I, width: usize) -> (result: Result<
    u64,
    DecodeError,
>)
    requires
        width <= 8,
    ensures
        match result {
            Ok(value) => {
                &&& fixed_parse(old(input).remaining(), width as nat) == Ok::<_, DecodeError>(
                    (value as nat, width as int),
                )
                &&& value < pow256(width as nat)
                &&& final(input).remaining() == old(input).remaining().skip(width as int)
            },
            Err(error) => fixed_parse(old(input).remaining(), width as nat) == Err::<
                (nat, int),
                _,
            >(error),
        },
{
    match input.read_bytes(width) {
        Ok(bytes) => {
            proof {
                lemma_be_value_bound(bytes@);
            }
            Ok(value_of_bytes(bytes.as_slice()))
        },
        Err(error) => Err(error),
    }
}

/// Reads the number of `width` bytes that is the whole of `input`.
pub fn top_read_fixed(input: &[u8], width: usize) -> (result: Result<u64, DecodeError>)
    requires
        width <= 8,
    ensures
        match result {
            Ok(value) => fixed_top_parse(input@, width as nat) == Ok::<_, DecodeError>(
                value as nat,
            ) && value < pow256(width as nat),
            Err(error) => fixed_top_parse(input@, width as nat) == Err::<nat, _>(error),
        },
{
    if input.len() < width {
        Err(DecodeError::InputTooShort)
    } else if input.len() > width {
        Err(DecodeError::InputTooLong)
    } else {
        proof {
            lemma_be_value_bound(input@);
        }
        Ok(value_of_bytes(input))
    }
}

impl WireFormat for u8 {
    type Value = u8;

    open spec fn handles(&self) -> Set<Handle> {
        Set::empty()
    }

    open spec fn valid(&self, store: Store) -> bool {
        true
    }

    open spec fn value(&self, store: Store) -> u8 {
        *self
    }

    open spec fn nested_fits(value: u8) -> bool {
        true
    }

    open spec fn nested_form(value: u8) -> Seq<u8> {
        be_fixed(value as nat, 1)
    }

    open spec fn nested_parse(input: Seq<u8>) -> Result<(u8, int), DecodeError> {
        match fixed_parse(input, 1) {
            Ok((number, taken)) => Ok((number as u8, taken)),
            Err(error) => Err(error),
        }
    }

    open spec fn top_fits(value: u8) -> bool {
        true
    }

    open spec fn top_form(value: u8) -> Seq<u8> {
        be_fixed(value as nat, 1)
    }

    open spec fn top_parse(input: Seq<u8>) -> Result<u8, DecodeError> {
        match fixed_top_parse(input, 1) {
            Ok(number) => Ok(number as u8),
            Err(error) => Err(error),
        }
    }

    proof fn lemma_stable(&self, before: Store, after: Store) {
    }

    proof fn lemma_nested_parse_consumes(input: Seq<u8>) {
    }

    proof fn lemma_nested_round_trip(value: u8, rest: Seq<u8>) {
        lemma_pow256_widths();
        lemma_be_fixed_len(value as nat, 1);
        lemma_fixed_round_trip(value as nat, 1, rest);
    }

    proof fn lemma_top_round_trip(value: u8) {
        lemma_pow256_widths();
        lemma_fixed_round_trip(value as nat, 1, Seq::empty());
    }
}

impl NestedEncode for u8 {
    fn dep_encode<M: ManagedTypeApi, O: NestedEncodeOutput>(
        &self,
        api: &mut M,
        dest: &mut O,
    ) -> (result: Result<(), EncodeError>) {
        write_fixed(api, dest, *self as u64, 1);
        Ok(())
    }
}

impl TopEncode for u8 {
    fn top_encode<M: ManagedTypeApi, O: NestedEncodeOutput>(
        &self,
        api: &mut M,
        dest: &mut O,
    ) -> (result: Result<(), EncodeError>) {
        write_fixed(api, dest, *self as u64, 1);
        Ok(())
    }
}

impl NestedDecode for u8 {
    fn dep_decode<M: ManagedTypeApi, I: NestedDecodeInput>(api: &mut M, input: &mut I) -> (result:
        Result<Self, DecodeError>) {
        proof {
            lemma_pow256_widths();
        }
        match read_fixed(input, 1) {
            Ok(number) => Ok(number as u8),
            Err(error) => Err(error),
        }
    }
}

impl TopDecode for u8 {
    fn top_decode<M: ManagedTypeApi>(api: &mut M, input: &[u8]) -> (result: Result<
        Self,
        DecodeError,
    >) {
        proof {
            lemma_pow256_widths();
        }
        match top_read_fixed(input, 1) {
            Ok(number) => Ok(number as u8),
            Err(error) => Err(error),
        }
    }
}

impl WireFormat for u16 {
    type Value = u16;

    open spec fn handles(&self) -> Set<Handle> {
        Set::empty()
    }

    open spec fn valid(&self, store: Store) -> bool {
        true
    }

    open spec fn value(&self, store: Store) -> u16 {
        *self
    }

    open spec fn nested_fits(value: u16) -> bool {
        true
    }

    open spec fn nested_form(value: u16) -> Seq<u8> {
        be_fixed(value as nat, 2)
    }

    open spec fn nested_parse(input: Seq<u8>) -> Result<(u16, int), DecodeError> {
        match fixed_parse(input, 2) {
            Ok((number, taken)) => Ok((number as u16, taken)),
            Err(error) => Err(error),
        }
    }

    open spec fn top_fits(value: u16) -> bool {
        true
    }

    open spec fn top_form(value: u16) -> Seq<u8> {
        be_fixed(value as nat, 2)
    }

    open spec fn top_parse(input: Seq<u8>) -> Result<u16, DecodeError> {
        match fixed_top_parse(input, 2) {
            Ok(number) => Ok(number as u16),
            Err(error) => Err(error),
        }
    }

    proof fn lemma_stable(&self, before: Store, after: Store) {
    }

    proof fn lemma_nested_parse_consumes(input: Seq<u8>) {
    }

    proof fn lemma_nested_round_trip(value: u16, rest: Seq<u8>) {
        lemma_pow256_widths();
        lemma_be_fixed_len(value as nat, 2);
        lemma_fixed_round_trip(value as nat, 2, rest);
    }

    proof fn lemma_top_round_trip(value: u16) {
        lemma_pow256_widths();
        lemma_fixed_round_trip(value as nat, 2, Seq::empty());
    }
}

impl NestedEncode for u16 {
    fn dep_encode<M: ManagedTypeApi, O: NestedEncodeOutput>(
        &self,
        api: &mut M,
        dest: &mut O,
    ) -> (result: Result<(), EncodeError>) {
        write_fixed(api, dest, *self as u64, 2);
        Ok(())
    }
}

impl TopEncode for u16 {
    fn top_encode<M: ManagedTypeApi, O: NestedEncodeOutput>(
        &self,
        api: &mut M,
        dest: &mut O,
    ) -> (result: Result<(), EncodeError>) {
        write_fixed(api, dest, *self as u64, 2);
        Ok(())
    }
}

impl NestedDecode for u16 {
    fn dep_decode<M: ManagedTypeApi, I: NestedDecodeInput>(api: &mut M, input: &mut I) -> (result:
        Result<Self, DecodeError>) {
        proof {
            lemma_pow256_widths();
        }
        match read_fixed(input, 2) {
            Ok(number) => Ok(number as u16),
            Err(error) => Err(error),
        }
    }
}

impl TopDecode for u16 {
    fn top_decode<M: ManagedTypeApi>(api: &mut M, input: &[u8]) -> (result: Result<
        Self,
        DecodeError,
    >) {
        proof {
            lemma_pow256_widths();
        }
        match top_read_fixed(input, 2) {
            Ok(number) => Ok(number as u16),
            Err(error) => Err(error),
        }
    }
}

impl WireFormat for u32 {
    type Value = u32;

    open spec fn handles(&self) -> Set<Handle> {
        Set::empty()
    }

    open spec fn valid(&self, store: Store) -> bool {
        true
    }

    open spec fn value(&self, store: Store) -> u32 {
        *self
    }

    open spec fn nested_fits(value: u32) -> bool {
        true
    }

    open spec fn nested_form(value: u32) -> Seq<u8> {
        be_fixed(value as nat, 4)
    }

    open spec fn nested_parse(input: Seq<u8>) -> Result<(u32, int), DecodeError> {
        match fixed_parse(input, 4) {
            Ok((number, taken)) => Ok((number as u32, taken)),
            Err(error) => Err(error),
        }
    }

    open spec fn top_fits(value: u32) -> bool {
        true
    }

    open spec fn top_form(value: u32) -> Seq<u8> {
        be_fixed(value as nat, 4)
    }

    open spec fn top_parse(input: Seq<u8>) -> Result<u32, DecodeError> {
        match fixed_top_parse(input, 4) {
            Ok(number) => Ok(number as u32),
            Err(error) => Err(error),
        }
    }

    proof fn lemma_stable(&self, before: Store, after: Store) {
    }

    proof fn lemma_nested_parse_consumes(input: Seq<u8>) {
    }

    proof fn lemma_nested_round_trip(value: u32, rest: Seq<u8>) {
        lemma_pow256_widths();
        lemma_be_fixed_len(value as nat, 4);
        lemma_fixed_round_trip(value as nat, 4, rest);
    }

    proof fn lemma_top_round_trip(value: u32) {
        lemma_pow256_widths();
        lemma_fixed_round_trip(value as nat, 4, Seq::empty());
    }
}

impl NestedEncode for u32 {
    fn dep_encode<M: ManagedTypeApi, O: NestedEncodeOutput>(
        &self,
        api: &mut M,
        dest: &mut O,
    ) -> (result: Result<(), EncodeError>) {
        write_fixed(api, dest, *self as u64, 4);
        Ok(())
    }
}

impl TopEncode for u32 {
    fn top_encode<M: ManagedTypeApi, O: NestedEncodeOutput>(
        &self,
        api: &mut M,
        dest: &mut O,
    ) -> (result: Result<(), EncodeError>) {
        write_fixed(api, dest, *self as u64, 4);
        Ok(())
    }
}

impl NestedDecode for u32 {
    fn dep_decode<M: ManagedTypeApi, I: NestedDecodeInput>(api: &mut M, input: &mut I) -> (result:
        Result<Self, DecodeError>) {
        proof {
            lemma_pow256_widths();
        }
        match read_fixed(input, 4) {
            Ok(number) => Ok(number as u32),
            Err(error) => Err(error),
        }
    }
}

impl TopDecode for u32 {
    fn top_decode<M: ManagedTypeApi>(api: &mut M, input: &[u8]) -> (result: Result<
        Self,
        DecodeError,
    >) {
        proof {
            lemma_pow256_widths();
        }
        match top_read_fixed(input, 4) {
            Ok(number) => Ok(number as u32),
            Err(error) => Err(error),
        }
    }
}

impl WireFormat for u64 {
    type Value = u64;

    open spec fn handles(&self) -> Set<Handle> {
        Set::empty()
    }

    open spec fn valid(&self, store: Store) -> bool {
        true
    }

    open spec fn value(&self, store: Store) -> u64 {
        *self
    }

    open spec fn nested_fits(value: u64) -> bool {
        true
    }

    open spec fn nested_form(value: u64) -> Seq<u8> {
        be_fixed(value as nat, 8)
    }

    open spec fn nested_parse(input: Seq<u8>) -> Result<(u64, int), DecodeError> {
        match fixed_parse(input, 8) {
            Ok((number, taken)) => Ok((number as u64, taken)),
            Err(error) => Err(error),
        }
    }

    open spec fn top_fits(value: u64) -> bool {
        true
    }

    open spec fn top_form(value: u64) -> Seq<u8> {
        be_fixed(value as nat, 8)
    }

    open spec fn top_parse(input: Seq<u8>) -> Result<u64, DecodeError> {
        match fixed_top_parse(input, 8) {
            Ok(number) => Ok(number as u64),
            Err(error) => Err(error),
        }
    }

    proof fn lemma_stable(&self, before: Store, after: Store) {
    }

    proof fn lemma_nested_parse_consumes(input: Seq<u8>) {
    }

    proof fn lemma_nested_round_trip(value: u64, rest: Seq<u8>) {
        lemma_pow256_widths();
        lemma_be_fixed_len(value as nat, 8);
        lemma_fixed_round_trip(value as nat, 8, rest);
    }

    proof fn lemma_top_round_trip(value: u64) {
        lemma_pow256_widths();
        lemma_fixed_round_trip(value as nat, 8, Seq::empty());
    }
}

impl NestedEncode for u64 {
    fn dep_encode<M: ManagedTypeApi, O: NestedEncodeOutput>(
        &self,
        api: &mut M,
        dest: &mut O,
    ) -> (result: Result<(), EncodeError>) {
        write_fixed(api, dest, *self, 8);
        Ok(())
    }
}

impl TopEncode for u64 {
    fn top_encode<M: ManagedTypeApi, O: NestedEncodeOutput>(
        &self,
        api: &mut M,
        dest: &mut O,
    ) -> (result: Result<(), EncodeError>) {
        write_fixed(api, dest, *self, 8);
        Ok(())
    }
}

impl NestedDecode for u64 {
    fn dep_decode<M: ManagedTypeApi, I: NestedDecodeInput>(api: &mut M, input: &mut I) -> (result:
        Result<Self, DecodeError>) {
        proof {
            lemma_pow256_widths();
        }
        match read_fixed(input, 8) {
            Ok(number) => Ok(number),
            Err(error) => Err(error),
        }
    }
}

impl TopDecode for u64 {
    fn top_decode<M: ManagedTypeApi>(api: &mut M, input: &[u8]) -> (result: Result<
        Self,
        DecodeError,
    >) {
        proof {
            lemma_pow256_widths();
        }
        match top_read_fixed(input, 8) {
            Ok(number) => Ok(number),
            Err(error) => Err(error),
        }
    }
}

/// Reads a boolean from one byte: zero or one, nothing else.
pub open spec fn bool_of_byte(byte: u8) -> Result<bool, DecodeError> {
    if byte == 0 {
        Ok(false)
    } else if byte == 1 {
        Ok(true)
    } else {
        Err(DecodeError::InvalidValue)
    }
}

/// The byte that stands for a boolean.
pub open spec fn byte_of_bool(value: bool) -> u8 {
    if value {
        1
    } else {
        0
    }
}

fn decode_bool(byte: u8) -> (result: Result<bool, DecodeError>)
    ensures
        result == bool_of_byte(byte),
{
    if byte == 0 {
        Ok(false)
    } else if byte == 1 {
        Ok(true)
    } else {
        Err(DecodeError::InvalidValue)
    }
}

impl WireFormat for bool {
    type Value = bool;

    open spec fn handles(&self) -> Set<Handle> {
        Set::empty()
    }

    open spec fn valid(&self, store: Store) -> bool {
        true
    }

    open spec fn value(&self, store: Store) -> bool {
        *self
    }

    open spec fn nested_fits(value: bool) -> bool {
        true
    }

    open spec fn nested_form(value: bool) -> Seq<u8> {
        seq![byte_of_bool(value)]
    }

    open spec fn nested_parse(input: Seq<u8>) -> Result<(bool, int), DecodeError> {
        if input.len() < 1 {
            Err(DecodeError::InputTooShort)
        } else {
            match bool_of_byte(input[0]) {
                Ok(value) => Ok((value, 1)),
                Err(error) => Err(error),
            }
        }
    }

    open spec fn top_fits(value: bool) -> bool {
        true
    }

    open spec fn top_form(value: bool) -> Seq<u8> {
        seq![byte_of_bool(value)]
    }

    open spec fn top_parse(input: Seq<u8>) -> Result<bool, DecodeError> {
        if input.len() < 1 {
            Err(DecodeError::InputTooShort)
        } else if input.len() > 1 {
            Err(DecodeError::InputTooLong)
        } else {
            bool_of_byte(input[0])
        }
    }

    proof fn lemma_stable(&self, before: Store, after: Store) {
    }

    proof fn lemma_nested_parse_consumes(input: Seq<u8>) {
    }

    proof fn lemma_nested_round_trip(value: bool, rest: Seq<u8>) {
    }

    proof fn lemma_top_round_trip(value: bool) {
    }
}

impl NestedEncode for bool {
    fn dep_encode<M: ManagedTypeApi, O: NestedEncodeOutput>(
        &self,
        api: &mut M,
        dest: &mut O,
    ) -> (result: Result<(), EncodeError>) {
        let byte: u8 = if *self { 1 } else { 0 };
        let bytes = [byte];
        assert(bytes@ =~= seq![byte_of_bool(*self)]);
        dest.write(api, bytes.as_slice());
        Ok(())
    }
}

impl TopEncode for bool {
    fn top_encode<M: ManagedTypeApi, O: NestedEncodeOutput>(
        &self,
        api: &mut M,
        dest: &mut O,
    ) -> (result: Result<(), EncodeError>) {
        self.dep_encode(api, dest)
    }
}

impl NestedDecode for bool {
    fn dep_decode<M: ManagedTypeApi, I: NestedDecodeInput>(api: &mut M, input: &mut I) -> (result:
        Result<Self, DecodeError>) {
        match input.read_bytes(1) {
            Ok(bytes) => decode_bool(bytes[0]),
            Err(error) => Err(error),
        }
    }
}

impl TopDecode for bool {
    fn top_decode<M: ManagedTypeApi>(api: &mut M, input: &[u8]) -> (result: Result<
        Self,
        DecodeError,
    >) {
        if input.len() < 1 {
            Err(DecodeError::InputTooShort)
        } else if input.len() > 1 {
            Err(DecodeError::InputTooLong)
        } else {
            decode_bool(input[0])
        }
    }
}

} // verus!
