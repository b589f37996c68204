//! Managed integers: the shortest big-endian form of the number, in two's
//! complement where it has a sign, written as a byte sequence is.
use vstd::prelude::*;
use crate::api::{lemma_agree_outside_transitive, Handle, ManagedTypeApi, Store};
use crate::big_int::BigInt;
use crate::big_num_api::{BigIntApi, BigUintApi};
use crate::big_uint::BigUint;
use crate::codec::bytes::{
    blob_fits, blob_nested_form, blob_nested_parse, lemma_blob_round_trip, read_blob, write_length,
};
use crate::codec::error::{DecodeError, EncodeError};
use crate::codec::format::{NestedDecode, NestedEncode, TopDecode, TopEncode, WireFormat};
use crate::codec::input::NestedDecodeInput;
use crate::codec::output::NestedEncodeOutput;
use crate::magnitude::{
    be_bytes, be_value, lemma_be_bytes_value, lemma_signed_round_trip, signed_be_bytes,
    signed_value_of,
};

verus! {

impl WireFormat for BigUint {
    type Value = nat;

    open spec fn handles(&self) -> Set<Handle> {
        set![self.raw_handle()]
    }

    open spec fn valid(&self, store: Store) -> bool {
        crate::api::holds_int(store, self.raw_handle()) && crate::api::int_at(
            store,
            self.raw_handle(),
        ) >= 0
    }

    open spec fn value(&self, store: Store) -> nat {
        crate::api::int_at(store, self.raw_handle()) as nat
    }

    open spec fn nested_fits(value: nat) -> bool {
        blob_fits(be_bytes(value))
    }

    open spec fn nested_form(value: nat) -> Seq<u8> {
        blob_nested_form(be_bytes(value))
    }

    open spec fn nested_parse(input: Seq<u8>) -> Result<(nat, int), DecodeError> {
        match blob_nested_parse(input) {
            Ok((digits, taken)) => Ok((be_value(digits), taken)),
            Err(error) => Err(error),
        }
    }

    open spec fn top_fits(value: nat) -> bool {
        true
    }

    open spec fn top_form(value: nat) -> Seq<u8> {
        be_bytes(value)
    }

    open spec fn top_parse(input: Seq<u8>) -> Result<nat, DecodeError> {
        Ok(be_value(input))
    }

    proof fn lemma_stable(&self, before: Store, after: Store) {
        assert(self.handles().contains(self.raw_handle()));
    }

    proof fn lemma_nested_parse_consumes(input: Seq<u8>) {
    }

    proof fn lemma_nested_round_trip(value: nat, rest: Seq<u8>) {
        lemma_blob_round_trip(be_bytes(value), rest);
        lemma_be_bytes_value(value);
    }

    proof fn lemma_top_round_trip(value: nat) {
        lemma_be_bytes_value(value);
    }
}

impl NestedEncode for BigUint {
    fn dep_encode<M: ManagedTypeApi, O: NestedEncodeOutput>(
        &self,
        api: &mut M,
        dest: &mut O,
    ) -> (result: Result<(), EncodeError>) {
        let digits = self.to_bytes_be(api);
        match write_length(api, dest, digits.len()) {
            Ok(()) => {},
            Err(error) => {
                return Err(error);
            },
        }
        let ghost middle = api@;
        dest.write(api, digits.as_slice());
        proof {
            lemma_agree_outside_transitive(old(api)@, middle, api@, dest.owned());
            assert(dest.written(api@) =~= old(dest).written(old(api)@) + blob_nested_form(
                digits@,
            ));
        }
        Ok(())
    }
}

impl TopEncode for BigUint {
    fn top_encode<M: ManagedTypeApi, O: NestedEncodeOutput>(
        &self,
        api: &mut M,
        dest: &mut O,
    ) -> (result: Result<(), EncodeError>) {
        let digits = self.to_bytes_be(api);
        dest.write(api, digits.as_slice());
        Ok(())
    }
}

impl NestedDecode for BigUint {
    fn dep_decode<M: ManagedTypeApi, I: NestedDecodeInput>(api: &mut M, input: &mut I) -> (result:
        Result<Self, DecodeError>) {
        match read_blob(input) {
            Ok(digits) => Ok(BigUint::from_bytes_be(api, digits.as_slice())),
            Err(error) => Err(error),
        }
    }
}

impl TopDecode for BigUint {
    fn top_decode<M: ManagedTypeApi>(api: &mut M, input: &[u8]) -> (result: Result<
        Self,
        DecodeError,
    >) {
        Ok(BigUint::from_bytes_be(api, input))
    }
}

impl WireFormat for BigInt {
    type Value = int;

    open spec fn handles(&self) -> Set<Handle> {
        set![self.raw_handle()]
    }

    open spec fn valid(&self, store: Store) -> bool {
        crate::api::holds_int(store, self.raw_handle())
    }

    open spec fn value(&self, store: Store) -> int {
        crate::api::int_at(store, self.raw_handle())
    }

    open spec fn nested_fits(value: int) -> bool {
        blob_fits(signed_be_bytes(value))
    }

    open spec fn nested_form(value: int) -> Seq<u8> {
        blob_nested_form(signed_be_bytes(value))
    }

    open spec fn nested_parse(input: Seq<u8>) -> Result<(int, int), DecodeError> {
        match blob_nested_parse(input) {
            Ok((digits, taken)) => Ok((signed_value_of(digits), taken)),
            Err(error) => Err(error),
        }
    }

    open spec fn top_fits(value: int) -> bool {
        true
    }

    open spec fn top_form(value: int) -> Seq<u8> {
        signed_be_bytes(value)
    }

    open spec fn top_parse(input: Seq<u8>) -> Result<int, DecodeError> {
        Ok(signed_value_of(input))
    }

    proof fn lemma_stable(&self, before: Store, after: Store) {
        assert(self.handles().contains(self.raw_handle()));
    }

    proof fn lemma_nested_parse_consumes(input: Seq<u8>) {
    }

    proof fn lemma_nested_round_trip(value: int, rest: Seq<u8>) {
        lemma_blob_round_trip(signed_be_bytes(value), rest);
        lemma_signed_round_trip(value);
    }

    proof fn lemma_top_round_trip(value: int) {
        lemma_signed_round_trip(value);
    }
}

impl NestedEncode for BigInt {
    fn dep_encode<M: ManagedTypeApi, O: NestedEncodeOutput>(
        &self,
        api: &mut M,
        dest: &mut O,
    ) -> (result: Result<(), EncodeError>) {
        let digits = <BigInt as BigIntApi<BigUint>>::to_signed_bytes_be(self, api);
        match write_length(api, dest, digits.len()) {
            Ok(()) => {},
            Err(error) => {
                return Err(error);
            },
        }
        let ghost middle = api@;
        dest.write(api, digits.as_slice());
        proof {
            lemma_agree_outside_transitive(old(api)@, middle, api@, dest.owned());
            assert(dest.written(api@) =~= old(dest).written(old(api)@) + blob_nested_form(
                digits@,
            ));
        }
        Ok(())
    }
}

impl TopEncode for BigInt {
    fn top_encode<M: ManagedTypeApi, O: NestedEncodeOutput>(
        &self,
        api: &mut M,
        dest: &mut O,
    ) -> (result: Result<(), EncodeError>) {
        let digits = <BigInt as BigIntApi<BigUint>>::to_signed_bytes_be(self, api);
        dest.write(api, digits.as_slice());
        Ok(())
    }
}

impl NestedDecode for BigInt {
    fn dep_decode<M: ManagedTypeApi, I: NestedDecodeInput>(api: &mut M, input: &mut I) -> (result:
        Result<Self, DecodeError>) {
        match read_blob(input) {
            Ok(digits) => Ok(BigInt::from_signed_bytes_be(api, digits.as_slice())),
            Err(error) => Err(error),
        }
    }
}

impl TopDecode for BigInt {
    fn top_decode<M: ManagedTypeApi>(api: &mut M, input: &[u8]) -> (result: Result<
        Self,
        DecodeError,
    >) {
        Ok(BigInt::from_signed_bytes_be(api, input))
    }
}

} // verus!
