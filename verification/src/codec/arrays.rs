//! Byte arrays of fixed length: the bytes as they are, with no prefix in
//! either form, for the length is known from the type.
use vstd::prelude::*;
use crate::api::{Handle, ManagedTypeApi, Store};
use crate::codec::error::{DecodeError, EncodeError};
use crate::codec::format::{NestedDecode, NestedEncode, TopDecode, TopEncode, WireFormat};
use crate::codec::input::NestedDecodeInput;
use crate::codec::output::NestedEncodeOutput;

verus! {

/// Reads `len` bytes from the front of `input`.
pub open spec fn bytes_parse(input: Seq<u8>, len: nat) -> Result<(Seq<u8>, int), DecodeError> {
    if input.len() < len {
        Err(DecodeError::InputTooShort)
    } else {
        Ok((input.take(len as int), len as int))
    }
}

/// Reads the `len` bytes that are the whole of `input`.
pub open spec fn bytes_top_parse(input: Seq<u8>, len: nat) -> Result<Seq<u8>, DecodeError> {
    if input.len() < len {
        Err(DecodeError::InputTooShort)
    } else if input.len() > len {
        Err(DecodeError::InputTooLong)
    } else {
        Ok(input)
    }
}

/// The array that holds `bytes`.
fn array_of<const N: usize>(bytes: &Vec<u8>) -> (array: [u8; N])
    requires
        bytes@.len() == N,
    ensures
        array@ == bytes@,
{
    let mut array = [0u8; N];
    let mut i: usize = 0;
    while i < N
        invariant
            i <= N,
            bytes@.len() == N,
            forall|j: int| 0 <= j < i ==> array@[j] == bytes@[j],
        decreases N - i,
    {
        array[i] = bytes[i];
        i += 1;
    }
    assert(array@ =~= bytes@);
    array
}

impl<const N: usize> WireFormat for [u8; N] {
    type Value = Seq<u8>;

    open spec fn handles(&self) -> Set<Handle> {
        Set::empty()
    }

    open spec fn valid(&self, store: Store) -> bool {
        true
    }

    open spec fn value(&self, store: Store) -> Seq<u8> {
        self@
    }

    /// The values of the type are the sequences of its length, and an
    /// array of no bytes has no form to read back.
    open spec fn nested_fits(value: Seq<u8>) -> bool {
        value.len() == N && N > 0
    }

    open spec fn nested_form(value: Seq<u8>) -> Seq<u8> {
        value
    }

    open spec fn nested_parse(input: Seq<u8>) -> Result<(Seq<u8>, int), DecodeError> {
        if N == 0 {
            Err(DecodeError::InvalidValue)
        } else {
            bytes_parse(input, N as nat)
        }
    }

    open spec fn top_fits(value: Seq<u8>) -> bool {
        value.len() == N
    }

    open spec fn top_form(value: Seq<u8>) -> Seq<u8> {
        value
    }

    open spec fn top_parse(input: Seq<u8>) -> Result<Seq<u8>, DecodeError> {
        bytes_top_parse(input, N as nat)
    }

    proof fn lemma_stable(&self, before: Store, after: Store) {
    }

    proof fn lemma_nested_parse_consumes(input: Seq<u8>) {
    }

    proof fn lemma_nested_round_trip(value: Seq<u8>, rest: Seq<u8>) {
        assert((value + rest).take(N as int) =~= value);
    }

    proof fn lemma_top_round_trip(value: Seq<u8>) {
    }
}

impl<const N: usize> NestedEncode for [u8; N] {
    fn dep_encode<M: ManagedTypeApi, O: NestedEncodeOutput>(
        &self,
        api: &mut M,
        dest: &mut O,
    ) -> (result: Result<(), EncodeError>) {
        if N == 0 {
            assert(old(api)@.dom() =~= api@.dom());
            return Err(EncodeError::InvalidLength);
        }
        dest.write(api, self.as_slice());
        Ok(())
    }
}

impl<const N: usize> TopEncode for [u8; N] {
    fn top_encode<M: ManagedTypeApi, O: NestedEncodeOutput>(
        &self,
        api: &mut M,
        dest: &mut O,
    ) -> (result: Result<(), EncodeError>) {
        dest.write(api, self.as_slice());
        Ok(())
    }
}

impl<const N: usize> NestedDecode for [u8; N] {
    fn dep_decode<M: ManagedTypeApi, I: NestedDecodeInput>(api: &mut M, input: &mut I) -> (result:
        Result<Self, DecodeError>) {
        if N == 0 {
            return Err(DecodeError::InvalidValue);
        }
        match input.read_bytes(N) {
            Ok(bytes) => Ok(array_of(&bytes)),
            Err(error) => Err(error),
        }
    }
}

impl<const N: usize> TopDecode for [u8; N] {
    fn top_decode<M: ManagedTypeApi>(api: &mut M, input: &[u8]) -> (result: Result<
        Self,
        DecodeError,
    >) {
        if input.len() < N {
            Err(DecodeError::InputTooShort)
        } else if input.len() > N {
            Err(DecodeError::InputTooLong)
        } else {
            let bytes = vstd::slice::slice_to_vec(input);
            Ok(array_of(&bytes))
        }
    }
}

} // verus!
