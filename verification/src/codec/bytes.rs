//! Byte sequences of variable length, in local memory and in the registry.
//! The nested form is the length in four bytes, then the bytes; the
//! top-level form is the bytes alone.
use vstd::prelude::*;
use crate::api::{agree_outside, lemma_agree_outside_transitive, Handle, ManagedTypeApi, Store};
use crate::boxed_bytes::BoxedBytes;
use crate::codec::error::{DecodeError, EncodeError};
use crate::codec::format::{NestedDecode, NestedEncode, TopDecode, TopEncode, WireFormat};
use crate::codec::input::NestedDecodeInput;
use crate::codec::integers::{fixed_parse, lemma_fixed_round_trip, read_fixed, write_fixed};
use crate::codec::output::NestedEncodeOutput;
use crate::magnitude::{be_fixed, lemma_be_fixed_len, lemma_pow256_widths};
use crate::managed_buffer::ManagedBuffer;

verus! {

/// The length of `content` fits the four bytes of the prefix.
pub open spec fn blob_fits(content: Seq<u8>) -> bool {
    content.len() <= u32::MAX
}

/// The nested form of a byte sequence.
pub open spec fn blob_nested_form(content: Seq<u8>) -> Seq<u8> {
    be_fixed(content.len(), 4) + content
}

/// Reads a byte sequence in nested form from the front of `input`.
pub open spec fn blob_nested_parse(input: Seq<u8>) -> Result<(Seq<u8>, int), DecodeError> {
    match fixed_parse(input, 4) {
        Err(error) => Err(error),
        Ok((len, _)) => if input.len() - 4 < len {
            Err(DecodeError::InputTooShort)
        } else {
            Ok((input.subrange(4, 4 + len as int), 4 + len as int))
        },
    }
}

/// Reading the nested form of a byte sequence gives the sequence back.
pub proof fn lemma_blob_round_trip(content: Seq<u8>, rest: Seq<u8>)
    requires
        blob_fits(content),
    ensures
        blob_nested_parse(blob_nested_form(content) + rest) == Ok::<_, DecodeError>(
            (content, blob_nested_form(content).len() as int),
        ),
        blob_nested_form(content).len() == 4 + content.len(),
{
    lemma_pow256_widths();
    lemma_be_fixed_len(content.len(), 4);
    lemma_fixed_round_trip(content.len(), 4, content + rest);
    let whole = blob_nested_form(content) + rest;
    assert(whole =~= be_fixed(content.len(), 4) + (content + rest));
    assert(whole.subrange(4, 4 + content.len() as int) =~= content);
}

/// Appends `len` as a length prefix to `dest`, where it fits one.
pub fn write_length<M: ManagedTypeApi, O: NestedEncodeOutput>(
    api: &mut M,
    dest: &mut O,
    len: usize,
) -> (result: Result<(), EncodeError>)
    requires
        old(dest).ready(old(api)@),
    ensures
        final(dest).ready(final(api)@),
        final(dest).owned() == old(dest).owned(),
        agree_outside(old(api)@, final(api)@, old(dest).owned()),
        result is Ok <==> len <= u32::MAX,
        result is Ok ==> final(dest).written(final(api)@) == old(dest).written(old(api)@)
            + be_fixed(len as nat, 4),
        result is Err ==> final(dest).written(final(api)@) == old(dest).written(old(api)@),
{
    if len > u32::MAX as usize {
        assert(old(api)@.dom() =~= api@.dom());
        return Err(EncodeError::InvalidLength);
    }
    write_fixed(api, dest, len as u64, 4);
    Ok(())
}

/// Reads a length prefix from the front of `input`.
pub fn read_length<I: NestedDecodeInput>(input: &mut I) -> (result: Result<usize, DecodeError>)
    ensures
        match result {
            Ok(len) => {
                &&& fixed_parse(old(input).remaining(), 4) == Ok::<_, DecodeError>(
                    (len as nat, 4int),
                )
                &&& len <= u32::MAX
                &&& final(input).remaining() == old(input).remaining().skip(4)
            },
            Err(error) => fixed_parse(old(input).remaining(), 4) == Err::<(nat, int), _>(error),
        },
{
    proof {
        lemma_pow256_widths();
    }
    match read_fixed(input, 4) {
        Ok(len) => Ok(len as usize),
        Err(error) => Err(error),
    }
}

/// Reads a byte sequence in nested form from the front of `input`.
pub fn read_blob<I: NestedDecodeInput>(input: &mut I) -> (result: Result<Vec<u8>, DecodeError>)
    ensures
        match result {
            Ok(content) => {
                &&& blob_nested_parse(old(input).remaining()) == Ok::<_, DecodeError>(
                    (content@, 4 + content@.len() as int),
                )
                &&& final(input).remaining() == old(input).remaining().skip(4 + content@.len() as int)
            },
            Err(error) => blob_nested_parse(old(input).remaining()) == Err::<(Seq<u8>, int), _>(
                error,
            ),
        },
{
    let len = match read_length(input) {
        Ok(len) => len,
        Err(error) => {
            return Err(error);
        },
    };
    let ghost body = input.remaining();
    match input.read_bytes(len) {
        Ok(content) => {
            proof {
                let whole = old(input).remaining();
                assert(body.take(len as int) =~= whole.subrange(4, 4 + len));
                assert(body.skip(len as int) =~= whole.skip(4 + len));
            }
            Ok(content)
        },
        Err(error) => Err(error),
    }
}

impl WireFormat for BoxedBytes {
    type Value = Seq<u8>;

    open spec fn handles(&self) -> Set<Handle> {
        Set::empty()
    }

    open spec fn valid(&self, store: Store) -> bool {
        true
    }

    open spec fn value(&self, store: Store) -> Seq<u8> {
        self@
    }

    open spec fn nested_fits(value: Seq<u8>) -> bool {
        blob_fits(value)
    }

    open spec fn nested_form(value: Seq<u8>) -> Seq<u8> {
        blob_nested_form(value)
    }

    open spec fn nested_parse(input: Seq<u8>) -> Result<(Seq<u8>, int), DecodeError> {
        blob_nested_parse(input)
    }

    open spec fn top_fits(value: Seq<u8>) -> bool {
        true
    }

    open spec fn top_form(value: Seq<u8>) -> Seq<u8> {
        value
    }

    open spec fn top_parse(input: Seq<u8>) -> Result<Seq<u8>, DecodeError> {
        Ok(input)
    }

    proof fn lemma_stable(&self, before: Store, after: Store) {
    }

    proof fn lemma_nested_parse_consumes(input: Seq<u8>) {
    }

    proof fn lemma_nested_round_trip(value: Seq<u8>, rest: Seq<u8>) {
        lemma_blob_round_trip(value, rest);
    }

    proof fn lemma_top_round_trip(value: Seq<u8>) {
    }
}

impl NestedEncode for BoxedBytes {
    fn dep_encode<M: ManagedTypeApi, O: NestedEncodeOutput>(
        &self,
        api: &mut M,
        dest: &mut O,
    ) -> (result: Result<(), EncodeError>) {
        match write_length(api, dest, self.len()) {
            Ok(()) => {},
            Err(error) => {
                return Err(error);
            },
        }
        let ghost middle = api@;
        dest.write(api, self.as_slice());
        proof {
            lemma_agree_outside_transitive(old(api)@, middle, api@, dest.owned());
            assert(dest.written(api@) =~= old(dest).written(old(api)@) + blob_nested_form(self@));
        }
        Ok(())
    }
}

impl TopEncode for BoxedBytes {
    fn top_encode<M: ManagedTypeApi, O: NestedEncodeOutput>(
        &self,
        api: &mut M,
        dest: &mut O,
    ) -> (result: Result<(), EncodeError>) {
        dest.write(api, self.as_slice());
        Ok(())
    }
}

impl NestedDecode for BoxedBytes {
    fn dep_decode<M: ManagedTypeApi, I: NestedDecodeInput>(api: &mut M, input: &mut I) -> (result:
        Result<Self, DecodeError>) {
        match read_blob(input) {
            Ok(content) => Ok(BoxedBytes::from_vec(content)),
            Err(error) => Err(error),
        }
    }
}

impl TopDecode for BoxedBytes {
    fn top_decode<M: ManagedTypeApi>(api: &mut M, input: &[u8]) -> (result: Result<
        Self,
        DecodeError,
    >) {
        Ok(BoxedBytes::from_slice(input))
    }
}

impl WireFormat for ManagedBuffer {
    type Value = Seq<u8>;

    open spec fn handles(&self) -> Set<Handle> {
        set![self.raw_handle()]
    }

    open spec fn valid(&self, store: Store) -> bool {
        crate::api::holds_bytes(store, self.raw_handle())
    }

    open spec fn value(&self, store: Store) -> Seq<u8> {
        crate::api::bytes_at(store, self.raw_handle())
    }

    open spec fn nested_fits(value: Seq<u8>) -> bool {
        blob_fits(value)
    }

    open spec fn nested_form(value: Seq<u8>) -> Seq<u8> {
        blob_nested_form(value)
    }

    open spec fn nested_parse(input: Seq<u8>) -> Result<(Seq<u8>, int), DecodeError> {
        blob_nested_parse(input)
    }

    open spec fn top_fits(value: Seq<u8>) -> bool {
        true
    }

    open spec fn top_form(value: Seq<u8>) -> Seq<u8> {
        value
    }

    open spec fn top_parse(input: Seq<u8>) -> Result<Seq<u8>, DecodeError> {
        Ok(input)
    }

    proof fn lemma_stable(&self, before: Store, after: Store) {
        assert(self.handles().contains(self.raw_handle()));
    }

    proof fn lemma_nested_parse_consumes(input: Seq<u8>) {
    }

    proof fn lemma_nested_round_trip(value: Seq<u8>, rest: Seq<u8>) {
        lemma_blob_round_trip(value, rest);
    }

    proof fn lemma_top_round_trip(value: Seq<u8>) {
    }
}

/// Appends the content of `buffer` to `dest`: inside the registry where
/// `dest` takes a managed buffer as it is, through local memory otherwise.
/// The bytes that arrive are the same either way.
pub fn write_content<M: ManagedTypeApi, O: NestedEncodeOutput>(
    buffer: &ManagedBuffer,
    api: &mut M,
    dest: &mut O,
)
    requires
        buffer.valid(old(api)@),
        old(dest).ready(old(api)@),
        !old(dest).owned().contains(buffer.raw_handle()),
    ensures
        final(dest).ready(final(api)@),
        final(dest).owned() == old(dest).owned(),
        agree_outside(old(api)@, final(api)@, old(dest).owned()),
        final(dest).written(final(api)@) == old(dest).written(old(api)@) + buffer.content(
            old(api)@,
        ),
{
    if !dest.push_specialized(api, buffer) {
        let ghost middle = api@;
        assert(middle.dom().contains(buffer.raw_handle()));
        let bytes = buffer.to_boxed_bytes(api);
        dest.write(api, bytes.as_slice());
        proof {
            lemma_agree_outside_transitive(old(api)@, middle, api@, dest.owned());
            assert(old(dest).written(old(api)@) + Seq::<u8>::empty() + bytes@ =~= old(
                dest,
            ).written(old(api)@) + bytes@);
        }
    }
}

impl NestedEncode for ManagedBuffer {
    fn dep_encode<M: ManagedTypeApi, O: NestedEncodeOutput>(
        &self,
        api: &mut M,
        dest: &mut O,
    ) -> (result: Result<(), EncodeError>) {
        assert(self.handles().contains(self.raw_handle()));
        match write_length(api, dest, self.len(api)) {
            Ok(()) => {},
            Err(error) => {
                return Err(error);
            },
        }
        let ghost middle = api@;
        assert(middle.dom().contains(self.raw_handle()));
        write_content(self, api, dest);
        proof {
            lemma_agree_outside_transitive(old(api)@, middle, api@, dest.owned());
            assert(dest.written(api@) =~= old(dest).written(old(api)@) + blob_nested_form(
                self.content(old(api)@),
            ));
        }
        Ok(())
    }
}

impl TopEncode for ManagedBuffer {
    fn top_encode<M: ManagedTypeApi, O: NestedEncodeOutput>(
        &self,
        api: &mut M,
        dest: &mut O,
    ) -> (result: Result<(), EncodeError>) {
        assert(self.handles().contains(self.raw_handle()));
        write_content(self, api, dest);
        Ok(())
    }
}

impl NestedDecode for ManagedBuffer {
    fn dep_decode<M: ManagedTypeApi, I: NestedDecodeInput>(api: &mut M, input: &mut I) -> (result:
        Result<Self, DecodeError>) {
        match read_blob(input) {
            Ok(content) => Ok(ManagedBuffer::new_from_bytes(api, content.as_slice())),
            Err(error) => Err(error),
        }
    }
}

impl TopDecode for ManagedBuffer {
    fn top_decode<M: ManagedTypeApi>(api: &mut M, input: &[u8]) -> (result: Result<
        Self,
        DecodeError,
    >) {
        Ok(ManagedBuffer::new_from_bytes(api, input))
    }
}

} // verus!
