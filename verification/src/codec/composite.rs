//! Values made of values: pairs and options. The parts are written one
//! after the other in nested form, with nothing between them.
use vstd::prelude::*;
use crate::api::{
    extends, lemma_agree_on_subset, lemma_agree_outside_on, lemma_agree_outside_transitive,
    lemma_extends_agree_on, lemma_extends_transitive, none_live, Handle, ManagedTypeApi, Store,
};
use crate::codec::error::{DecodeError, EncodeError};
use crate::codec::format::{NestedDecode, NestedEncode, TopDecode, TopEncode, WireFormat};
use crate::codec::input::{NestedDecodeInput, SliceInput};
use crate::codec::output::NestedEncodeOutput;

verus! {

/// What reading one value in nested form gives where the value is to fill
/// an input of `len` bytes: anything left over is an error.
pub open spec fn whole<V>(parsed: Result<(V, int), DecodeError>, len: nat) -> Result<
    V,
    DecodeError,
> {
    match parsed {
        Err(error) => Err(error),
        Ok((value, taken)) => if taken < len {
            Err(DecodeError::InputTooLong)
        } else {
            Ok(value)
        },
    }
}

/// `error` is what reading the whole of `input` in nested form fails with.
pub open spec fn whole_parse_fails<T: WireFormat>(input: Seq<u8>, error: DecodeError) -> bool {
    whole(T::nested_parse(input), input.len()) matches Err(e) && e == error
}

/// Reads the value whose nested form is the whole of `input`.
pub fn decode_whole<T: NestedDecode, M: ManagedTypeApi>(api: &mut M, input: &[u8]) -> (result:
    Result<T, DecodeError>)
    ensures
        extends(old(api)@, final(api)@),
        match result {
            Ok(decoded) => {
                &&& decoded.valid(final(api)@)
                &&& none_live(decoded.handles(), old(api)@)
                &&& whole(T::nested_parse(input@), input@.len()) matches Ok(value) && value
                    == decoded.value(final(api)@)
            },
            Err(error) => whole_parse_fails::<T>(input@, error),
        },
{
    let mut cursor = SliceInput::new(input);
    let decoded = match T::dep_decode(api, &mut cursor) {
        Ok(decoded) => decoded,
        Err(error) => {
            return Err(error);
        },
    };
    proof {
        T::lemma_nested_parse_consumes(input@);
    }
    if cursor.remaining_len() > 0 {
        Err(DecodeError::InputTooLong)
    } else {
        Ok(decoded)
    }
}

impl<A: WireFormat, B: WireFormat> WireFormat for (A, B) {
    type Value = (A::Value, B::Value);

    open spec fn handles(&self) -> Set<Handle> {
        self.0.handles().union(self.1.handles())
    }

    open spec fn valid(&self, store: Store) -> bool {
        self.0.valid(store) && self.1.valid(store)
    }

    open spec fn value(&self, store: Store) -> (A::Value, B::Value) {
        (self.0.value(store), self.1.value(store))
    }

    open spec fn nested_fits(value: (A::Value, B::Value)) -> bool {
        A::nested_fits(value.0) && B::nested_fits(value.1)
    }

    open spec fn nested_form(value: (A::Value, B::Value)) -> Seq<u8> {
        A::nested_form(value.0) + B::nested_form(value.1)
    }

    open spec fn nested_parse(input: Seq<u8>) -> Result<((A::Value, B::Value), int), DecodeError> {
        match A::nested_parse(input) {
            Err(error) => Err(error),
            Ok((first, taken)) => match B::nested_parse(input.skip(taken)) {
                Err(error) => Err(error),
                Ok((second, more)) => Ok(((first, second), taken + more)),
            },
        }
    }

    open spec fn top_fits(value: (A::Value, B::Value)) -> bool {
        Self::nested_fits(value)
    }

    open spec fn top_form(value: (A::Value, B::Value)) -> Seq<u8> {
        Self::nested_form(value)
    }

    open spec fn top_parse(input: Seq<u8>) -> Result<(A::Value, B::Value), DecodeError> {
        whole(Self::nested_parse(input), input.len())
    }

    proof fn lemma_stable(&self, before: Store, after: Store) {
        lemma_agree_on_subset(before, after, self.handles(), self.0.handles());
        lemma_agree_on_subset(before, after, self.handles(), self.1.handles());
        self.0.lemma_stable(before, after);
        self.1.lemma_stable(before, after);
    }

    proof fn lemma_nested_parse_consumes(input: Seq<u8>) {
        A::lemma_nested_parse_consumes(input);
        if let Ok((_, taken)) = A::nested_parse(input) {
            B::lemma_nested_parse_consumes(input.skip(taken));
        }
    }

    proof fn lemma_nested_round_trip(value: (A::Value, B::Value), rest: Seq<u8>) {
        let first = A::nested_form(value.0);
        let second = B::nested_form(value.1);
        A::lemma_nested_round_trip(value.0, second + rest);
        B::lemma_nested_round_trip(value.1, rest);
        assert(first + second + rest =~= first + (second + rest));
        assert((first + (second + rest)).skip(first.len() as int) =~= second + rest);
    }

    proof fn lemma_top_round_trip(value: (A::Value, B::Value)) {
        Self::lemma_nested_round_trip(value, Seq::empty());
        assert(Self::nested_form(value) + Seq::<u8>::empty() =~= Self::nested_form(value));
    }
}

impl<A: NestedEncode, B: NestedEncode> NestedEncode for (A, B) {
    fn dep_encode<M: ManagedTypeApi, O: NestedEncodeOutput>(
        &self,
        api: &mut M,
        dest: &mut O,
    ) -> (result: Result<(), EncodeError>) {
        match self.0.dep_encode(api, dest) {
            Ok(()) => {},
            Err(error) => {
                return Err(error);
            },
        }
        let ghost middle = api@;
        proof {
            lemma_agree_outside_on(old(api)@, middle, dest.owned(), self.1.handles());
            self.1.lemma_stable(old(api)@, middle);
        }
        let result = self.1.dep_encode(api, dest);
        proof {
            lemma_agree_outside_transitive(old(api)@, middle, api@, dest.owned());
            if result is Ok {
                assert(dest.written(api@) =~= old(dest).written(old(api)@) + Self::nested_form(
                    self.value(old(api)@),
                ));
            }
        }
        result
    }
}

impl<A: NestedEncode, B: NestedEncode> TopEncode for (A, B) {
    fn top_encode<M: ManagedTypeApi, O: NestedEncodeOutput>(
        &self,
        api: &mut M,
        dest: &mut O,
    ) -> (result: Result<(), EncodeError>) {
        self.dep_encode(api, dest)
    }
}

impl<A: NestedDecode, B: NestedDecode> NestedDecode for (A, B) {
    fn dep_decode<M: ManagedTypeApi, I: NestedDecodeInput>(api: &mut M, input: &mut I) -> (result:
        Result<Self, DecodeError>) {
        let first = match A::dep_decode(api, input) {
            Ok(first) => first,
            Err(error) => {
                return Err(error);
            },
        };
        let ghost middle = api@;
        let ghost after_first = input.remaining();
        let second = match B::dep_decode(api, input) {
            Ok(second) => second,
            Err(error) => {
                proof {
                    lemma_extends_transitive(old(api)@, middle, api@);
                }
                return Err(error);
            },
        };
        proof {
            lemma_extends_transitive(old(api)@, middle, api@);
            lemma_extends_agree_on(middle, api@, first.handles());
            first.lemma_stable(middle, api@);
            let whole = old(input).remaining();
            let taken = A::nested_parse(whole)->Ok_0.1;
            let more = B::nested_parse(after_first)->Ok_0.1;
            A::lemma_nested_parse_consumes(whole);
            B::lemma_nested_parse_consumes(after_first);
            assert(whole.skip(taken).skip(more) =~= whole.skip(taken + more));
        }
        Ok((first, second))
    }
}

impl<A: NestedDecode, B: NestedDecode> TopDecode for (A, B) {
    fn top_decode<M: ManagedTypeApi>(api: &mut M, input: &[u8]) -> (result: Result<
        Self,
        DecodeError,
    >) {
        decode_whole::<Self, M>(api, input)
    }
}

/// The byte in front of an option that holds nothing.
pub const OPTION_NONE: u8 = 0;

/// The byte in front of an option that holds a value.
pub const OPTION_SOME: u8 = 1;

impl<T: WireFormat> WireFormat for Option<T> {
    type Value = Option<T::Value>;

    open spec fn handles(&self) -> Set<Handle> {
        match self {
            Some(inner) => inner.handles(),
            None => Set::empty(),
        }
    }

    open spec fn valid(&self, store: Store) -> bool {
        match self {
            Some(inner) => inner.valid(store),
            None => true,
        }
    }

    open spec fn value(&self, store: Store) -> Option<T::Value> {
        match self {
            Some(inner) => Some(inner.value(store)),
            None => None,
        }
    }

    open spec fn nested_fits(value: Option<T::Value>) -> bool {
        match value {
            Some(inner) => T::nested_fits(inner),
            None => true,
        }
    }

    open spec fn nested_form(value: Option<T::Value>) -> Seq<u8> {
        match value {
            Some(inner) => seq![OPTION_SOME] + T::nested_form(inner),
            None => seq![OPTION_NONE],
        }
    }

    open spec fn nested_parse(input: Seq<u8>) -> Result<(Option<T::Value>, int), DecodeError> {
        if input.len() < 1 {
            Err(DecodeError::InputTooShort)
        } else if input[0] == OPTION_NONE {
            Ok((None, 1))
        } else if input[0] == OPTION_SOME {
            match T::nested_parse(input.skip(1)) {
                Ok((inner, taken)) => Ok((Some(inner), 1 + taken)),
                Err(error) => Err(error),
            }
        } else {
            Err(DecodeError::InvalidValue)
        }
    }

    open spec fn top_fits(value: Option<T::Value>) -> bool {
        Self::nested_fits(value)
    }

    /// At the top level an option that holds nothing is the empty payload.
    open spec fn top_form(value: Option<T::Value>) -> Seq<u8> {
        match value {
            Some(inner) => seq![OPTION_SOME] + T::nested_form(inner),
            None => Seq::empty(),
        }
    }

    open spec fn top_parse(input: Seq<u8>) -> Result<Option<T::Value>, DecodeError> {
        if input.len() == 0 {
            Ok(None)
        } else if input[0] == OPTION_SOME {
            match whole(T::nested_parse(input.skip(1)), input.skip(1).len()) {
                Ok(inner) => Ok(Some(inner)),
                Err(error) => Err(error),
            }
        } else {
            Err(DecodeError::InvalidValue)
        }
    }

    proof fn lemma_stable(&self, before: Store, after: Store) {
        if let Some(inner) = self {
            inner.lemma_stable(before, after);
        }
    }

    proof fn lemma_nested_parse_consumes(input: Seq<u8>) {
        if input.len() >= 1 {
            T::lemma_nested_parse_consumes(input.skip(1));
        }
    }

    proof fn lemma_nested_round_trip(value: Option<T::Value>, rest: Seq<u8>) {
        if let Some(inner) = value {
            T::lemma_nested_round_trip(inner, rest);
            let whole = seq![OPTION_SOME] + T::nested_form(inner) + rest;
            assert(whole.skip(1) =~= T::nested_form(inner) + rest);
        }
    }

    proof fn lemma_top_round_trip(value: Option<T::Value>) {
        if let Some(inner) = value {
            T::lemma_nested_round_trip(inner, Seq::empty());
            let whole = seq![OPTION_SOME] + T::nested_form(inner);
            assert(whole.skip(1) =~= T::nested_form(inner));
            assert(T::nested_form(inner) + Seq::<u8>::empty() =~= T::nested_form(inner));
        }
    }
}

impl<T: NestedEncode> NestedEncode for Option<T> {
    fn dep_encode<M: ManagedTypeApi, O: NestedEncodeOutput>(
        &self,
        api: &mut M,
        dest: &mut O,
    ) -> (result: Result<(), EncodeError>) {
        match self {
            None => {
                let tag = [OPTION_NONE];
                assert(tag@ =~= seq![OPTION_NONE]);
                dest.write(api, tag.as_slice());
                Ok(())
            },
            Some(inner) => {
                let tag = [OPTION_SOME];
                assert(tag@ =~= seq![OPTION_SOME]);
                dest.write(api, tag.as_slice());
                let ghost middle = api@;
                proof {
                    lemma_agree_outside_on(old(api)@, middle, dest.owned(), inner.handles());
                    inner.lemma_stable(old(api)@, middle);
                }
                let result = inner.dep_encode(api, dest);
                proof {
                    lemma_agree_outside_transitive(old(api)@, middle, api@, dest.owned());
                    if result is Ok {
                        assert(dest.written(api@) =~= old(dest).written(old(api)@)
                            + Self::nested_form(self.value(old(api)@)));
                    }
                }
                result
            },
        }
    }
}

impl<T: NestedEncode> TopEncode for Option<T> {
    fn top_encode<M: ManagedTypeApi, O: NestedEncodeOutput>(
        &self,
        api: &mut M,
        dest: &mut O,
    ) -> (result: Result<(), EncodeError>) {
        match self {
            None => {
                let nothing: [u8; 0] = [];
                assert(nothing@ =~= Seq::<u8>::empty());
                dest.write(api, nothing.as_slice());
                Ok(())
            },
            Some(_) => self.dep_encode(api, dest),
        }
    }
}

impl<T: NestedDecode> NestedDecode for Option<T> {
    fn dep_decode<M: ManagedTypeApi, I: NestedDecodeInput>(api: &mut M, input: &mut I) -> (result:
        Result<Self, DecodeError>) {
        let tag = match input.read_bytes(1) {
            Ok(bytes) => bytes[0],
            Err(error) => {
                return Err(error);
            },
        };
        if tag == OPTION_NONE {
            Ok(None)
        } else if tag == OPTION_SOME {
            match T::dep_decode(api, input) {
                Ok(inner) => {
                    proof {
                        let whole = old(input).remaining();
                        let taken = T::nested_parse(whole.skip(1))->Ok_0.1;
                        T::lemma_nested_parse_consumes(whole.skip(1));
                        assert(whole.skip(1).skip(taken) =~= whole.skip(1 + taken));
                    }
                    Ok(Some(inner))
                },
                Err(error) => Err(error),
            }
        } else {
            Err(DecodeError::InvalidValue)
        }
    }
}

impl<T: NestedDecode> TopDecode for Option<T> {
    fn top_decode<M: ManagedTypeApi>(api: &mut M, input: &[u8]) -> (result: Result<
        Self,
        DecodeError,
    >) {
        if input.len() == 0 {
            Ok(None)
        } else if input[0] == OPTION_SOME {
            let rest = vstd::slice::slice_subrange(input, 1, input.len());
            assert(rest@ =~= input@.skip(1));
            match decode_whole::<T, M>(api, rest) {
                Ok(inner) => Ok(Some(inner)),
                Err(error) => Err(error),
            }
        } else {
            Err(DecodeError::InvalidValue)
        }
    }
}

} // verus!
