//! The contract of the codec: what every type that crosses the boundary
//! states of its two forms, and what encoding and decoding owe to that.
use vstd::prelude::*;
use crate::api::{
    agree_on, agree_outside, extends, none_live, Handle, ManagedTypeApi, Store,
};
use crate::codec::error::{DecodeError, EncodeError};
use crate::codec::input::NestedDecodeInput;
use crate::codec::output::NestedEncodeOutput;

verus! {

/// The two forms of a type, stated over its logical values.
///
/// A value in local memory is its own logical value. A managed value holds
/// handles; its logical value is what the registry holds behind them, so two
/// managed values with different handles and the same content have one
/// logical value, and one encoding.
pub trait WireFormat: Sized {
    /// What a value of the type stands for.
    type Value;

    /// The handles that the value reads its content through.
    spec fn handles(&self) -> Set<Handle>;

    /// The value's handles are live in `store` and refer to what the type
    /// expects.
    spec fn valid(&self, store: Store) -> bool;

    /// The logical value in `store`.
    spec fn value(&self, store: Store) -> Self::Value;

    /// Every length inside `value` that the nested form writes fits its
    /// prefix.
    spec fn nested_fits(value: Self::Value) -> bool;

    /// The nested form.
    spec fn nested_form(value: Self::Value) -> Seq<u8>;

    /// Reads one value in nested form from the front of `input`: the value
    /// and the number of bytes it took.
    spec fn nested_parse(input: Seq<u8>) -> Result<(Self::Value, int), DecodeError>;

    /// Every length inside `value` that the top-level form writes fits its
    /// prefix.
    spec fn top_fits(value: Self::Value) -> bool;

    /// The top-level form.
    spec fn top_form(value: Self::Value) -> Seq<u8>;

    /// Reads the value whose top-level form is the whole of `input`.
    spec fn top_parse(input: Seq<u8>) -> Result<Self::Value, DecodeError>;

    /// A value depends on the registry through its handles alone.
    proof fn lemma_stable(&self, before: Store, after: Store)
        requires
            self.valid(before),
            agree_on(before, after, self.handles()),
        ensures
            self.valid(after),
            self.value(after) == self.value(before),
    ;

    /// A nested form is never empty, and reading takes bytes that are there.
    proof fn lemma_nested_parse_consumes(input: Seq<u8>)
        ensures
            Self::nested_parse(input) matches Ok((_, taken)) ==> 0 < taken <= input.len(),
    ;

    /// Round trip, nested: reading a nested form gives the value back, and
    /// takes the form and nothing of what follows it.
    proof fn lemma_nested_round_trip(value: Self::Value, rest: Seq<u8>)
        requires
            Self::nested_fits(value),
        ensures
            Self::nested_parse(Self::nested_form(value) + rest) == Ok::<_, DecodeError>(
                (value, Self::nested_form(value).len() as int),
            ),
    ;

    /// Round trip, top level: reading a top-level form gives the value back.
    proof fn lemma_top_round_trip(value: Self::Value)
        requires
            Self::top_fits(value),
        ensures
            Self::top_parse(Self::top_form(value)) == Ok::<_, DecodeError>(value),
    ;
}

/// `error` is what reading `input` in nested form fails with.
pub open spec fn nested_parse_fails<T: WireFormat>(input: Seq<u8>, error: DecodeError) -> bool {
    T::nested_parse(input) matches Err(e) && e == error
}

/// `error` is what reading `input` in top-level form fails with.
pub open spec fn top_parse_fails<T: WireFormat>(input: Seq<u8>, error: DecodeError) -> bool {
    T::top_parse(input) matches Err(e) && e == error
}

/// Determinism: two values that stand for one logical value, in whatever
/// stores and through whatever handles, have the same bytes in both forms.
pub proof fn lemma_encoding_deterministic<T: WireFormat>(
    first: T,
    first_store: Store,
    second: T,
    second_store: Store,
)
    requires
        first.value(first_store) == second.value(second_store),
    ensures
        T::nested_form(first.value(first_store)) == T::nested_form(second.value(second_store)),
        T::top_form(first.value(first_store)) == T::top_form(second.value(second_store)),
        T::nested_fits(first.value(first_store)) == T::nested_fits(second.value(second_store)),
        T::top_fits(first.value(first_store)) == T::top_fits(second.value(second_store)),
{
}

/// Round trip: what was written in nested form, followed by anything, reads
/// back as the value that was written, and what was written in top-level
/// form reads back as that value too.
pub proof fn lemma_round_trip<T: WireFormat>(value: T::Value, rest: Seq<u8>)
    ensures
        T::nested_fits(value) ==> T::nested_parse(T::nested_form(value) + rest) == Ok::<
            _,
            DecodeError,
        >((value, T::nested_form(value).len() as int)),
        T::top_fits(value) ==> T::top_parse(T::top_form(value)) == Ok::<_, DecodeError>(value),
{
    if T::nested_fits(value) {
        T::lemma_nested_round_trip(value, rest);
    }
    if T::top_fits(value) {
        T::lemma_top_round_trip(value);
    }
}

/// A type whose values can be written in nested form.
pub trait NestedEncode: WireFormat {
    /// Appends the nested form of the value to `dest`.
    ///
    /// The value must not read through a handle that `dest` writes through.
    /// The result is `Ok` exactly when every length fits; after an error
    /// `dest` holds what was written until then.
    fn dep_encode<M: ManagedTypeApi, O: NestedEncodeOutput>(
        &self,
        api: &mut M,
        dest: &mut O,
    ) -> (result: Result<(), EncodeError>)
        requires
            self.valid(old(api)@),
            old(dest).ready(old(api)@),
            self.handles().disjoint(old(dest).owned()),
        ensures
            final(dest).ready(final(api)@),
            final(dest).owned() == old(dest).owned(),
            agree_outside(old(api)@, final(api)@, old(dest).owned()),
            result is Ok <==> Self::nested_fits(self.value(old(api)@)),
            result is Ok ==> final(dest).written(final(api)@) == old(dest).written(old(api)@)
                + Self::nested_form(self.value(old(api)@)),
    ;
}

/// A type whose values can be written in top-level form.
pub trait TopEncode: WireFormat {
    /// Appends the top-level form of the value to `dest`, which is to hold
    /// nothing else.
    fn top_encode<M: ManagedTypeApi, O: NestedEncodeOutput>(
        &self,
        api: &mut M,
        dest: &mut O,
    ) -> (result: Result<(), EncodeError>)
        requires
            self.valid(old(api)@),
            old(dest).ready(old(api)@),
            self.handles().disjoint(old(dest).owned()),
        ensures
            final(dest).ready(final(api)@),
            final(dest).owned() == old(dest).owned(),
            agree_outside(old(api)@, final(api)@, old(dest).owned()),
            result is Ok <==> Self::top_fits(self.value(old(api)@)),
            result is Ok ==> final(dest).written(final(api)@) == old(dest).written(old(api)@)
                + Self::top_form(self.value(old(api)@)),
    ;
}

/// A type whose values can be read from nested form.
pub trait NestedDecode: WireFormat {
    /// Reads one value from the front of `input`.
    ///
    /// A managed value gets handles of its own, none of which was live
    /// before; no handle that was live changes.
    /// After an error `input` is left where reading stopped.
    fn dep_decode<M: ManagedTypeApi, I: NestedDecodeInput>(api: &mut M, input: &mut I) -> (result:
        Result<Self, DecodeError>)
        ensures
            extends(old(api)@, final(api)@),
            match result {
                Ok(decoded) => {
                    &&& decoded.valid(final(api)@)
                    &&& none_live(decoded.handles(), old(api)@)
                    &&& Self::nested_parse(old(input).remaining()) matches Ok((value, taken))
                        && value == decoded.value(final(api)@) && final(input).remaining() == old(
                        input,
                    ).remaining().skip(taken)
                },
                Err(error) => nested_parse_fails::<Self>(old(input).remaining(), error),
            },
    ;
}

/// A type whose values can be read from top-level form.
pub trait TopDecode: WireFormat {
    /// Reads the value that the whole of `input` encodes.
    fn top_decode<M: ManagedTypeApi>(api: &mut M, input: &[u8]) -> (result: Result<
        Self,
        DecodeError,
    >)
        ensures
            extends(old(api)@, final(api)@),
            match result {
                Ok(decoded) => {
                    &&& decoded.valid(final(api)@)
                    &&& none_live(decoded.handles(), old(api)@)
                    &&& Self::top_parse(input@) matches Ok(value) && value == decoded.value(
                        final(api)@,
                    )
                },
                Err(error) => top_parse_fails::<Self>(input@, error),
            },
    ;
}

} // verus!
