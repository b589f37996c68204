//! The handle registry contract: what the library asks of the engine that
//! stores managed values and computes on them.
use vstd::prelude::*;
use crate::boxed_bytes::BoxedBytes;
use crate::magnitude::{
    be_bytes, be_value, bitwise, pow2, signed_be_bytes, signed_value_of, BitOp,
};

verus! {

/// An opaque reference to a value held by the registry.
pub type Handle = usize;

/// The sign of a big integer. Zero has no sign.
#[derive(Clone, Copy, Debug, PartialEq, Eq, Structural)]
pub enum Sign {
    Minus,
    NoSign,
    Plus,
}

/// How one number stands to another.
#[derive(Clone, Copy, Debug, PartialEq, Eq, Structural)]
pub enum Comparison {
    Less,
    Equal,
    Greater,
}

/// What a handle refers to: a byte sequence or an integer of any size.
pub enum ManagedValue {
    Bytes(Seq<u8>),
    Int(int),
}

/// The registry's content: the value behind each live handle.
pub type Store = Map<Handle, ManagedValue>;

/// The sign of a mathematical integer.
pub open spec fn sign_of(value: int) -> Sign {
    if value < 0 {
        Sign::Minus
    } else if value == 0 {
        Sign::NoSign
    } else {
        Sign::Plus
    }
}

/// How `a` stands to `b`.
pub open spec fn compare_ints(a: int, b: int) -> Comparison {
    if a < b {
        Comparison::Less
    } else if a == b {
        Comparison::Equal
    } else {
        Comparison::Greater
    }
}

/// The absolute value of an integer.
pub open spec fn magnitude_of(value: int) -> nat {
    if value < 0 {
        (-value) as nat
    } else {
        value as nat
    }
}

/// The quotient of a division that rounds towards zero.
pub open spec fn trunc_div(x: int, y: int) -> int {
    if (x < 0) == (y < 0) {
        (magnitude_of(x) / magnitude_of(y)) as int
    } else {
        -((magnitude_of(x) / magnitude_of(y)) as int)
    }
}

/// The remainder of a division that rounds towards zero: it has the sign of
/// the dividend.
pub open spec fn trunc_rem(x: int, y: int) -> int {
    if x < 0 {
        -((magnitude_of(x) % magnitude_of(y)) as int)
    } else {
        (magnitude_of(x) % magnitude_of(y)) as int
    }
}

/// `after` is `before` with the integer behind `dest` replaced by `value`.
pub open spec fn int_stored(before: Store, dest: Handle, value: int, after: Store) -> bool {
    after == before.insert(dest, ManagedValue::Int(value))
}

/// `dest`, `x` and `y` are live and refer to integers.
pub open spec fn holds_ints(store: Store, dest: Handle, x: Handle, y: Handle) -> bool {
    holds_int(store, dest) && holds_int(store, x) && holds_int(store, y)
}

/// `handle` is live and refers to a byte sequence.
pub open spec fn holds_bytes(store: Store, handle: Handle) -> bool {
    store.contains_key(handle) && store[handle] is Bytes
}

/// `handle` is live and refers to an integer.
pub open spec fn holds_int(store: Store, handle: Handle) -> bool {
    store.contains_key(handle) && store[handle] is Int
}

/// The byte sequence behind `handle`.
pub open spec fn bytes_at(store: Store, handle: Handle) -> Seq<u8> {
    store[handle]->Bytes_0
}

/// The integer behind `handle`.
pub open spec fn int_at(store: Store, handle: Handle) -> int {
    store[handle]->Int_0
}

/// Every handle of `before` is still live in `after` and refers to the same
/// value: `after` has at most gained handles.
pub open spec fn extends(before: Store, after: Store) -> bool {
    forall|h: Handle| #[trigger]
        before.contains_key(h) ==> after.contains_key(h) && after[h] == before[h]
}

/// `before` and `after` have the same live handles, and those outside `owned`
/// refer to the same values.
pub open spec fn agree_outside(before: Store, after: Store, owned: Set<Handle>) -> bool {
    &&& before.dom() == after.dom()
    &&& forall|h: Handle| #[trigger]
        before.contains_key(h) && !owned.contains(h) ==> after[h] == before[h]
}

/// Every handle of `handles` that is live in `before` is live in `after` and
/// refers to the same value.
pub open spec fn agree_on(before: Store, after: Store, handles: Set<Handle>) -> bool {
    forall|h: Handle| #[trigger]
        handles.contains(h) && before.contains_key(h) ==> after.contains_key(h) && after[h]
            == before[h]
}

/// None of `handles` is live in `store`.
pub open spec fn none_live(handles: Set<Handle>, store: Store) -> bool {
    forall|h: Handle| #[trigger] handles.contains(h) ==> !store.contains_key(h)
}

/// The store after a fresh handle was issued for `value`.
pub open spec fn allocated(before: Store, handle: Handle, value: ManagedValue, after: Store) -> bool {
    &&& !before.contains_key(handle)
    &&& after == before.insert(handle, value)
}

/// Changes outside `owned` follow one another.
pub proof fn lemma_agree_outside_transitive(
    first: Store,
    second: Store,
    third: Store,
    owned: Set<Handle>,
)
    requires
        agree_outside(first, second, owned),
        agree_outside(second, third, owned),
    ensures
        agree_outside(first, third, owned),
{
    assert forall|h: Handle| #[trigger] first.contains_key(h) && !owned.contains(h) implies third[h]
        == first[h] by {
        assert(second.contains_key(h));
    }
}

/// What is left alone outside `owned` is left alone at every handle that is
/// not in `owned`.
pub proof fn lemma_agree_outside_on(
    before: Store,
    after: Store,
    owned: Set<Handle>,
    handles: Set<Handle>,
)
    requires
        agree_outside(before, after, owned),
        handles.disjoint(owned),
    ensures
        agree_on(before, after, handles),
{
    assert forall|h: Handle| #[trigger]
        handles.contains(h) && before.contains_key(h) implies after.contains_key(h) && after[h]
        == before[h] by {
        assert(after.dom().contains(h));
    }
}

/// What holds of a set of handles holds of each part of it.
pub proof fn lemma_agree_on_subset(
    before: Store,
    after: Store,
    handles: Set<Handle>,
    part: Set<Handle>,
)
    requires
        agree_on(before, after, handles),
        part.subset_of(handles),
    ensures
        agree_on(before, after, part),
{
    assert forall|h: Handle| #[trigger]
        part.contains(h) && before.contains_key(h) implies after.contains_key(h) && after[h]
        == before[h] by {
        assert(handles.contains(h));
    }
}

/// What a store extends it agrees with on every handle.
pub proof fn lemma_extends_agree_on(before: Store, after: Store, handles: Set<Handle>)
    requires
        extends(before, after),
    ensures
        agree_on(before, after, handles),
{
}

/// Extending follows extending.
pub proof fn lemma_extends_transitive(first: Store, second: Store, third: Store)
    requires
        extends(first, second),
        extends(second, third),
    ensures
        extends(first, third),
{
    assert forall|h: Handle| #[trigger] first.contains_key(h) implies third.contains_key(h)
        && third[h] == first[h] by {
        assert(second.contains_key(h));
    }
}

/// The engine behind the handles. Every operation is keyed by handle; a
/// handle that is not live, or that refers to a value of the other kind, is
/// outside every operation's domain.
///
/// Handles are issued once and never reused: a new handle is one that was not
/// live before.
pub trait ManagedTypeApi {
    spec fn view(&self) -> Store;

    /// Issues a handle for an empty byte sequence.
    fn mb_new_empty(&mut self) -> (handle: Handle)
        ensures
            allocated(old(self)@, handle, ManagedValue::Bytes(Seq::empty()), final(self)@),
    ;

    /// Issues a handle for a copy of `bytes`.
    fn mb_new_from_bytes(&mut self, bytes: &[u8]) -> (handle: Handle)
        ensures
            allocated(old(self)@, handle, ManagedValue::Bytes(bytes@), final(self)@),
    ;

    fn mb_len(&self, handle: Handle) -> (len: usize)
        requires
            holds_bytes(self@, handle),
        ensures
            len == bytes_at(self@, handle).len(),
    ;

    /// Replaces the whole content behind `handle`.
    fn mb_overwrite(&mut self, handle: Handle, bytes: &[u8])
        requires
            holds_bytes(old(self)@, handle),
        ensures
            final(self)@ == old(self)@.insert(handle, ManagedValue::Bytes(bytes@)),
    ;

    /// Appends the content behind `source` to the content behind `dest`.
    fn mb_append(&mut self, dest: Handle, source: Handle)
        requires
            holds_bytes(old(self)@, dest),
            holds_bytes(old(self)@, source),
        ensures
            final(self)@ == old(self)@.insert(
                dest,
                ManagedValue::Bytes(bytes_at(old(self)@, dest) + bytes_at(old(self)@, source)),
            ),
    ;

    fn mb_append_bytes(&mut self, handle: Handle, bytes: &[u8])
        requires
            holds_bytes(old(self)@, handle),
        ensures
            final(self)@ == old(self)@.insert(
                handle,
                ManagedValue::Bytes(bytes_at(old(self)@, handle) + bytes@),
            ),
    ;

    /// Copies the content behind `handle` into local memory.
    fn mb_to_boxed_bytes(&self, handle: Handle) -> (bytes: BoxedBytes)
        requires
            holds_bytes(self@, handle),
        ensures
            bytes@ == bytes_at(self@, handle),
    ;

    /// Issues a handle for the integer `value`.
    fn bi_new(&mut self, value: i64) -> (handle: Handle)
        ensures
            allocated(old(self)@, handle, ManagedValue::Int(value as int), final(self)@),
    ;

    fn bi_set_int64(&mut self, dest: Handle, value: i64)
        requires
            holds_int(old(self)@, dest),
        ensures
            final(self)@ == old(self)@.insert(dest, ManagedValue::Int(value as int)),
    ;

    /// Sets the integer behind `dest` to the number that `bytes` denotes as a
    /// big-endian magnitude.
    fn bi_set_unsigned_bytes(&mut self, dest: Handle, bytes: &[u8])
        requires
            holds_int(old(self)@, dest),
        ensures
            final(self)@ == old(self)@.insert(dest, ManagedValue::Int(be_value(bytes@) as int)),
    ;

    /// The length of the shortest big-endian form of the magnitude.
    fn bi_unsigned_byte_length(&self, handle: Handle) -> (len: usize)
        requires
            holds_int(self@, handle),
        ensures
            len == be_bytes(magnitude_of(int_at(self@, handle))).len(),
    ;

    /// The shortest big-endian form of the magnitude.
    fn bi_get_unsigned_bytes(&self, handle: Handle) -> (bytes: BoxedBytes)
        requires
            holds_int(self@, handle),
        ensures
            bytes@ == be_bytes(magnitude_of(int_at(self@, handle))),
    ;

    /// Sets the integer behind `dest` to the one that `bytes` denotes in
    /// two's complement, most significant byte first.
    fn bi_set_signed_bytes(&mut self, dest: Handle, bytes: &[u8])
        requires
            holds_int(old(self)@, dest),
        ensures
            int_stored(old(self)@, dest, signed_value_of(bytes@), final(self)@),
    ;

    /// The shortest two's complement form, most significant byte first.
    fn bi_get_signed_bytes(&self, handle: Handle) -> (bytes: BoxedBytes)
        requires
            holds_int(self@, handle),
        ensures
            bytes@ == signed_be_bytes(int_at(self@, handle)),
    ;

    fn bi_sign(&self, handle: Handle) -> (sign: Sign)
        requires
            holds_int(self@, handle),
        ensures
            sign == sign_of(int_at(self@, handle)),
    ;

    fn bi_compare(&self, x: Handle, y: Handle) -> (result: Comparison)
        requires
            holds_int(self@, x),
            holds_int(self@, y),
        ensures
            result == compare_ints(int_at(self@, x), int_at(self@, y)),
    ;

    /// Sets the integer behind `dest` to the sum of those behind `x` and `y`.
    /// As with every operation that follows, `dest` may be one of the
    /// operands.
    fn bi_add(&mut self, dest: Handle, x: Handle, y: Handle)
        requires
            holds_ints(old(self)@, dest, x, y),
        ensures
            int_stored(
                old(self)@,
                dest,
                int_at(old(self)@, x) + int_at(old(self)@, y),
                final(self)@,
            ),
    ;

    fn bi_sub(&mut self, dest: Handle, x: Handle, y: Handle)
        requires
            holds_ints(old(self)@, dest, x, y),
        ensures
            int_stored(
                old(self)@,
                dest,
                int_at(old(self)@, x) - int_at(old(self)@, y),
                final(self)@,
            ),
    ;

    fn bi_mul(&mut self, dest: Handle, x: Handle, y: Handle)
        requires
            holds_ints(old(self)@, dest, x, y),
        ensures
            int_stored(
                old(self)@,
                dest,
                int_at(old(self)@, x) * int_at(old(self)@, y),
                final(self)@,
            ),
    ;

    /// Division that rounds towards zero. The divisor is not zero.
    fn bi_t_div(&mut self, dest: Handle, x: Handle, y: Handle)
        requires
            holds_ints(old(self)@, dest, x, y),
            int_at(old(self)@, y) != 0,
        ensures
            int_stored(
                old(self)@,
                dest,
                trunc_div(int_at(old(self)@, x), int_at(old(self)@, y)),
                final(self)@,
            ),
    ;

    /// The remainder of the division that rounds towards zero. The divisor is
    /// not zero.
    fn bi_t_mod(&mut self, dest: Handle, x: Handle, y: Handle)
        requires
            holds_ints(old(self)@, dest, x, y),
            int_at(old(self)@, y) != 0,
        ensures
            int_stored(
                old(self)@,
                dest,
                trunc_rem(int_at(old(self)@, x), int_at(old(self)@, y)),
                final(self)@,
            ),
    ;

    fn bi_neg(&mut self, dest: Handle, x: Handle)
        requires
            holds_int(old(self)@, dest),
            holds_int(old(self)@, x),
        ensures
            int_stored(old(self)@, dest, -int_at(old(self)@, x), final(self)@),
    ;

    fn bi_abs(&mut self, dest: Handle, x: Handle)
        requires
            holds_int(old(self)@, dest),
            holds_int(old(self)@, x),
        ensures
            int_stored(
                old(self)@,
                dest,
                magnitude_of(int_at(old(self)@, x)) as int,
                final(self)@,
            ),
    ;

    /// The operation, bit by bit, on two integers that are not negative.
    fn bi_bitwise(&mut self, op: BitOp, dest: Handle, x: Handle, y: Handle)
        requires
            holds_ints(old(self)@, dest, x, y),
            int_at(old(self)@, x) >= 0,
            int_at(old(self)@, y) >= 0,
        ensures
            int_stored(
                old(self)@,
                dest,
                bitwise(op, int_at(old(self)@, x) as nat, int_at(old(self)@, y) as nat) as int,
                final(self)@,
            ),
    ;

    /// An integer that is not negative, times two to the power `bits`.
    fn bi_shl(&mut self, dest: Handle, x: Handle, bits: usize)
        requires
            holds_int(old(self)@, dest),
            holds_int(old(self)@, x),
            int_at(old(self)@, x) >= 0,
        ensures
            int_stored(
                old(self)@,
                dest,
                int_at(old(self)@, x) * pow2(bits as nat),
                final(self)@,
            ),
    ;

    /// An integer that is not negative, divided by two to the power `bits`.
    fn bi_shr(&mut self, dest: Handle, x: Handle, bits: usize)
        requires
            holds_int(old(self)@, dest),
            holds_int(old(self)@, x),
            int_at(old(self)@, x) >= 0,
        ensures
            int_stored(
                old(self)@,
                dest,
                int_at(old(self)@, x) / pow2(bits as nat) as int,
                final(self)@,
            ),
    ;
}

} // verus!
