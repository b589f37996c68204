//! An in-memory registry: managed values kept in a growing table, a handle
//! being an index into it.
use vstd::prelude::*;
use vstd::slice::slice_to_vec;
use crate::api::{magnitude_of, Comparison, Handle, ManagedTypeApi, ManagedValue, Sign, Store};
use crate::boxed_bytes::BoxedBytes;
use crate::digits::{
    add_digits, bitwise_digits, compare_digits, div_rem_digits, leading_zeros, minimal_bytes,
    mul_digits, shl_digits, shr_digits, signed_bytes_of, signed_digits_of, sub_digits,
};
use crate::magnitude::{
    be_bytes, be_value, lemma_be_bytes_value, lemma_be_value_skip_zeros, lemma_minimal_is_be_bytes,
    signed, BitOp,
};

verus! {

/// One entry of the table.
enum Slot {
    Bytes(Vec<u8>),
    /// A sign and a big-endian magnitude, which may start with zero bytes.
    Number { negative: bool, digits: Vec<u8> },
}

impl Slot {
    spec fn value(self) -> ManagedValue {
        match self {
            Slot::Bytes(bytes) => ManagedValue::Bytes(bytes@),
            Slot::Number { negative, digits } => ManagedValue::Int(
                signed(negative, be_value(digits@)),
            ),
        }
    }
}

/// A registry that lives in local memory. Handles are issued in order from
/// zero and stay live as long as the arena does.
pub struct Arena {
    slots: Vec<Slot>,
}

/// Appends the shortest big-endian form of `value` to `digits`.
fn push_be_bytes(value: u64, digits: &mut Vec<u8>)
    ensures
        final(digits)@ == old(digits)@ + be_bytes(value as nat),
    decreases value,
{
    if value == 0 {
        assert(digits@ + Seq::<u8>::empty() =~= digits@);
    } else {
        push_be_bytes(value / 256, digits);
        digits.push((value % 256) as u8);
        assert(digits@ =~= old(digits)@ + be_bytes(value as nat));
    }
}

/// The magnitude of `value`.
fn magnitude_of_i64(value: i64) -> (magnitude: u64)
    ensures
        magnitude == magnitude_of(value as int),
{
    if value >= 0 {
        value as u64
    } else {
        (-(value + 1)) as u64 + 1
    }
}

/// The sum of two numbers, each given by sign and digits.
fn signed_sum(x_negative: bool, x: &Vec<u8>, y_negative: bool, y: &Vec<u8>) -> (sum: (
    bool,
    Vec<u8>,
))
    ensures
        signed(sum.0, be_value(sum.1@)) == signed(x_negative, be_value(x@)) + signed(
            y_negative,
            be_value(y@),
        ),
{
    if x_negative == y_negative {
        (x_negative, add_digits(x, y))
    } else {
        match compare_digits(x, y) {
            Comparison::Less => (y_negative, sub_digits(y, x)),
            _ => (x_negative, sub_digits(x, y)),
        }
    }
}

impl Arena {
    /// An arena with no live handle.
    pub fn new() -> (arena: Self)
        ensures
            arena@ == Store::empty(),
    {
        let arena = Arena { slots: Vec::new() };
        assert(arena@ =~= Store::empty());
        arena
    }

    /// The number of handles issued so far.
    pub fn handle_count(&self) -> (count: usize)
        ensures
            forall|h: Handle| self@.contains_key(h) <==> h < count,
    {
        self.slots.len()
    }

    /// Issues the next handle for `slot`.
    fn allocate(&mut self, slot: Slot) -> (handle: Handle)
        ensures
            !old(self)@.contains_key(handle),
            final(self)@ == old(self)@.insert(handle, slot.value()),
    {
        let handle = self.slots.len();
        self.slots.push(slot);
        assert(self@ =~= old(self)@.insert(handle, slot.value()));
        handle
    }

    /// Puts `slot` in the place of what `handle` referred to.
    fn replace(&mut self, handle: Handle, slot: Slot)
        requires
            old(self)@.contains_key(handle),
        ensures
            final(self)@ == old(self)@.insert(handle, slot.value()),
    {
        self.slots[handle] = slot;
        assert(self@ =~= old(self)@.insert(handle, slot.value()));
    }

    /// The bytes behind a handle that refers to bytes.
    fn bytes_of(&self, handle: Handle) -> (bytes: &Vec<u8>)
        requires
            self@.contains_key(handle),
            self@[handle] is Bytes,
        ensures
            bytes@ == self@[handle]->Bytes_0,
    {
        match &self.slots[handle] {
            Slot::Bytes(bytes) => bytes,
            Slot::Number { digits, .. } => digits,
        }
    }

    /// The sign flag and the digits behind a handle that refers to an
    /// integer.
    fn number_of(&self, handle: Handle) -> (number: (bool, &Vec<u8>))
        requires
            self@.contains_key(handle),
            self@[handle] is Int,
        ensures
            self@[handle]->Int_0 == signed(number.0, be_value(number.1@)),
    {
        match &self.slots[handle] {
            Slot::Bytes(bytes) => (false, bytes),
            Slot::Number { negative, digits } => (*negative, digits),
        }
    }
}

impl ManagedTypeApi for Arena {
    closed spec fn view(&self) -> Store {
        Map::new(|h: Handle| h < self.slots.len(), |h: Handle| self.slots[h as int].value())
    }

    fn mb_new_empty(&mut self) -> (handle: Handle) {
        self.allocate(Slot::Bytes(Vec::new()))
    }

    fn mb_new_from_bytes(&mut self, bytes: &[u8]) -> (handle: Handle) {
        self.allocate(Slot::Bytes(slice_to_vec(bytes)))
    }

    fn mb_len(&self, handle: Handle) -> (len: usize) {
        self.bytes_of(handle).len()
    }

    fn mb_overwrite(&mut self, handle: Handle, bytes: &[u8]) {
        self.replace(handle, Slot::Bytes(slice_to_vec(bytes)));
    }

    fn mb_append(&mut self, dest: Handle, source: Handle) {
        let tail = slice_to_vec(self.bytes_of(source).as_slice());
        self.mb_append_bytes(dest, tail.as_slice());
    }

    fn mb_append_bytes(&mut self, handle: Handle, bytes: &[u8]) {
        match &mut self.slots[handle] {
            Slot::Bytes(content) => {
                content.extend_from_slice(bytes);
            },
            Slot::Number { .. } => {},
        }
        assert(self.slots.len() == old(self).slots.len());
        assert(self.slots[handle as int]->Bytes_0@ == old(self).slots[handle as int]->Bytes_0@
            + bytes@);
        assert(self@ =~= old(self)@.insert(
            handle,
            ManagedValue::Bytes(old(self)@[handle]->Bytes_0 + bytes@),
        ));
    }

    fn mb_to_boxed_bytes(&self, handle: Handle) -> (bytes: BoxedBytes) {
        BoxedBytes::from_slice(self.bytes_of(handle).as_slice())
    }

    fn bi_new(&mut self, value: i64) -> (handle: Handle) {
        let mut digits = Vec::new();
        push_be_bytes(magnitude_of_i64(value), &mut digits);
        proof {
            assert(digits@ =~= be_bytes(magnitude_of(value as int)));
            lemma_be_bytes_value(magnitude_of(value as int));
        }
        self.allocate(Slot::Number { negative: value < 0, digits })
    }

    fn bi_set_int64(&mut self, dest: Handle, value: i64) {
        let mut digits = Vec::new();
        push_be_bytes(magnitude_of_i64(value), &mut digits);
        proof {
            assert(digits@ =~= be_bytes(magnitude_of(value as int)));
            lemma_be_bytes_value(magnitude_of(value as int));
        }
        self.replace(dest, Slot::Number { negative: value < 0, digits });
    }

    fn bi_set_unsigned_bytes(&mut self, dest: Handle, bytes: &[u8]) {
        self.replace(dest, Slot::Number { negative: false, digits: slice_to_vec(bytes) });
    }

    fn bi_unsigned_byte_length(&self, handle: Handle) -> (len: usize) {
        let (_, digits) = self.number_of(handle);
        let skipped = leading_zeros(digits);
        proof {
            lemma_be_value_skip_zeros(digits@, skipped as int);
            lemma_minimal_is_be_bytes(digits@.skip(skipped as int));
        }
        digits.len() - skipped
    }

    fn bi_get_unsigned_bytes(&self, handle: Handle) -> (bytes: BoxedBytes) {
        let (_, digits) = self.number_of(handle);
        BoxedBytes::from_vec(minimal_bytes(digits))
    }

    fn bi_set_signed_bytes(&mut self, dest: Handle, bytes: &[u8]) {
        let (negative, digits) = signed_digits_of(bytes);
        self.replace(dest, Slot::Number { negative, digits });
    }

    fn bi_get_signed_bytes(&self, handle: Handle) -> (bytes: BoxedBytes) {
        let (negative, digits) = self.number_of(handle);
        BoxedBytes::from_vec(signed_bytes_of(negative, digits))
    }

    fn bi_sign(&self, handle: Handle) -> (sign: Sign) {
        let (negative, digits) = self.number_of(handle);
        let skipped = leading_zeros(digits);
        proof {
            lemma_be_value_skip_zeros(digits@, skipped as int);
            if skipped < digits.len() {
                crate::magnitude::lemma_be_value_lower(digits@.skip(skipped as int));
                crate::magnitude::lemma_pow256_positive((digits.len() - skipped - 1) as nat);
            }
        }
        if skipped == digits.len() {
            Sign::NoSign
        } else if negative {
            Sign::Minus
        } else {
            Sign::Plus
        }
    }

    fn bi_compare(&self, x: Handle, y: Handle) -> (result: Comparison) {
        let (x_negative, x_digits) = self.number_of(x);
        let (y_negative, y_digits) = self.number_of(y);
        let magnitudes = compare_digits(x_digits, y_digits);
        if x_negative == y_negative {
            if x_negative {
                match magnitudes {
                    Comparison::Less => Comparison::Greater,
                    Comparison::Equal => Comparison::Equal,
                    Comparison::Greater => Comparison::Less,
                }
            } else {
                magnitudes
            }
        } else {
            let x_zero = leading_zeros(x_digits) == x_digits.len();
            let y_zero = leading_zeros(y_digits) == y_digits.len();
            proof {
                crate::magnitude::lemma_zero_digits(x_digits@);
                crate::magnitude::lemma_zero_digits(y_digits@);
            }
            if x_zero && y_zero {
                Comparison::Equal
            } else if x_negative {
                Comparison::Less
            } else {
                Comparison::Greater
            }
        }
    }

    fn bi_add(&mut self, dest: Handle, x: Handle, y: Handle) {
        let (x_negative, x_digits) = self.number_of(x);
        let (y_negative, y_digits) = self.number_of(y);
        let (negative, digits) = signed_sum(x_negative, x_digits, y_negative, y_digits);
        self.replace(dest, Slot::Number { negative, digits });
    }

    fn bi_sub(&mut self, dest: Handle, x: Handle, y: Handle) {
        let (x_negative, x_digits) = self.number_of(x);
        let (y_negative, y_digits) = self.number_of(y);
        let (negative, digits) = signed_sum(x_negative, x_digits, !y_negative, y_digits);
        self.replace(dest, Slot::Number { negative, digits });
    }

    fn bi_mul(&mut self, dest: Handle, x: Handle, y: Handle) {
        let (x_negative, x_digits) = self.number_of(x);
        let (y_negative, y_digits) = self.number_of(y);
        let digits = mul_digits(x_digits, y_digits);
        let negative = x_negative != y_negative;
        proof {
            let a = be_value(x_digits@) as int;
            let b = be_value(y_digits@) as int;
            assert((-a) * b == -(a * b)) by (nonlinear_arith);
            assert(a * (-b) == -(a * b)) by (nonlinear_arith);
            assert((-a) * (-b) == a * b) by (nonlinear_arith);
        }
        self.replace(dest, Slot::Number { negative, digits });
    }

    fn bi_t_div(&mut self, dest: Handle, x: Handle, y: Handle) {
        let (x_negative, x_digits) = self.number_of(x);
        let (y_negative, y_digits) = self.number_of(y);
        let (digits, _) = div_rem_digits(x_digits, y_digits);
        let x_zero = leading_zeros(x_digits) == x_digits.len();
        proof {
            crate::magnitude::lemma_zero_digits(x_digits@);
        }
        let negative = !x_zero && x_negative != y_negative;
        self.replace(dest, Slot::Number { negative, digits });
    }

    fn bi_t_mod(&mut self, dest: Handle, x: Handle, y: Handle) {
        let (x_negative, x_digits) = self.number_of(x);
        let (_, y_digits) = self.number_of(y);
        let (_, digits) = div_rem_digits(x_digits, y_digits);
        let x_zero = leading_zeros(x_digits) == x_digits.len();
        proof {
            crate::magnitude::lemma_zero_digits(x_digits@);
        }
        let negative = !x_zero && x_negative;
        self.replace(dest, Slot::Number { negative, digits });
    }

    fn bi_neg(&mut self, dest: Handle, x: Handle) {
        let (negative, x_digits) = self.number_of(x);
        let digits = slice_to_vec(x_digits.as_slice());
        self.replace(dest, Slot::Number { negative: !negative, digits });
    }

    fn bi_abs(&mut self, dest: Handle, x: Handle) {
        let (_, x_digits) = self.number_of(x);
        let digits = slice_to_vec(x_digits.as_slice());
        self.replace(dest, Slot::Number { negative: false, digits });
    }

    fn bi_bitwise(&mut self, op: BitOp, dest: Handle, x: Handle, y: Handle) {
        let (_, x_digits) = self.number_of(x);
        let (_, y_digits) = self.number_of(y);
        let digits = bitwise_digits(op, x_digits, y_digits);
        self.replace(dest, Slot::Number { negative: false, digits });
    }

    fn bi_shl(&mut self, dest: Handle, x: Handle, bits: usize) {
        let (_, x_digits) = self.number_of(x);
        let digits = shl_digits(x_digits, bits);
        self.replace(dest, Slot::Number { negative: false, digits });
    }

    fn bi_shr(&mut self, dest: Handle, x: Handle, bits: usize) {
        let (_, x_digits) = self.number_of(x);
        let digits = shr_digits(x_digits, bits);
        self.replace(dest, Slot::Number { negative: false, digits });
    }
}

} // verus!
