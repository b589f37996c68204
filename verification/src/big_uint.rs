//! An unsigned integer of any size that lives in the registry.
use vstd::prelude::*;
use crate::api::{
    allocated, compare_ints, holds_int, int_at, Comparison, Handle, ManagedTypeApi, ManagedValue,
    Sign, Store,
};
use crate::magnitude::be_value;

verus! {

/// An unsigned integer managed by the registry: the value holds the handle,
/// the registry holds the number and computes on it.
#[derive(Debug)]
pub struct BigUint {
    handle: Handle,
}

/// The name under which the type is known where managed and local types
/// meet.
pub type ManagedBigUint = BigUint;

/// The store entry for a native integer.
pub open spec fn native_entry(value: i64) -> ManagedValue {
    ManagedValue::Int(value as int)
}

/// The store entry for a natural number.
pub open spec fn natural_entry(value: nat) -> ManagedValue {
    ManagedValue::Int(value as int)
}

/// The store entry for an unsigned native integer.
pub open spec fn unsigned_entry(value: u64) -> ManagedValue {
    ManagedValue::Int(value as int)
}

/// `value` as a signed integer, where it is one.
pub(crate) fn signed_of_u64(value: u64) -> (result: Option<i64>)
    ensures
        result is Some <==> value <= i64::MAX,
        result matches Some(signed) ==> signed == value,
{
    if value <= i64::MAX as u64 {
        Some(value as i64)
    } else {
        None
    }
}

/// `value` in the width of the registry's native integers.
pub open spec fn wide_u32(value: u32) -> i64 {
    value as i64
}

/// `value` in the width of the registry's native integers.
pub open spec fn wide_i32(value: i32) -> i64 {
    value as i64
}

/// `value` in the width of the registry's native integers.
pub(crate) fn widen_u32(value: u32) -> (wide: i64)
    ensures
        wide == wide_u32(value),
{
    value as i64
}

/// `value` in the width of the registry's native integers.
pub(crate) fn widen_i32(value: i32) -> (wide: i64)
    ensures
        wide == wide_i32(value),
{
    value as i64
}

impl BigUint {
    /// The handle that the number holds.
    pub closed spec fn raw_handle(&self) -> Handle {
        self.handle
    }

    /// The handle is live in `store` and refers to an integer that is not
    /// negative.
    pub open spec fn valid(&self, store: Store) -> bool {
        holds_int(store, self.raw_handle()) && int_at(store, self.raw_handle()) >= 0
    }

    /// The number in `store`.
    pub open spec fn value(&self, store: Store) -> nat {
        int_at(store, self.raw_handle()) as nat
    }

    /// The number's sign in `store`.
    pub open spec fn sign_in(&self, store: Store) -> Sign {
        crate::api::sign_of(self.value(store) as int)
    }

    /// `after` is `before` with a new handle, this number's, for `value`.
    pub open spec fn created(&self, before: Store, value: nat, after: Store) -> bool {
        allocated(before, self.raw_handle(), natural_entry(value), after)
    }

    /// How the number stands to `other`.
    pub open spec fn compare(&self, store: Store, other: &BigUint) -> Comparison {
        compare_ints(self.value(store) as int, other.value(store) as int)
    }

    /// How the number stands to a native integer.
    pub open spec fn compare_native(&self, store: Store, other: i64) -> Comparison {
        compare_ints(self.value(store) as int, other as int)
    }

    /// How the number stands to an unsigned native integer.
    pub open spec fn compare_unsigned(&self, store: Store, other: u64) -> Comparison {
        compare_ints(self.value(store) as int, other as int)
    }

    pub fn zero<M: ManagedTypeApi>(api: &mut M) -> (number: Self)
        ensures
            number.created(old(api)@, 0, final(api)@),
    {
        BigUint { handle: api.bi_new(0) }
    }

    pub fn from_u64<M: ManagedTypeApi>(api: &mut M, value: u64) -> (number: Self)
        ensures
            number.created(old(api)@, value as nat, final(api)@),
    {
        let bytes = crate::magnitude::fixed_be_bytes(value, 8);
        let handle = api.bi_new(0);
        api.bi_set_unsigned_bytes(handle, bytes.as_slice());
        proof {
            crate::magnitude::lemma_pow256_widths();
            crate::magnitude::lemma_be_fixed_value(value as nat, 8);
            assert(api@ =~= old(api)@.insert(handle, natural_entry(value as nat)));
        }
        BigUint { handle }
    }

    pub fn from_u32<M: ManagedTypeApi>(api: &mut M, value: u32) -> (number: Self)
        ensures
            number.created(old(api)@, value as nat, final(api)@),
    {
        BigUint { handle: api.bi_new(value as i64) }
    }

    /// The number that `bytes` denotes, most significant byte first.
    pub fn from_bytes_be<M: ManagedTypeApi>(api: &mut M, bytes: &[u8]) -> (number: Self)
        ensures
            number.created(old(api)@, be_value(bytes@), final(api)@),
    {
        let handle = api.bi_new(0);
        api.bi_set_unsigned_bytes(handle, bytes);
        proof {
            assert(api@ =~= old(api)@.insert(handle, natural_entry(be_value(bytes@))));
        }
        BigUint { handle }
    }

    /// A number for a handle that the registry issued earlier. The result
    /// shares the handle with every other number made for it.
    pub fn new_from_raw_handle(handle: Handle) -> (number: Self)
        ensures
            number.raw_handle() == handle,
    {
        BigUint { handle }
    }

    pub fn get_raw_handle(&self) -> (handle: Handle)
        ensures
            handle == self.raw_handle(),
    {
        self.handle
    }

    /// A number of its own with the same value, behind a new handle.
    pub fn clone<M: ManagedTypeApi>(&self, api: &mut M) -> (copy: Self)
        requires
            self.valid(old(api)@),
        ensures
            copy.created(old(api)@, self.value(old(api)@), final(api)@),
    {
        let bytes = api.bi_get_unsigned_bytes(self.handle);
        let handle = api.bi_new(0);
        api.bi_set_unsigned_bytes(handle, bytes.as_slice());
        proof {
            crate::magnitude::lemma_be_bytes_value(self.value(old(api)@));
            assert(api@ =~= old(api)@.insert(handle, natural_entry(self.value(old(api)@))));
        }
        BigUint { handle }
    }

    /// The sign: `NoSign` for zero, `Plus` otherwise.
    pub fn sign<M: ManagedTypeApi>(&self, api: &M) -> (sign: Sign)
        requires
            self.valid(api@),
        ensures
            sign == self.sign_in(api@),
            sign != Sign::Minus,
    {
        api.bi_sign(self.handle)
    }
}

} // verus!
