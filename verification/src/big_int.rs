//! A signed integer of any size that lives in the registry.
use vstd::prelude::*;
use crate::api::{
    allocated, compare_ints, holds_int, int_at, Comparison, Handle, ManagedTypeApi, ManagedValue,
    Store,
};

verus! {

/// A signed integer managed by the registry: the value holds the handle, the
/// registry holds the number and computes on it.
#[derive(Debug)]
pub struct BigInt {
    handle: Handle,
}

/// The name under which the type is known where managed and local types
/// meet.
pub type ManagedBigInt = BigInt;

impl BigInt {
    /// The handle that the number holds.
    pub closed spec fn raw_handle(&self) -> Handle {
        self.handle
    }

    /// The handle is live in `store` and refers to an integer.
    pub open spec fn valid(&self, store: Store) -> bool {
        holds_int(store, self.raw_handle())
    }

    /// The number in `store`.
    pub open spec fn value(&self, store: Store) -> int {
        int_at(store, self.raw_handle())
    }

    /// How the number stands to `other`.
    pub open spec fn compare(&self, store: Store, other: &BigInt) -> Comparison {
        compare_ints(self.value(store), other.value(store))
    }

    /// The integer that `bytes` denotes in two's complement, most
    /// significant byte first.
    pub fn from_signed_bytes_be<M: ManagedTypeApi>(api: &mut M, bytes: &[u8]) -> (number: Self)
        ensures
            allocated(
                old(api)@,
                number.raw_handle(),
                ManagedValue::Int(crate::magnitude::signed_value_of(bytes@)),
                final(api)@,
            ),
    {
        let handle = api.bi_new(0);
        api.bi_set_signed_bytes(handle, bytes);
        assert(api@ =~= old(api)@.insert(
            handle,
            ManagedValue::Int(crate::magnitude::signed_value_of(bytes@)),
        ));
        BigInt { handle }
    }

    /// A number for a handle that the registry issued earlier. The result
    /// shares the handle with every other number made for it.
    pub fn new_from_raw_handle(handle: Handle) -> (number: Self)
        ensures
            number.raw_handle() == handle,
    {
        BigInt { handle }
    }

    pub fn get_raw_handle(&self) -> (handle: Handle)
        ensures
            handle == self.raw_handle(),
    {
        self.handle
    }

    /// A number of its own with the same value, behind a new handle.
    pub fn clone<M: ManagedTypeApi>(&self, api: &mut M) -> (copy: Self)
        requires
            self.valid(old(api)@),
        ensures
            allocated(
                old(api)@,
                copy.raw_handle(),
                ManagedValue::Int(self.value(old(api)@)),
                final(api)@,
            ),
    {
        let handle = api.bi_new(0);
        api.bi_add(handle, self.handle, handle);
        assert(api@ =~= old(api)@.insert(handle, ManagedValue::Int(self.value(old(api)@))));
        BigInt { handle }
    }

    /// Equality by value, decided by the registry.
    pub fn eq<M: ManagedTypeApi>(&self, api: &M, other: &Self) -> (equal: bool)
        requires
            self.valid(api@),
            other.valid(api@),
        ensures
            equal == (self.value(api@) == other.value(api@)),
    {
        match api.bi_compare(self.handle, other.handle) {
            Comparison::Equal => true,
            _ => false,
        }
    }

    /// How the number stands to `other`, decided by the registry.
    pub fn compare_to<M: ManagedTypeApi>(&self, api: &M, other: &Self) -> (result: Comparison)
        requires
            self.valid(api@),
            other.valid(api@),
        ensures
            result == self.compare(api@, other),
    {
        api.bi_compare(self.handle, other.handle)
    }
}

} // verus!
