//! Equality and order of managed unsigned integers, among themselves and
//! against native integers.
use core::cmp::Ordering;
use vstd::prelude::*;
use crate::api::{allocated, extends, Comparison, Handle, ManagedTypeApi, Sign, Store};
use crate::big_uint::{
    native_entry, signed_of_u64, unsigned_entry, wide_i32, wide_u32, widen_i32, widen_u32, BigUint,
};
use crate::magnitude::{be_bytes, compare_magnitudes};

verus! {

/// The standard ordering that says what `comparison` says.
pub open spec fn ordering_of(comparison: Comparison) -> Ordering {
    match comparison {
        Comparison::Less => Ordering::Less,
        Comparison::Equal => Ordering::Equal,
        Comparison::Greater => Ordering::Greater,
    }
}

fn to_ordering(comparison: Comparison) -> (ordering: Ordering)
    ensures
        ordering == ordering_of(comparison),
{
    match comparison {
        Comparison::Less => Ordering::Less,
        Comparison::Equal => Ordering::Equal,
        Comparison::Greater => Ordering::Greater,
    }
}

/// What a comparison against a native integer leaves in the registry:
/// nothing for zero, one new handle that holds the integer otherwise.
pub open spec fn native_operand_left(before: Store, other: i64, after: Store) -> bool {
    if other == 0 {
        after == before
    } else {
        exists|h: Handle| allocated(before, h, native_entry(other), after)
    }
}

/// What a comparison against an unsigned native integer leaves in the
/// registry: nothing for zero, one new handle that holds the integer
/// otherwise.
pub open spec fn unsigned_operand_left(before: Store, other: u64, after: Store) -> bool {
    if other == 0 {
        after == before
    } else {
        exists|h: Handle| allocated(before, h, unsigned_entry(other), after)
    }
}

impl BigUint {
    /// Equality by value, decided by the registry: no byte of either number
    /// is copied out.
    pub fn eq<M: ManagedTypeApi>(&self, api: &M, other: &Self) -> (equal: bool)
        requires
            self.valid(api@),
            other.valid(api@),
        ensures
            equal == (self.value(api@) == other.value(api@)),
    {
        match api.bi_compare(self.get_raw_handle(), other.get_raw_handle()) {
            Comparison::Equal => true,
            _ => false,
        }
    }

    /// The order is total: the result is never `None`.
    pub fn partial_cmp<M: ManagedTypeApi>(&self, api: &M, other: &Self) -> (result: Option<
        Ordering,
    >)
        requires
            self.valid(api@),
            other.valid(api@),
        ensures
            result == Some(ordering_of(self.compare(api@, other))),
    {
        Some(self.cmp(api, other))
    }

    /// Order by value, decided by the registry.
    pub fn cmp<M: ManagedTypeApi>(&self, api: &M, other: &Self) -> (result: Ordering)
        requires
            self.valid(api@),
            other.valid(api@),
        ensures
            result == ordering_of(self.compare(api@, other)),
    {
        to_ordering(api.bi_compare(self.get_raw_handle(), other.get_raw_handle()))
    }

    pub fn eq_i32<M: ManagedTypeApi>(&self, api: &mut M, other: &i32) -> (equal: bool)
        requires
            self.valid(old(api)@),
        ensures
            equal == (self.value(old(api)@) == *other),
            native_operand_left(old(api)@, wide_i32(*other), final(api)@),
    {
        match cmp_i64(api, self, widen_i32(*other)) {
            Ordering::Equal => true,
            _ => false,
        }
    }

    pub fn partial_cmp_i32<M: ManagedTypeApi>(&self, api: &mut M, other: &i32) -> (result:
        Option<Ordering>)
        requires
            self.valid(old(api)@),
        ensures
            result == Some(ordering_of(self.compare_native(old(api)@, wide_i32(*other)))),
            native_operand_left(old(api)@, wide_i32(*other), final(api)@),
    {
        Some(cmp_i64(api, self, widen_i32(*other)))
    }

    pub fn eq_i64<M: ManagedTypeApi>(&self, api: &mut M, other: &i64) -> (equal: bool)
        requires
            self.valid(old(api)@),
        ensures
            equal == (self.compare_native(old(api)@, *other) == Comparison::Equal),
            equal == (self.value(old(api)@) == *other),
            native_operand_left(old(api)@, *other, final(api)@),
    {
        match cmp_i64(api, self, *other) {
            Ordering::Equal => true,
            _ => false,
        }
    }

    pub fn partial_cmp_i64<M: ManagedTypeApi>(&self, api: &mut M, other: &i64) -> (result:
        Option<Ordering>)
        requires
            self.valid(old(api)@),
        ensures
            result == Some(ordering_of(self.compare_native(old(api)@, *other))),
            native_operand_left(old(api)@, *other, final(api)@),
    {
        Some(cmp_i64(api, self, *other))
    }

    pub fn eq_u32<M: ManagedTypeApi>(&self, api: &mut M, other: &u32) -> (equal: bool)
        requires
            self.valid(old(api)@),
        ensures
            equal == (self.value(old(api)@) == *other),
            native_operand_left(old(api)@, wide_u32(*other), final(api)@),
    {
        match cmp_i64(api, self, widen_u32(*other)) {
            Ordering::Equal => true,
            _ => false,
        }
    }

    pub fn partial_cmp_u32<M: ManagedTypeApi>(&self, api: &mut M, other: &u32) -> (result:
        Option<Ordering>)
        requires
            self.valid(old(api)@),
        ensures
            result == Some(ordering_of(self.compare_native(old(api)@, wide_u32(*other)))),
            native_operand_left(old(api)@, wide_u32(*other), final(api)@),
    {
        Some(cmp_i64(api, self, widen_u32(*other)))
    }

    pub fn eq_u64<M: ManagedTypeApi>(&self, api: &mut M, other: &u64) -> (equal: bool)
        requires
            self.valid(old(api)@),
        ensures
            equal == (self.value(old(api)@) == *other),
            unsigned_operand_left(old(api)@, *other, final(api)@),
    {
        match cmp_u64(api, self, *other) {
            Ordering::Equal => true,
            _ => false,
        }
    }

    pub fn partial_cmp_u64<M: ManagedTypeApi>(&self, api: &mut M, other: &u64) -> (result:
        Option<Ordering>)
        requires
            self.valid(old(api)@),
        ensures
            result == Some(ordering_of(self.compare_unsigned(old(api)@, *other))),
            unsigned_operand_left(old(api)@, *other, final(api)@),
    {
        Some(cmp_u64(api, self, *other))
    }
}

/// How `bi` stands to the native integer `other`.
///
/// Against zero the registry is asked for the sign alone and nothing is
/// allocated. Against any other integer one handle is issued to hold it, and
/// the registry compares handle with handle.
pub fn cmp_i64<M: ManagedTypeApi>(api: &mut M, bi: &BigUint, other: i64) -> (result: Ordering)
    requires
        bi.valid(old(api)@),
    ensures
        result == ordering_of(bi.compare_native(old(api)@, other)),
        native_operand_left(old(api)@, other, final(api)@),
        extends(old(api)@, final(api)@),
{
    if other == 0 {
        match api.bi_sign(bi.get_raw_handle()) {
            Sign::Plus => Ordering::Greater,
            Sign::NoSign => Ordering::Equal,
            Sign::Minus => Ordering::Less,
        }
    } else {
        let handle = api.bi_new(other);
        assert(allocated(old(api)@, handle, native_entry(other), api@));
        to_ordering(api.bi_compare(bi.get_raw_handle(), handle))
    }
}

/// How `bi` stands to the unsigned native integer `other`, by the same two
/// ways as [`cmp_i64`].
pub fn cmp_u64<M: ManagedTypeApi>(api: &mut M, bi: &BigUint, other: u64) -> (result: Ordering)
    requires
        bi.valid(old(api)@),
    ensures
        result == ordering_of(bi.compare_unsigned(old(api)@, other)),
        unsigned_operand_left(old(api)@, other, final(api)@),
        extends(old(api)@, final(api)@),
{
    match signed_of_u64(other) {
        Some(signed) => {
            let result = cmp_i64(api, bi, signed);
            proof {
                if other != 0 {
                    let h = choose|h: Handle| allocated(old(api)@, h, native_entry(signed), api@);
                    assert(allocated(old(api)@, h, unsigned_entry(other), api@));
                }
            }
            result
        },
        None => {
            let operand = BigUint::from_u64(api, other);
            assert(allocated(
                old(api)@,
                operand.raw_handle(),
                unsigned_entry(other),
                api@,
            ));
            to_ordering(api.bi_compare(bi.get_raw_handle(), operand.get_raw_handle()))
        },
    }
}

/// Comparison consistency: of two numbers exactly one of less, equal and
/// greater holds, and it is what comparing their shortest big-endian forms
/// as magnitudes gives.
pub proof fn lemma_comparison_consistency(a: BigUint, b: BigUint, store: Store)
    requires
        a.valid(store),
        b.valid(store),
    ensures
        a.compare(store, &b) == compare_magnitudes(
            be_bytes(a.value(store)),
            be_bytes(b.value(store)),
        ),
        a.compare(store, &b) == Comparison::Less <==> a.value(store) < b.value(store),
        a.compare(store, &b) == Comparison::Equal <==> a.value(store) == b.value(store),
        a.compare(store, &b) == Comparison::Greater <==> a.value(store) > b.value(store),
{
    crate::magnitude::lemma_be_bytes_minimal(a.value(store));
    crate::magnitude::lemma_be_bytes_minimal(b.value(store));
    crate::magnitude::lemma_be_bytes_value(a.value(store));
    crate::magnitude::lemma_be_bytes_value(b.value(store));
    crate::magnitude::lemma_compare_magnitudes(be_bytes(a.value(store)), be_bytes(b.value(store)));
}

/// Zero by either way: a number equals the native zero exactly when its sign
/// is `NoSign`.
pub proof fn lemma_zero_comparison(a: BigUint, store: Store)
    requires
        a.valid(store),
    ensures
        a.compare_native(store, 0) == Comparison::Equal <==> a.sign_in(store) == Sign::NoSign,
{
}

} // verus!
