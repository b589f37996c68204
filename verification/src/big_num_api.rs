//! What the library asks of a big-number type: every operation it needs, by
//! name. The managed numbers meet it by handing each operation to the
//! registry.
use vstd::prelude::*;
use crate::api::{
    allocated, holds_int, int_at, int_stored, magnitude_of, sign_of, trunc_div, trunc_rem, Handle,
    ManagedTypeApi, ManagedValue, Sign, Store,
};
use crate::big_int::BigInt;
use crate::big_uint::{natural_entry, BigUint};
use crate::magnitude::{be_bytes, be_fixed, bitwise, pow2, signed_be_bytes, zeros, BitOp};

verus! {

/// `handle` is live and refers to an integer that is not negative.
pub open spec fn holds_natural(store: Store, handle: Handle) -> bool {
    holds_int(store, handle) && int_at(store, handle) >= 0
}

/// The natural number behind `handle`.
pub open spec fn natural_at(store: Store, handle: Handle) -> nat {
    int_at(store, handle) as nat
}

/// An operation on two unsigned numbers.
#[derive(Clone, Copy, Debug, PartialEq, Eq, Structural)]
pub enum BinaryOp {
    Add,
    Sub,
    Mul,
    Div,
    Rem,
    BitAnd,
    BitOr,
    BitXor,
}

/// What the operation gives for `a` and `b`.
pub open spec fn binary_value(op: BinaryOp, a: nat, b: nat) -> nat {
    match op {
        BinaryOp::Add => a + b,
        BinaryOp::Sub => (a - b) as nat,
        BinaryOp::Mul => a * b,
        BinaryOp::Div => a / b,
        BinaryOp::Rem => a % b,
        BinaryOp::BitAnd => bitwise(BitOp::And, a, b),
        BinaryOp::BitOr => bitwise(BitOp::Or, a, b),
        BinaryOp::BitXor => bitwise(BitOp::Xor, a, b),
    }
}

/// The operation has a result for `a` and `b`: a difference is not negative,
/// a divisor is not zero.
pub open spec fn binary_defined(op: BinaryOp, a: nat, b: nat) -> bool {
    match op {
        BinaryOp::Sub => a >= b,
        BinaryOp::Div | BinaryOp::Rem => b != 0,
        _ => true,
    }
}

/// What the operation gives for the numbers behind `x` and `y`.
pub open spec fn applied(op: BinaryOp, store: Store, x: Handle, y: Handle) -> nat {
    binary_value(op, natural_at(store, x), natural_at(store, y))
}

/// The operation has a result for the numbers behind `x` and `y`.
pub open spec fn defined(op: BinaryOp, store: Store, x: Handle, y: Handle) -> bool {
    binary_defined(op, natural_at(store, x), natural_at(store, y))
}

/// Of two natural numbers, the division that rounds towards zero is the
/// division that rounds down.
pub proof fn lemma_trunc_natural(a: nat, b: nat)
    requires
        b != 0,
    ensures
        trunc_div(a as int, b as int) == a / b,
        trunc_rem(a as int, b as int) == a % b,
{
}

/// An unsigned number of any size, with every operation the library needs as
/// a method. A binary operation gives its result a new handle; its
/// `_assign` form puts the result behind the handle of the left operand.
pub trait BigUintApi: Sized {
    /// The handle behind which the number lives.
    spec fn handle(&self) -> Handle;

    /// The number `value`, behind a new handle. A negative `value` has no
    /// unsigned number.
    fn from_i64<M: ManagedTypeApi>(api: &mut M, value: i64) -> (result: Self)
        requires
            value >= 0,
        ensures
            allocated(old(api)@, result.handle(), natural_entry(value as nat), final(api)@),
    ;

    fn from_i32<M: ManagedTypeApi>(api: &mut M, value: i32) -> (result: Self)
        requires
            value >= 0,
        ensures
            allocated(old(api)@, result.handle(), natural_entry(value as nat), final(api)@),
    ;

    /// The sum.
    fn add<M: ManagedTypeApi>(&self, api: &mut M, other: &Self) -> (result: Self)
        requires
            holds_natural(old(api)@, self.handle()),
            holds_natural(old(api)@, other.handle()),
            defined(BinaryOp::Add, old(api)@, self.handle(), other.handle()),
        ensures
            allocated(
                old(api)@,
                result.handle(),
                natural_entry(applied(BinaryOp::Add, old(api)@, self.handle(), other.handle())),
                final(api)@,
            ),
    ;

    /// The same, with the result in the place of the number.
    fn add_assign<M: ManagedTypeApi>(&mut self, api: &mut M, other: &Self)
        requires
            holds_natural(old(api)@, old(self).handle()),
            holds_natural(old(api)@, other.handle()),
            defined(BinaryOp::Add, old(api)@, old(self).handle(), other.handle()),
        ensures
            final(self).handle() == old(self).handle(),
            int_stored(
                old(api)@,
                old(self).handle(),
                applied(BinaryOp::Add, old(api)@, old(self).handle(), other.handle()) as int,
                final(api)@,
            ),
    ;

    /// The difference, where the number is not smaller than `other`: an unsigned number cannot go below zero.
    fn sub<M: ManagedTypeApi>(&self, api: &mut M, other: &Self) -> (result: Self)
        requires
            holds_natural(old(api)@, self.handle()),
            holds_natural(old(api)@, other.handle()),
            defined(BinaryOp::Sub, old(api)@, self.handle(), other.handle()),
        ensures
            allocated(
                old(api)@,
                result.handle(),
                natural_entry(applied(BinaryOp::Sub, old(api)@, self.handle(), other.handle())),
                final(api)@,
            ),
    ;

    /// The same, with the result in the place of the number.
    fn sub_assign<M: ManagedTypeApi>(&mut self, api: &mut M, other: &Self)
        requires
            holds_natural(old(api)@, old(self).handle()),
            holds_natural(old(api)@, other.handle()),
            defined(BinaryOp::Sub, old(api)@, old(self).handle(), other.handle()),
        ensures
            final(self).handle() == old(self).handle(),
            int_stored(
                old(api)@,
                old(self).handle(),
                applied(BinaryOp::Sub, old(api)@, old(self).handle(), other.handle()) as int,
                final(api)@,
            ),
    ;

    /// The product.
    fn mul<M: ManagedTypeApi>(&self, api: &mut M, other: &Self) -> (result: Self)
        requires
            holds_natural(old(api)@, self.handle()),
            holds_natural(old(api)@, other.handle()),
            defined(BinaryOp::Mul, old(api)@, self.handle(), other.handle()),
        ensures
            allocated(
                old(api)@,
                result.handle(),
                natural_entry(applied(BinaryOp::Mul, old(api)@, self.handle(), other.handle())),
                final(api)@,
            ),
    ;

    /// The same, with the result in the place of the number.
    fn mul_assign<M: ManagedTypeApi>(&mut self, api: &mut M, other: &Self)
        requires
            holds_natural(old(api)@, old(self).handle()),
            holds_natural(old(api)@, other.handle()),
            defined(BinaryOp::Mul, old(api)@, old(self).handle(), other.handle()),
        ensures
            final(self).handle() == old(self).handle(),
            int_stored(
                old(api)@,
                old(self).handle(),
                applied(BinaryOp::Mul, old(api)@, old(self).handle(), other.handle()) as int,
                final(api)@,
            ),
    ;

    /// The quotient, rounded down. The divisor is not zero.
    fn div<M: ManagedTypeApi>(&self, api: &mut M, other: &Self) -> (result: Self)
        requires
            holds_natural(old(api)@, self.handle()),
            holds_natural(old(api)@, other.handle()),
            defined(BinaryOp::Div, old(api)@, self.handle(), other.handle()),
        ensures
            allocated(
                old(api)@,
                result.handle(),
                natural_entry(applied(BinaryOp::Div, old(api)@, self.handle(), other.handle())),
                final(api)@,
            ),
    ;

    /// The same, with the result in the place of the number.
    fn div_assign<M: ManagedTypeApi>(&mut self, api: &mut M, other: &Self)
        requires
            holds_natural(old(api)@, old(self).handle()),
            holds_natural(old(api)@, other.handle()),
            defined(BinaryOp::Div, old(api)@, old(self).handle(), other.handle()),
        ensures
            final(self).handle() == old(self).handle(),
            int_stored(
                old(api)@,
                old(self).handle(),
                applied(BinaryOp::Div, old(api)@, old(self).handle(), other.handle()) as int,
                final(api)@,
            ),
    ;

    /// The remainder. The divisor is not zero.
    fn rem<M: ManagedTypeApi>(&self, api: &mut M, other: &Self) -> (result: Self)
        requires
            holds_natural(old(api)@, self.handle()),
            holds_natural(old(api)@, other.handle()),
            defined(BinaryOp::Rem, old(api)@, self.handle(), other.handle()),
        ensures
            allocated(
                old(api)@,
                result.handle(),
                natural_entry(applied(BinaryOp::Rem, old(api)@, self.handle(), other.handle())),
                final(api)@,
            ),
    ;

    /// The same, with the result in the place of the number.
    fn rem_assign<M: ManagedTypeApi>(&mut self, api: &mut M, other: &Self)
        requires
            holds_natural(old(api)@, old(self).handle()),
            holds_natural(old(api)@, other.handle()),
            defined(BinaryOp::Rem, old(api)@, old(self).handle(), other.handle()),
        ensures
            final(self).handle() == old(self).handle(),
            int_stored(
                old(api)@,
                old(self).handle(),
                applied(BinaryOp::Rem, old(api)@, old(self).handle(), other.handle()) as int,
                final(api)@,
            ),
    ;

    /// The bits set in both.
    fn bitand<M: ManagedTypeApi>(&self, api: &mut M, other: &Self) -> (result: Self)
        requires
            holds_natural(old(api)@, self.handle()),
            holds_natural(old(api)@, other.handle()),
            defined(BinaryOp::BitAnd, old(api)@, self.handle(), other.handle()),
        ensures
            allocated(
                old(api)@,
                result.handle(),
                natural_entry(applied(BinaryOp::BitAnd, old(api)@, self.handle(), other.handle())),
                final(api)@,
            ),
    ;

    /// The same, with the result in the place of the number.
    fn bitand_assign<M: ManagedTypeApi>(&mut self, api: &mut M, other: &Self)
        requires
            holds_natural(old(api)@, old(self).handle()),
            holds_natural(old(api)@, other.handle()),
            defined(BinaryOp::BitAnd, old(api)@, old(self).handle(), other.handle()),
        ensures
            final(self).handle() == old(self).handle(),
            int_stored(
                old(api)@,
                old(self).handle(),
                applied(BinaryOp::BitAnd, old(api)@, old(self).handle(), other.handle()) as int,
                final(api)@,
            ),
    ;

    /// The bits set in either.
    fn bitor<M: ManagedTypeApi>(&self, api: &mut M, other: &Self) -> (result: Self)
        requires
            holds_natural(old(api)@, self.handle()),
            holds_natural(old(api)@, other.handle()),
            defined(BinaryOp::BitOr, old(api)@, self.handle(), other.handle()),
        ensures
            allocated(
                old(api)@,
                result.handle(),
                natural_entry(applied(BinaryOp::BitOr, old(api)@, self.handle(), other.handle())),
                final(api)@,
            ),
    ;

    /// The same, with the result in the place of the number.
    fn bitor_assign<M: ManagedTypeApi>(&mut self, api: &mut M, other: &Self)
        requires
            holds_natural(old(api)@, old(self).handle()),
            holds_natural(old(api)@, other.handle()),
            defined(BinaryOp::BitOr, old(api)@, old(self).handle(), other.handle()),
        ensures
            final(self).handle() == old(self).handle(),
            int_stored(
                old(api)@,
                old(self).handle(),
                applied(BinaryOp::BitOr, old(api)@, old(self).handle(), other.handle()) as int,
                final(api)@,
            ),
    ;

    /// The bits set in one of the two.
    fn bitxor<M: ManagedTypeApi>(&self, api: &mut M, other: &Self) -> (result: Self)
        requires
            holds_natural(old(api)@, self.handle()),
            holds_natural(old(api)@, other.handle()),
            defined(BinaryOp::BitXor, old(api)@, self.handle(), other.handle()),
        ensures
            allocated(
                old(api)@,
                result.handle(),
                natural_entry(applied(BinaryOp::BitXor, old(api)@, self.handle(), other.handle())),
                final(api)@,
            ),
    ;

    /// The same, with the result in the place of the number.
    fn bitxor_assign<M: ManagedTypeApi>(&mut self, api: &mut M, other: &Self)
        requires
            holds_natural(old(api)@, old(self).handle()),
            holds_natural(old(api)@, other.handle()),
            defined(BinaryOp::BitXor, old(api)@, old(self).handle(), other.handle()),
        ensures
            final(self).handle() == old(self).handle(),
            int_stored(
                old(api)@,
                old(self).handle(),
                applied(BinaryOp::BitXor, old(api)@, old(self).handle(), other.handle()) as int,
                final(api)@,
            ),
    ;
    /// The number times two to the power `bits`.
    fn shl<M: ManagedTypeApi>(&self, api: &mut M, bits: usize) -> (result: Self)
        requires
            holds_natural(old(api)@, self.handle()),
        ensures
            allocated(
                old(api)@,
                result.handle(),
                natural_entry(natural_at(old(api)@, self.handle()) * pow2(bits as nat)),
                final(api)@,
            ),
    ;

    fn shl_assign<M: ManagedTypeApi>(&mut self, api: &mut M, bits: usize)
        requires
            holds_natural(old(api)@, old(self).handle()),
        ensures
            final(self).handle() == old(self).handle(),
            int_stored(
                old(api)@,
                old(self).handle(),
                (natural_at(old(api)@, old(self).handle()) * pow2(bits as nat)) as int,
                final(api)@,
            ),
    ;

    /// The number divided by two to the power `bits`, rounded down.
    fn shr<M: ManagedTypeApi>(&self, api: &mut M, bits: usize) -> (result: Self)
        requires
            holds_natural(old(api)@, self.handle()),
        ensures
            allocated(
                old(api)@,
                result.handle(),
                natural_entry(natural_at(old(api)@, self.handle()) / pow2(bits as nat)),
                final(api)@,
            ),
    ;

    fn shr_assign<M: ManagedTypeApi>(&mut self, api: &mut M, bits: usize)
        requires
            holds_natural(old(api)@, old(self).handle()),
        ensures
            final(self).handle() == old(self).handle(),
            int_stored(
                old(api)@,
                old(self).handle(),
                (natural_at(old(api)@, old(self).handle()) / pow2(bits as nat)) as int,
                final(api)@,
            ),
    ;

    /// The length of the shortest big-endian form.
    fn byte_length<M: ManagedTypeApi>(&self, api: &M) -> (len: usize)
        requires
            holds_natural(api@, self.handle()),
        ensures
            len == be_bytes(natural_at(api@, self.handle())).len(),
    ;

    /// Writes the shortest big-endian form to the front of `slice` and
    /// returns its length. The rest of `slice` is left as it was.
    fn copy_to_slice_big_endian<M: ManagedTypeApi>(&self, api: &M, slice: &mut [u8]) -> (len:
        usize)
        requires
            holds_natural(api@, self.handle()),
            be_bytes(natural_at(api@, self.handle())).len() <= old(slice)@.len(),
        ensures
            len == be_bytes(natural_at(api@, self.handle())).len(),
            final(slice)@ == be_bytes(natural_at(api@, self.handle())) + old(slice)@.skip(
                len as int,
            ),
    ;

    /// The fixed-width export: the number in 32 bytes, most significant byte
    /// first, with zero bytes in front.
    ///
    /// A number that needs more than 32 bytes has no such form and is outside
    /// the function's domain.
    fn copy_to_array_big_endian_pad_right<M: ManagedTypeApi>(&self, api: &M, target: &mut [u8; 32])
        requires
            holds_natural(api@, self.handle()),
            be_bytes(natural_at(api@, self.handle())).len() <= 32,
        ensures
            final(target)@ == be_fixed(natural_at(api@, self.handle()), 32),
            final(target)@ == zeros((32 - be_bytes(natural_at(api@, self.handle())).len()) as nat)
                + be_bytes(natural_at(api@, self.handle())),
    {
        let byte_len = self.byte_length(api);
        let padding = 32 - byte_len;
        let mut digits = [0u8; 32];
        let copied = self.copy_to_slice_big_endian(api, &mut digits);
        let mut i: usize = 0;
        while i < 32
            invariant
                i <= 32,
                byte_len <= 32,
                padding == 32 - byte_len,
                forall|j: int| 0 <= j < i && j < padding ==> target@[j] == 0,
                forall|j: int| padding <= j < i ==> target@[j] == digits@[j - padding],
            decreases 32 - i,
        {
            if i < padding {
                target[i] = 0;
            } else {
                target[i] = digits[i - padding];
            }
            i += 1;
        }
        proof {
            let value = natural_at(api@, self.handle());
            crate::magnitude::lemma_be_fixed_padding(value, 32);
            assert(target@ =~= zeros(padding as nat) + be_bytes(value));
        }
    }

    /// The shortest big-endian form: no zero byte in front, empty for zero.
    fn to_bytes_be<M: ManagedTypeApi>(&self, api: &M) -> (bytes: Vec<u8>)
        requires
            holds_natural(api@, self.handle()),
        ensures
            bytes@ == be_bytes(natural_at(api@, self.handle())),
    ;

    /// The big-endian form in exactly `nr_bytes` bytes, with zero bytes in
    /// front; `None` where the number needs more bytes than that.
    fn to_bytes_be_pad_right<M: ManagedTypeApi>(&self, api: &M, nr_bytes: usize) -> (result:
        Option<Vec<u8>>)
        requires
            holds_natural(api@, self.handle()),
        ensures
            result is Some <==> be_bytes(natural_at(api@, self.handle())).len() <= nr_bytes,
            result matches Some(bytes) ==> bytes@ == be_fixed(
                natural_at(api@, self.handle()),
                nr_bytes as nat,
            ),
    ;

    /// A value that only fills a place where the type is asked for: it has
    /// no number, and no operation takes it.
    fn phantom() -> Self;
}

impl BigUintApi for BigUint {
    open spec fn handle(&self) -> Handle {
        self.raw_handle()
    }

    fn from_i64<M: ManagedTypeApi>(api: &mut M, value: i64) -> (result: Self) {
        BigUint::new_from_raw_handle(api.bi_new(value))
    }

    fn from_i32<M: ManagedTypeApi>(api: &mut M, value: i32) -> (result: Self) {
        BigUint::new_from_raw_handle(api.bi_new(value as i64))
    }

    fn add<M: ManagedTypeApi>(&self, api: &mut M, other: &Self) -> (result: Self) {
        let handle = api.bi_new(0);
        api.bi_add(handle, self.get_raw_handle(), other.get_raw_handle());
        assert(api@ =~= old(api)@.insert(
            handle,
            natural_entry(applied(BinaryOp::Add, old(api)@, self.handle(), other.handle())),
        ));
        BigUint::new_from_raw_handle(handle)
    }

    fn add_assign<M: ManagedTypeApi>(&mut self, api: &mut M, other: &Self) {
        api.bi_add(self.get_raw_handle(), self.get_raw_handle(), other.get_raw_handle());
    }

    fn sub<M: ManagedTypeApi>(&self, api: &mut M, other: &Self) -> (result: Self) {
        let handle = api.bi_new(0);
        api.bi_sub(handle, self.get_raw_handle(), other.get_raw_handle());
        assert(api@ =~= old(api)@.insert(
            handle,
            natural_entry(applied(BinaryOp::Sub, old(api)@, self.handle(), other.handle())),
        ));
        BigUint::new_from_raw_handle(handle)
    }

    fn sub_assign<M: ManagedTypeApi>(&mut self, api: &mut M, other: &Self) {
        api.bi_sub(self.get_raw_handle(), self.get_raw_handle(), other.get_raw_handle());
    }

    fn mul<M: ManagedTypeApi>(&self, api: &mut M, other: &Self) -> (result: Self) {
        let handle = api.bi_new(0);
        api.bi_mul(handle, self.get_raw_handle(), other.get_raw_handle());
        assert(api@ =~= old(api)@.insert(
            handle,
            natural_entry(applied(BinaryOp::Mul, old(api)@, self.handle(), other.handle())),
        ));
        BigUint::new_from_raw_handle(handle)
    }

    fn mul_assign<M: ManagedTypeApi>(&mut self, api: &mut M, other: &Self) {
        api.bi_mul(self.get_raw_handle(), self.get_raw_handle(), other.get_raw_handle());
    }

    fn div<M: ManagedTypeApi>(&self, api: &mut M, other: &Self) -> (result: Self) {
        let handle = api.bi_new(0);
        api.bi_t_div(handle, self.get_raw_handle(), other.get_raw_handle());
        proof {
            lemma_trunc_natural(self.value(old(api)@), other.value(old(api)@));
        }
        assert(api@ =~= old(api)@.insert(
            handle,
            natural_entry(applied(BinaryOp::Div, old(api)@, self.handle(), other.handle())),
        ));
        BigUint::new_from_raw_handle(handle)
    }

    fn div_assign<M: ManagedTypeApi>(&mut self, api: &mut M, other: &Self) {
        api.bi_t_div(self.get_raw_handle(), self.get_raw_handle(), other.get_raw_handle());
        proof {
            lemma_trunc_natural(self.value(old(api)@), other.value(old(api)@));
        }
    }

    fn rem<M: ManagedTypeApi>(&self, api: &mut M, other: &Self) -> (result: Self) {
        let handle = api.bi_new(0);
        api.bi_t_mod(handle, self.get_raw_handle(), other.get_raw_handle());
        proof {
            lemma_trunc_natural(self.value(old(api)@), other.value(old(api)@));
        }
        assert(api@ =~= old(api)@.insert(
            handle,
            natural_entry(applied(BinaryOp::Rem, old(api)@, self.handle(), other.handle())),
        ));
        BigUint::new_from_raw_handle(handle)
    }

    fn rem_assign<M: ManagedTypeApi>(&mut self, api: &mut M, other: &Self) {
        api.bi_t_mod(self.get_raw_handle(), self.get_raw_handle(), other.get_raw_handle());
        proof {
            lemma_trunc_natural(self.value(old(api)@), other.value(old(api)@));
        }
    }

    fn bitand<M: ManagedTypeApi>(&self, api: &mut M, other: &Self) -> (result: Self) {
        let handle = api.bi_new(0);
        api.bi_bitwise(BitOp::And, handle, self.get_raw_handle(), other.get_raw_handle());
        assert(api@ =~= old(api)@.insert(
            handle,
            natural_entry(applied(BinaryOp::BitAnd, old(api)@, self.handle(), other.handle())),
        ));
        BigUint::new_from_raw_handle(handle)
    }

    fn bitand_assign<M: ManagedTypeApi>(&mut self, api: &mut M, other: &Self) {
        api.bi_bitwise(BitOp::And, self.get_raw_handle(), self.get_raw_handle(), other.get_raw_handle());
    }

    fn bitor<M: ManagedTypeApi>(&self, api: &mut M, other: &Self) -> (result: Self) {
        let handle = api.bi_new(0);
        api.bi_bitwise(BitOp::Or, handle, self.get_raw_handle(), other.get_raw_handle());
        assert(api@ =~= old(api)@.insert(
            handle,
            natural_entry(applied(BinaryOp::BitOr, old(api)@, self.handle(), other.handle())),
        ));
        BigUint::new_from_raw_handle(handle)
    }

    fn bitor_assign<M: ManagedTypeApi>(&mut self, api: &mut M, other: &Self) {
        api.bi_bitwise(BitOp::Or, self.get_raw_handle(), self.get_raw_handle(), other.get_raw_handle());
    }

    fn bitxor<M: ManagedTypeApi>(&self, api: &mut M, other: &Self) -> (result: Self) {
        let handle = api.bi_new(0);
        api.bi_bitwise(BitOp::Xor, handle, self.get_raw_handle(), other.get_raw_handle());
        assert(api@ =~= old(api)@.insert(
            handle,
            natural_entry(applied(BinaryOp::BitXor, old(api)@, self.handle(), other.handle())),
        ));
        BigUint::new_from_raw_handle(handle)
    }

    fn bitxor_assign<M: ManagedTypeApi>(&mut self, api: &mut M, other: &Self) {
        api.bi_bitwise(BitOp::Xor, self.get_raw_handle(), self.get_raw_handle(), other.get_raw_handle());
    }
    fn shl<M: ManagedTypeApi>(&self, api: &mut M, bits: usize) -> (result: Self) {
        let handle = api.bi_new(0);
        api.bi_shl(handle, self.get_raw_handle(), bits);
        assert(api@ =~= old(api)@.insert(
            handle,
            natural_entry(natural_at(old(api)@, self.handle()) * pow2(bits as nat)),
        ));
        BigUint::new_from_raw_handle(handle)
    }

    fn shl_assign<M: ManagedTypeApi>(&mut self, api: &mut M, bits: usize) {
        api.bi_shl(self.get_raw_handle(), self.get_raw_handle(), bits);
    }

    fn shr<M: ManagedTypeApi>(&self, api: &mut M, bits: usize) -> (result: Self) {
        let handle = api.bi_new(0);
        api.bi_shr(handle, self.get_raw_handle(), bits);
        assert(api@ =~= old(api)@.insert(
            handle,
            natural_entry(natural_at(old(api)@, self.handle()) / pow2(bits as nat)),
        ));
        BigUint::new_from_raw_handle(handle)
    }

    fn shr_assign<M: ManagedTypeApi>(&mut self, api: &mut M, bits: usize) {
        api.bi_shr(self.get_raw_handle(), self.get_raw_handle(), bits);
    }

    fn byte_length<M: ManagedTypeApi>(&self, api: &M) -> (len: usize) {
        api.bi_unsigned_byte_length(self.get_raw_handle())
    }

    fn copy_to_slice_big_endian<M: ManagedTypeApi>(&self, api: &M, slice: &mut [u8]) -> (len:
        usize) {
        let digits = api.bi_get_unsigned_bytes(self.get_raw_handle());
        let len = digits.len();
        let source = digits.as_slice();
        let mut i: usize = 0;
        while i < len
            invariant
                i <= len,
                len == source@.len(),
                len <= slice@.len(),
                slice@.len() == old(slice)@.len(),
                slice@ == source@.take(i as int) + old(slice)@.skip(i as int),
            decreases len - i,
        {
            slice[i] = source[i];
            i += 1;
            assert(slice@ =~= source@.take(i as int) + old(slice)@.skip(i as int));
        }
        assert(source@.take(len as int) =~= source@);
        len
    }

    fn to_bytes_be<M: ManagedTypeApi>(&self, api: &M) -> (bytes: Vec<u8>) {
        api.bi_get_unsigned_bytes(self.get_raw_handle()).into_vec()
    }

    fn to_bytes_be_pad_right<M: ManagedTypeApi>(&self, api: &M, nr_bytes: usize) -> (result:
        Option<Vec<u8>>) {
        let digits = api.bi_get_unsigned_bytes(self.get_raw_handle());
        if digits.len() > nr_bytes {
            return None;
        }
        let mut bytes: Vec<u8> = Vec::new();
        let padding = nr_bytes - digits.len();
        let mut i: usize = 0;
        while i < padding
            invariant
                i <= padding,
                bytes@ == zeros(i as nat),
            decreases padding - i,
        {
            bytes.push(0);
            i += 1;
            assert(bytes@ =~= zeros(i as nat));
        }
        bytes.extend_from_slice(digits.as_slice());
        proof {
            crate::magnitude::lemma_be_fixed_padding(natural_at(api@, self.handle()), nr_bytes as nat);
        }
        Some(bytes)
    }

    /// The number whose handle is the greatest there is.
    fn phantom() -> (placeholder: Self)
        ensures
            placeholder.handle() == usize::MAX,
    {
        BigUint::new_from_raw_handle(usize::MAX)
    }
}

/// An operation on two signed numbers.
#[derive(Clone, Copy, Debug, PartialEq, Eq, Structural)]
pub enum SignedOp {
    Add,
    Sub,
    Mul,
    Div,
    Rem,
}

/// What the operation gives for `x` and `y`.
pub open spec fn signed_value(op: SignedOp, x: int, y: int) -> int {
    match op {
        SignedOp::Add => x + y,
        SignedOp::Sub => x - y,
        SignedOp::Mul => x * y,
        SignedOp::Div => trunc_div(x, y),
        SignedOp::Rem => trunc_rem(x, y),
    }
}

/// What the operation gives for the integers behind `x` and `y`.
pub open spec fn signed_applied(op: SignedOp, store: Store, x: Handle, y: Handle) -> int {
    signed_value(op, int_at(store, x), int_at(store, y))
}

/// The operation has a result for the integers behind `x` and `y`: a divisor
/// is not zero.
pub open spec fn signed_defined(op: SignedOp, store: Store, x: Handle, y: Handle) -> bool {
    match op {
        SignedOp::Div | SignedOp::Rem => int_at(store, y) != 0,
        _ => true,
    }
}

/// A signed number of any size, with every operation the library needs as a
/// method. A binary operation gives its result a new handle; its `_assign`
/// form puts the result behind the handle of the left operand.
pub trait BigIntApi<BigUint: BigUintApi>: Sized {
    /// The handle behind which the number lives.
    spec fn handle(&self) -> Handle;

    /// The unsigned number as a signed one. The handle goes over to the
    /// result.
    fn from_big_uint(value: BigUint) -> (result: Self)
        ensures
            result.handle() == value.handle(),
    ;

    fn from_i64<M: ManagedTypeApi>(api: &mut M, value: i64) -> (result: Self)
        ensures
            allocated(old(api)@, result.handle(), ManagedValue::Int(value as int), final(api)@),
    ;

    fn from_i32<M: ManagedTypeApi>(api: &mut M, value: i32) -> (result: Self)
        ensures
            allocated(old(api)@, result.handle(), ManagedValue::Int(value as int), final(api)@),
    ;

    /// The sum.
    fn add<M: ManagedTypeApi>(&self, api: &mut M, other: &Self) -> (result: Self)
        requires
            holds_int(old(api)@, self.handle()),
            holds_int(old(api)@, other.handle()),
            signed_defined(SignedOp::Add, old(api)@, self.handle(), other.handle()),
        ensures
            allocated(
                old(api)@,
                result.handle(),
                ManagedValue::Int(
                    signed_applied(SignedOp::Add, old(api)@, self.handle(), other.handle()),
                ),
                final(api)@,
            ),
    ;

    /// The same, with the result in the place of the number.
    fn add_assign<M: ManagedTypeApi>(&mut self, api: &mut M, other: &Self)
        requires
            holds_int(old(api)@, old(self).handle()),
            holds_int(old(api)@, other.handle()),
            signed_defined(SignedOp::Add, old(api)@, old(self).handle(), other.handle()),
        ensures
            final(self).handle() == old(self).handle(),
            int_stored(
                old(api)@,
                old(self).handle(),
                signed_applied(SignedOp::Add, old(api)@, old(self).handle(), other.handle()),
                final(api)@,
            ),
    ;

    /// The difference.
    fn sub<M: ManagedTypeApi>(&self, api: &mut M, other: &Self) -> (result: Self)
        requires
            holds_int(old(api)@, self.handle()),
            holds_int(old(api)@, other.handle()),
            signed_defined(SignedOp::Sub, old(api)@, self.handle(), other.handle()),
        ensures
            allocated(
                old(api)@,
                result.handle(),
                ManagedValue::Int(
                    signed_applied(SignedOp::Sub, old(api)@, self.handle(), other.handle()),
                ),
                final(api)@,
            ),
    ;

    /// The same, with the result in the place of the number.
    fn sub_assign<M: ManagedTypeApi>(&mut self, api: &mut M, other: &Self)
        requires
            holds_int(old(api)@, old(self).handle()),
            holds_int(old(api)@, other.handle()),
            signed_defined(SignedOp::Sub, old(api)@, old(self).handle(), other.handle()),
        ensures
            final(self).handle() == old(self).handle(),
            int_stored(
                old(api)@,
                old(self).handle(),
                signed_applied(SignedOp::Sub, old(api)@, old(self).handle(), other.handle()),
                final(api)@,
            ),
    ;

    /// The product.
    fn mul<M: ManagedTypeApi>(&self, api: &mut M, other: &Self) -> (result: Self)
        requires
            holds_int(old(api)@, self.handle()),
            holds_int(old(api)@, other.handle()),
            signed_defined(SignedOp::Mul, old(api)@, self.handle(), other.handle()),
        ensures
            allocated(
                old(api)@,
                result.handle(),
                ManagedValue::Int(
                    signed_applied(SignedOp::Mul, old(api)@, self.handle(), other.handle()),
                ),
                final(api)@,
            ),
    ;

    /// The same, with the result in the place of the number.
    fn mul_assign<M: ManagedTypeApi>(&mut self, api: &mut M, other: &Self)
        requires
            holds_int(old(api)@, old(self).handle()),
            holds_int(old(api)@, other.handle()),
            signed_defined(SignedOp::Mul, old(api)@, old(self).handle(), other.handle()),
        ensures
            final(self).handle() == old(self).handle(),
            int_stored(
                old(api)@,
                old(self).handle(),
                signed_applied(SignedOp::Mul, old(api)@, old(self).handle(), other.handle()),
                final(api)@,
            ),
    ;

    /// The quotient, rounded towards zero. The divisor is not zero.
    fn div<M: ManagedTypeApi>(&self, api: &mut M, other: &Self) -> (result: Self)
        requires
            holds_int(old(api)@, self.handle()),
            holds_int(old(api)@, other.handle()),
            signed_defined(SignedOp::Div, old(api)@, self.handle(), other.handle()),
        ensures
            allocated(
                old(api)@,
                result.handle(),
                ManagedValue::Int(
                    signed_applied(SignedOp::Div, old(api)@, self.handle(), other.handle()),
                ),
                final(api)@,
            ),
    ;

    /// The same, with the result in the place of the number.
    fn div_assign<M: ManagedTypeApi>(&mut self, api: &mut M, other: &Self)
        requires
            holds_int(old(api)@, old(self).handle()),
            holds_int(old(api)@, other.handle()),
            signed_defined(SignedOp::Div, old(api)@, old(self).handle(), other.handle()),
        ensures
            final(self).handle() == old(self).handle(),
            int_stored(
                old(api)@,
                old(self).handle(),
                signed_applied(SignedOp::Div, old(api)@, old(self).handle(), other.handle()),
                final(api)@,
            ),
    ;

    /// The remainder of the division that rounds towards zero: it has the sign of the number. The divisor is not zero.
    fn rem<M: ManagedTypeApi>(&self, api: &mut M, other: &Self) -> (result: Self)
        requires
            holds_int(old(api)@, self.handle()),
            holds_int(old(api)@, other.handle()),
            signed_defined(SignedOp::Rem, old(api)@, self.handle(), other.handle()),
        ensures
            allocated(
                old(api)@,
                result.handle(),
                ManagedValue::Int(
                    signed_applied(SignedOp::Rem, old(api)@, self.handle(), other.handle()),
                ),
                final(api)@,
            ),
    ;

    /// The same, with the result in the place of the number.
    fn rem_assign<M: ManagedTypeApi>(&mut self, api: &mut M, other: &Self)
        requires
            holds_int(old(api)@, old(self).handle()),
            holds_int(old(api)@, other.handle()),
            signed_defined(SignedOp::Rem, old(api)@, old(self).handle(), other.handle()),
        ensures
            final(self).handle() == old(self).handle(),
            int_stored(
                old(api)@,
                old(self).handle(),
                signed_applied(SignedOp::Rem, old(api)@, old(self).handle(), other.handle()),
                final(api)@,
            ),
    ;
    /// The number with the other sign.
    fn neg<M: ManagedTypeApi>(&self, api: &mut M) -> (result: Self)
        requires
            holds_int(old(api)@, self.handle()),
        ensures
            allocated(
                old(api)@,
                result.handle(),
                ManagedValue::Int(-int_at(old(api)@, self.handle())),
                final(api)@,
            ),
    ;

    /// The magnitude, as an unsigned number behind a new handle.
    fn abs_uint<M: ManagedTypeApi>(&self, api: &mut M) -> (result: BigUint)
        requires
            holds_int(old(api)@, self.handle()),
        ensures
            allocated(
                old(api)@,
                result.handle(),
                natural_entry(magnitude_of(int_at(old(api)@, self.handle()))),
                final(api)@,
            ),
    ;

    /// The shortest two's complement form, most significant byte first;
    /// empty for zero.
    fn to_signed_bytes_be<M: ManagedTypeApi>(&self, api: &M) -> (bytes: Vec<u8>)
        requires
            holds_int(api@, self.handle()),
        ensures
            bytes@ == signed_be_bytes(int_at(api@, self.handle())),
    ;

    /// The sign: one of three, for zero has none.
    fn sign<M: ManagedTypeApi>(&self, api: &M) -> (sign: Sign)
        requires
            holds_int(api@, self.handle()),
        ensures
            sign == sign_of(int_at(api@, self.handle())),
    ;

    /// A value that only fills a place where the type is asked for: it has
    /// no number, and no operation takes it.
    fn phantom() -> Self;
}

impl BigIntApi<BigUint> for BigInt {
    open spec fn handle(&self) -> Handle {
        self.raw_handle()
    }

    fn from_big_uint(value: BigUint) -> (result: Self) {
        BigInt::new_from_raw_handle(value.get_raw_handle())
    }

    fn from_i64<M: ManagedTypeApi>(api: &mut M, value: i64) -> (result: Self) {
        BigInt::new_from_raw_handle(api.bi_new(value))
    }

    fn from_i32<M: ManagedTypeApi>(api: &mut M, value: i32) -> (result: Self) {
        BigInt::new_from_raw_handle(api.bi_new(value as i64))
    }

    fn add<M: ManagedTypeApi>(&self, api: &mut M, other: &Self) -> (result: Self) {
        let handle = api.bi_new(0);
        api.bi_add(handle, self.get_raw_handle(), other.get_raw_handle());
        assert(api@ =~= old(api)@.insert(
            handle,
            ManagedValue::Int(
                signed_applied(SignedOp::Add, old(api)@, self.handle(), other.handle()),
            ),
        ));
        BigInt::new_from_raw_handle(handle)
    }

    fn add_assign<M: ManagedTypeApi>(&mut self, api: &mut M, other: &Self) {
        api.bi_add(self.get_raw_handle(), self.get_raw_handle(), other.get_raw_handle());
    }

    fn sub<M: ManagedTypeApi>(&self, api: &mut M, other: &Self) -> (result: Self) {
        let handle = api.bi_new(0);
        api.bi_sub(handle, self.get_raw_handle(), other.get_raw_handle());
        assert(api@ =~= old(api)@.insert(
            handle,
            ManagedValue::Int(
                signed_applied(SignedOp::Sub, old(api)@, self.handle(), other.handle()),
            ),
        ));
        BigInt::new_from_raw_handle(handle)
    }

    fn sub_assign<M: ManagedTypeApi>(&mut self, api: &mut M, other: &Self) {
        api.bi_sub(self.get_raw_handle(), self.get_raw_handle(), other.get_raw_handle());
    }

    fn mul<M: ManagedTypeApi>(&self, api: &mut M, other: &Self) -> (result: Self) {
        let handle = api.bi_new(0);
        api.bi_mul(handle, self.get_raw_handle(), other.get_raw_handle());
        assert(api@ =~= old(api)@.insert(
            handle,
            ManagedValue::Int(
                signed_applied(SignedOp::Mul, old(api)@, self.handle(), other.handle()),
            ),
        ));
        BigInt::new_from_raw_handle(handle)
    }

    fn mul_assign<M: ManagedTypeApi>(&mut self, api: &mut M, other: &Self) {
        api.bi_mul(self.get_raw_handle(), self.get_raw_handle(), other.get_raw_handle());
    }

    fn div<M: ManagedTypeApi>(&self, api: &mut M, other: &Self) -> (result: Self) {
        let handle = api.bi_new(0);
        api.bi_t_div(handle, self.get_raw_handle(), other.get_raw_handle());
        assert(api@ =~= old(api)@.insert(
            handle,
            ManagedValue::Int(
                signed_applied(SignedOp::Div, old(api)@, self.handle(), other.handle()),
            ),
        ));
        BigInt::new_from_raw_handle(handle)
    }

    fn div_assign<M: ManagedTypeApi>(&mut self, api: &mut M, other: &Self) {
        api.bi_t_div(self.get_raw_handle(), self.get_raw_handle(), other.get_raw_handle());
    }

    fn rem<M: ManagedTypeApi>(&self, api: &mut M, other: &Self) -> (result: Self) {
        let handle = api.bi_new(0);
        api.bi_t_mod(handle, self.get_raw_handle(), other.get_raw_handle());
        assert(api@ =~= old(api)@.insert(
            handle,
            ManagedValue::Int(
                signed_applied(SignedOp::Rem, old(api)@, self.handle(), other.handle()),
            ),
        ));
        BigInt::new_from_raw_handle(handle)
    }

    fn rem_assign<M: ManagedTypeApi>(&mut self, api: &mut M, other: &Self) {
        api.bi_t_mod(self.get_raw_handle(), self.get_raw_handle(), other.get_raw_handle());
    }
    fn neg<M: ManagedTypeApi>(&self, api: &mut M) -> (result: Self) {
        let handle = api.bi_new(0);
        api.bi_neg(handle, self.get_raw_handle());
        assert(api@ =~= old(api)@.insert(
            handle,
            ManagedValue::Int(-int_at(old(api)@, self.handle())),
        ));
        BigInt::new_from_raw_handle(handle)
    }

    fn abs_uint<M: ManagedTypeApi>(&self, api: &mut M) -> (result: BigUint) {
        let handle = api.bi_new(0);
        api.bi_abs(handle, self.get_raw_handle());
        assert(api@ =~= old(api)@.insert(
            handle,
            natural_entry(magnitude_of(int_at(old(api)@, self.handle()))),
        ));
        BigUint::new_from_raw_handle(handle)
    }

    fn to_signed_bytes_be<M: ManagedTypeApi>(&self, api: &M) -> (bytes: Vec<u8>) {
        api.bi_get_signed_bytes(self.get_raw_handle()).into_vec()
    }

    fn sign<M: ManagedTypeApi>(&self, api: &M) -> (sign: Sign) {
        api.bi_sign(self.get_raw_handle())
    }

    /// The number whose handle is the greatest there is.
    fn phantom() -> (placeholder: Self)
        ensures
            placeholder.handle() == usize::MAX,
    {
        BigInt::new_from_raw_handle(usize::MAX)
    }
}

} // verus!
