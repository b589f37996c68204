//! Arithmetic on big-endian digit sequences: what the in-memory registry
//! computes with. A sequence may start with zero bytes; what counts is the
//! number it denotes.
use vstd::prelude::*;
use vstd::slice::{slice_subrange, slice_to_vec};
use crate::api::{compare_ints, Comparison};
use crate::magnitude::{
    be_bytes, be_value, compare_bytewise, lemma_be_value_bound, lemma_be_value_first,
    lemma_be_value_skip_zeros, lemma_compare_magnitudes, lemma_minimal_is_be_bytes,
    lemma_pow256_positive, pow256, BitOp,
};

verus! {

/// The number of zero bytes in front of `digits`.
pub fn leading_zeros(digits: &Vec<u8>) -> (count: usize)
    ensures
        count <= digits.len(),
        forall|i: int| 0 <= i < count ==> digits[i] == 0,
        count < digits.len() ==> digits[count as int] != 0,
{
    let mut count: usize = 0;
    while count < digits.len() && digits[count] == 0
        invariant
            count <= digits.len(),
            forall|i: int| 0 <= i < count ==> digits[i] == 0,
        decreases digits.len() - count,
    {
        count += 1;
    }
    count
}

/// The shortest form of the number that `digits` denotes.
pub fn minimal_bytes(digits: &Vec<u8>) -> (bytes: Vec<u8>)
    ensures
        bytes@ == be_bytes(be_value(digits@)),
{
    let start = leading_zeros(digits);
    let bytes = slice_to_vec(slice_subrange(digits.as_slice(), start, digits.len()));
    proof {
        assert(bytes@ =~= digits@.skip(start as int));
        lemma_be_value_skip_zeros(digits@, start as int);
        lemma_minimal_is_be_bytes(bytes@);
    }
    bytes
}

/// How the numbers that `a` and `b` denote stand to each other.
pub fn compare_digits(a: &Vec<u8>, b: &Vec<u8>) -> (result: Comparison)
    ensures
        result == compare_ints(be_value(a@) as int, be_value(b@) as int),
{
    let skip_a = leading_zeros(a);
    let skip_b = leading_zeros(b);
    let len_a = a.len() - skip_a;
    let len_b = b.len() - skip_b;
    let ghost short_a = a@.skip(skip_a as int);
    let ghost short_b = b@.skip(skip_b as int);
    proof {
        lemma_be_value_skip_zeros(a@, skip_a as int);
        lemma_be_value_skip_zeros(b@, skip_b as int);
        lemma_compare_magnitudes(short_a, short_b);
    }
    if len_a < len_b {
        return Comparison::Less;
    }
    if len_a > len_b {
        return Comparison::Greater;
    }
    proof {
        assert(short_a.skip(0) =~= short_a);
        assert(short_b.skip(0) =~= short_b);
    }
    let mut i: usize = 0;
    while i < len_a
        invariant
            i <= len_a,
            len_a == len_b,
            len_a == a.len() - skip_a,
            len_b == b.len() - skip_b,
            short_a == a@.skip(skip_a as int),
            short_b == b@.skip(skip_b as int),
            compare_bytewise(short_a, short_b) == compare_ints(
                be_value(a@) as int,
                be_value(b@) as int,
            ),
            compare_bytewise(short_a, short_b) == compare_bytewise(
                short_a.skip(i as int),
                short_b.skip(i as int),
            ),
        decreases len_a - i,
    {
        let x = a[skip_a + i];
        let y = b[skip_b + i];
        proof {
            assert(short_a.skip(i as int)[0] == x);
            assert(short_b.skip(i as int)[0] == y);
            assert(short_a.skip(i as int).drop_first() =~= short_a.skip(i + 1));
            assert(short_b.skip(i as int).drop_first() =~= short_b.skip(i + 1));
        }
        if x < y {
            return Comparison::Less;
        }
        if x > y {
            return Comparison::Greater;
        }
        i += 1;
    }
    Comparison::Equal
}

/// The number that the last `count` digits of `digits` denote; all of them
/// where there are fewer.
pub open spec fn low_value(digits: Seq<u8>, count: int) -> nat {
    if count >= digits.len() {
        be_value(digits)
    } else {
        be_value(digits.skip(digits.len() - count))
    }
}

/// The digit `index` places from the end, zero beyond the front.
pub open spec fn digit_from_end(digits: Seq<u8>, index: int) -> nat {
    if 0 <= index < digits.len() {
        digits[digits.len() - 1 - index] as nat
    } else {
        0
    }
}

/// One more digit from the end adds the digit at its weight.
pub proof fn lemma_low_value_step(digits: Seq<u8>, count: int)
    requires
        0 <= count,
    ensures
        low_value(digits, count + 1) == digit_from_end(digits, count) * pow256(count as nat)
            + low_value(digits, count),
        low_value(digits, count) < pow256(count as nat),
{
    if count < digits.len() {
        let longer = digits.skip(digits.len() - count - 1);
        let shorter = digits.skip(digits.len() - count);
        assert(longer.drop_first() =~= shorter);
        assert(longer[0] == digits[digits.len() - 1 - count]);
        lemma_be_value_first(longer);
        lemma_be_value_bound(shorter);
        if count + 1 == digits.len() {
            assert(longer =~= digits);
        }
    } else {
        assert(0 * pow256(count as nat) == 0);
        lemma_be_value_bound(digits);
        crate::magnitude::lemma_pow256_monotonic(digits.len(), count as nat);
    }
}

pub proof fn lemma_low_value_zero(digits: Seq<u8>)
    ensures
        low_value(digits, 0) == 0,
{
    if digits.len() > 0 {
        assert(digits.skip(digits.len() - 0) =~= Seq::<u8>::empty());
    }
}

fn digit_at(digits: &Vec<u8>, index: usize) -> (digit: u8)
    ensures
        digit == digit_from_end(digits@, index as int),
{
    if index < digits.len() {
        digits[digits.len() - 1 - index]
    } else {
        0
    }
}

/// `count` zero digits.
fn zero_digits(count: usize) -> (digits: Vec<u8>)
    ensures
        digits@.len() == count,
        forall|i: int| 0 <= i < count ==> digits@[i] == 0,
{
    let mut digits: Vec<u8> = Vec::new();
    let mut i: usize = 0;
    while i < count
        invariant
            i <= count,
            digits@.len() == i,
            forall|k: int| 0 <= k < i ==> digits@[k] == 0,
        decreases count - i,
    {
        digits.push(0);
        i += 1;
    }
    digits
}

/// The sum of the numbers that `a` and `b` denote.
pub fn add_digits(a: &Vec<u8>, b: &Vec<u8>) -> (sum: Vec<u8>)
    ensures
        be_value(sum@) == be_value(a@) + be_value(b@),
{
    let width = if a.len() > b.len() { a.len() } else { b.len() };
    let mut sum = zero_digits(width);
    let mut carry: u8 = 0;
    let mut i: usize = 0;
    proof {
        lemma_low_value_zero(a@);
        lemma_low_value_zero(b@);
        assert(sum@.skip(width as int) =~= Seq::<u8>::empty());
    }
    while i < width
        invariant
            i <= width,
            a.len() <= width,
            b.len() <= width,
            sum@.len() == width,
            carry <= 1,
            be_value(sum@.skip(width - i)) + carry * pow256(i as nat) == low_value(a@, i as int)
                + low_value(b@, i as int),
        decreases width - i,
    {
        let x = digit_at(a, i) as u16 + digit_at(b, i) as u16 + carry as u16;
        let digit = (x % 256) as u8;
        let ghost before = sum@;
        sum[width - 1 - i] = digit;
        proof {
            let longer = sum@.skip(width - i - 1);
            assert(longer.drop_first() =~= before.skip(width - i));
            lemma_be_value_first(longer);
            lemma_low_value_step(a@, i as int);
            lemma_low_value_step(b@, i as int);
            let w = pow256(i as nat);
            let da = digit_from_end(a@, i as int);
            let db = digit_from_end(b@, i as int);
            assert(pow256((i + 1) as nat) == 256 * w);
            assert((x / 256) * (256 * w) + digit * w == (da + db + carry) * w) by (nonlinear_arith)
                requires
                    x == da + db + carry,
                    digit == x % 256,
            ;
            assert((da + db + carry) * w == da * w + db * w + carry * w) by (nonlinear_arith);
        }
        carry = (x / 256) as u8;
        i += 1;
    }
    proof {
        assert(sum@.skip(0) =~= sum@);
    }
    if carry > 0 {
        let ghost before = sum@;
        sum.insert(0, carry);
        proof {
            assert(sum@.drop_first() =~= before);
            lemma_be_value_first(sum@);
        }
    }
    sum
}

/// The difference of the numbers that `a` and `b` denote, where the first is
/// not the smaller one.
pub fn sub_digits(a: &Vec<u8>, b: &Vec<u8>) -> (difference: Vec<u8>)
    requires
        be_value(a@) >= be_value(b@),
    ensures
        be_value(difference@) == be_value(a@) - be_value(b@),
{
    let width = if a.len() > b.len() { a.len() } else { b.len() };
    let mut difference = zero_digits(width);
    let mut borrow: u8 = 0;
    let mut i: usize = 0;
    proof {
        lemma_low_value_zero(a@);
        lemma_low_value_zero(b@);
        assert(difference@.skip(width as int) =~= Seq::<u8>::empty());
    }
    while i < width
        invariant
            i <= width,
            a.len() <= width,
            b.len() <= width,
            difference@.len() == width,
            be_value(a@) >= be_value(b@),
            borrow <= 1,
            be_value(difference@.skip(width - i)) - borrow * pow256(i as nat) == low_value(
                a@,
                i as int,
            ) - low_value(b@, i as int),
        decreases width - i,
    {
        let x = digit_at(a, i) as i16 - digit_at(b, i) as i16 - borrow as i16;
        let next_borrow: u8 = if x < 0 { 1 } else { 0 };
        let digit = if x < 0 { (x + 256) as u8 } else { x as u8 };
        let ghost before = difference@;
        difference[width - 1 - i] = digit;
        proof {
            let longer = difference@.skip(width - i - 1);
            assert(longer.drop_first() =~= before.skip(width - i));
            lemma_be_value_first(longer);
            lemma_low_value_step(a@, i as int);
            lemma_low_value_step(b@, i as int);
            let w = pow256(i as nat);
            let da = digit_from_end(a@, i as int);
            let db = digit_from_end(b@, i as int);
            assert(pow256((i + 1) as nat) == 256 * w);
            assert(digit * w - next_borrow * (256 * w) == (da - db - borrow) * w)
                by (nonlinear_arith)
                requires
                    digit - 256 * next_borrow == da - db - borrow,
            ;
            assert((da - db - borrow) * w == da * w - db * w - borrow * w) by (nonlinear_arith);
        }
        borrow = next_borrow;
        i += 1;
    }
    proof {
        assert(difference@.skip(0) =~= difference@);
        lemma_be_value_bound(difference@);
        let weight = pow256(width as nat);
        if borrow == 1 {
            assert(borrow * weight == weight) by (nonlinear_arith)
                requires
                    borrow == 1,
            ;
        } else {
            assert(borrow * weight == 0) by (nonlinear_arith)
                requires
                    borrow == 0,
            ;
        }
    }
    difference
}

/// The product of the number that `a` denotes and one digit.
pub fn mul_small(a: &Vec<u8>, factor: u8) -> (product: Vec<u8>)
    ensures
        be_value(product@) == be_value(a@) * factor,
{
    let width = a.len();
    let mut product = zero_digits(width);
    let mut carry: u8 = 0;
    let mut i: usize = 0;
    proof {
        lemma_low_value_zero(a@);
        assert(product@.skip(width as int) =~= Seq::<u8>::empty());
        assert(0 * factor == 0);
    }
    while i < width
        invariant
            i <= width,
            width == a.len(),
            product@.len() == width,
            carry <= 254,
            be_value(product@.skip(width - i)) + carry * pow256(i as nat) == low_value(
                a@,
                i as int,
            ) * factor,
        decreases width - i,
    {
        let ghost da = digit_from_end(a@, i as int);
        let d = digit_at(a, i);
        assert(d as u16 * factor as u16 <= 255 * 255) by (nonlinear_arith)
            requires
                d <= 255,
                factor <= 255,
        ;
        let x = d as u16 * factor as u16 + carry as u16;
        let digit = (x % 256) as u8;
        let ghost before = product@;
        product[width - 1 - i] = digit;
        proof {
            let longer = product@.skip(width - i - 1);
            assert(longer.drop_first() =~= before.skip(width - i));
            lemma_be_value_first(longer);
            lemma_low_value_step(a@, i as int);
            let w = pow256(i as nat);
            let low = low_value(a@, i as int);
            assert(pow256((i + 1) as nat) == 256 * w);
            assert((x / 256) * (256 * w) + digit * w == (da * factor + carry) * w)
                by (nonlinear_arith)
                requires
                    x == da * factor + carry,
                    digit == x % 256,
            ;
            assert((da * factor + carry) * w + low * factor - carry * w == (da * w + low) * factor)
                by (nonlinear_arith);
        }
        carry = (x / 256) as u8;
        i += 1;
    }
    proof {
        assert(product@.skip(0) =~= product@);
    }
    if carry > 0 {
        let ghost before = product@;
        product.insert(0, carry);
        proof {
            assert(product@.drop_first() =~= before);
            lemma_be_value_first(product@);
        }
    }
    product
}

/// The product of the numbers that `a` and `b` denote.
pub fn mul_digits(a: &Vec<u8>, b: &Vec<u8>) -> (product: Vec<u8>)
    ensures
        be_value(product@) == be_value(a@) * be_value(b@),
{
    let mut product: Vec<u8> = Vec::new();
    let mut i: usize = 0;
    proof {
        assert(b@.take(0) =~= Seq::<u8>::empty());
        assert(be_value(a@) * 0 == 0);
    }
    while i < b.len()
        invariant
            i <= b.len(),
            be_value(product@) == be_value(a@) * be_value(b@.take(i as int)),
        decreases b.len() - i,
    {
        let ghost before = be_value(product@);
        proof {
            crate::magnitude::lemma_be_value_push(product@, 0);
        }
        product.push(0);
        let row = mul_small(a, b[i]);
        product = add_digits(&product, &row);
        proof {
            let seen = b@.take(i as int);
            let next = b@.take(i + 1);
            assert(next.drop_last() =~= seen);
            let va = be_value(a@);
            let vs = be_value(seen);
            let d = b@[i as int] as nat;
            assert(be_value(product@) == before * 256 + va * d);
            assert((va * vs) * 256 + va * d == va * (vs * 256 + d)) by (nonlinear_arith);
        }
        i += 1;
    }
    assert(b@.take(i as int) =~= b@);
    product
}

/// The quotient and the remainder of the number that `a` denotes by the
/// number that `b` denotes, which is not zero.
///
/// Long division, one digit of `a` at a time; each digit of the quotient is
/// found by subtracting, at most 255 times.
pub fn div_rem_digits(a: &Vec<u8>, b: &Vec<u8>) -> (result: (Vec<u8>, Vec<u8>))
    requires
        be_value(b@) > 0,
    ensures
        be_value(result.0@) == be_value(a@) / be_value(b@),
        be_value(result.1@) == be_value(a@) % be_value(b@),
{
    let mut quotient: Vec<u8> = Vec::new();
    let mut remainder: Vec<u8> = Vec::new();
    let ghost divisor = be_value(b@);
    let mut i: usize = 0;
    proof {
        assert(a@.take(0) =~= Seq::<u8>::empty());
        assert(0 * divisor == 0);
    }
    while i < a.len()
        invariant
            i <= a.len(),
            divisor == be_value(b@),
            divisor > 0,
            be_value(a@.take(i as int)) == be_value(quotient@) * divisor + be_value(remainder@),
            be_value(remainder@) < divisor,
        decreases a.len() - i,
    {
        let ghost old_quotient = be_value(quotient@);
        let ghost old_remainder = be_value(remainder@);
        proof {
            crate::magnitude::lemma_be_value_push(remainder@, a@[i as int]);
            crate::magnitude::lemma_be_value_push(quotient@, 0);
        }
        remainder.push(a[i]);
        let ghost shifted = be_value(remainder@);
        let mut count: u8 = 0;
        proof {
            assert(0 * divisor == 0);
        }
        while !matches!(compare_digits(&remainder, b), Comparison::Less)
            invariant
                divisor == be_value(b@),
                divisor > 0,
                shifted == count * divisor + be_value(remainder@),
                shifted < 256 * divisor,
            decreases be_value(remainder@),
        {
            proof {
                if count == 255 {
                    assert(255 * divisor + divisor == 256 * divisor) by (nonlinear_arith);
                    assert(false);
                }
                assert((count + 1) * divisor == count * divisor + divisor) by (nonlinear_arith);
            }
            remainder = sub_digits(&remainder, b);
            count += 1;
        }
        proof {
            crate::magnitude::lemma_be_value_push(quotient@, count);
        }
        quotient.push(count);
        proof {
            let seen = a@.take(i as int);
            let next = a@.take(i + 1);
            assert(next.drop_last() =~= seen);
            let digit = a@[i as int] as nat;
            assert(shifted == old_remainder * 256 + digit);
            assert((old_quotient * divisor + old_remainder) * 256 + digit == (old_quotient * 256
                + count) * divisor + be_value(remainder@)) by (nonlinear_arith)
                requires
                    old_remainder * 256 + digit == count * divisor + be_value(remainder@),
            ;
        }
        i += 1;
    }
    proof {
        assert(a@.take(i as int) =~= a@);
        vstd::arithmetic::div_mod::lemma_fundamental_div_mod_converse(
            be_value(a@) as int,
            divisor as int,
            be_value(quotient@) as int,
            be_value(remainder@) as int,
        );
    }
    (quotient, remainder)
}

/// The digits of `digits` that stand in the first `count` places when it is
/// written in `width` places, flush right.
pub open spec fn aligned_front(digits: Seq<u8>, width: int, count: int) -> Seq<u8> {
    if count > width - digits.len() {
        digits.take(count - (width - digits.len()))
    } else {
        Seq::empty()
    }
}

/// The digit of `digits` in place `index` when it is written in `width`
/// places, flush right; zero where it has none.
fn aligned_digit(digits: &Vec<u8>, width: usize, index: usize) -> (digit: u8)
    requires
        digits.len() <= width,
        index < width,
    ensures
        be_value(aligned_front(digits@, width as int, index + 1)) == be_value(
            aligned_front(digits@, width as int, index as int),
        ) * 256 + digit,
{
    let pad = width - digits.len();
    if index >= pad {
        proof {
            let next = digits@.take(index + 1 - pad);
            assert(next.drop_last() =~= digits@.take(index - pad));
            if index == pad {
                assert(digits@.take(0) =~= Seq::<u8>::empty());
            }
        }
        digits[index - pad]
    } else {
        0
    }
}

fn apply(op: BitOp, x: u8, y: u8) -> (result: u8)
    ensures
        result == crate::magnitude::byte_op(op, x, y),
{
    match op {
        BitOp::And => x & y,
        BitOp::Or => x | y,
        BitOp::Xor => x ^ y,
    }
}

/// The operation, bit by bit, on the numbers that `a` and `b` denote.
pub fn bitwise_digits(op: BitOp, a: &Vec<u8>, b: &Vec<u8>) -> (result: Vec<u8>)
    ensures
        be_value(result@) == crate::magnitude::bitwise(op, be_value(a@), be_value(b@)),
{
    let width = if a.len() > b.len() { a.len() } else { b.len() };
    let mut result: Vec<u8> = Vec::new();
    let mut i: usize = 0;
    while i < width
        invariant
            i <= width,
            a.len() <= width,
            b.len() <= width,
            be_value(result@) == crate::magnitude::bitwise(
                op,
                be_value(aligned_front(a@, width as int, i as int)),
                be_value(aligned_front(b@, width as int, i as int)),
            ),
        decreases width - i,
    {
        let x = aligned_digit(a, width, i);
        let y = aligned_digit(b, width, i);
        proof {
            crate::magnitude::lemma_be_value_push(result@, crate::magnitude::byte_op(op, x, y));
            crate::magnitude::lemma_bitwise_step(
                op,
                be_value(aligned_front(a@, width as int, i as int)),
                x,
                be_value(aligned_front(b@, width as int, i as int)),
                y,
            );
        }
        result.push(apply(op, x, y));
        i += 1;
    }
    proof {
        assert(aligned_front(a@, width as int, width as int) =~= a@);
        assert(aligned_front(b@, width as int, width as int) =~= b@);
    }
    result
}

/// Two to the power `bits`, for less than a byte of bits.
fn small_power(bits: usize) -> (power: u8)
    requires
        bits < 8,
    ensures
        power == crate::magnitude::pow2(bits as nat),
{
    proof {
        reveal_with_fuel(crate::magnitude::pow2, 9);
    }
    match bits {
        0 => 1,
        1 => 2,
        2 => 4,
        3 => 8,
        4 => 16,
        5 => 32,
        6 => 64,
        _ => 128,
    }
}

/// The number that `a` denotes, times two to the power `bits`.
pub fn shl_digits(a: &Vec<u8>, bits: usize) -> (result: Vec<u8>)
    ensures
        be_value(result@) == be_value(a@) * crate::magnitude::pow2(bits as nat),
{
    let whole = bits / 8;
    let mut result = mul_small(a, small_power(bits % 8));
    let ghost start = be_value(result@);
    let mut i: usize = 0;
    proof {
        assert(start * 1 == start);
    }
    while i < whole
        invariant
            i <= whole,
            be_value(result@) == start * pow256(i as nat),
        decreases whole - i,
    {
        proof {
            crate::magnitude::lemma_be_value_push(result@, 0);
            assert((start * pow256(i as nat)) * 256 == start * (256 * pow256(i as nat)))
                by (nonlinear_arith);
        }
        result.push(0);
        i += 1;
    }
    proof {
        crate::magnitude::lemma_pow2_split(whole as nat, (bits % 8) as nat);
        let va = be_value(a@);
        let small = crate::magnitude::pow2((bits % 8) as nat);
        let big = pow256(whole as nat);
        assert((va * small) * big == va * (small * big)) by (nonlinear_arith);
    }
    result
}

/// The number that `a` denotes, divided by two to the power `bits`.
pub fn shr_digits(a: &Vec<u8>, bits: usize) -> (result: Vec<u8>)
    ensures
        be_value(result@) == be_value(a@) / crate::magnitude::pow2(bits as nat),
{
    let whole = bits / 8;
    proof {
        crate::magnitude::lemma_pow2_split(whole as nat, (bits % 8) as nat);
        crate::magnitude::lemma_pow2_positive((bits % 8) as nat);
        lemma_pow256_positive(whole as nat);
    }
    if whole >= a.len() {
        proof {
            lemma_be_value_bound(a@);
            crate::magnitude::lemma_pow256_monotonic(a@.len(), whole as nat);
            let small = crate::magnitude::pow2((bits % 8) as nat);
            let big = pow256(whole as nat);
            assert(small * big >= big) by (nonlinear_arith)
                requires
                    small >= 1,
                    big >= 0,
            ;
            vstd::arithmetic::div_mod::lemma_basic_div(
                be_value(a@) as int,
                crate::magnitude::pow2(bits as nat) as int,
            );
        }
        return Vec::new();
    }
    let mut divisor: Vec<u8> = Vec::new();
    let low = small_power(bits % 8);
    proof {
        crate::magnitude::lemma_be_value_push(divisor@, low);
    }
    divisor.push(low);
    let ghost start = be_value(divisor@);
    let mut i: usize = 0;
    proof {
        assert(start * 1 == start);
    }
    while i < whole
        invariant
            i <= whole,
            be_value(divisor@) == start * pow256(i as nat),
        decreases whole - i,
    {
        proof {
            crate::magnitude::lemma_be_value_push(divisor@, 0);
            assert((start * pow256(i as nat)) * 256 == start * (256 * pow256(i as nat)))
                by (nonlinear_arith);
        }
        divisor.push(0);
        i += 1;
    }
    proof {
        let small = crate::magnitude::pow2((bits % 8) as nat);
        let big = pow256(whole as nat);
        assert(small * big > 0) by (nonlinear_arith)
            requires
                small > 0,
                big > 0,
        ;
    }
    let (quotient, _) = div_rem_digits(a, &divisor);
    quotient
}

/// The digits of 256 to the power `exponent`.
fn power_digits(exponent: usize) -> (digits: Vec<u8>)
    ensures
        be_value(digits@) == pow256(exponent as nat),
{
    let mut digits: Vec<u8> = Vec::new();
    proof {
        crate::magnitude::lemma_be_value_push(digits@, 1);
    }
    digits.push(1);
    let mut i: usize = 0;
    while i < exponent
        invariant
            i <= exponent,
            be_value(digits@) == pow256(i as nat),
        decreases exponent - i,
    {
        proof {
            crate::magnitude::lemma_be_value_push(digits@, 0);
        }
        digits.push(0);
        i += 1;
    }
    digits
}

/// Whether every digit from `start` on is zero.
fn zero_from(digits: &Vec<u8>, start: usize) -> (all: bool)
    requires
        start <= digits.len(),
    ensures
        all == (be_value(digits@.skip(start as int)) == 0),
{
    let mut i = start;
    proof {
        crate::magnitude::lemma_zero_digits(digits@.skip(start as int));
    }
    while i < digits.len()
        invariant
            start <= i <= digits.len(),
            forall|k: int| start <= k < i ==> digits@[k] == 0,
            be_value(digits@.skip(start as int)) == 0 <==> forall|k: int|
                0 <= k < digits@.len() - start ==> digits@.skip(start as int)[k] == 0,
        decreases digits.len() - i,
    {
        if digits[i] != 0 {
            assert(digits@.skip(start as int)[i - start] != 0);
            return false;
        }
        i += 1;
    }
    true
}

/// The shortest two's complement form of the integer with the given sign
/// and digits.
pub fn signed_bytes_of(negative: bool, digits: &Vec<u8>) -> (bytes: Vec<u8>)
    ensures
        bytes@ == crate::magnitude::signed_be_bytes(
            crate::magnitude::signed(negative, be_value(digits@)),
        ),
{
    let shortest = minimal_bytes(digits);
    let ghost magnitude = be_value(digits@);
    let ghost value = crate::magnitude::signed(negative, magnitude);
    proof {
        crate::magnitude::lemma_be_bytes_value(magnitude);
        crate::magnitude::lemma_be_bytes_minimal(magnitude);
    }
    if shortest.len() == 0 {
        return shortest;
    }
    proof {
        crate::magnitude::lemma_top_bit(shortest@);
        crate::magnitude::lemma_be_value_lower(shortest@);
        lemma_pow256_positive((shortest@.len() - 1) as nat);
    }
    if !negative {
        if shortest[0] >= 128 {
            let mut bytes: Vec<u8> = Vec::new();
            bytes.push(0);
            bytes.extend_from_slice(shortest.as_slice());
            proof {
                crate::magnitude::lemma_be_fixed_padding(
                    magnitude,
                    crate::magnitude::signed_width(value),
                );
                assert(bytes@ =~= crate::magnitude::zeros(1) + shortest@);
            }
            bytes
        } else {
            proof {
                crate::magnitude::lemma_be_fixed_padding(
                    magnitude,
                    crate::magnitude::signed_width(value),
                );
                assert(shortest@ =~= crate::magnitude::zeros(0) + shortest@);
            }
            shortest
        }
    } else {
        let exact = shortest[0] == 128 && zero_from(&shortest, 1);
        let fits = shortest[0] < 128 || exact;
        let mut power = power_digits(shortest.len());
        proof {
            lemma_be_value_first(shortest@);
            let weight = pow256((shortest@.len() - 1) as nat);
            let first = shortest@[0] as nat;
            assert(shortest@.drop_first() =~= shortest@.skip(1));
            if first > 128 {
                assert(first * weight >= 129 * weight) by (nonlinear_arith)
                    requires
                        first >= 129,
                        weight >= 0,
                ;
            }
            assert(fits <==> 2 * magnitude <= pow256(shortest@.len()));
        }
        if !fits {
            proof {
                crate::magnitude::lemma_be_value_push(power@, 0);
            }
            power.push(0);
        }
        let ghost width = crate::magnitude::signed_width(value);
        proof {
            lemma_be_value_bound(shortest@);
            assert(be_value(power@) == pow256(width));
        }
        let difference = sub_digits(&power, &shortest);
        let bytes = minimal_bytes(&difference);
        proof {
            let shifted = (pow256(width) - magnitude) as nat;
            crate::magnitude::lemma_signed_width(value);
            crate::magnitude::lemma_be_bytes_len_bound(shifted, width);
            crate::magnitude::lemma_be_bytes_value(shifted);
            lemma_be_value_bound(be_bytes(shifted));
            if be_bytes(shifted).len() < width {
                crate::magnitude::lemma_pow256_monotonic(
                    be_bytes(shifted).len(),
                    (width - 1) as nat,
                );
                lemma_pow256_positive((width - 1) as nat);
                assert(false);
            }
            crate::magnitude::lemma_be_fixed_padding(shifted, width);
            assert(bytes@ =~= crate::magnitude::zeros(0) + bytes@);
        }
        bytes
    }
}

/// The sign and the digits of the integer that `bytes` denotes in two's
/// complement.
pub fn signed_digits_of(bytes: &[u8]) -> (number: (bool, Vec<u8>))
    ensures
        crate::magnitude::signed(number.0, be_value(number.1@))
            == crate::magnitude::signed_value_of(bytes@),
{
    let digits = slice_to_vec(bytes);
    if bytes.len() == 0 || bytes[0] < 128 {
        (false, digits)
    } else {
        let power = power_digits(bytes.len());
        proof {
            lemma_be_value_bound(bytes@);
        }
        (true, sub_digits(&power, &digits))
    }
}

} // verus!
