//! Big-endian magnitudes: the number that a byte sequence denotes and the
//! shortest byte sequence that denotes a number.
use vstd::prelude::*;
use crate::api::{compare_ints, Comparison};

verus! {

/// 256 to the power `n`.
pub open spec fn pow256(n: nat) -> nat
    decreases n,
{
    if n == 0 {
        1
    } else {
        256 * pow256((n - 1) as nat)
    }
}

/// The number that `bytes` denotes, most significant byte first.
pub open spec fn be_value(bytes: Seq<u8>) -> nat
    decreases bytes.len(),
{
    if bytes.len() == 0 {
        0
    } else {
        be_value(bytes.drop_last()) * 256 + bytes.last() as nat
    }
}

/// The shortest big-endian byte sequence that denotes `n`: it starts with no
/// zero byte, and is empty for zero.
pub open spec fn be_bytes(n: nat) -> Seq<u8>
    decreases n,
{
    if n == 0 {
        Seq::empty()
    } else {
        be_bytes(n / 256).push((n % 256) as u8)
    }
}

/// 2 to the power `n`.
pub open spec fn pow2(n: nat) -> nat
    decreases n,
{
    if n == 0 {
        1
    } else {
        2 * pow2((n - 1) as nat)
    }
}

/// An operation on numbers that works bit by bit.
#[derive(Clone, Copy, Debug, PartialEq, Eq, Structural)]
pub enum BitOp {
    And,
    Or,
    Xor,
}

/// The operation on two bytes.
pub open spec fn byte_op(op: BitOp, x: u8, y: u8) -> u8 {
    match op {
        BitOp::And => x & y,
        BitOp::Or => x | y,
        BitOp::Xor => x ^ y,
    }
}

/// The operation on two natural numbers, byte by byte from the low end.
pub open spec fn bitwise(op: BitOp, a: nat, b: nat) -> nat
    decreases a + b,
{
    if a == 0 && b == 0 {
        0
    } else {
        bitwise(op, a / 256, b / 256) * 256 + byte_op(op, (a % 256) as u8, (b % 256) as u8) as nat
    }
}

/// The big-endian form of `n` in exactly `width` bytes, with zero bytes in
/// front where the number is short; the low `width` bytes where it is long.
pub open spec fn be_fixed(n: nat, width: nat) -> Seq<u8>
    decreases width,
{
    if width == 0 {
        Seq::empty()
    } else {
        be_fixed(n / 256, (width - 1) as nat).push((n % 256) as u8)
    }
}

/// `count` zero bytes.
pub open spec fn zeros(count: nat) -> Seq<u8> {
    Seq::new(count, |i: int| 0u8)
}

/// `bytes` starts with no zero byte.
pub open spec fn is_minimal(bytes: Seq<u8>) -> bool {
    bytes.len() == 0 || bytes[0] != 0
}

/// How `a` stands to `b` byte by byte from the front; for sequences of one
/// length.
pub open spec fn compare_bytewise(a: Seq<u8>, b: Seq<u8>) -> Comparison
    decreases a.len(),
{
    if a.len() == 0 || b.len() == 0 {
        Comparison::Equal
    } else if a[0] < b[0] {
        Comparison::Less
    } else if a[0] > b[0] {
        Comparison::Greater
    } else {
        compare_bytewise(a.drop_first(), b.drop_first())
    }
}

/// How two shortest big-endian forms stand to each other as magnitudes: the
/// longer one is greater, and of two of one length the one with the greater
/// byte at the first difference.
pub open spec fn compare_magnitudes(a: Seq<u8>, b: Seq<u8>) -> Comparison {
    if a.len() < b.len() {
        Comparison::Less
    } else if a.len() > b.len() {
        Comparison::Greater
    } else {
        compare_bytewise(a, b)
    }
}

/// The big-endian form of `value` in exactly `width` bytes.
pub fn fixed_be_bytes(value: u64, width: usize) -> (bytes: Vec<u8>)
    ensures
        bytes@ == be_fixed(value as nat, width as nat),
    decreases width,
{
    if width == 0 {
        Vec::new()
    } else {
        let mut bytes = fixed_be_bytes(value / 256, width - 1);
        bytes.push((value % 256) as u8);
        bytes
    }
}

/// The number that up to eight bytes denote, most significant byte first.
pub fn value_of_bytes(bytes: &[u8]) -> (value: u64)
    requires
        bytes@.len() <= 8,
    ensures
        value == be_value(bytes@),
{
    let mut value: u64 = 0;
    let mut i: usize = 0;
    while i < bytes.len()
        invariant
            i <= bytes@.len() <= 8,
            value == be_value(bytes@.take(i as int)),
        decreases bytes@.len() - i,
    {
        proof {
            let next = bytes@.take(i + 1);
            assert(next.drop_last() =~= bytes@.take(i as int));
            lemma_be_value_bound(next);
            lemma_pow256_monotonic(next.len(), 8);
            lemma_pow256_widths();
        }
        value = value * 256 + bytes[i] as u64;
        i += 1;
    }
    assert(bytes@.take(i as int) =~= bytes@);
    value
}

pub proof fn lemma_pow256_positive(n: nat)
    ensures
        pow256(n) > 0,
    decreases n,
{
    if n > 0 {
        lemma_pow256_positive((n - 1) as nat);
    }
}

/// The powers that bound the native integer widths.
pub proof fn lemma_pow256_widths()
    ensures
        pow256(1) == 0x100,
        pow256(2) == 0x1_0000,
        pow256(4) == 0x1_0000_0000,
        pow256(8) == 0x1_0000_0000_0000_0000,
{
    reveal_with_fuel(pow256, 9);
}

/// Eight more bits are one more byte.
pub proof fn lemma_pow2_byte(n: nat)
    ensures
        pow2(n + 8) == 256 * pow2(n),
{
    reveal_with_fuel(pow2, 9);
}

/// A power of two is some bits of a byte and whole bytes.
pub proof fn lemma_pow2_split(bytes: nat, bits: nat)
    ensures
        pow2(8 * bytes + bits) == pow2(bits) * pow256(bytes),
    decreases bytes,
{
    if bytes == 0 {
        assert(pow2(bits) * 1 == pow2(bits));
    } else {
        lemma_pow2_split((bytes - 1) as nat, bits);
        lemma_pow2_byte((8 * (bytes - 1) + bits) as nat);
        assert(256 * (pow2(bits) * pow256((bytes - 1) as nat)) == pow2(bits) * (256 * pow256(
            (bytes - 1) as nat,
        ))) by (nonlinear_arith);
    }
}

pub proof fn lemma_pow2_positive(n: nat)
    ensures
        pow2(n) > 0,
    decreases n,
{
    if n > 0 {
        lemma_pow2_positive((n - 1) as nat);
    }
}

/// The operation on two numbers that each end in one more byte.
pub proof fn lemma_bitwise_step(op: BitOp, a: nat, x: u8, b: nat, y: u8)
    ensures
        bitwise(op, a * 256 + x as nat, b * 256 + y as nat) == bitwise(op, a, b) * 256 + byte_op(
            op,
            x,
            y,
        ) as nat,
{
    let left = a * 256 + x as nat;
    let right = b * 256 + y as nat;
    if left == 0 && right == 0 {
        assert(x == 0 && y == 0 && a == 0 && b == 0);
        assert(0u8 & 0u8 == 0u8) by (bit_vector);
        assert(0u8 | 0u8 == 0u8) by (bit_vector);
        assert(0u8 ^ 0u8 == 0u8) by (bit_vector);
    } else {
        assert(left / 256 == a && left % 256 == x as nat);
        assert(right / 256 == b && right % 256 == y as nat);
    }
}

pub proof fn lemma_pow256_add(m: nat, n: nat)
    ensures
        pow256(m + n) == pow256(m) * pow256(n),
    decreases n,
{
    if n == 0 {
        assert(pow256(m) * 1 == pow256(m));
    } else {
        lemma_pow256_add(m, (n - 1) as nat);
        assert(pow256(m + n) == 256 * pow256((m + n - 1) as nat));
        assert(256 * (pow256(m) * pow256((n - 1) as nat)) == pow256(m) * (256 * pow256(
            (n - 1) as nat,
        ))) by (nonlinear_arith);
    }
}

pub proof fn lemma_pow256_monotonic(m: nat, n: nat)
    requires
        m <= n,
    ensures
        pow256(m) <= pow256(n),
    decreases n,
{
    if m < n {
        lemma_pow256_monotonic(m, (n - 1) as nat);
        lemma_pow256_positive((n - 1) as nat);
    }
}

/// Appending a byte multiplies by 256 and adds the byte.
pub proof fn lemma_be_value_push(bytes: Seq<u8>, last: u8)
    ensures
        be_value(bytes.push(last)) == be_value(bytes) * 256 + last as nat,
{
    assert(bytes.push(last).drop_last() =~= bytes);
}

/// The value of a concatenation.
pub proof fn lemma_be_value_concat(a: Seq<u8>, b: Seq<u8>)
    ensures
        be_value(a + b) == be_value(a) * pow256(b.len()) + be_value(b),
    decreases b.len(),
{
    if b.len() == 0 {
        assert(a + b =~= a);
        assert(be_value(a) * 1 == be_value(a));
    } else {
        let init = b.drop_last();
        assert((a + b).drop_last() =~= a + init);
        lemma_be_value_concat(a, init);
        assert((be_value(a) * pow256(init.len()) + be_value(init)) * 256 == be_value(a) * (256
            * pow256(init.len())) + be_value(init) * 256) by (nonlinear_arith);
    }
}

/// A byte in front counts with the weight of the bytes behind it.
pub proof fn lemma_be_value_first(bytes: Seq<u8>)
    requires
        bytes.len() > 0,
    ensures
        be_value(bytes) == bytes[0] as nat * pow256((bytes.len() - 1) as nat) + be_value(
            bytes.drop_first(),
        ),
{
    let head = seq![bytes[0]];
    assert(head + bytes.drop_first() =~= bytes);
    lemma_be_value_concat(head, bytes.drop_first());
    assert(Seq::<u8>::empty().push(bytes[0]) =~= head);
    lemma_be_value_push(Seq::empty(), bytes[0]);
}

/// A sequence of `n` bytes denotes a number below `256^n`.
pub proof fn lemma_be_value_bound(bytes: Seq<u8>)
    ensures
        be_value(bytes) < pow256(bytes.len()),
    decreases bytes.len(),
{
    if bytes.len() > 0 {
        lemma_be_value_bound(bytes.drop_last());
    }
}

/// A sequence that starts with a byte other than zero denotes a number of at
/// least `256^(n-1)`.
pub proof fn lemma_be_value_lower(bytes: Seq<u8>)
    requires
        bytes.len() > 0,
        bytes[0] != 0,
    ensures
        be_value(bytes) >= pow256((bytes.len() - 1) as nat),
{
    lemma_be_value_first(bytes);
    let weight = pow256((bytes.len() - 1) as nat);
    assert(bytes[0] as nat * weight >= weight) by (nonlinear_arith)
        requires
            bytes[0] as nat >= 1,
            weight >= 0,
    ;
}

/// Zero bytes in front do not count.
pub proof fn lemma_be_value_skip_zeros(bytes: Seq<u8>, count: int)
    requires
        0 <= count <= bytes.len(),
        forall|i: int| 0 <= i < count ==> bytes[i] == 0,
    ensures
        be_value(bytes) == be_value(bytes.skip(count)),
    decreases count,
{
    if count > 0 {
        lemma_be_value_first(bytes);
        assert(0 * pow256((bytes.len() - 1) as nat) == 0);
        lemma_be_value_skip_zeros(bytes.drop_first(), count - 1);
        assert(bytes.drop_first().skip(count - 1) =~= bytes.skip(count));
    } else {
        assert(bytes.skip(0) =~= bytes);
    }
}

/// The shortest form of a number denotes that number.
pub proof fn lemma_be_bytes_value(n: nat)
    ensures
        be_value(be_bytes(n)) == n,
    decreases n,
{
    if n > 0 {
        lemma_be_bytes_value(n / 256);
        lemma_be_value_push(be_bytes(n / 256), (n % 256) as u8);
    }
}

/// The shortest form starts with no zero byte.
pub proof fn lemma_be_bytes_minimal(n: nat)
    ensures
        is_minimal(be_bytes(n)),
    decreases n,
{
    if n > 0 {
        lemma_be_bytes_minimal(n / 256);
        if n / 256 == 0 {
            assert(be_bytes(n) =~= seq![(n % 256) as u8]);
        } else {
            assert(be_bytes(n / 256).len() > 0);
            assert(be_bytes(n)[0] == be_bytes(n / 256)[0]);
        }
    }
}

/// A sequence that starts with no zero byte is the shortest form of the
/// number it denotes.
pub proof fn lemma_minimal_is_be_bytes(bytes: Seq<u8>)
    requires
        is_minimal(bytes),
    ensures
        be_bytes(be_value(bytes)) == bytes,
    decreases bytes.len(),
{
    if bytes.len() > 0 {
        let init = bytes.drop_last();
        let value = be_value(bytes);
        lemma_be_value_lower(bytes);
        lemma_pow256_positive((bytes.len() - 1) as nat);
        assert(value > 0);
        assert(value / 256 == be_value(init) && value % 256 == bytes.last() as nat) by {
            assert(value == be_value(init) * 256 + bytes.last() as nat);
        }
        if init.len() > 0 {
            assert(init[0] == bytes[0]);
        }
        lemma_minimal_is_be_bytes(init);
        assert(init.push(bytes.last()) =~= bytes);
    }
}

/// The length of the shortest form grows with the number.
pub proof fn lemma_be_bytes_len_monotonic(m: nat, n: nat)
    requires
        m <= n,
    ensures
        be_bytes(m).len() <= be_bytes(n).len(),
    decreases n,
{
    if m > 0 {
        lemma_be_bytes_len_monotonic(m / 256, n / 256);
    }
}

pub proof fn lemma_be_fixed_len(n: nat, width: nat)
    ensures
        be_fixed(n, width).len() == width,
    decreases width,
{
    if width > 0 {
        lemma_be_fixed_len(n / 256, (width - 1) as nat);
    }
}

/// The fixed-width form of a number that fits denotes that number.
pub proof fn lemma_be_fixed_value(n: nat, width: nat)
    requires
        n < pow256(width),
    ensures
        be_value(be_fixed(n, width)) == n,
    decreases width,
{
    if width > 0 {
        lemma_be_fixed_value(n / 256, (width - 1) as nat);
        lemma_be_value_push(be_fixed(n / 256, (width - 1) as nat), (n % 256) as u8);
    }
}

/// Every sequence is the fixed-width form, in its own length, of the number
/// it denotes.
pub proof fn lemma_be_fixed_of_value(bytes: Seq<u8>)
    ensures
        be_fixed(be_value(bytes), bytes.len()) == bytes,
    decreases bytes.len(),
{
    if bytes.len() > 0 {
        let init = bytes.drop_last();
        let value = be_value(bytes);
        assert(value / 256 == be_value(init) && value % 256 == bytes.last() as nat) by {
            assert(value == be_value(init) * 256 + bytes.last() as nat);
        }
        lemma_be_fixed_of_value(init);
        assert(init.push(bytes.last()) =~= bytes);
    }
}

/// The fixed-width form is the shortest form with zero bytes in front.
pub proof fn lemma_be_fixed_padding(n: nat, width: nat)
    requires
        be_bytes(n).len() <= width,
    ensures
        be_fixed(n, width) == zeros((width - be_bytes(n).len()) as nat) + be_bytes(n),
    decreases width,
{
    if width == 0 {
        assert(be_fixed(n, width) =~= zeros(0) + be_bytes(n));
    } else if n == 0 {
        lemma_be_fixed_padding(0, (width - 1) as nat);
        assert(be_fixed(0, width) =~= zeros(width) + be_bytes(0));
    } else {
        lemma_be_fixed_padding(n / 256, (width - 1) as nat);
        assert(be_fixed(n, width) =~= zeros((width - be_bytes(n).len()) as nat) + be_bytes(n));
    }
}

/// The shortest form of a number below `256^width` has at most `width` bytes.
pub proof fn lemma_be_bytes_len_bound(n: nat, width: nat)
    requires
        n < pow256(width),
    ensures
        be_bytes(n).len() <= width,
    decreases width,
{
    if n > 0 {
        lemma_be_bytes_len_bound(n / 256, (width - 1) as nat);
    }
}

/// Of two sequences of one length, the order byte by byte is the order of
/// the numbers they denote.
pub proof fn lemma_compare_bytewise(a: Seq<u8>, b: Seq<u8>)
    requires
        a.len() == b.len(),
    ensures
        compare_bytewise(a, b) == compare_ints(be_value(a) as int, be_value(b) as int),
    decreases a.len(),
{
    if a.len() > 0 {
        let weight = pow256((a.len() - 1) as nat);
        lemma_be_value_first(a);
        lemma_be_value_first(b);
        lemma_be_value_bound(a.drop_first());
        lemma_be_value_bound(b.drop_first());
        lemma_compare_bytewise(a.drop_first(), b.drop_first());
        if a[0] < b[0] {
            assert(a[0] as nat * weight + weight <= b[0] as nat * weight) by (nonlinear_arith)
                requires
                    a[0] as nat + 1 <= b[0] as nat,
            ;
        } else if a[0] > b[0] {
            assert(b[0] as nat * weight + weight <= a[0] as nat * weight) by (nonlinear_arith)
                requires
                    b[0] as nat + 1 <= a[0] as nat,
            ;
        }
    }
}

/// Of two shortest forms, the order by length and then byte by byte is the
/// order of the numbers they denote.
pub proof fn lemma_compare_magnitudes(a: Seq<u8>, b: Seq<u8>)
    requires
        is_minimal(a),
        is_minimal(b),
    ensures
        compare_magnitudes(a, b) == compare_ints(be_value(a) as int, be_value(b) as int),
{
    if a.len() < b.len() {
        lemma_be_value_bound(a);
        lemma_be_value_lower(b);
        lemma_pow256_monotonic(a.len(), (b.len() - 1) as nat);
    } else if a.len() > b.len() {
        lemma_be_value_bound(b);
        lemma_be_value_lower(a);
        lemma_pow256_monotonic(b.len(), (a.len() - 1) as nat);
    } else {
        lemma_compare_bytewise(a, b);
    }
}

/// Digits denote zero exactly when all of them are zero.
pub proof fn lemma_zero_digits(digits: Seq<u8>)
    ensures
        be_value(digits) == 0 <==> forall|i: int| 0 <= i < digits.len() ==> digits[i] == 0,
    decreases digits.len(),
{
    if digits.len() > 0 {
        lemma_zero_digits(digits.drop_last());
        if be_value(digits) == 0 {
            assert forall|i: int| 0 <= i < digits.len() implies digits[i] == 0 by {
                if i < digits.len() - 1 {
                    assert(digits.drop_last()[i] == digits[i]);
                }
            }
        } else {
            if forall|i: int| 0 <= i < digits.len() ==> digits[i] == 0 {
                assert forall|i: int| 0 <= i < digits.drop_last().len() implies digits.drop_last()[i]
                    == 0 by {
                    assert(digits.drop_last()[i] == digits[i]);
                }
                assert(false);
            }
        }
    }
}

/// The integer with the given sign and magnitude.
pub open spec fn signed(negative: bool, magnitude: nat) -> int {
    if negative {
        -(magnitude as int)
    } else {
        magnitude as int
    }
}

/// The number of bytes of the shortest two's complement form of `value`:
/// as few as leave the top bit for the sign. Zero has none.
pub open spec fn signed_width(value: int) -> nat {
    if value >= 0 {
        let digits = be_bytes(value as nat);
        if digits.len() > 0 && digits[0] >= 128 {
            digits.len() + 1
        } else {
            digits.len()
        }
    } else {
        let len = be_bytes((-value) as nat).len();
        if 2 * (-value) <= pow256(len) {
            len
        } else {
            len + 1
        }
    }
}

/// The shortest two's complement form of `value`, most significant byte
/// first.
pub open spec fn signed_be_bytes(value: int) -> Seq<u8> {
    if value >= 0 {
        be_fixed(value as nat, signed_width(value))
    } else {
        be_fixed((pow256(signed_width(value)) + value) as nat, signed_width(value))
    }
}

/// The integer that `bytes` denotes in two's complement, most significant
/// byte first. No bytes denote zero.
pub open spec fn signed_value_of(bytes: Seq<u8>) -> int {
    if bytes.len() > 0 && bytes[0] >= 128 {
        be_value(bytes) - pow256(bytes.len())
    } else {
        be_value(bytes) as int
    }
}

/// A sequence whose first byte is below 128 denotes less than half of what
/// its length allows, and one whose first byte is not, not.
pub proof fn lemma_top_bit(bytes: Seq<u8>)
    requires
        bytes.len() > 0,
    ensures
        bytes[0] >= 128 <==> 2 * be_value(bytes) >= pow256(bytes.len()),
{
    lemma_be_value_first(bytes);
    lemma_be_value_bound(bytes.drop_first());
    let weight = pow256((bytes.len() - 1) as nat);
    let first = bytes[0] as nat;
    if first >= 128 {
        assert(first * weight >= 128 * weight) by (nonlinear_arith)
            requires
                first >= 128,
                weight >= 0,
        ;
    } else {
        assert(first * weight + weight <= 128 * weight) by (nonlinear_arith)
            requires
                first + 1 <= 128,
                weight >= 0,
        ;
    }
}

/// The width of the two's complement form leaves room for the number and
/// the sign.
pub proof fn lemma_signed_width(value: int)
    ensures
        value >= 0 ==> 2 * value < pow256(signed_width(value)) || value == 0,
        value < 0 ==> 2 * (-value) <= pow256(signed_width(value)) && signed_width(value) > 0,
{
    if value > 0 {
        let magnitude = value as nat;
        let digits = be_bytes(magnitude);
        lemma_be_bytes_value(magnitude);
        lemma_be_bytes_minimal(magnitude);
        lemma_top_bit(digits);
        lemma_be_value_bound(digits);
    } else if value < 0 {
        let magnitude = (-value) as nat;
        let digits = be_bytes(magnitude);
        lemma_be_bytes_value(magnitude);
        lemma_be_value_bound(digits);
    }
}

/// Round trip of the two's complement form: it denotes the integer it was
/// made for.
pub proof fn lemma_signed_round_trip(value: int)
    ensures
        signed_value_of(signed_be_bytes(value)) == value,
        signed_be_bytes(value).len() == signed_width(value),
{
    let width = signed_width(value);
    lemma_signed_width(value);
    if value == 0 {
        lemma_be_fixed_len(0, width);
    } else if value > 0 {
        let bytes = signed_be_bytes(value);
        lemma_be_fixed_len(value as nat, width);
        lemma_be_fixed_value(value as nat, width);
        lemma_top_bit(bytes);
    } else {
        let shifted = (pow256(width) + value) as nat;
        let bytes = signed_be_bytes(value);
        lemma_be_fixed_len(shifted, width);
        lemma_be_fixed_value(shifted, width);
        lemma_top_bit(bytes);
    }
}

} // verus!
