//! Decimal values stored as big-endian two's-complement byte strings.

use vstd::prelude::*;

verus! {

/// `256` to the power `n`.
pub open spec fn pow256(n: nat) -> nat
    decreases n,
{
    if n == 0 {
        1
    } else {
        256 * pow256((n - 1) as nat)
    }
}

/// The natural number that `bytes` spells in base 256, most significant byte first.
pub open spec fn be_unsigned(bytes: Seq<u8>) -> nat
    decreases bytes.len(),
{
    if bytes.len() == 0 {
        0
    } else {
        be_unsigned(bytes.drop_last()) * 256 + bytes.last() as nat
    }
}

/// Whether the most significant stored byte has its sign bit set.
pub open spec fn is_negative(bytes: Seq<u8>) -> bool {
    bytes.len() > 0 && bytes[0] >= 128
}

/// The integer that `bytes` spells in big-endian two's complement of width `bytes.len()`.
/// The empty string spells zero.
pub open spec fn be_signed(bytes: Seq<u8>) -> int {
    if is_negative(bytes) {
        be_unsigned(bytes) - pow256(bytes.len())
    } else {
        be_unsigned(bytes) as int
    }
}

/// A power of 256 is at least one.
pub proof fn lemma_pow256_positive(n: nat)
    ensures
        pow256(n) >= 1,
    decreases n,
{
    if n > 0 {
        lemma_pow256_positive((n - 1) as nat);
    }
}

/// The powers of 256 grow with the exponent.
pub proof fn lemma_pow256_monotonic(a: nat, b: nat)
    requires
        a <= b,
    ensures
        pow256(a) <= pow256(b),
    decreases b,
{
    if a < b {
        lemma_pow256_monotonic(a, (b - 1) as nat);
    }
}

/// Exponents add where powers multiply.
pub proof fn lemma_pow256_adds(a: nat, b: nat)
    ensures
        pow256(a + b) == pow256(a) * pow256(b),
    decreases a,
{
    if a == 0 {
        assert(pow256(a) == 1);
        assert(a + b == b);
        assert(1 * pow256(b) == pow256(b));
    } else {
        let a1 = (a - 1) as nat;
        lemma_pow256_adds(a1, b);
        assert((a + b - 1) as nat == a1 + b);
        assert(pow256(a + b) == 256 * pow256(a1 + b));
        assert(pow256(a) == 256 * pow256(a1));
        let x = pow256(a1);
        let y = pow256(b);
        assert(256 * (x * y) == (256 * x) * y) by (nonlinear_arith);
    }
}

/// The powers of 256 at the width of a 128-bit integer: `2^120` and `2^128`.
pub proof fn lemma_pow256_values()
    ensures
        pow256(15) == 0x1_0000_0000_0000_0000_0000_0000_0000_00,
        pow256(16) == 0x1_0000_0000_0000_0000_0000_0000_0000_0000,
{
    reveal_with_fuel(pow256, 17);
}

/// The unsigned value is below `256^len`, and the sign bit splits that range in half.
pub proof fn lemma_be_unsigned_bounds(bytes: Seq<u8>)
    ensures
        be_unsigned(bytes) < pow256(bytes.len()),
        is_negative(bytes) ==> 2 * be_unsigned(bytes) >= pow256(bytes.len()),
        bytes.len() > 0 && !is_negative(bytes) ==> 2 * be_unsigned(bytes) < pow256(bytes.len()),
    decreases bytes.len(),
{
    if bytes.len() == 0 {
    } else {
        let init = bytes.drop_last();
        let last = bytes.last() as nat;
        let upper_part = be_unsigned(init);
        let lower = pow256(init.len());
        assert(be_unsigned(bytes) == upper_part * 256 + last);
        assert(pow256(bytes.len()) == 256 * lower);
        if bytes.len() == 1 {
            assert(upper_part == 0);
            assert(lower == 1);
            assert(bytes.last() == bytes[0]);
        } else {
            lemma_be_unsigned_bounds(init);
            assert(init[0] == bytes[0]);
            assert(is_negative(init) == is_negative(bytes));
        }
    }
}

/// A value of `n` bytes lies in the signed range of `n` bytes.
pub proof fn lemma_be_signed_bounds(bytes: Seq<u8>)
    ensures
        -(pow256(bytes.len()) as int) <= 2 * be_signed(bytes) < pow256(bytes.len()),
{
    lemma_be_unsigned_bounds(bytes);
    lemma_pow256_positive(bytes.len());
}

/// Appending one byte to a non-empty string multiplies the signed value by 256 and adds the byte.
pub proof fn lemma_be_signed_push(bytes: Seq<u8>, b: u8)
    requires
        bytes.len() > 0,
    ensures
        be_signed(bytes.push(b)) == be_signed(bytes) * 256 + b,
{
    let next = bytes.push(b);
    assert(next.drop_last() =~= bytes);
    assert(next.last() == b);
    assert(next[0] == bytes[0]);
    assert(pow256(next.len()) == 256 * pow256(bytes.len()));
}

/// Converts a big-endian two's-complement byte string of at most 16 bytes
/// into the signed 128-bit integer it stands for, extending the sign bit of
/// the first byte to the full width.
pub fn convert_i128(value: &[u8], n: usize) -> (r: i128)
    requires
        n == value@.len(),
        n <= 16,
    ensures
        r == be_signed(value@),
{
    if n == 0 {
        return 0;
    }
    let first: u8 = value[0];
    let mut acc: i128 = if first >= 128 {
        first as i128 - 256
    } else {
        first as i128
    };
    proof {
        let one = value@.take(1);
        assert(one.drop_last().len() == 0);
        assert(be_unsigned(one.drop_last()) == 0);
        assert(one.last() == first);
        assert(pow256(1) == 256) by {
            reveal_with_fuel(pow256, 2);
        }
    }
    let mut i: usize = 1;
    while i < n
        invariant
            1 <= i <= n,
            n == value@.len(),
            n <= 16,
            acc == be_signed(value@.take(i as int)),
        decreases n - i,
    {
        let b: u8 = value[i];
        proof {
            let prefix = value@.take(i as int);
            lemma_be_signed_push(prefix, b);
            assert(prefix.push(b) =~= value@.take(i + 1));
            lemma_be_signed_bounds(prefix);
            lemma_be_signed_bounds(value@.take(i + 1));
            lemma_pow256_monotonic(i as nat, 15);
            lemma_pow256_monotonic((i + 1) as nat, 16);
            lemma_pow256_values();
        }
        acc = acc * 256 + b as i128;
        i = i + 1;
    }
    proof {
        assert(value@.take(n as int) =~= value@);
    }
    acc
}

/// Concatenation shifts the left part by the width of the right part.
pub proof fn lemma_be_unsigned_concat(a: Seq<u8>, b: Seq<u8>)
    ensures
        be_unsigned(a + b) == be_unsigned(a) * pow256(b.len()) + be_unsigned(b),
    decreases b.len(),
{
    if b.len() == 0 {
        assert(a + b =~= a);
        assert(be_unsigned(a) * 1 == be_unsigned(a));
    } else {
        let b1 = b.drop_last();
        lemma_be_unsigned_concat(a, b1);
        assert((a + b).drop_last() =~= a + b1);
        assert((a + b).last() == b.last());
        let x = be_unsigned(a);
        let y = pow256(b1.len());
        assert(pow256(b.len()) == 256 * y);
        assert((x * y) * 256 == x * (256 * y)) by (nonlinear_arith);
    }
}

/// `k` copies of the byte that extends the sign of `bytes`.
pub open spec fn sign_fill(bytes: Seq<u8>, k: nat) -> Seq<u8> {
    Seq::new(k, |i: int| if is_negative(bytes) { 255u8 } else { 0u8 })
}

proof fn lemma_be_unsigned_fill(bytes: Seq<u8>, k: nat)
    ensures
        is_negative(bytes) ==> be_unsigned(sign_fill(bytes, k)) == pow256(k) - 1,
        !is_negative(bytes) ==> be_unsigned(sign_fill(bytes, k)) == 0,
    decreases k,
{
    if k > 0 {
        lemma_be_unsigned_fill(bytes, (k - 1) as nat);
        assert(sign_fill(bytes, k).drop_last() =~= sign_fill(bytes, (k - 1) as nat));
    }
}

/// Sign extension keeps the value: padding on the left with copies of the
/// sign byte does not change what the string spells.
pub proof fn lemma_sign_extension(bytes: Seq<u8>, k: nat)
    ensures
        be_signed(sign_fill(bytes, k) + bytes) == be_signed(bytes),
{
    let pad = sign_fill(bytes, k);
    let all = pad + bytes;
    lemma_be_unsigned_concat(pad, bytes);
    lemma_be_unsigned_fill(bytes, k);
    lemma_pow256_adds(k, bytes.len());
    if is_negative(bytes) {
        assert(is_negative(all)) by {
            if k > 0 {
                assert(all[0] == pad[0]);
            } else {
                assert(all[0] == bytes[0]);
            }
        }
        let x = pow256(k) as int;
        let y = pow256(bytes.len()) as int;
        assert((x - 1) * y == x * y - y) by (nonlinear_arith);
    } else {
        assert(!is_negative(all)) by {
            if all.len() > 0 {
                if k > 0 {
                    assert(all[0] == pad[0]);
                } else {
                    assert(all[0] == bytes[0]);
                }
            }
        }
        assert(0 * pow256(bytes.len()) == 0);
    }
}

/// A signed 256-bit integer, held as the two 128-bit halves of its two's-complement form.
#[derive(Clone, Copy, Debug, PartialEq, Eq)]
pub struct Int256 {
    /// The upper half, which carries the sign.
    pub hi: i128,
    /// The lower half.
    pub lo: u128,
}

impl View for Int256 {
    type V = int;

    /// The integer that the two halves stand for: `hi * 2^128 + lo`.
    open spec fn view(&self) -> int {
        self.hi * pow256(16) + self.lo
    }
}

/// `ethnum::I256::new`, read back through `ethnum::I256::into_words`: the
/// 256-bit integer made from a 128-bit one has the same value.  `new` fills
/// the upper word with the sign of `x` and keeps `x` as the lower word.
#[verifier::external_body]
pub(crate) fn i256_from_i128(x: i128) -> (r: Int256)
    ensures
        r@ == x,
{
    let (hi, lo) = ethnum::I256::new(x).into_words();
    Int256 { hi, lo: lo as u128 }
}

/// `ethnum::I256::from_be_bytes`, read back through
/// `ethnum::I256::into_words`: the 32 bytes are taken as one big-endian
/// two's-complement number.
#[verifier::external_body]
fn i256_from_be_bytes(bytes: [u8; 32]) -> (r: Int256)
    ensures
        r@ == be_signed(bytes@),
{
    let (hi, lo) = ethnum::I256::from_be_bytes(bytes).into_words();
    Int256 { hi, lo: lo as u128 }
}

/// Converts a big-endian two's-complement byte string of at most 32 bytes
/// into the signed 256-bit integer it stands for, extending the sign bit of
/// the first byte to the full width.
pub fn convert_i256(value: &[u8]) -> (r: Int256)
    requires
        value@.len() <= 32,
    ensures
        r@ == be_signed(value@),
{
    let n: usize = value.len();
    let fill: u8 = if n > 0 && value[0] >= 128 {
        255
    } else {
        0
    };
    let pad: usize = 32 - n;
    let mut bytes: [u8; 32] = [fill;32];
    let mut j: usize = 0;
    while j < n
        invariant
            j <= n,
            n == value@.len(),
            pad + n == 32,
            fill == if is_negative(value@) { 255u8 } else { 0u8 },
            forall|i: int| 0 <= i < pad ==> bytes@[i] == fill,
            forall|i: int| 0 <= i < j ==> bytes@[pad + i] == value@[i],
        decreases n - j,
    {
        bytes[pad + j] = value[j];
        j = j + 1;
    }
    proof {
        assert(bytes@ =~= sign_fill(value@, pad as nat) + value@);
        lemma_sign_extension(value@, pad as nat);
    }
    i256_from_be_bytes(bytes)
}

/// The big-endian two's-complement form of `v` in `width` bytes: the low
/// `width` base-256 digits of `v`, most significant first.
pub open spec fn be_encode(v: int, width: nat) -> Seq<u8>
    decreases width,
{
    if width == 0 {
        Seq::empty()
    } else {
        be_encode(v / 256, (width - 1) as nat).push((v % 256) as u8)
    }
}

/// Whether `v` lies in the signed range of `width` bytes,
/// `-2^(8 width - 1) <= v < 2^(8 width - 1)`.
pub open spec fn fits_width(v: int, width: nat) -> bool {
    width > 0 && -(pow256(width) as int) <= 2 * v < pow256(width)
}

/// A value written in `width` bytes takes `width` bytes.
pub proof fn lemma_be_encode_len(v: int, width: nat)
    ensures
        be_encode(v, width).len() == width,
    decreases width,
{
    if width > 0 {
        lemma_be_encode_len(v / 256, (width - 1) as nat);
    }
}

/// Dropping the last base-256 digit of a value that fits in `512 * h`
/// leaves a value that fits in `2 * h`.
proof fn lemma_drop_digit(v: int, h: int)
    requires
        h > 0,
        -(256 * h) <= v < 256 * h,
    ensures
        -h <= v / 256 < h,
{
}

/// Round trip: a value written in any width that holds it, its minimal
/// width among them, reads back as itself.  The sign is restored from the
/// first byte alone, for negative and non-negative values alike.
pub proof fn lemma_decode_encode(v: int, width: nat)
    requires
        fits_width(v, width),
    ensures
        be_encode(v, width).len() == width,
        be_signed(be_encode(v, width)) == v,
    decreases width,
{
    lemma_be_encode_len(v, width);
    let w1 = (width - 1) as nat;
    let q = v / 256;
    let digit = (v % 256) as u8;
    let s = be_encode(v, width);
    assert(pow256(width) == 256 * pow256(w1));
    assert(digit == v % 256);
    assert(v == q * 256 + v % 256);
    assert(s == be_encode(q, w1).push(digit));
    if width == 1 {
        assert(pow256(w1) == 1);
        assert(be_encode(q, w1) =~= Seq::<u8>::empty());
        assert(s.drop_last() =~= Seq::<u8>::empty());
        assert(be_unsigned(s.drop_last()) == 0);
        assert(s.last() == digit);
        assert(s[0] == digit);
        assert(be_unsigned(s) == digit);
    } else {
        let w2 = (w1 - 1) as nat;
        assert(pow256(w1) == 256 * pow256(w2));
        lemma_pow256_positive(w2);
        lemma_drop_digit(v, 128 * (pow256(w2) as int));
        assert(fits_width(q, w1));
        lemma_decode_encode(q, w1);
        lemma_be_signed_push(be_encode(q, w1), digit);
    }
}

/// The other way round: the value that a byte string spells, written in
/// the width of the string, is the string.  So two strings of one width that
/// spell one value are one string.
pub proof fn lemma_encode_decode(bytes: Seq<u8>)
    ensures
        be_encode(be_signed(bytes), bytes.len()) == bytes,
    decreases bytes.len(),
{
    if bytes.len() == 0 {
        assert(be_encode(be_signed(bytes), 0) =~= bytes);
    } else {
        let init = bytes.drop_last();
        let last = bytes.last();
        let v = be_signed(bytes);
        assert(bytes =~= init.push(last));
        if init.len() == 0 {
            assert(be_unsigned(init) == 0);
            assert(pow256(1) == 256) by {
                reveal_with_fuel(pow256, 2);
            }
            assert(bytes[0] == last);
            assert(v % 256 == last);
            assert(be_encode(v / 256, 0) =~= init);
        } else {
            lemma_be_signed_push(init, last);
            assert(v == be_signed(init) * 256 + last);
            assert(v / 256 == be_signed(init));
            assert(v % 256 == last);
            lemma_encode_decode(init);
        }
        assert(be_encode(v, bytes.len()) == be_encode(v / 256, init.len()).push((v % 256) as u8));
    }
}

/// Whether `width` is the least number of bytes that hold `v`.
pub open spec fn is_minimal_width(v: int, width: nat) -> bool {
    fits_width(v, width) && forall|u: nat| fits_width(v, u) ==> width <= u
}

/// The least number of bytes that hold `v`.
pub open spec fn minimal_width(v: int) -> nat {
    choose|width: nat| is_minimal_width(v, width)
}

/// A value that some width holds has a minimal width, no greater.
pub proof fn lemma_minimal_width(v: int, bound: nat)
    requires
        fits_width(v, bound),
    ensures
        is_minimal_width(v, minimal_width(v)),
        1 <= minimal_width(v) <= bound,
    decreases bound,
{
    if exists|u: nat| u < bound && fits_width(v, u) {
        let u = choose|u: nat| u < bound && fits_width(v, u);
        lemma_minimal_width(v, u);
    } else {
        assert(is_minimal_width(v, bound));
    }
}

/// Every signed 128-bit integer fits in 16 bytes, and its minimal width is
/// from 1 to 16: written in 16 bytes or in its minimal width, it reads back
/// as itself, the two ends of the range included.
pub proof fn lemma_i128_round_trip(v: i128)
    ensures
        fits_width(v as int, 16),
        be_signed(be_encode(v as int, 16)) == v,
        1 <= minimal_width(v as int) <= 16,
        be_signed(be_encode(v as int, minimal_width(v as int))) == v,
{
    lemma_pow256_values();
    lemma_decode_encode(v as int, 16);
    lemma_minimal_width(v as int, 16);
    lemma_decode_encode(v as int, minimal_width(v as int));
}

/// Every value of `Int256` fits in 32 bytes, and its minimal width is from
/// 1 to 32: written in 32 bytes or in its minimal width, it reads back as
/// itself, the values beyond 128 bits included.
pub proof fn lemma_i256_round_trip(v: Int256)
    ensures
        fits_width(v@, 32),
        be_signed(be_encode(v@, 32)) == v@,
        1 <= minimal_width(v@) <= 32,
        be_signed(be_encode(v@, minimal_width(v@))) == v@,
{
    lemma_pow256_values();
    lemma_pow256_adds(16, 16);
    let p = pow256(16) as int;
    assert(pow256(32) == p * p);
    let hi = v.hi as int;
    assert(-(p * p) <= 2 * (hi * p) && 2 * (hi * p) + 2 * p <= p * p) by (nonlinear_arith)
        requires
            -p <= 2 * hi,
            2 * hi + 2 <= p,
            p > 0,
    ;
    lemma_decode_encode(v@, 32);
    lemma_minimal_width(v@, 32);
    lemma_decode_encode(v@, minimal_width(v@));
}

} // verus!
