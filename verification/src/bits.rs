//! The arithmetic of bits within a payload.
//!
//! Signal values are defined here as sums of bits times powers of two, and
//! the facts that tie shifts and masks to that arithmetic are proved.

use vstd::prelude::*;
use vstd::arithmetic::power2::{pow2, lemma2_to64, lemma_pow2_pos, lemma_pow2_unfold, lemma_pow2_strictly_increases};
use vstd::bits::{lemma_u8_shr_is_div, lemma_u64_shl_is_mul, lemma_u64_pow2_no_overflow};

verus! {

/// Bit `k` of a byte, counted from the least significant bit.
pub open spec fn byte_bit(b: u8, k: nat) -> nat {
    (b as nat / pow2(k)) % 2
}

/// Bit `pos` of the payload in Intel numbering: bit `pos mod 8`, counted from
/// the least significant one, of byte `pos / 8`. Beyond the payload every bit
/// is zero.
pub open spec fn little_endian_bit(payload: Seq<u8>, pos: int) -> nat {
    if 0 <= pos && pos / 8 < payload.len() {
        byte_bit(payload[pos / 8], (pos % 8) as nat)
    } else {
        0
    }
}

/// Bit `pos` of the payload in Motorola numbering: bit `pos mod 8`, counted
/// from the most significant one, of byte `pos / 8`. Beyond the payload every
/// bit is zero.
pub open spec fn big_endian_bit(payload: Seq<u8>, pos: int) -> nat {
    if 0 <= pos && pos / 8 < payload.len() {
        byte_bit(payload[pos / 8], (7 - pos % 8) as nat)
    } else {
        0
    }
}

/// The value of the `length` bits from `start` on, the first bit being the
/// least significant: bit `start + i` has weight `2^i`.
pub open spec fn little_endian_value(payload: Seq<u8>, start: int, length: nat) -> nat
    decreases length,
{
    if length == 0 {
        0
    } else {
        little_endian_value(payload, start, (length - 1) as nat) + little_endian_bit(
            payload,
            start + length - 1,
        ) * pow2((length - 1) as nat)
    }
}

/// The value of the `length` bits from `start` on, the first bit being the
/// most significant: bit `start + i` has weight `2^(length - 1 - i)`.
pub open spec fn big_endian_value(payload: Seq<u8>, start: int, length: nat) -> nat
    decreases length,
{
    if length == 0 {
        0
    } else {
        2 * big_endian_value(payload, start, (length - 1) as nat) + big_endian_bit(
            payload,
            start + length - 1,
        )
    }
}

/// A 64-bit pattern read as a two's complement number.
pub open spec fn as_signed(value: u64) -> int {
    if value < 0x8000_0000_0000_0000 {
        value as int
    } else {
        value - 0x1_0000_0000_0000_0000
    }
}

/// The low `bit_length` bits of `value` read as a two's complement number:
/// where bit `bit_length - 1` is set, the bits above it count as set too,
/// otherwise the whole pattern is read as it stands. With 64 bits or more the
/// pattern is read as it stands.
pub open spec fn sign_extended(value: u64, bit_length: nat) -> int {
    if 1 <= bit_length < 64 && (value as nat / pow2((bit_length - 1) as nat)) % 2 == 1 {
        (value as nat % pow2(bit_length)) - pow2(bit_length)
    } else {
        as_signed(value)
    }
}

/// A little-endian value of `length` bits is below `2^length`.
pub proof fn lemma_little_endian_value_bound(payload: Seq<u8>, start: int, length: nat)
    ensures
        little_endian_value(payload, start, length) < pow2(length),
    decreases length,
{
    if length == 0 {
        lemma2_to64();
    } else {
        lemma_little_endian_value_bound(payload, start, (length - 1) as nat);
        lemma_pow2_unfold(length);
        let p = pow2((length - 1) as nat);
        let b = little_endian_bit(payload, start + length - 1);
        assert(b <= 1);
        assert(b * p <= p) by (nonlinear_arith)
            requires
                b <= 1,
                p >= 0,
        ;
    }
}

/// A big-endian value of `length` bits is below `2^length`.
pub proof fn lemma_big_endian_value_bound(payload: Seq<u8>, start: int, length: nat)
    ensures
        big_endian_value(payload, start, length) < pow2(length),
    decreases length,
{
    if length == 0 {
        lemma2_to64();
    } else {
        lemma_big_endian_value_bound(payload, start, (length - 1) as nat);
        lemma_pow2_unfold(length);
    }
}

/// Shifting a byte right by `k` and masking with one yields bit `k`.
pub proof fn lemma_shifted_bit(b: u8, k: u8)
    requires
        k < 8,
    ensures
        ((b >> k) & 1) as nat == byte_bit(b, k as nat),
        (b >> k) & 1 <= 1,
{
    lemma_u8_shr_is_div(b, k);
    let s = b >> k;
    assert(s & 1 == s % 2) by (bit_vector);
}

/// Setting bit `i` of a pattern below `2^i` adds `2^i` to it.
pub proof fn lemma_or_bit_adds(r: u64, bit: u64, i: u64)
    requires
        i < 64,
        bit <= 1,
        (r as nat) < pow2(i as nat),
    ensures
        (r | (bit << i)) as nat == r + bit * pow2(i as nat),
        ((r | (bit << i)) as nat) < pow2((i + 1) as nat),
{
    lemma_u64_pow2_no_overflow(i as nat);
    lemma_u64_shl_is_mul(1, i);
    lemma_pow2_unfold((i + 1) as nat);
    let p = 1u64 << i;
    assert(p as nat == pow2(i as nat));
    assert(r < p);
    if bit == 0 {
        assert(r | (0u64 << i) == r) by (bit_vector);
    } else {
        assert(bit == 1);
        assert(r | (1u64 << i) == r + (1u64 << i)) by (bit_vector)
            requires
                i < 64,
                r < (1u64 << i),
        ;
    }
}

/// Shifting a pattern below `2^63` left by one and setting the lowest bit
/// doubles it and adds the bit.
pub proof fn lemma_shift_in_bit(r: u64, bit: u64)
    requires
        r < 0x8000_0000_0000_0000,
        bit <= 1,
    ensures
        ((r << 1) | bit) as nat == 2 * r + bit,
{
    assert(((r << 1) | bit) == 2 * r + bit) by (bit_vector)
        requires
            r < 0x8000_0000_0000_0000,
            bit <= 1,
    ;
}

/// Converting a 64-bit pattern to a signed integer reads it as two's
/// complement.
pub proof fn lemma_cast_is_as_signed(value: u64)
    ensures
        (value as i64) as int == as_signed(value),
{
    if value < 0x8000_0000_0000_0000 {
        assert((value as i64) as int == value as int) by (bit_vector)
            requires
                value < 0x8000_0000_0000_0000,
        ;
    } else {
        assert((value as i64) as int == value as int - 0x1_0000_0000_0000_0000) by (bit_vector)
            requires
                value >= 0x8000_0000_0000_0000,
        ;
    }
}

/// The test of the sign bit and the filling of the bits above it, in terms of
/// arithmetic.
pub proof fn lemma_sign_bit(value: u64, l: u64)
    requires
        1 <= l < 64,
    ensures
        (value & (1u64 << ((l - 1) as u64)) != 0) <==> (value as nat / pow2((l - 1) as nat)) % 2 == 1,
        ((value | (!0u64 << l)) as i64) as int == (value as nat % pow2(l as nat)) - pow2(l as nat),
{
    let k = (l - 1) as u64;
    lemma_u64_pow2_no_overflow(l as nat);
    lemma_u64_pow2_no_overflow(k as nat);
    lemma_u64_shl_is_mul(1, l);
    lemma_u64_shl_is_mul(1, k);
    vstd::bits::lemma_u64_shr_is_div(value, k);
    let q = value >> k;
    assert((value & (1u64 << k) != 0) <==> (q & 1 == 1)) by (bit_vector)
        requires
            k < 64,
            q == value >> k,
    ;
    assert(q & 1 == q % 2) by (bit_vector);
    let p = 1u64 << l;
    assert(p as nat == pow2(l as nat));
    let w = value | (!0u64 << l);
    let m = (p - 1) as u64;
    let low = value & m;
    vstd::bits::lemma_u64_low_bits_mask_is_mod(value, l as nat);
    assert(m as nat == vstd::bits::low_bits_mask(l as nat));
    assert(low as nat == value as nat % pow2(l as nat));
    assert(w >= 0x8000_0000_0000_0000 && w - (0xFFFF_FFFF_FFFF_FFFFu64 - p + 1) == low) by (bit_vector)
        requires
            1 <= l < 64,
            p == 1u64 << l,
            m == p - 1,
            w == value | (!0u64 << l),
            low == value & m,
    ;
    lemma_cast_is_as_signed(w);
}

/// The bits of a byte, each with its weight, add up to the byte.
pub proof fn lemma_byte_is_sum_of_bits(b: u8)
    ensures
        b as nat == byte_bit(b, 0) + byte_bit(b, 1) * 2 + byte_bit(b, 2) * 4 + byte_bit(b, 3) * 8
            + byte_bit(b, 4) * 16 + byte_bit(b, 5) * 32 + byte_bit(b, 6) * 64 + byte_bit(b, 7)
            * 128,
{
    lemma2_to64();
    assert(b == (b / 1) % 2 + ((b / 2) % 2) * 2 + ((b / 4) % 2) * 4 + ((b / 8) % 2) * 8 + ((b
        / 16) % 2) * 16 + ((b / 32) % 2) * 32 + ((b / 64) % 2) * 64 + ((b / 128) % 2) * 128)
        by (bit_vector);
}

/// The first `n` bits of a byte, read as a little-endian signal from the
/// first bit of the byte on, are the byte modulo `2^n`.
pub proof fn lemma_little_endian_low_bits(payload: Seq<u8>, k: int, n: nat)
    requires
        0 <= k < payload.len(),
        n <= 8,
    ensures
        little_endian_value(payload, 8 * k, n) == payload[k] as nat % pow2(n),
    decreases n,
{
    lemma2_to64();
    if n > 0 {
        lemma_little_endian_low_bits(payload, k, (n - 1) as nat);
        let b = payload[k] as nat;
        let low = pow2((n - 1) as nat);
        assert((8 * k + n - 1) / 8 == k && (8 * k + n - 1) % 8 == n - 1);
        lemma_pow2_pos((n - 1) as nat);
        lemma_pow2_unfold(n);
        vstd::arithmetic::div_mod::lemma_breakdown(b as int, low as int, 2);
        assert(((b / low) % 2) * low == low * ((b / low) % 2)) by (nonlinear_arith);
    }
}

/// A little-endian signal of 8 bits that starts at the first bit of a byte
/// is that byte.
pub proof fn lemma_little_endian_byte(payload: Seq<u8>, k: int)
    requires
        0 <= k < payload.len(),
    ensures
        little_endian_value(payload, 8 * k, 8) == payload[k],
{
    lemma_little_endian_low_bits(payload, k, 8);
    lemma2_to64();
}

/// A big-endian signal of 8 bits that starts at the first bit of a byte is
/// that byte.
pub proof fn lemma_big_endian_aligned_byte(payload: Seq<u8>, k: int)
    requires
        0 <= k < payload.len(),
    ensures
        big_endian_value(payload, 8 * k, 8) == payload[k],
{
    reveal_with_fuel(big_endian_value, 9);
    lemma2_to64();
    lemma_byte_is_sum_of_bits(payload[k]);
    assert forall|j: int| 0 <= j < 8 implies #[trigger] big_endian_bit(payload, 8 * k + j)
        == byte_bit(payload[k], (7 - j) as nat) by {
        assert((8 * k + j) / 8 == k);
        assert((8 * k + j) % 8 == j);
    }
    assert(big_endian_bit(payload, 8 * k + 0) == byte_bit(payload[k], 7));
    assert(big_endian_bit(payload, 8 * k + 1) == byte_bit(payload[k], 6));
    assert(big_endian_bit(payload, 8 * k + 2) == byte_bit(payload[k], 5));
    assert(big_endian_bit(payload, 8 * k + 3) == byte_bit(payload[k], 4));
    assert(big_endian_bit(payload, 8 * k + 4) == byte_bit(payload[k], 3));
    assert(big_endian_bit(payload, 8 * k + 5) == byte_bit(payload[k], 2));
    assert(big_endian_bit(payload, 8 * k + 6) == byte_bit(payload[k], 1));
    assert(big_endian_bit(payload, 8 * k + 7) == byte_bit(payload[k], 0));
}

/// A big-endian signal of 8 bits that starts at bit `8k + 7` takes its
/// highest bit from the lowest bit of byte `k` and its other seven bits from
/// the upper seven bits of byte `k + 1`.
pub proof fn lemma_big_endian_from_last_bit(payload: Seq<u8>, k: int)
    requires
        0 <= k,
        k + 1 < payload.len(),
    ensures
        big_endian_value(payload, 8 * k + 7, 8) == (payload[k] % 2) * 128 + payload[k + 1] / 2,
{
    reveal_with_fuel(big_endian_value, 9);
    lemma2_to64();
    let a = payload[k];
    let b = payload[k + 1];
    lemma_byte_is_sum_of_bits(b);
    assert((8 * k + 7) / 8 == k && (8 * k + 7) % 8 == 7);
    assert(big_endian_bit(payload, 8 * k + 7 + 0) == byte_bit(a, 0));
    assert forall|j: int| 1 <= j < 8 implies #[trigger] big_endian_bit(payload, 8 * k + 7 + j)
        == byte_bit(b, (8 - j) as nat) by {
        assert((8 * k + 7 + j) / 8 == k + 1);
        assert((8 * k + 7 + j) % 8 == j - 1);
    }
    assert(big_endian_bit(payload, 8 * k + 7 + 1) == byte_bit(b, 7));
    assert(big_endian_bit(payload, 8 * k + 7 + 2) == byte_bit(b, 6));
    assert(big_endian_bit(payload, 8 * k + 7 + 3) == byte_bit(b, 5));
    assert(big_endian_bit(payload, 8 * k + 7 + 4) == byte_bit(b, 4));
    assert(big_endian_bit(payload, 8 * k + 7 + 5) == byte_bit(b, 3));
    assert(big_endian_bit(payload, 8 * k + 7 + 6) == byte_bit(b, 2));
    assert(big_endian_bit(payload, 8 * k + 7 + 7) == byte_bit(b, 1));
    assert(b / 2 == ((b / 2) % 2) + ((b / 4) % 2) * 2 + ((b / 8) % 2) * 4 + ((b / 16) % 2) * 8
        + ((b / 32) % 2) * 16 + ((b / 64) % 2) * 32 + ((b / 128) % 2) * 64) by (bit_vector);
}

/// A big-endian signal of 8 bits that starts at bit `8k + 7` is byte `k`
/// for exactly those payloads in which byte `k` repeats, one place lower,
/// the bits that the signal is made of.
pub proof fn lemma_big_endian_byte(payload: Seq<u8>, k: int)
    requires
        0 <= k,
        k + 1 < payload.len(),
        payload[k] == (payload[k] % 2) * 128 + payload[k + 1] / 2,
    ensures
        big_endian_value(payload, 8 * k + 7, 8) == payload[k],
{
    lemma_big_endian_from_last_bit(payload, k);
}

/// Sign extension reads a value of `bit_length` bits as two's complement:
/// a value below `2^(bit_length - 1)` stands for itself, any other for
/// itself less `2^bit_length`.
pub proof fn lemma_sign_extension(value: u64, bit_length: nat)
    requires
        1 <= bit_length <= 63,
        (value as nat) < pow2(bit_length),
    ensures
        sign_extended(value, bit_length) == if (value as nat) < pow2((bit_length - 1) as nat) {
            value as int
        } else {
            value - pow2(bit_length)
        },
{
    let half = pow2((bit_length - 1) as nat);
    lemma_pow2_unfold(bit_length);
    lemma_pow2_pos((bit_length - 1) as nat);
    lemma2_to64();
    vstd::arithmetic::power2::lemma2_to64_rest();
    if bit_length < 63 {
        lemma_pow2_strictly_increases(bit_length, 63);
    }
    let v = value as nat;
    assert(v < 2 * half);
    if v < half {
        assert(v / half == 0) by (nonlinear_arith)
            requires
                v < half,
                half > 0,
        ;
    } else {
        assert(v / half == 1) by (nonlinear_arith)
            requires
                half <= v < 2 * half,
                half > 0,
        ;
        assert(v % pow2(bit_length) == v) by (nonlinear_arith)
            requires
                v < pow2(bit_length),
        ;
    }
}

/// A byte with bit `k`, counted from the least significant bit, replaced.
pub open spec fn byte_with_bit(b: u8, k: u8, bit: u8) -> u8 {
    (b & !(1u8 << k)) | (bit << k)
}

/// A payload with the bit at `pos` in Intel numbering replaced; a position
/// beyond the payload changes nothing.
pub open spec fn with_little_endian_bit(payload: Seq<u8>, pos: int, bit: u8) -> Seq<u8> {
    if 0 <= pos && pos / 8 < payload.len() {
        payload.update(pos / 8, byte_with_bit(payload[pos / 8], (pos % 8) as u8, bit))
    } else {
        payload
    }
}

/// A payload with the bit at `pos` in Motorola numbering replaced; a
/// position beyond the payload changes nothing.
pub open spec fn with_big_endian_bit(payload: Seq<u8>, pos: int, bit: u8) -> Seq<u8> {
    if 0 <= pos && pos / 8 < payload.len() {
        payload.update(pos / 8, byte_with_bit(payload[pos / 8], (7 - pos % 8) as u8, bit))
    } else {
        payload
    }
}

/// A payload with a little-endian signal written into it: bit `i` of the
/// value becomes bit `start + i` of the payload.
pub open spec fn with_little_endian_value(
    payload: Seq<u8>,
    start: int,
    length: nat,
    value: nat,
) -> Seq<u8>
    decreases length,
{
    if length == 0 {
        payload
    } else {
        with_little_endian_bit(
            with_little_endian_value(payload, start, (length - 1) as nat, value),
            start + length - 1,
            ((value / pow2((length - 1) as nat)) % 2) as u8,
        )
    }
}

/// A payload with a big-endian signal written into it: bit `length - 1 - i`
/// of the value becomes bit `start + i` of the payload.
pub open spec fn with_big_endian_value(payload: Seq<u8>, start: int, length: nat, value: nat) -> Seq<
    u8,
>
    decreases length,
{
    if length == 0 {
        payload
    } else {
        with_big_endian_bit(
            with_big_endian_value(payload, start, (length - 1) as nat, value / 2),
            start + length - 1,
            (value % 2) as u8,
        )
    }
}

/// Replacing bit `k` of a byte sets that bit and leaves the others.
pub proof fn lemma_byte_with_bit(b: u8, k: u8, bit: u8, j: u8)
    requires
        k < 8,
        j < 8,
        bit <= 1,
    ensures
        byte_bit(byte_with_bit(b, k, bit), j as nat) == if j == k {
            bit as nat
        } else {
            byte_bit(b, j as nat)
        },
{
    let changed = byte_with_bit(b, k, bit);
    lemma_shifted_bit(changed, j);
    lemma_shifted_bit(b, j);
    assert(((((b & !(1u8 << k)) | (bit << k)) >> j) & 1) == if j == k {
        bit
    } else {
        (b >> j) & 1
    }) by (bit_vector)
        requires
            k < 8,
            j < 8,
            bit <= 1,
    ;
}

/// Replacing a bit of a payload in Intel numbering sets that bit and leaves
/// the others.
pub proof fn lemma_with_little_endian_bit(payload: Seq<u8>, pos: int, bit: u8, q: int)
    requires
        bit <= 1,
    ensures
        with_little_endian_bit(payload, pos, bit).len() == payload.len(),
        little_endian_bit(with_little_endian_bit(payload, pos, bit), q) == if q == pos && 0 <= pos
            && pos / 8 < payload.len() {
            bit as nat
        } else {
            little_endian_bit(payload, q)
        },
{
    if 0 <= pos && pos / 8 < payload.len() && 0 <= q && q / 8 == pos / 8 {
        lemma_byte_with_bit(payload[pos / 8], (pos % 8) as u8, bit, (q % 8) as u8);
    }
}

/// Replacing a bit of a payload in Motorola numbering sets that bit and
/// leaves the others.
pub proof fn lemma_with_big_endian_bit(payload: Seq<u8>, pos: int, bit: u8, q: int)
    requires
        bit <= 1,
    ensures
        with_big_endian_bit(payload, pos, bit).len() == payload.len(),
        big_endian_bit(with_big_endian_bit(payload, pos, bit), q) == if q == pos && 0 <= pos && pos
            / 8 < payload.len() {
            bit as nat
        } else {
            big_endian_bit(payload, q)
        },
{
    if 0 <= pos && pos / 8 < payload.len() && 0 <= q && q / 8 == pos / 8 {
        lemma_byte_with_bit(payload[pos / 8], (7 - pos % 8) as u8, bit, (7 - q % 8) as u8);
    }
}

/// Writing a little-endian signal sets the bits of the signal that lie
/// within the payload to the bits of the value and leaves all others.
pub proof fn lemma_little_endian_written_bit(
    payload: Seq<u8>,
    start: int,
    length: nat,
    value: nat,
    q: int,
)
    requires
        0 <= start,
    ensures
        with_little_endian_value(payload, start, length, value).len() == payload.len(),
        little_endian_bit(with_little_endian_value(payload, start, length, value), q) == if start
            <= q < start + length && q / 8 < payload.len() {
            (value / pow2((q - start) as nat)) % 2
        } else {
            little_endian_bit(payload, q)
        },
    decreases length,
{
    if length > 0 {
        let before = with_little_endian_value(payload, start, (length - 1) as nat, value);
        lemma_little_endian_written_bit(payload, start, (length - 1) as nat, value, q);
        lemma_with_little_endian_bit(
            before,
            start + length - 1,
            ((value / pow2((length - 1) as nat)) % 2) as u8,
            q,
        );
    }
}

/// Writing a big-endian signal sets the bits of the signal that lie within
/// the payload to the bits of the value and leaves all others.
pub proof fn lemma_big_endian_written_bit(
    payload: Seq<u8>,
    start: int,
    length: nat,
    value: nat,
    q: int,
)
    requires
        0 <= start,
    ensures
        with_big_endian_value(payload, start, length, value).len() == payload.len(),
        big_endian_bit(with_big_endian_value(payload, start, length, value), q) == if start <= q
            < start + length && q / 8 < payload.len() {
            (value / pow2((start + length - 1 - q) as nat)) % 2
        } else {
            big_endian_bit(payload, q)
        },
    decreases length,
{
    if length > 0 {
        let before = with_big_endian_value(payload, start, (length - 1) as nat, value / 2);
        lemma_big_endian_written_bit(payload, start, (length - 1) as nat, value / 2, q);
        lemma_with_big_endian_bit(before, start + length - 1, (value % 2) as u8, q);
        lemma2_to64();
        let written = with_big_endian_value(payload, start, length, value);
        assert(written == with_big_endian_bit(before, start + length - 1, (value % 2) as u8));
        if q == start + length - 1 {
            assert(value / pow2(0) == value);
        } else if start <= q < start + length - 1 {
            let e = (start + length - 2 - q) as nat;
            lemma_pow2_unfold(e + 1);
            lemma_pow2_pos(e);
            vstd::arithmetic::div_mod::lemma_div_denominator(value as int, 2, pow2(e) as int);
            assert(2 * pow2(e) == pow2(e + 1));
            assert((value / 2) / pow2(e) == value / pow2(e + 1));
            assert((start + length - 1 - q) as nat == e + 1);
        }
    }
}

/// The first `m` bits of a written little-endian signal read back as the
/// value modulo `2^m`.
pub proof fn lemma_little_endian_read_back(
    payload: Seq<u8>,
    start: int,
    length: nat,
    value: nat,
    m: nat,
)
    requires
        0 <= start,
        m <= length,
        start + length <= 8 * payload.len(),
    ensures
        little_endian_value(with_little_endian_value(payload, start, length, value), start, m)
            == value % pow2(m),
    decreases m,
{
    lemma2_to64();
    if m > 0 {
        let written = with_little_endian_value(payload, start, length, value);
        lemma_little_endian_read_back(payload, start, length, value, (m - 1) as nat);
        lemma_little_endian_written_bit(payload, start, length, value, start + m - 1);
        let low = pow2((m - 1) as nat);
        lemma_pow2_pos((m - 1) as nat);
        lemma_pow2_unfold(m);
        vstd::arithmetic::div_mod::lemma_breakdown(value as int, low as int, 2);
        assert(low * 2 == pow2(m));
        assert(((value / low) % 2) * low == low * ((value / low) % 2)) by (nonlinear_arith);
    }
}

/// The first `m` bits of a written big-endian signal read back as the upper
/// `m` bits of the value.
pub proof fn lemma_big_endian_read_back(
    payload: Seq<u8>,
    start: int,
    length: nat,
    value: nat,
    m: nat,
)
    requires
        0 <= start,
        m <= length,
        start + length <= 8 * payload.len(),
    ensures
        big_endian_value(with_big_endian_value(payload, start, length, value), start, m) == (value
            / pow2((length - m) as nat)) % pow2(m),
    decreases m,
{
    lemma2_to64();
    if m > 0 {
        lemma_big_endian_read_back(payload, start, length, value, (m - 1) as nat);
        lemma_big_endian_written_bit(payload, start, length, value, start + m - 1);
        let shift = pow2((length - m) as nat);
        let w = value / shift;
        lemma_pow2_pos((length - m) as nat);
        lemma_pow2_pos((m - 1) as nat);
        lemma_pow2_unfold(m);
        lemma_pow2_unfold((length - m + 1) as nat);
        vstd::arithmetic::div_mod::lemma_div_denominator(value as int, shift as int, 2);
        assert(shift * 2 == pow2((length - m + 1) as nat));
        assert(w / 2 == value / pow2((length - m + 1) as nat));
        vstd::arithmetic::div_mod::lemma_breakdown(w as int, 2, pow2((m - 1) as nat) as int);
        assert(2 * pow2((m - 1) as nat) == pow2(m));
    } else {
        assert(pow2(0) == 1);
    }
}

/// Writing a little-endian signal into a payload that has room for it and
/// extracting it again yields the value written.
pub proof fn lemma_little_endian_round_trip(payload: Seq<u8>, start: int, length: nat, value: nat)
    requires
        0 <= start,
        start + length <= 8 * payload.len(),
        value < pow2(length),
    ensures
        little_endian_value(with_little_endian_value(payload, start, length, value), start, length)
            == value,
{
    lemma_little_endian_read_back(payload, start, length, value, length);
    vstd::arithmetic::div_mod::lemma_small_mod(value, pow2(length));
}

/// Writing a big-endian signal into a payload that has room for it and
/// extracting it again yields the value written.
pub proof fn lemma_big_endian_round_trip(payload: Seq<u8>, start: int, length: nat, value: nat)
    requires
        0 <= start,
        start + length <= 8 * payload.len(),
        value < pow2(length),
    ensures
        big_endian_value(with_big_endian_value(payload, start, length, value), start, length)
            == value,
{
    lemma_big_endian_read_back(payload, start, length, value, length);
    lemma2_to64();
    vstd::arithmetic::div_mod::lemma_small_mod(value, pow2(length));
}

} // verus!
