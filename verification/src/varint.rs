//! Variable-length encoding of unsigned 64-bit integers.
//!
//! Each byte carries seven value bits in its low bits and a continuation
//! flag in its high bit; chunks are stored least-significant first. An
//! encoding is minimal: one byte per started seven-bit group, at least one
//! byte, at most ten.

use vstd::prelude::*;

use vstd::arithmetic::div_mod::{
    lemma_add_mod_noop, lemma_div_denominator, lemma_fundamental_div_mod,
    lemma_fundamental_div_mod_converse, lemma_mod_multiples_vanish, lemma_mul_mod_noop_left,
    lemma_mul_mod_noop_right, lemma_small_mod,
};
use vstd::arithmetic::power2::{lemma2_to64, lemma_pow2_adds, pow2};
use vstd::arithmetic::power::{lemma_pow0, lemma_pow1, lemma_pow_adds, pow};

use crate::errors::VarintError;

verus! {

/// Upper bound on the number of bytes a varint may occupy.
pub const MAX_VARINT_BYTES: usize = 10;

/// The unique minimal varint encoding of `v`.
pub open spec fn varint_encode(v: nat) -> Seq<u8>
    decreases v,
{
    if v < 128 {
        seq![v as u8]
    } else {
        seq![(v % 128 + 128) as u8] + varint_encode(v / 128)
    }
}

/// Decoding of the varint at the front of `s`, after `consumed` continuation
/// bytes have already been read. The value of the remaining chunks is
/// returned unscaled; callers fold it into the already-read low chunks.
/// Reading an eleventh byte is an overflow; running out of input while the
/// continuation bit is set is a truncation.
pub open spec fn varint_decode_from(s: Seq<u8>, consumed: nat) -> Result<(u64, usize), VarintError>
    decreases s.len(),
{
    if s.len() == 0 {
        if consumed == 0 {
            Err(VarintError::EmptyInput)
        } else {
            Err(VarintError::Truncated)
        }
    } else if consumed >= 10 {
        Err(VarintError::Overflow)
    } else if s[0] < 128 {
        Ok((s[0] as u64, 1))
    } else {
        match varint_decode_from(s.drop_first(), consumed + 1) {
            Ok((v, n)) => Ok(
                (
                    ((s[0] - 128 + 128 * (v as int)) % 0x1_0000_0000_0000_0000) as u64,
                    (n + 1) as usize,
                ),
            ),
            Err(e) => Err(e),
        }
    }
}

/// Decoding of the varint at the front of `s`: the value and the exact
/// number of bytes it occupied, or the error the input forces.
pub open spec fn varint_decode(s: Seq<u8>) -> Result<(u64, usize), VarintError> {
    varint_decode_from(s, 0)
}

/// Encodes `value` as its minimal varint byte sequence.
pub fn encode(value: u64) -> (r: Vec<u8>)
    ensures
        r@ == varint_encode(value as nat),
{
    let mut out: Vec<u8> = Vec::new();
    let mut v: u64 = value;
    while v >= 128
        invariant
            varint_encode(value as nat) == out@ + varint_encode(v as nat),
        decreases v,
    {
        out.push((v % 128 + 128) as u8);
        proof {
            assert(varint_encode(v as nat) == seq![(v % 128 + 128) as u8] + varint_encode(
                (v / 128) as nat,
            ));
            assert(out@ + varint_encode((v / 128) as nat) == varint_encode(value as nat));
        }
        v = v / 128;
    }
    out.push(v as u8);
    proof {
        assert(varint_encode(v as nat) =~= seq![v as u8]);
        assert(out@ =~= varint_encode(value as nat));
    }
    out
}

/// The value carried by the low seven bits of each byte of `s`, chunks
/// weighted least-significant first.
pub open spec fn chunks_val(s: Seq<u8>) -> nat
    decreases s.len(),
{
    if s.len() == 0 {
        0
    } else {
        (s[0] % 128) as nat + 128 * chunks_val(s.drop_first())
    }
}

/// One more seven-bit position multiplies the weight by 128.
proof fn lemma_pow128_step(e: nat)
    ensures
        pow(128, e + 1) == 128 * pow(128, e),
{
    lemma_pow1(128);
    lemma_pow_adds(128, 1, e);
}

/// Extending a chunk prefix by one byte adds that byte's chunk at the next
/// seven-bit position.
proof fn lemma_chunks_val_snoc(s: Seq<u8>, i: int)
    requires
        0 <= i < s.len(),
    ensures
        chunks_val(s.take(i + 1)) == chunks_val(s.take(i)) + (s[i] % 128) * pow(128, i as nat),
    decreases i,
{
    if i == 0 {
        assert(s.take(1) =~= seq![s[0]]);
        assert(s.take(1).drop_first() =~= Seq::<u8>::empty());
        assert(s.take(0) =~= Seq::<u8>::empty());
        lemma_pow0(128);
    } else {
        let t = s.drop_first();
        lemma_chunks_val_snoc(t, i - 1);
        assert(s.take(i + 1).drop_first() =~= t.take(i));
        assert(s.take(i).drop_first() =~= t.take(i - 1));
        assert(s.take(i + 1)[0] == s[0]);
        assert(s.take(i)[0] == s[0]);
        assert(t[i - 1] == s[i]);
        lemma_pow128_step((i - 1) as nat);
        assert(pow(128, i as nat) == 128 * pow(128, (i - 1) as nat));
        assert(128 * ((s[i] % 128) * pow(128, (i - 1) as nat)) == (s[i] % 128) * pow(
            128,
            i as nat,
        )) by (nonlinear_arith)
            requires
                pow(128, i as nat) == 128 * pow(128, (i - 1) as nat),
        ;
    }
}

/// If the first clear continuation bit sits at index `k`, within budget,
/// decoding succeeds with the chunk value of the first `k + 1` bytes.
proof fn lemma_decode_from_ok(s: Seq<u8>, consumed: nat, k: int)
    requires
        0 <= k < s.len(),
        k + consumed < 10,
        s[k] < 128,
        forall|j: int| 0 <= j < k ==> s[j] >= 128,
    ensures
        varint_decode_from(s, consumed) == Ok::<(u64, usize), VarintError>(
            ((chunks_val(s.take(k + 1)) % 0x1_0000_0000_0000_0000) as u64, (k + 1) as usize),
        ),
    decreases k,
{
    let m: int = 0x1_0000_0000_0000_0000;
    if k == 0 {
        assert(s.take(1) =~= seq![s[0]]);
        assert(s.take(1).drop_first() =~= Seq::<u8>::empty());
        assert(chunks_val(Seq::<u8>::empty()) == 0);
        assert(chunks_val(s.take(1)) == (s[0] % 128) as nat);
        lemma_small_mod(s[0] as nat, m as nat);
    } else {
        let t = s.drop_first();
        lemma_decode_from_ok(t, consumed + 1, k - 1);
        let x = chunks_val(t.take(k));
        assert(s.take(k + 1).drop_first() =~= t.take(k));
        assert(s.take(k + 1)[0] == s[0]);
        assert(chunks_val(s.take(k + 1)) == (s[0] % 128) as nat + 128 * x);
        let a: int = s[0] - 128;
        assert(a == s[0] % 128);
        assert(chunks_val(s.take(k + 1)) == a + 128 * (x as int));
        let v: u64 = (x % 0x1_0000_0000_0000_0000nat) as u64;
        assert(varint_decode_from(s, consumed) == Ok::<(u64, usize), VarintError>(
            (((a + 128 * (v as int)) % m) as u64, (k + 1) as usize),
        ));
        assert(v as int == (x as int) % m);
        // (a + 128 * (x % m)) % m == (a + 128 * x) % m
        lemma_add_mod_noop(a, 128 * ((x as int) % m), m);
        lemma_mul_mod_noop_right(128, x as int, m);
        lemma_add_mod_noop(a, 128 * (x as int), m);
        assert((a + 128 * (v as int)) % m == (a + 128 * (x as int)) % m);
    }
}

/// A run of continuation bytes that ends with the input, within budget, is a
/// truncated varint.
proof fn lemma_decode_from_truncated(s: Seq<u8>, consumed: nat)
    requires
        1 <= s.len() + consumed,
        s.len() + consumed <= 10,
        forall|j: int| 0 <= j < s.len() ==> s[j] >= 128,
    ensures
        varint_decode_from(s, consumed) == Err::<(u64, usize), VarintError>(VarintError::Truncated),
    decreases s.len(),
{
    if s.len() > 0 {
        lemma_decode_from_truncated(s.drop_first(), consumed + 1);
    }
}

/// A run of continuation bytes that exhausts the byte budget while input
/// remains is an overlong varint.
proof fn lemma_decode_from_overflow(s: Seq<u8>, consumed: nat)
    requires
        s.len() + consumed >= 11,
        consumed <= 10,
        forall|j: int| 0 <= j < 10 - consumed ==> s[j] >= 128,
    ensures
        varint_decode_from(s, consumed) == Err::<(u64, usize), VarintError>(VarintError::Overflow),
    decreases s.len(),
{
    if consumed < 10 {
        lemma_decode_from_overflow(s.drop_first(), consumed + 1);
    }
}

/// Number of binary digits of `v`; zero for zero.
pub open spec fn bit_length(v: nat) -> nat
    decreases v,
{
    if v == 0 {
        0
    } else {
        (1 + bit_length(v / 2)) as nat
    }
}

/// Seven-bit groups in powers of 128 are the same as powers of two.
proof fn lemma_pow128_is_pow2(e: nat)
    ensures
        pow(128, e) == pow2(7 * e),
    decreases e,
{
    lemma2_to64();
    if e == 0 {
        lemma_pow0(128);
    } else {
        lemma_pow128_is_pow2((e - 1) as nat);
        lemma_pow128_step((e - 1) as nat);
        lemma_pow2_adds(7, 7 * ((e - 1) as nat));
    }
}

/// A value below the `k`-th power of 128 encodes in at most `k` bytes.
proof fn lemma_encode_len_le(v: nat, k: nat)
    requires
        1 <= k,
        v < pow(128, k),
    ensures
        varint_encode(v).len() <= k,
    decreases v,
{
    if v >= 128 {
        lemma_pow1(128);
        assert(k != 1);
        lemma_pow128_step((k - 1) as nat);
        lemma_fundamental_div_mod(v as int, 128);
        assert(v / 128 < pow(128, (k - 1) as nat)) by (nonlinear_arith)
            requires
                v < 128 * pow(128, (k - 1) as nat),
                v as int == 128 * ((v as int) / 128) + (v as int) % 128,
                0 <= (v as int) % 128 < 128,
                (v as int) / 128 == v / 128,
        ;
        lemma_encode_len_le(v / 128, (k - 1) as nat);
    }
}

/// No 64-bit value needs more than ten varint bytes.
proof fn lemma_encode_len_max(v: u64)
    ensures
        varint_encode(v as nat).len() <= 10,
{
    lemma_pow128_is_pow2(10);
    lemma2_to64();
    lemma_pow2_adds(64, 6);
    lemma_encode_len_le(v as nat, 10);
}

/// Every byte of an encoding except the last carries the continuation bit;
/// the last byte does not.
proof fn lemma_encode_shape(v: nat)
    ensures
        varint_encode(v).len() >= 1,
        forall|j: int| 0 <= j < varint_encode(v).len() - 1 ==> varint_encode(v)[j] >= 128,
        varint_encode(v)[varint_encode(v).len() - 1] < 128,
    decreases v,
{
    if v >= 128 {
        lemma_encode_shape(v / 128);
        let e = varint_encode(v);
        let t = varint_encode(v / 128);
        assert forall|j: int| 0 <= j < e.len() - 1 implies e[j] >= 128 by {
            if j > 0 {
                assert(e[j] == t[j - 1]);
            }
        }
        assert(e[e.len() - 1] == t[t.len() - 1]);
    }
}

/// Decoding an encoding followed by anything recovers the value and consumes
/// exactly the encoding, whatever budget has already been spent.
proof fn lemma_decode_from_encode(v: u64, extra: Seq<u8>, consumed: nat)
    requires
        consumed + varint_encode(v as nat).len() <= 10,
    ensures
        varint_decode_from(varint_encode(v as nat) + extra, consumed) == Ok::<
            (u64, usize),
            VarintError,
        >((v, varint_encode(v as nat).len() as usize)),
    decreases v,
{
    let e = varint_encode(v as nat);
    let s = e + extra;
    let m: int = 0x1_0000_0000_0000_0000;
    if v < 128 {
        assert(e =~= seq![v as u8]);
        assert(s[0] == v as u8);
    } else {
        let w = v / 128;
        assert((w as nat) == (v as nat) / 128);
        lemma_decode_from_encode(w, extra, consumed + 1);
        assert(s.drop_first() =~= varint_encode(w as nat) + extra);
        assert(s[0] == (v as nat % 128 + 128) as u8);
        lemma_fundamental_div_mod(v as int, 128);
        lemma_small_mod(v as nat, m as nat);
        assert(s[0] - 128 + 128 * (w as int) == v);
    }
}

/// Round trip under trailing data: decoding `encode(v)` with any extra bytes
/// appended yields `v` and consumes exactly the encoding's length.
pub proof fn lemma_varint_round_trip_extra(v: u64, extra: Seq<u8>)
    ensures
        varint_decode(varint_encode(v as nat) + extra) == Ok::<(u64, usize), VarintError>(
            (v, varint_encode(v as nat).len() as usize),
        ),
{
    lemma_encode_len_max(v);
    lemma_decode_from_encode(v, extra, 0);
}

/// Round trip: decoding an encoding yields the encoded value and consumes
/// the whole encoding.
pub proof fn lemma_varint_round_trip(v: u64)
    ensures
        varint_decode(varint_encode(v as nat)) == Ok::<(u64, usize), VarintError>(
            (v, varint_encode(v as nat).len() as usize),
        ),
{
    lemma_varint_round_trip_extra(v, Seq::<u8>::empty());
    assert(varint_encode(v as nat) + Seq::<u8>::empty() =~= varint_encode(v as nat));
}

/// Determinism: the encoding is a function of the value alone, so any two
/// encodings of one value are byte-for-byte identical.
pub proof fn lemma_varint_deterministic(v: u64, r1: Seq<u8>, r2: Seq<u8>)
    requires
        r1 == varint_encode(v as nat),
        r2 == varint_encode(v as nat),
    ensures
        r1 == r2,
{
}

/// A value below the `k`-th power of two has at most `k` binary digits.
proof fn lemma_bit_length_le(v: nat, k: nat)
    requires
        v < pow2(k),
    ensures
        bit_length(v) <= k,
    decreases v,
{
    if v > 0 {
        lemma2_to64();
        assert(k != 0);
        lemma_pow2_adds((k - 1) as nat, 1);
        lemma_fundamental_div_mod(v as int, 2);
        assert(v / 2 < pow2((k - 1) as nat)) by (nonlinear_arith)
            requires
                v < pow2((k - 1) as nat) * 2,
                v as int == 2 * ((v as int) / 2) + (v as int) % 2,
                0 <= (v as int) % 2 < 2,
                (v as int) / 2 == v / 2,
        ;
        lemma_bit_length_le(v / 2, (k - 1) as nat);
    }
}

/// Dividing by 128 removes exactly seven binary digits.
proof fn lemma_bit_length_div128(v: nat)
    requires
        v >= 128,
    ensures
        bit_length(v) == bit_length(v / 128) + 7,
{
    lemma_div_denominator(v as int, 2, 2);
    lemma_div_denominator(v as int, 4, 2);
    lemma_div_denominator(v as int, 8, 2);
    lemma_div_denominator(v as int, 16, 2);
    lemma_div_denominator(v as int, 32, 2);
    lemma_div_denominator(v as int, 64, 2);
    assert(v / 2 / 2 == v / 4);
    assert(v / 4 / 2 == v / 8);
    assert(v / 8 / 2 == v / 16);
    assert(v / 16 / 2 == v / 32);
    assert(v / 32 / 2 == v / 64);
    assert(v / 64 / 2 == v / 128);
    assert(bit_length(v) == 1 + bit_length(v / 2));
    assert(bit_length(v / 2) == 1 + bit_length(v / 4));
    assert(bit_length(v / 4) == 1 + bit_length(v / 8));
    assert(bit_length(v / 8) == 1 + bit_length(v / 16));
    assert(bit_length(v / 16) == 1 + bit_length(v / 32));
    assert(bit_length(v / 32) == 1 + bit_length(v / 64));
    assert(bit_length(v / 64) == 1 + bit_length(v / 128));
}

/// Minimality: the encoding holds exactly one byte per started seven-bit
/// group of the value, at least one byte and at most ten.
pub proof fn lemma_varint_minimal(v: u64)
    ensures
        1 <= varint_encode(v as nat).len() <= 10,
        v == 0 ==> varint_encode(v as nat).len() == 1,
        v > 0 ==> varint_encode(v as nat).len() == (bit_length(v as nat) + 6) / 7,
    decreases v,
{
    lemma2_to64();
    if v < 128 {
        if v > 0 {
            lemma_bit_length_le(v as nat, 7);
            let bl = bit_length(v as nat) as int;
            assert(bl >= 1);
            lemma_fundamental_div_mod_converse(bl + 6, 7, 1, bl - 1);
        }
    } else {
        lemma_varint_minimal(v / 128);
        lemma_bit_length_div128(v as nat);
        lemma_bit_length_le(v as nat, 64);
        let bl = bit_length(v as nat) as int;
        assert(8 <= bl <= 64);
        assert(varint_encode(v as nat).len() == 1 + varint_encode((v as nat) / 128).len());
        let q = (bl - 8) / 7;
        let r = (bl - 8) % 7;
        lemma_fundamental_div_mod(bl - 8, 7);
        lemma_fundamental_div_mod_converse(bl - 1, 7, q + 1, r);
        lemma_fundamental_div_mod_converse(bl + 6, 7, q + 2, r);
    }
}

/// Truncation: every proper nonempty prefix of an encoding fails to decode
/// with `Truncated`; in particular dropping the last byte does.
pub proof fn lemma_varint_truncated(v: u64, m: int)
    requires
        1 <= m < varint_encode(v as nat).len(),
    ensures
        varint_decode(varint_encode(v as nat).take(m)) == Err::<(u64, usize), VarintError>(
            VarintError::Truncated,
        ),
{
    lemma_encode_shape(v as nat);
    lemma_encode_len_max(v);
    lemma_decode_from_truncated(varint_encode(v as nat).take(m), 0);
}

/// A successful decode consumes at least one byte, at most ten, and never
/// more than the input holds.
proof fn lemma_decode_from_len(s: Seq<u8>, consumed: nat)
    ensures
        varint_decode_from(s, consumed) matches Ok(h) ==> 1 <= h.1 && h.1 <= s.len() && h.1
            + consumed <= 10,
    decreases s.len(),
{
    if s.len() > 0 && consumed < 10 && s[0] >= 128 {
        lemma_decode_from_len(s.drop_first(), consumed + 1);
    }
}

/// A successful decode consumes at least one byte, at most ten, and never
/// more than the input holds.
pub proof fn lemma_varint_decode_len(s: Seq<u8>)
    ensures
        varint_decode(s) matches Ok(h) ==> 1 <= h.1 && h.1 <= s.len() && h.1 <= 10,
{
    lemma_decode_from_len(s, 0);
}

/// Overflow: a stream of eleven or more bytes, each carrying the
/// continuation bit, fails to decode with `Overflow`.
pub proof fn lemma_varint_overflow(s: Seq<u8>)
    requires
        s.len() >= 11,
        forall|i: int| 0 <= i < s.len() ==> s[i] >= 128,
    ensures
        varint_decode(s) == Err::<(u64, usize), VarintError>(VarintError::Overflow),
{
    lemma_decode_from_overflow(s, 0);
}

/// Decodes the varint at the front of `bytes`.
///
/// On success the second component is the exact number of bytes the varint
/// occupied, never the input length: trailing bytes are not inspected.
pub fn decode(bytes: &[u8]) -> (r: Result<(u64, usize), VarintError>)
    ensures
        r == varint_decode(bytes@),
{
    let n = bytes.len();
    if n == 0 {
        return Err(VarintError::EmptyInput);
    }
    let mut value: u64 = 0;
    let mut mult: u64 = 1;
    let mut i: usize = 0;
    proof {
        lemma_pow0(128);
        lemma_small_mod(1nat, 0x1_0000_0000_0000_0000nat);
    }
    while i < n
        invariant
            n == bytes@.len(),
            i <= n,
            i <= 10,
            forall|j: int| 0 <= j < i ==> bytes@[j] >= 128,
            value as nat == chunks_val(bytes@.take(i as int)) % 0x1_0000_0000_0000_0000,
            mult as nat == pow(128, i as nat) % 0x1_0000_0000_0000_0000,
        decreases n - i,
    {
        let ghost m: int = 0x1_0000_0000_0000_0000;
        if i == MAX_VARINT_BYTES {
            proof {
                lemma_decode_from_overflow(bytes@, 0);
            }
            return Err(VarintError::Overflow);
        }
        let b = bytes[i];
        let chunk = (b % 128) as u64;
        let add = chunk.wrapping_mul(mult);
        proof {
            let c: int = chunk as int;
            let p = pow(128, i as nat);
            // add == (c * pow(128, i)) % m
            lemma_mul_mod_noop_right(c, p as int, m);
            let a = chunks_val(bytes@.take(i as int));
            lemma_chunks_val_snoc(bytes@, i as int);
            // (value + add) % m == (a + c * p) % m == chunks_val(take(i + 1)) % m
            lemma_add_mod_noop(a as int, c * p, m);
            if value + add > u64::MAX {
                lemma_mod_multiples_vanish(1, value + add - m, m);
                lemma_small_mod((value + add - m) as nat, m as nat);
            } else {
                lemma_small_mod((value + add) as nat, m as nat);
            }
        }
        value = value.wrapping_add(add);
        if b < 128 {
            proof {
                lemma_decode_from_ok(bytes@, 0, i as int);
            }
            return Ok((value, i + 1));
        }
        proof {
            let p = pow(128, i as nat);
            lemma_pow128_step(i as nat);
            assert(pow(128, (i + 1) as nat) == 128 * p);
            lemma_mul_mod_noop_left(p, 128, m);
        }
        mult = mult.wrapping_mul(128);
        i = i + 1;
    }
    proof {
        lemma_decode_from_truncated(bytes@, 0);
    }
    Err(VarintError::Truncated)
}

} // verus!

