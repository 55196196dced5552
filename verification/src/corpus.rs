//! Derivation of varint test corpora from raw bytes.
//!
//! `generate_test_values` turns an arbitrary byte string into a batch of
//! 64-bit values worth encoding — its prefixes read as little-endian
//! integers, single bytes placed at each seven-bit position, and a fixed
//! set of boundary values. `test_invalid_varints` feeds systematically
//! corrupted byte strings to the decoder; that it verifies shows the
//! decoder total on every such input.

use vstd::prelude::*;

use vstd::slice::{slice_subrange, slice_to_vec};

use crate::varint;

verus! {

/// The first `k` bytes of `s` read as a little-endian integer.
pub open spec fn le_value(s: Seq<u8>, k: int) -> nat
    decreases k,
{
    if k <= 0 {
        0
    } else {
        (s[k - 1] * pow256(k - 1) + le_value(s, k - 1)) as nat
    }
}

/// 256 to the `k`-th power: the weight of byte `k` in little-endian order.
pub open spec fn pow256(k: int) -> nat
    decreases k,
{
    if k <= 0 {
        1
    } else {
        256 * pow256(k - 1)
    }
}

/// One byte placed at the low end and at the second, third and fourth
/// seven-bit positions of a varint.
pub open spec fn byte_probe_values(b: u8) -> Seq<u64> {
    seq![
        b as u64,
        ((b as int) * 0x80) as u64,
        ((b as int) * 0x4000) as u64,
        ((b as int) * 0x200000) as u64,
    ]
}

/// The probe values of the first `i` bytes of `s`, in order.
pub open spec fn probes_upto(s: Seq<u8>, i: int) -> Seq<u64>
    decreases i,
{
    if i <= 0 {
        Seq::empty()
    } else {
        probes_upto(s, i - 1) + byte_probe_values(s[i - 1])
    }
}

/// Boundary values of the varint encoding: the edges of each encoded
/// length, of the 32-bit range and of the 64-bit range.
pub open spec fn edge_case_values() -> Seq<u64> {
    seq![
        0u64,
        1u64,
        127u64,
        128u64,
        255u64,
        256u64,
        16383u64,
        16384u64,
        65535u64,
        65536u64,
        0xFFFFFu64,
        0x100000u64,
        0x100001u64,
        0xFFFFFFFFu64,
        0x100000000u64,
        0x100000001u64,
        0xFFFFFFFFFFFFFFFEu64,
        0xFFFFFFFFFFFFFFFFu64,
    ]
}

/// Everything `generate_test_values` produces for `s`: the little-endian
/// readings of its one, two, four and eight byte prefixes, the probe values
/// of its first four bytes, and the fixed boundary values.
pub open spec fn test_value_seq(s: Seq<u8>) -> Seq<u64> {
    (if s.len() >= 1 {
        seq![le_value(s, 1) as u64]
    } else {
        Seq::empty()
    }) + (if s.len() >= 2 {
        seq![le_value(s, 2) as u64]
    } else {
        Seq::empty()
    }) + (if s.len() >= 4 {
        seq![le_value(s, 4) as u64]
    } else {
        Seq::empty()
    }) + (if s.len() >= 8 {
        seq![le_value(s, 8) as u64]
    } else {
        Seq::empty()
    }) + probes_upto(
        s,
        if s.len() < 4 {
            s.len() as int
        } else {
            4
        },
    ) + edge_case_values()
}

/// The byte weights of an eight-byte little-endian value, up to and
/// including the weight one past the last byte, all fit a 64-bit word plus
/// one.
proof fn lemma_pow256_bounds(i: int)
    requires
        0 <= i <= 8,
    ensures
        1 <= pow256(i) <= 0x1_0000_0000_0000_0000,
        i <= 7 ==> pow256(i) <= 0x100000000000000,
{
    assert(pow256(0) == 1);
    assert(pow256(1) == 0x100);
    assert(pow256(2) == 0x10000);
    assert(pow256(3) == 0x1000000);
    assert(pow256(4) == 0x100000000);
    assert(pow256(5) == 0x10000000000);
    assert(pow256(6) == 0x1000000000000);
    assert(pow256(7) == 0x100000000000000);
    assert(pow256(8) == 0x10000000000000000);
}

/// A `k`-byte little-endian value is below the weight of byte `k`.
proof fn lemma_le_value_bound(s: Seq<u8>, k: int)
    requires
        0 <= k,
    ensures
        le_value(s, k) < pow256(k),
        pow256(k) >= 1,
    decreases k,
{
    if k > 0 {
        lemma_le_value_bound(s, k - 1);
        assert(s[k - 1] * pow256(k - 1) <= 255 * pow256(k - 1)) by (nonlinear_arith)
            requires
                s[k - 1] <= 255,
                pow256(k - 1) >= 1,
        ;
        assert(255 * pow256(k - 1) + pow256(k - 1) == 256 * pow256(k - 1));
    }
}

/// Reads the first `k` bytes of `data` as a little-endian integer.
fn le_prefix(data: &[u8], k: usize) -> (r: u64)
    requires
        k <= data@.len(),
        k <= 8,
    ensures
        r as nat == le_value(data@, k as int),
{
    let mut acc: u64 = 0;
    let mut w: u64 = 1;
    let mut i: usize = 0;
    while i < k
        invariant
            i <= k,
            k <= data@.len(),
            k <= 8,
            acc as nat == le_value(data@, i as int),
            i < k ==> w as nat == pow256(i as int),
        decreases k - i,
    {
        let b = data[i];
        proof {
            assert(le_value(data@, i + 1) == data@[i as int] * pow256(i as int) + le_value(
                data@,
                i as int,
            ));
            lemma_le_value_bound(data@, i + 1);
            lemma_pow256_bounds(i + 1);
        }
        acc = acc + (b as u64) * w;
        if i + 1 < k {
            proof {
                assert(256 * pow256(i as int) == pow256(i + 1));
            }
            w = w * 256;
        }
        i = i + 1;
    }
    acc
}

/// Derives a batch of values worth round-tripping from raw bytes: the
/// little-endian readings of the input's short prefixes, each of its first
/// four bytes at several seven-bit positions, and the fixed boundary
/// values of the encoding.
#[verifier::rlimit(50)]
pub fn generate_test_values(data: &[u8]) -> (r: Vec<u64>)
    ensures
        r@ == test_value_seq(data@),
{
    let mut values: Vec<u64> = Vec::new();
    if data.len() >= 1 {
        values.push(le_prefix(data, 1));
    }
    if data.len() >= 2 {
        values.push(le_prefix(data, 2));
    }
    if data.len() >= 4 {
        values.push(le_prefix(data, 4));
    }
    if data.len() >= 8 {
        values.push(le_prefix(data, 8));
    }
    let ghost prefix = values@;
    let m: usize = if data.len() < 4 {
        data.len()
    } else {
        4
    };
    let mut i: usize = 0;
    while i < m
        invariant
            i <= m,
            m <= data@.len(),
            m <= 4,
            values@ == prefix + probes_upto(data@, i as int),
        decreases m - i,
    {
        let b = data[i];
        values.push(b as u64);
        values.push((b as u64) * 0x80);
        values.push((b as u64) * 0x4000);
        values.push((b as u64) * 0x200000);
        proof {
            assert(probes_upto(data@, i + 1) == probes_upto(data@, i as int) + byte_probe_values(
                data@[i as int],
            ));
            assert(values@ =~= prefix + probes_upto(data@, i + 1));
        }
        i = i + 1;
    }
    let ghost before_edges = values@;
    values.push(0);
    values.push(1);
    values.push(127);
    values.push(128);
    values.push(255);
    values.push(256);
    values.push(16383);
    values.push(16384);
    values.push(65535);
    values.push(65536);
    values.push(0xFFFFF);
    values.push(0x100000);
    values.push(0x100001);
    values.push(0xFFFFFFFF);
    values.push(0x100000000);
    values.push(0x100000001);
    values.push(0xFFFFFFFFFFFFFFFE);
    values.push(0xFFFFFFFFFFFFFFFF);
    proof {
        assert(values@ =~= before_edges + edge_case_values());
        assert(before_edges == prefix + probes_upto(
            data@,
            if data@.len() < 4 {
                data@.len() as int
            } else {
                4
            },
        ));
        assert(values@ =~= test_value_seq(data@));
    }
    values
}

/// Feeds systematically corrupted varints to the decoder: inputs with every
/// continuation bit forced on, inputs terminated only at the last byte,
/// an overlong all-continuation input, and every truncation of several
/// valid encodings. The decoder must return an error value — never panic —
/// on each.
pub fn test_invalid_varints(data: &[u8]) {
    if data.len() >= 2 {
        let mut corrupted = slice_to_vec(data);
        let mut i: usize = 0;
        while i < corrupted.len()
            invariant
                corrupted@.len() == data@.len(),
            decreases corrupted@.len() - i,
        {
            let b = corrupted[i];
            corrupted.set(i, b | 0x80);
            i = i + 1;
        }
        let _ = varint::decode(corrupted.as_slice());

        let last = corrupted.len() - 1;
        let b = corrupted[last];
        corrupted.set(last, b & 0x7F);
        let _ = varint::decode(corrupted.as_slice());
    }
    if data.len() >= 11 {
        let long_varint = slice_subrange(data, 0, 11);
        let _ = varint::decode(long_varint);
    }
    let probes: [u64; 4] = [128, 16384, 0x100000000, 0xFFFFFFFFFFFFFFFF];
    let mut j: usize = 0;
    while j < 4
        decreases 4 - j,
    {
        let encoded = varint::encode(probes[j]);
        let mut len: usize = 1;
        while len < encoded.len()
            invariant
                len >= 1,
            decreases encoded@.len() - len,
        {
            let truncated = slice_subrange(encoded.as_slice(), 0, len);
            let _ = varint::decode(truncated);
            len = len + 1;
        }
        j = j + 1;
    }
}

} // verus!
