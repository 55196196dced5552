//! The length-prefixed container format.
//!
//! A container is the varint encoding of the original text's byte length,
//! followed by the backend's compressed payload. The header is decoded and
//! checked here, before any backend call: a corrupted header is rejected by
//! the container, never handed through.

use vstd::prelude::*;

use vstd::slice::slice_subrange;
use vstd::string::StringSliceAdditionalSpecFns;
use vstd::utf8::{encode_utf8, encode_utf8_decode_utf8, encode_utf8_valid_utf8, valid_utf8};

use crate::adapter::{
    backend_compress, backend_decompress, compressed_of, decompressed_of, Backend,
};
use crate::errors::CodecError;
use crate::varint;
use crate::varint::{
    lemma_varint_decode_len, lemma_varint_minimal, lemma_varint_round_trip_extra, varint_decode,
    varint_encode,
};

verus! {

/// `data` is exactly the container `backend` produces for the text bytes
/// `text`: its varint-encoded length followed by its compressed form.
pub open spec fn is_container_for(data: Seq<u8>, backend: Backend, text: Seq<u8>) -> bool {
    &&& text.len() <= u64::MAX
    &&& text.len() <= usize::MAX
    &&& compressed_of(backend, text).len() >= 1
    &&& data == varint_encode(text.len()) + compressed_of(backend, text)
}

/// The contract of `compress`: success yields exactly the container for the
/// text's bytes, an embedded zero byte is rejected as `InvalidInput` and
/// nothing else is, and only the frame backend may fail on clean input.
pub open spec fn compress_contract(
    backend: Backend,
    text: Seq<u8>,
    r: Result<Vec<u8>, CodecError>,
) -> bool {
    &&& (r matches Ok(c) ==> is_container_for(c@, backend, text))
    &&& ((r matches Err(e) && e == CodecError::InvalidInput) <==> text.contains(0u8))
    &&& (r matches Err(e) ==> e == CodecError::InvalidInput || e == CodecError::BackendFailure)
    &&& (backend != Backend::Frame && !text.contains(0u8) ==> r is Ok)
}

/// The contract of `decompress`: each structural error comes exactly on the
/// inputs that force it, a successful result is the text whose bytes the
/// backend yields for the payload under the header's bound, and — the round
/// trip — the container built for any text decompresses to that text.
pub open spec fn decompress_contract(
    backend: Backend,
    data: Seq<u8>,
    r: Result<String, CodecError>,
) -> bool {
    &&& ((r matches Err(e) && e == CodecError::EmptyInput) <==> data.len() == 0)
    &&& ((r matches Err(e) && e == CodecError::InputTooSmall) <==> (data.len() == 1 || (
    varint_decode(data) matches Ok(h) && data.len() >= 2 && (h.1 as int) == data.len())))
    &&& ((r matches Err(e) && e == CodecError::CorruptHeader) <==> (data.len() >= 2
        && varint_decode(data) is Err))
    &&& (r matches Ok(s) ==> (varint_decode(data) matches Ok(h) && data.len() >= 2 && (
    h.1 as int) < data.len() && decompressed_of(backend, data.skip(h.1 as int), h.0 as nat)
        == Some(encode_utf8(s@))))
    &&& ((r matches Err(e) && e == CodecError::InvalidUtf8) ==> (varint_decode(
        data,
    ) matches Ok(h) && decompressed_of(backend, data.skip(h.1 as int), h.0 as nat) matches Some(v)
        && !valid_utf8(v)))
    &&& (backend != Backend::Frame && (r matches Err(e) && e == CodecError::BackendFailure) ==> (
    varint_decode(data) matches Ok(h) && (h.0 > usize::MAX || decompressed_of(
        backend,
        data.skip(h.1 as int),
        h.0 as nat,
    ) is None || (decompressed_of(backend, data.skip(h.1 as int), h.0 as nat) matches Some(v)
        && backend == Backend::Block && v.len() != h.0))))
    &&& (forall|cs: Seq<char>|
        is_container_for(data, backend, encode_utf8(cs)) ==> (r matches Ok(s) && s@ == cs))
}

/// A container is never shorter than two bytes: one byte of header and one
/// byte of payload.
proof fn lemma_no_small_container(data: Seq<u8>, backend: Backend)
    requires
        data.len() < 2,
    ensures
        forall|cs: Seq<char>| !is_container_for(data, backend, encode_utf8(cs)),
{
    assert forall|cs: Seq<char>| !is_container_for(data, backend, encode_utf8(cs)) by {
        if is_container_for(data, backend, encode_utf8(cs)) {
            let t = encode_utf8(cs);
            lemma_varint_minimal(t.len() as u64);
            assert((t.len() as u64) as nat == t.len());
            assert(data.len() >= 2);
        }
    }
}

/// In a container, the header decodes to the text's byte length, occupies
/// fewer bytes than the whole container, and the rest is the payload.
proof fn lemma_container_header(data: Seq<u8>, backend: Backend, cs: Seq<char>)
    requires
        is_container_for(data, backend, encode_utf8(cs)),
    ensures
        ({
            let t = encode_utf8(cs);
            let e = varint_encode(t.len());
            &&& varint_decode(data) == Ok::<(u64, usize), crate::errors::VarintError>(
                (t.len() as u64, e.len() as usize),
            )
            &&& e.len() < data.len()
            &&& data.skip(e.len() as int) == compressed_of(backend, t)
        }),
{
    let t = encode_utf8(cs);
    assert((t.len() as u64) as nat == t.len());
    lemma_varint_round_trip_extra(t.len() as u64, compressed_of(backend, t));
    let e = varint_encode(t.len());
    assert(data.skip(e.len() as int) =~= compressed_of(backend, t));
}

/// Container round trip: whenever `compress` succeeds on a text, feeding its
/// container to `decompress` with the same backend succeeds and returns
/// exactly that text. The two hypotheses are the contracts that the two
/// functions ensure, so the law holds of every pair of calls.
pub proof fn lemma_container_round_trip(
    backend: Backend,
    text: Seq<char>,
    c: Result<Vec<u8>, CodecError>,
    r: Result<String, CodecError>,
)
    requires
        compress_contract(backend, encode_utf8(text), c),
        c matches Ok(v),
        decompress_contract(backend, (c->Ok_0)@, r),
    ensures
        r matches Ok(s) && s@ == text,
{
    assert(is_container_for((c->Ok_0)@, backend, encode_utf8(text)));
}

/// Compresses `text` into a self-describing container: the varint encoding
/// of its byte length, then the backend's compressed payload.
pub fn compress(text: &str, backend: Backend) -> (r: Result<Vec<u8>, CodecError>)
    ensures
        compress_contract(backend, text.spec_bytes(), r),
{
    let data: &[u8] = text.as_bytes();
    let mut payload = match backend_compress(backend, data) {
        Ok(p) => p,
        Err(e) => {
            return Err(e);
        },
    };
    let mut out = varint::encode(data.len() as u64);
    proof {
        assert((data.len() as u64) as nat == data@.len());
    }
    out.append(&mut payload);
    Ok(out)
}

/// Decompresses a container produced by the same backend.
///
/// The header is decoded and validated first: an empty or one-byte input,
/// a header that never terminates or overruns its budget, and a header that
/// leaves no payload are all rejected before any backend call.
pub fn decompress(data: &[u8], backend: Backend) -> (r: Result<String, CodecError>)
    ensures
        decompress_contract(backend, data@, r),
{
    let n = data.len();
    if n < 2 {
        proof {
            lemma_no_small_container(data@, backend);
        }
        if n == 0 {
            return Err(CodecError::EmptyInput);
        }
        return Err(CodecError::InputTooSmall);
    }
    let (orig_len, header_size) = match varint::decode(data) {
        Ok(h) => h,
        Err(_) => {
            proof {
                assert forall|cs: Seq<char>| !is_container_for(data@, backend, encode_utf8(cs)) by {
                    if is_container_for(data@, backend, encode_utf8(cs)) {
                        lemma_container_header(data@, backend, cs);
                    }
                }
            }
            return Err(CodecError::CorruptHeader);
        },
    };
    proof {
        lemma_varint_decode_len(data@);
    }
    if header_size >= n {
        proof {
            assert forall|cs: Seq<char>| !is_container_for(data@, backend, encode_utf8(cs)) by {
                if is_container_for(data@, backend, encode_utf8(cs)) {
                    lemma_container_header(data@, backend, cs);
                }
            }
        }
        return Err(CodecError::InputTooSmall);
    }
    let payload = slice_subrange(data, header_size, n);
    proof {
        assert(payload@ =~= data@.skip(header_size as int));
    }
    let r = backend_decompress(backend, payload, orig_len);
    proof {
        assert forall|cs: Seq<char>|
            is_container_for(data@, backend, encode_utf8(cs)) implies (r matches Ok(s) && s@
            == cs) by {
            lemma_container_header(data@, backend, cs);
            let t = encode_utf8(cs);
            encode_utf8_valid_utf8(cs);
            assert(payload@ == compressed_of(backend, t));
            assert(t.len() == orig_len && orig_len <= usize::MAX);
            let s = r->Ok_0;
            assert(encode_utf8(s@) == t);
            encode_utf8_decode_utf8(cs);
            encode_utf8_decode_utf8(s@);
        }
    }
    r
}

} // verus!
