//! The uniform codec adapter over the three compression backends.
//!
//! Every backend offers the same two operations: compress a null-free byte
//! sequence, and decompress a payload under the original-length bound that
//! the container header carries. The adapter owns the shared validation:
//! the null-byte check on the way in, the payload floor, the length bound,
//! and the UTF-8 check on the way out.

use vstd::prelude::*;

use vstd::utf8::{encode_utf8, valid_utf8};

use crate::bridge::{
    block_of, bytes_to_string, deflate_of, frame_of, inflate_of, raw_block_compress,
    raw_block_decompress, raw_deflate_compress, raw_deflate_decompress, raw_frame_compress,
    raw_frame_decompress, unblock_of, unframe_of,
};
use crate::errors::CodecError;

verus! {

/// The three interchangeable compression backends.
#[derive(Debug, Clone, Copy, PartialEq, Eq, Structural)]
pub enum Backend {
    /// The deflate-family codec (zlib streams).
    Deflate,
    /// The fast block codec, which does not record the original length.
    Block,
    /// The modern frame codec.
    Frame,
}

/// The payload a backend produces for `data`.
pub open spec fn compressed_of(backend: Backend, data: Seq<u8>) -> Seq<u8> {
    match backend {
        Backend::Deflate => deflate_of(data),
        Backend::Block => block_of(data),
        Backend::Frame => frame_of(data),
    }
}

/// What a backend yields for `payload` under the output bound `limit`.
pub open spec fn decompressed_of(backend: Backend, payload: Seq<u8>, limit: nat) -> Option<
    Seq<u8>,
> {
    match backend {
        Backend::Deflate => inflate_of(payload, limit),
        Backend::Block => unblock_of(payload, limit),
        Backend::Frame => unframe_of(payload, limit),
    }
}

/// Whether `data` holds an embedded zero byte, which no backend carries.
fn contains_zero(data: &[u8]) -> (r: bool)
    ensures
        r == data@.contains(0u8),
{
    let mut i: usize = 0;
    while i < data.len()
        invariant
            i <= data@.len(),
            forall|j: int| 0 <= j < i ==> data@[j] != 0,
        decreases data@.len() - i,
    {
        if data[i] == 0 {
            return true;
        }
        i = i + 1;
    }
    false
}

/// Compresses `data` with the chosen backend.
///
/// Rejects text holding an embedded zero byte; otherwise the payload is the
/// backend's compressed form of the bytes, and only the frame backend may
/// report a failure of its own.
pub fn backend_compress(backend: Backend, data: &[u8]) -> (r: Result<Vec<u8>, CodecError>)
    ensures
        r matches Ok(v) ==> !data@.contains(0u8) && v@ == compressed_of(backend, data@)
            && v@.len() >= 1,
        r matches Err(e) ==> e == CodecError::InvalidInput || e == CodecError::BackendFailure,
        (r matches Err(e) && e == CodecError::InvalidInput) <==> data@.contains(0u8),
        backend != Backend::Frame && !data@.contains(0u8) ==> r is Ok,
{
    if contains_zero(data) {
        return Err(CodecError::InvalidInput);
    }
    match backend {
        Backend::Deflate => Ok(raw_deflate_compress(data)),
        Backend::Block => Ok(raw_block_compress(data)),
        Backend::Frame => match raw_frame_compress(data) {
            Some(v) => Ok(v),
            None => Err(CodecError::BackendFailure),
        },
    }
}

/// Decompresses `payload` with the chosen backend, bounded by `size_hint`
/// (the original byte length from the container header), and validates the
/// result as text.
///
/// An empty payload is structurally too small. For the block backend the
/// hint is authoritative: its format does not record the original length,
/// so an output of any other length is rejected. The round-trip promise:
/// any payload the same backend compressed from valid text of exactly the
/// hinted length decompresses to exactly that text.
pub fn backend_decompress(backend: Backend, payload: &[u8], size_hint: u64) -> (r: Result<
    String,
    CodecError,
>)
    ensures
        (r matches Err(e) && e == CodecError::InputTooSmall) <==> payload@.len() == 0,
        r matches Err(e) ==> e == CodecError::InputTooSmall || e == CodecError::BackendFailure
            || e == CodecError::InvalidUtf8,
        r matches Ok(s) ==> decompressed_of(backend, payload@, size_hint as nat) == Some(
            encode_utf8(s@),
        ) && (backend == Backend::Block ==> encode_utf8(s@).len() == size_hint),
        (r matches Err(e) && e == CodecError::InvalidUtf8) ==> (decompressed_of(
            backend,
            payload@,
            size_hint as nat,
        ) matches Some(v) && !valid_utf8(v)),
        backend != Backend::Frame && (r matches Err(e) && e == CodecError::BackendFailure)
            ==> size_hint > usize::MAX || decompressed_of(backend, payload@, size_hint as nat)
            is None || (decompressed_of(backend, payload@, size_hint as nat) matches Some(v)
            && backend == Backend::Block && v.len() != size_hint),
        forall|t: Seq<u8>|
            payload@ == compressed_of(backend, t) && compressed_of(backend, t).len() >= 1
                && t.len() == size_hint && size_hint <= usize::MAX && valid_utf8(t) ==> (
            r matches Ok(s) && encode_utf8(s@) == t),
{
    if payload.len() == 0 {
        return Err(CodecError::InputTooSmall);
    }
    if size_hint > usize::MAX as u64 {
        return Err(CodecError::BackendFailure);
    }
    let limit = size_hint as usize;
    let raw = match backend {
        Backend::Deflate => raw_deflate_decompress(payload, limit),
        Backend::Block => raw_block_decompress(payload, limit),
        Backend::Frame => raw_frame_decompress(payload, limit),
    };
    let bytes = match raw {
        Some(v) => v,
        None => {
            return Err(CodecError::BackendFailure);
        },
    };
    let exact_length_required = match backend {
        Backend::Block => true,
        _ => false,
    };
    if exact_length_required && bytes.len() as u64 != size_hint {
        return Err(CodecError::BackendFailure);
    }
    match bytes_to_string(bytes) {
        Some(s) => Ok(s),
        None => Err(CodecError::InvalidUtf8),
    }
}

} // verus!
