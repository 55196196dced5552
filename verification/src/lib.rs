//! A self-describing container format for compressed text.
//!
//! The library wraps three interchangeable compression backends behind one
//! uniform interface: a container is a variable-length integer header holding
//! the byte length of the original text, followed by the backend's compressed
//! payload. The varint codec and the container framing are verified in full;
//! the compression primitives themselves are supplied by outside libraries
//! through a small trusted bridge.

pub mod adapter;
pub mod bridge;
pub mod container;
pub mod corpus;
pub mod errors;
pub mod varint;

use vstd::prelude::*;

use vstd::string::StringSliceAdditionalSpecFns;

use crate::adapter::Backend;
use crate::container::{compress_contract, decompress_contract};

verus! {

/// Compresses `text` into a deflate-backed container.
pub fn compress_rust_string(s: &str) -> (r: Result<Vec<u8>, errors::CodecError>)
    ensures
        compress_contract(Backend::Deflate, s.spec_bytes(), r),
{
    container::compress(s, Backend::Deflate)
}

/// Decompresses a deflate-backed container back into its text.
pub fn decompress_rust_data(compressed_data: &[u8]) -> (r: Result<String, errors::CodecError>)
    ensures
        decompress_contract(Backend::Deflate, compressed_data@, r),
{
    container::decompress(compressed_data, Backend::Deflate)
}

/// Compresses `text` into a block-codec container.
pub fn compress_rust_string_lz4(s: &str) -> (r: Result<Vec<u8>, errors::CodecError>)
    ensures
        compress_contract(Backend::Block, s.spec_bytes(), r),
{
    container::compress(s, Backend::Block)
}

/// Decompresses a block-codec container back into its text.
pub fn decompress_rust_data_lz4(compressed_data: &[u8]) -> (r: Result<String, errors::CodecError>)
    ensures
        decompress_contract(Backend::Block, compressed_data@, r),
{
    container::decompress(compressed_data, Backend::Block)
}

/// Compresses `text` into a frame-codec container.
pub fn compress_rust_string_zstd(s: &str) -> (r: Result<Vec<u8>, errors::CodecError>)
    ensures
        compress_contract(Backend::Frame, s.spec_bytes(), r),
{
    container::compress(s, Backend::Frame)
}

/// Decompresses a frame-codec container back into its text.
pub fn decompress_rust_data_zstd(compressed_data: &[u8]) -> (r: Result<String, errors::CodecError>)
    ensures
        decompress_contract(Backend::Frame, compressed_data@, r),
{
    container::decompress(compressed_data, Backend::Frame)
}

/// Encodes a value as a varint byte sequence.
///
/// Always succeeds; the fallible signature matches the decoder's, so callers
/// can treat the two directions uniformly.
pub fn encode_varint_rust(value: u64) -> (r: Result<Vec<u8>, errors::VarintError>)
    ensures
        r matches Ok(v) && v@ == varint::varint_encode(value as nat),
{
    Ok(varint::encode(value))
}

/// Decodes a varint from the front of `data`, returning the value and the
/// exact number of bytes the varint occupied.
pub fn decode_varint_rust(data: &[u8]) -> (r: Result<(u64, usize), errors::VarintError>)
    ensures
        r == varint::varint_decode(data@),
{
    varint::decode(data)
}

} // verus!
