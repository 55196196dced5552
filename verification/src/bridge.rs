//! The trusted bridge to the compression backends.
//!
//! Each backend call returns a buffer that the backend's own code allocated;
//! the outside libraries take care of copying it into an owned value and
//! releasing their own storage exactly once, so every function here hands
//! back a plainly owned `Vec<u8>` or `String`. The results of the
//! compression primitives are named by uninterpreted functions: compressing
//! is deterministic, so the name stands for the one byte sequence the
//! backend produces for an input, and decompression is promised to invert
//! it. Nothing else in the crate is taken on trust.

use vstd::prelude::*;

use vstd::utf8::{encode_utf8, valid_utf8};

verus! {

/// The zlib stream that deflate compression produces for `data`.
pub uninterp spec fn deflate_of(data: Seq<u8>) -> Seq<u8>;

/// What inflating `data` under an output bound of `limit` bytes yields:
/// the decompressed bytes, or nothing if the stream is invalid or its
/// output exceeds the bound.
pub uninterp spec fn inflate_of(data: Seq<u8>, limit: nat) -> Option<Seq<u8>>;

/// The block that the fast block codec produces for `data`.
pub uninterp spec fn block_of(data: Seq<u8>) -> Seq<u8>;

/// What decoding a block under an output bound of `size` bytes yields.
pub uninterp spec fn unblock_of(data: Seq<u8>, size: nat) -> Option<Seq<u8>>;

/// The frame that the frame codec produces for `data`.
pub uninterp spec fn frame_of(data: Seq<u8>) -> Seq<u8>;

/// What decoding a frame under an output bound of `cap` bytes yields.
pub uninterp spec fn unframe_of(data: Seq<u8>, cap: nat) -> Option<Seq<u8>>;

/// Relies on miniz_oxide::deflate::compress_to_vec_zlib at a fixed level:
/// the stream is a function of the input bytes alone, and a zlib stream is
/// never empty (it opens with a two-byte header).
#[verifier::external_body]
pub(crate) fn raw_deflate_compress(data: &[u8]) -> (r: Vec<u8>)
    ensures
        r@ == deflate_of(data@),
        r@.len() >= 1,
{
    miniz_oxide::deflate::compress_to_vec_zlib(data, 6)
}

/// Relies on miniz_oxide::inflate::decompress_to_vec_zlib_with_limit: a
/// total function of the input and the output bound, and decompressing a
/// stream the compressor produced, under a bound its original fits, yields
/// exactly that original.
#[verifier::external_body]
pub(crate) fn raw_deflate_decompress(data: &[u8], limit: usize) -> (r: Option<Vec<u8>>)
    ensures
        r matches Some(v) ==> inflate_of(data@, limit as nat) == Some(v@),
        r is Some <==> inflate_of(data@, limit as nat) is Some,
        r is None ==> forall|b: Seq<u8>| data@ == deflate_of(b) ==> b.len() > limit,
        r matches Some(v) ==> forall|b: Seq<u8>|
            data@ == deflate_of(b) && b.len() <= limit ==> v@ == b,
{
    miniz_oxide::inflate::decompress_to_vec_zlib_with_limit(data, limit).ok()
}

/// Relies on lz4_flex::block::compress: the block is a function of the
/// input bytes alone, and even an empty input yields a one-byte block.
#[verifier::external_body]
pub(crate) fn raw_block_compress(data: &[u8]) -> (r: Vec<u8>)
    ensures
        r@ == block_of(data@),
        r@.len() >= 1,
{
    lz4_flex::block::compress(data)
}

/// Relies on lz4_flex::block::decompress: a total function of the input and
/// the expected size (it reports a too-small bound as an error), and
/// decoding a block the compressor produced, with a size its original fits,
/// yields exactly that original.
#[verifier::external_body]
pub(crate) fn raw_block_decompress(data: &[u8], size: usize) -> (r: Option<Vec<u8>>)
    ensures
        r matches Some(v) ==> unblock_of(data@, size as nat) == Some(v@),
        r is Some <==> unblock_of(data@, size as nat) is Some,
        r is None ==> forall|b: Seq<u8>| data@ == block_of(b) ==> b.len() > size,
        r matches Some(v) ==> forall|b: Seq<u8>|
            data@ == block_of(b) && b.len() <= size ==> v@ == b,
{
    lz4_flex::block::decompress(data, size).ok()
}

/// Relies on zstd::bulk::compress at a fixed level: the frame is a function
/// of the input bytes alone and is never empty (it opens with a magic
/// number); the call reports failure only through its result.
#[verifier::external_body]
pub(crate) fn raw_frame_compress(data: &[u8]) -> (r: Option<Vec<u8>>)
    ensures
        r matches Some(v) ==> v@ == frame_of(data@) && v@.len() >= 1,
{
    zstd::bulk::compress(data, 3).ok()
}

/// Relies on zstd::bulk::decompress: the decompressed bytes are a function
/// of the input and the capacity bound, and decoding a frame the compressor
/// produced, under a capacity its original fits, yields exactly that
/// original.
#[verifier::external_body]
pub(crate) fn raw_frame_decompress(data: &[u8], cap: usize) -> (r: Option<Vec<u8>>)
    ensures
        r matches Some(v) ==> unframe_of(data@, cap as nat) == Some(v@),
        r is None ==> forall|b: Seq<u8>| data@ == frame_of(b) ==> b.len() > cap,
        r matches Some(v) ==> forall|b: Seq<u8>|
            data@ == frame_of(b) && b.len() <= cap ==> v@ == b,
{
    zstd::bulk::decompress(data, cap).ok()
}

/// Relies on String::from_utf8: it succeeds exactly on valid UTF-8 and the
/// returned string holds those very bytes.
#[verifier::external_body]
pub(crate) fn bytes_to_string(v: Vec<u8>) -> (r: Option<String>)
    ensures
        r matches Some(s) ==> encode_utf8(s@) == v@,
        r is Some <==> valid_utf8(v@),
{
    String::from_utf8(v).ok()
}

} // verus!
