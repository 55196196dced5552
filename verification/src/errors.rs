//! Typed error values for the varint codec and the container codec.
//!
//! Every failure in the library is a returned tagged value: no panic, no
//! bare error code.

use vstd::prelude::*;

verus! {

/// Failure of varint decoding.
#[derive(Debug, Clone, Copy, PartialEq, Eq, Structural)]
pub enum VarintError {
    /// The input held no bytes at all.
    EmptyInput,
    /// The continuation bit was still set when the input ran out.
    Truncated,
    /// More than the maximal number of varint bytes would have been consumed.
    Overflow,
}

/// Failure of container compression or decompression.
#[derive(Debug, Clone, Copy, PartialEq, Eq, Structural)]
pub enum CodecError {
    /// The text holds a byte the backends cannot carry (an embedded zero).
    InvalidInput,
    /// The compression backend itself reported failure.
    BackendFailure,
    /// The container held no bytes at all.
    EmptyInput,
    /// The container or its payload is below the structural minimum.
    InputTooSmall,
    /// The varint header is truncated or overlong.
    CorruptHeader,
    /// The decompressed bytes are not valid text.
    InvalidUtf8,
}

} // verus!
