use textpack::errors::{CodecError, VarintError};
use textpack::corpus::{generate_test_values, test_invalid_varints};
use textpack::{
    compress_rust_string, compress_rust_string_lz4, compress_rust_string_zstd, decode_varint_rust,
    decompress_rust_data, decompress_rust_data_lz4, decompress_rust_data_zstd, encode_varint_rust,
};

#[test]
fn test_varint_scenarios_exact() {
    assert_eq!(encode_varint_rust(0).unwrap(), vec![0x00]);
    assert_eq!(encode_varint_rust(127).unwrap(), vec![0x7F]);
    assert_eq!(encode_varint_rust(128).unwrap(), vec![0x80, 0x01]);
    assert_eq!(encode_varint_rust(16384).unwrap(), vec![0x80, 0x80, 0x01]);
    assert_eq!(decode_varint_rust(&[0x80]), Err(VarintError::Truncated));
}

#[test]
fn test_varint_error_variants() {
    assert_eq!(decode_varint_rust(&[]), Err(VarintError::EmptyInput));
    assert_eq!(decode_varint_rust(&[0xFF, 0xFF]), Err(VarintError::Truncated));
    // Ten continuation bytes with input left over: the decoder would need an
    // eleventh byte and reports an overlong varint.
    let all_continuation = vec![0xFF; 11];
    assert_eq!(decode_varint_rust(&all_continuation), Err(VarintError::Overflow));
    let long_continuation = vec![0x80; 16];
    assert_eq!(decode_varint_rust(&long_continuation), Err(VarintError::Overflow));
    // Exactly ten continuation bytes end with the input: truncated, not overlong.
    let ten_continuation = vec![0x80; 10];
    assert_eq!(decode_varint_rust(&ten_continuation), Err(VarintError::Truncated));
}

#[test]
fn test_varint_encode_deterministic() {
    for value in [0u64, 1, 127, 128, 16384, 1 << 40, u64::MAX] {
        let first = encode_varint_rust(value).unwrap();
        let second = encode_varint_rust(value).unwrap();
        assert_eq!(first, second, "encoding of {} must not vary between calls", value);
    }
}

#[test]
fn test_varint_decode_ignores_trailing_garbage() {
    for value in [0u64, 127, 128, 300, 16384, u64::MAX] {
        let encoded = encode_varint_rust(value).unwrap();
        let mut extended = encoded.clone();
        extended.extend_from_slice(&[0xAB, 0xCD, 0xEF]);
        let (decoded, read) = decode_varint_rust(&extended).unwrap();
        assert_eq!(decoded, value);
        assert_eq!(read, encoded.len());
    }
}

#[test]
fn test_varint_minimal_lengths() {
    // One byte per started seven-bit group, at least one, at most ten.
    let cases: Vec<(u64, usize)> = vec![
        (0, 1),
        (127, 1),
        (128, 2),
        (16383, 2),
        (16384, 3),
        ((1 << 21) - 1, 3),
        (1 << 21, 4),
        ((1 << 28) - 1, 4),
        (1 << 28, 5),
        ((1 << 35) - 1, 5),
        (1 << 35, 6),
        ((1 << 63) - 1, 9),
        (1 << 63, 10),
        (u64::MAX, 10),
    ];
    for (value, expected_len) in cases {
        let encoded = encode_varint_rust(value).unwrap();
        assert_eq!(encoded.len(), expected_len, "length of encode({})", value);
    }
}

#[test]
fn test_varint_truncations_all_fail() {
    for value in [128u64, 16384, 1 << 32, u64::MAX] {
        let encoded = encode_varint_rust(value).unwrap();
        for len in 1..encoded.len() {
            let truncated = &encoded[..len];
            assert_eq!(
                decode_varint_rust(truncated),
                Err(VarintError::Truncated),
                "truncation of encode({}) to {} bytes",
                value,
                len
            );
        }
    }
}

#[test]
fn test_container_error_variants() {
    assert_eq!(decompress_rust_data(&[]), Err(CodecError::EmptyInput));
    assert_eq!(decompress_rust_data(&[0x05]), Err(CodecError::InputTooSmall));
    // A header that never clears its continuation bit is rejected before any
    // backend runs.
    assert_eq!(decompress_rust_data(&[0xFF; 12]), Err(CodecError::CorruptHeader));
    assert_eq!(decompress_rust_data(&[0x80, 0x80]), Err(CodecError::CorruptHeader));
    // A sound header followed by garbage reaches the backend, which fails.
    assert_eq!(decompress_rust_data(&[0x05, 0x00]), Err(CodecError::BackendFailure));
    // A header that consumes the whole input leaves no payload.
    assert_eq!(decompress_rust_data(&[0x81, 0x01]), Err(CodecError::InputTooSmall));
    // An embedded zero byte is invalid input to every backend.
    assert_eq!(compress_rust_string("a\0b"), Err(CodecError::InvalidInput));
    assert_eq!(compress_rust_string_lz4("a\0b"), Err(CodecError::InvalidInput));
    assert_eq!(compress_rust_string_zstd("a\0b"), Err(CodecError::InvalidInput));
}

#[test]
fn test_container_invalid_utf8_variant() {
    // Build by hand a container whose payload decompresses to bytes that are
    // not valid UTF-8: the facade must reject them as text.
    let raw: Vec<u8> = vec![0xFF, 0xFE, 0x80];
    let payload = miniz_oxide::deflate::compress_to_vec_zlib(&raw, 6);
    let mut container = encode_varint_rust(raw.len() as u64).unwrap();
    container.extend_from_slice(&payload);
    assert_eq!(decompress_rust_data(&container), Err(CodecError::InvalidUtf8));
}

#[test]
fn test_container_corruption_all_backends() {
    let text = "a reasonably long piece of text so every backend has real work to do";
    let containers = vec![
        compress_rust_string(text).unwrap(),
        compress_rust_string_lz4(text).unwrap(),
        compress_rust_string_zstd(text).unwrap(),
    ];
    for (i, container) in containers.into_iter().enumerate() {
        let mut corrupted = container;
        corrupted[0] = 0xFF;
        corrupted[1] = 0xFF;
        let results = vec![
            decompress_rust_data(&corrupted),
            decompress_rust_data_lz4(&corrupted),
            decompress_rust_data_zstd(&corrupted),
        ];
        assert!(
            results[i].is_err(),
            "backend {} must reject its corrupted container, got {:?}",
            i,
            results[i]
        );
    }
}

#[test]
fn test_generate_test_values_exact() {
    let values = generate_test_values(&[1, 2, 3, 4, 5, 6, 7, 8]);
    // One, two, four and eight byte little-endian prefixes.
    assert_eq!(values[0], 0x01);
    assert_eq!(values[1], 0x0201);
    assert_eq!(values[2], 0x04030201);
    assert_eq!(values[3], 0x0807060504030201);
    // Each of the first four bytes at four seven-bit positions.
    assert_eq!(&values[4..8], &[1, 1 << 7, 1 << 14, 1 << 21]);
    assert_eq!(&values[8..12], &[2, 2 << 7, 2 << 14, 2 << 21]);
    assert_eq!(&values[12..16], &[3, 3 << 7, 3 << 14, 3 << 21]);
    assert_eq!(&values[16..20], &[4, 4 << 7, 4 << 14, 4 << 21]);
    // The fixed boundary values close the batch.
    assert_eq!(values.len(), 20 + 18);
    assert_eq!(values[20], 0);
    assert_eq!(values[37], u64::MAX);

    // A short input yields only what its length supports.
    let short = generate_test_values(&[9]);
    assert_eq!(short[0], 9);
    assert_eq!(&short[1..5], &[9, 9 << 7, 9 << 14, 9 << 21]);
    assert_eq!(short.len(), 5 + 18);

    // Every derived value round-trips through the varint codec.
    for value in values {
        let encoded = encode_varint_rust(value).unwrap();
        let (decoded, read) = decode_varint_rust(&encoded).unwrap();
        assert_eq!(decoded, value);
        assert_eq!(read, encoded.len());
    }
}

#[test]
fn test_invalid_varints_runs_clean() {
    // The corrupted-input exerciser must return without panicking on
    // arbitrary bytes, including ones long enough for every branch.
    test_invalid_varints(&[]);
    test_invalid_varints(&[0x00]);
    test_invalid_varints(&[0x7F, 0x80]);
    test_invalid_varints(&[0xFF; 11]);
    test_invalid_varints(&[0x12, 0x34, 0x56, 0x78, 0x9A, 0xBC, 0xDE, 0xF0, 0x11, 0x22, 0x33, 0x44]);
}
