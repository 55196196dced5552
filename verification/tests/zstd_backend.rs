use textpack::{compress_rust_string_zstd, decompress_rust_data_zstd};

#[test]
fn test_zstd_compression_decompression_round_trip() {
    let original_data = "This is a test string for frame-codec compression and decompression round trip test.";

    let compressed_data = compress_rust_string_zstd(original_data).expect("Compression should work");
    assert!(compressed_data.len() > 1, "Compressed data should contain header + compressed content.");

    let decompressed_string =
        decompress_rust_data_zstd(&compressed_data).expect("Decompression should work");
    assert_eq!(
        original_data, decompressed_string,
        "Round trip should preserve the original data"
    );
}

#[test]
fn test_zstd_empty_string_round_trip() {
    let compressed_data = compress_rust_string_zstd("").expect("Empty string compression should work");
    let decompressed_string =
        decompress_rust_data_zstd(&compressed_data).expect("Decompression of empty string should work");
    assert_eq!("", decompressed_string, "Empty string round trip should work");
}

#[test]
fn test_zstd_unicode_round_trip() {
    let test_cases = vec!["Hello, 世界! (frame)", "🦀 Rust 🦀 (frame)", "café naïve résumé (frame)"];
    for original_data in test_cases {
        let compressed_data =
            compress_rust_string_zstd(original_data).expect("Unicode compression should work");
        let decompressed_string =
            decompress_rust_data_zstd(&compressed_data).expect("Unicode decompression should work");
        assert_eq!(original_data, decompressed_string);
    }
}

#[test]
fn test_zstd_string_with_null_byte_internal() {
    assert!(
        compress_rust_string_zstd("hello\0world_zstd").is_err(),
        "Should fail for string with internal null byte."
    );
}

#[test]
fn test_zstd_decompression_with_corrupted_header() {
    let mut compressed_data = compress_rust_string_zstd("a string whose header is about to break")
        .expect("Compression should work");
    compressed_data[0] = 0xFF;
    compressed_data[1] = 0xFF;
    assert!(
        decompress_rust_data_zstd(&compressed_data).is_err(),
        "Decompression with corrupted header should fail"
    );
}

#[test]
fn test_zstd_decompression_invalid_data() {
    // A sound header, then bytes that are no frame at all.
    let invalid = vec![0x0A, 0x01, 0x02, 0x03];
    assert!(decompress_rust_data_zstd(&invalid).is_err());
    let repetitive = "z".repeat(5000);
    let compressed = compress_rust_string_zstd(&repetitive).expect("Compression should work");
    assert!(compressed.len() < repetitive.len() / 10 + 10, "Frame codec should compress repetitive data");
}
