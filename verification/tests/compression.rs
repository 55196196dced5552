use textpack::{compress_rust_string, decompress_rust_data};

#[test]
fn test_compression_basic() {
    let original_data =
        "This is a test string for zlib compression, hopefully it gets smaller. then smal file";
    println!("Original data: '{}'", original_data);
    println!("Original length: {}", original_data.len());

    match compress_rust_string(original_data) {
        Ok(compressed_data) => {
            println!("Compressed length: {}", compressed_data.len());
            // For short strings, compression + variable-byte header might not reduce size.
            // The compressed data includes a variable-byte header (1-5 bytes) with the original length.
            assert!(
                compressed_data.len() > 1,
                "Compressed data should contain header + compressed content."
            );

            // For longer strings, compression should still be effective despite the header overhead
            if original_data.len() > 200 {
                assert!(
                    compressed_data.len() < original_data.len(),
                    "Compressed data should be smaller than original for large input."
                );
            }
        }
        Err(e) => {
            panic!("test_compression_basic failed: {:?}", e);
        }
    }
}

#[test]
fn test_compression_empty_string() {
    let original_data = "";
    println!("Original data: '{}'", original_data);
    println!("Original length: {}", original_data.len());

    match compress_rust_string(original_data) {
        Ok(compressed_data) => {
            println!("Compressed length for empty string: {}", compressed_data.len());
            // zlib compressing an empty string results in a small, fixed-size output
            assert!(compressed_data.len() > 0, "Compressed empty string should not be empty.");
        }
        Err(e) => {
            panic!("test_compression_empty_string failed: {:?}", e);
        }
    }
}

#[test]
fn test_string_with_null_byte_internal() {
    // Conversion to a null-free byte sequence fails for strings with interior null bytes.
    let original_data = "hello\0world";
    // We expect compress_rust_string to return an Err here.
    assert!(
        compress_rust_string(original_data).is_err(),
        "Should fail for string with internal null byte due to CString conversion."
    );
}

#[test]
fn test_compression_decompression_round_trip() {
    let original_data = "This is a test string for zlib compression and decompression round trip test.";
    println!("Original data: '{}'", original_data);
    println!("Original length: {}", original_data.len());

    // Compress the data
    let compressed_data = match compress_rust_string(original_data) {
        Ok(data) => {
            println!("Compressed length: {}", data.len());
            data
        }
        Err(e) => {
            panic!("Compression failed: {:?}", e);
        }
    };

    // Decompress the data
    match decompress_rust_data(&compressed_data) {
        Ok(decompressed_string) => {
            println!("Decompressed data: '{}'", decompressed_string);
            println!("Decompressed length: {}", decompressed_string.len());
            assert_eq!(
                original_data, decompressed_string,
                "Round trip should preserve the original data"
            );
        }
        Err(e) => {
            panic!("Decompression failed: {:?}", e);
        }
    }
}

#[test]
fn test_decompression_empty_string() {
    let original_data = "";

    // Compress empty string
    let compressed_data =
        compress_rust_string(original_data).expect("Empty string compression should work");

    // Decompress it back
    match decompress_rust_data(&compressed_data) {
        Ok(decompressed_string) => {
            assert_eq!(original_data, decompressed_string, "Empty string round trip should work");
        }
        Err(e) => {
            panic!("Decompression of empty string failed: {:?}", e);
        }
    }
}

#[test]
fn test_decompression_unicode_strings() {
    let test_cases = vec!["Hello, 世界!", "🦀 Rust FFI 🦀", "café naïve résumé", "𝕳𝖊𝖑𝖑𝖔"];

    for original_data in test_cases {
        println!("Testing Unicode string: '{}'", original_data);

        // Compress the data
        let compressed_data =
            compress_rust_string(original_data).expect("Unicode string compression should work");

        // Decompress the data
        let decompressed_string =
            decompress_rust_data(&compressed_data).expect("Unicode string decompression should work");

        assert_eq!(
            original_data, decompressed_string,
            "Unicode round trip should preserve the original data"
        );
    }
}

#[test]
fn test_decompression_with_corrupted_header() {
    let original_data = "This is a test string for testing corrupted header.";

    // Compress the data
    let mut compressed_data =
        compress_rust_string(original_data).expect("Compression should work");

    // Corrupt the header (first 8 bytes contain the original length)
    if compressed_data.len() >= 8 {
        compressed_data[0] = 0xFF; // Corrupt first byte of header
        compressed_data[1] = 0xFF; // Corrupt second byte of header
    }

    // Try to decompress with corrupted header
    let result = decompress_rust_data(&compressed_data);
    assert!(result.is_err(), "Decompression with corrupted header should fail");
}

#[test]
fn test_variable_byte_encoding_efficiency() {
    // Test different string lengths to verify varint header efficiency
    let test_cases = vec![
        (10, 1),    // Small string: 1-byte varint
        (127, 1),   // Max 1-byte varint
        (128, 2),   // Min 2-byte varint
        (255, 2),   // Still 2-byte varint
        (16383, 2), // Max 2-byte varint
    ];

    for (length, expected_header_bytes) in test_cases {
        let test_string = "A".repeat(length);
        println!("Testing length {} (expecting {}-byte header)", length, expected_header_bytes);

        let compressed = compress_rust_string(&test_string).expect("Compression should work");

        // Calculate actual header size by comparing with zlib-only compression
        // We can estimate this by checking if the compressed size is reasonable
        let min_expected_size = expected_header_bytes + 8; // varint + minimal zlib output
        assert!(
            compressed.len() >= min_expected_size,
            "Compressed size {} should be at least {} (header + minimal zlib)",
            compressed.len(),
            min_expected_size
        );

        // Verify round-trip works
        let decompressed = decompress_rust_data(&compressed).expect("Decompression should work");
        assert_eq!(test_string, decompressed, "Round trip should preserve data");

        // For highly repetitive strings, compression should be very effective
        if length >= 100 {
            assert!(
                compressed.len() < length / 2,
                "Repetitive string of length {} should compress to less than half size, got {}",
                length,
                compressed.len()
            );
        }
    }
}

#[test]
fn test_decompression_invalid_data() {
    let invalid_compressed_data = vec![0x78, 0x9c, 0xff, 0xff, 0xff]; // Invalid zlib data

    let result = decompress_rust_data(&invalid_compressed_data);
    assert!(result.is_err(), "Decompression of invalid data should fail");
}
