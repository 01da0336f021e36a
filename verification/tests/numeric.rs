use dollcode::{from_dollcode, to_dollcode, Dollcode, DOLLCODE_CHAR_MAP, MAX_DOLLCODE_SIZE};

#[test]
fn test_encoding_sequence() {
    let cases = [
        (0, ""),
        (1, "▖"),
        (2, "▘"),
        (3, "▌"),
        (4, "▖▖"),
        (5, "▖▘"),
        (6, "▖▌"),
        (7, "▘▖"),
        (8, "▘▘"),
        (9, "▘▌"),
        (10, "▌▖"),
        (11, "▌▘"),
        (12, "▌▌"),
        (13, "▖▖▖"),
        (42, "▖▖▖▌"),
    ];

    for &(num, expected) in &cases {
        let encoded = to_dollcode(num).unwrap();
        let encoded_str: String = encoded.as_chars().iter().collect();
        assert_eq!(
            encoded_str, expected,
            "Encoding {} failed - got {}, expected {}",
            num, encoded_str, expected
        );

        if !expected.is_empty() {
            let decoded = from_dollcode(encoded.as_chars()).unwrap();
            assert_eq!(
                decoded, num,
                "Decoding {} failed - got {}, expected {}",
                encoded_str, decoded, num
            );
        }
    }
}

#[test]
fn test_decoding_sequence() {
    let cases = [
        ("", 0),
        ("▖", 1),
        ("▘", 2),
        ("▌", 3),
        ("▖▖", 4),
        ("▖▘", 5),
        ("▖▌", 6),
        ("▘▖", 7),
        ("▘▘", 8),
        ("▘▌", 9),
        ("▌▖", 10),
        ("▌▘", 11),
        ("▌▌", 12),
        ("▖▖▖", 13),
        ("▖▖▖▌", 42),
    ];

    for &(input, expected) in &cases {
        let chars: Vec<char> = input.chars().collect();
        let decoded = from_dollcode(&chars).unwrap();
        assert_eq!(
            decoded, expected,
            "Decoding {} failed - got {}, expected {}",
            input, decoded, expected
        );
    }
}

#[test]
fn test_edge_cases() {
    // Overflow handling: one glyph more than the maximum length
    let buffer = [DOLLCODE_CHAR_MAP[0]; MAX_DOLLCODE_SIZE + 1];
    assert!(from_dollcode(&buffer).is_err());

    // Invalid characters
    assert!(from_dollcode(&['a', 'b', 'c']).is_err());

    // Zero
    let encoded = to_dollcode(0).unwrap();
    assert!(encoded.is_empty());
    assert_eq!(from_dollcode(&[]).unwrap(), 0);
}

#[test]
fn test_large_numbers() {
    let large_cases = [1000, 10_000, 100_000, 1_000_000, 440729];

    for &num in &large_cases {
        let encoded = to_dollcode(num).unwrap();
        let decoded = from_dollcode(encoded.as_chars()).unwrap();
        assert_eq!(decoded, num, "Round-trip failed for {} - got {}", num, decoded);
    }
}

#[test]
fn test_base3_properties() {
    let test_nums = [4, 13, 42, 100];

    for &num in &test_nums {
        let encoded = to_dollcode(num).unwrap();

        // Verify base-3 interpretation
        let mut value = 0u64;
        for &c in encoded.as_chars() {
            value *= 3;
            value += match c {
                '▖' => 1,
                '▘' => 2,
                '▌' => 3,
                _ => panic!("Invalid dollcode char"),
            };
        }
        assert_eq!(value, num, "Base-3 check failed for {}", num);
    }
}

#[test]
fn test_zero_conversions() {
    // 1. Basic zero encoding
    let encoded = to_dollcode(0).unwrap();
    assert!(encoded.is_empty(), "Zero should encode to empty sequence");
    assert_eq!(encoded.len(), 0, "Zero should have length 0");
    assert!(encoded.as_chars().is_empty(), "Zero chars should be empty");

    // 2. Zero decoding
    let decoded = from_dollcode(&[]).unwrap();
    assert_eq!(decoded, 0, "Empty sequence should decode to zero");

    // 3. Round trip
    let zero_roundtrip = from_dollcode(to_dollcode(0).unwrap().as_chars()).unwrap();
    assert_eq!(zero_roundtrip, 0, "Zero round-trip failed");
}

#[test]
fn test_hex_conversions() {
    let test_cases: [(u64, &[char]); 8] = [
        (0x0, &[] as &[char]),
        (0x1, &['▖']),
        (0x2, &['▘']),
        (0x3, &['▌']),
        (0x4, &['▖', '▖']),
        (0xF, &['▖', '▖', '▌']),
        (0x10, &['▖', '▘', '▖']),
        (0xFF, &['▘', '▘', '▌', '▌', '▌']),
    ];

    for &(hex_num, expected_chars) in &test_cases {
        let encoded = to_dollcode(hex_num).unwrap();
        assert_eq!(
            encoded.as_chars(),
            expected_chars,
            "Hex {:#x} encoded incorrectly",
            hex_num
        );

        let decoded = from_dollcode(encoded.as_chars()).unwrap();
        assert_eq!(decoded, hex_num, "Hex {:#x} round-trip failed", hex_num);
    }

    // Special zero case
    let zero_encoded = to_dollcode(0x0).unwrap();
    assert!(zero_encoded.is_empty(), "Hex zero should encode to empty sequence");
    assert_eq!(zero_encoded.len(), 0, "Hex zero should have length 0");
}

#[test]
fn test_hex_zero_conversions() {
    // 1. Basic hex zero encoding from 0x0
    let encoded = to_dollcode(0x0).unwrap();
    assert!(encoded.is_empty(), "Hex zero should encode to empty sequence");
    assert_eq!(encoded.len(), 0, "Hex zero should have length 0");
    assert!(encoded.as_chars().is_empty(), "Hex zero chars should be empty");

    // 2. Zero decoding to hex
    let decoded = from_dollcode(&[]).unwrap();
    assert_eq!(decoded, 0x0, "Empty sequence should decode to hex zero");

    // 3. Hex zero round trip
    let zero_roundtrip = from_dollcode(to_dollcode(0x0).unwrap().as_chars()).unwrap();
    assert_eq!(zero_roundtrip, 0x0, "Hex zero round-trip failed");
}

#[test]
fn test_hex_edge_cases() {
    let edge_cases: [(u64, &[char]); 4] = [
        // Max u32
        (
            0xFFFFFFFF,
            &[
                '▌', '▖', '▘', '▌', '▖', '▌', '▘', '▘', '▖', '▌', '▖', '▘', '▘', '▖', '▖', '▖',
                '▖', '▖', '▌', '▌',
            ],
        ),
        // Max i64
        (
            0x7FFFFFFFFFFFFFFF,
            &[
                '▖', '▌', '▖', '▌', '▌', '▌', '▘', '▘', '▌', '▌', '▌', '▘', '▘', '▖', '▌', '▘',
                '▌', '▖', '▖', '▌', '▌', '▖', '▘', '▌', '▘', '▌', '▘', '▖', '▘', '▖', '▘', '▌',
                '▌', '▖', '▘', '▖', '▌', '▘', '▘', '▖',
            ],
        ),
        // Max u64
        (
            0xFFFFFFFFFFFFFFFF,
            &[
                '▖', '▖', '▖', '▖', '▘', '▘', '▖', '▘', '▌', '▘', '▘', '▖', '▘', '▘', '▖', '▖',
                '▘', '▌', '▌', '▖', '▖', '▌', '▌', '▌', '▖', '▌', '▖', '▖', '▌', '▖', '▌', '▌',
                '▖', '▌', '▌', '▘', '▖', '▖', '▘', '▖', '▌',
            ],
        ),
        // 0xDEADBEEF
        (
            0xDEADBEEF,
            &[
                '▘', '▌', '▖', '▘', '▖', '▌', '▘', '▌', '▖', '▌', '▌', '▘', '▖', '▖', '▖', '▖',
                '▖', '▌', '▌', '▘',
            ],
        ),
    ];

    for &(hex_num, expected_chars) in &edge_cases {
        let encoded = to_dollcode(hex_num).unwrap();
        assert_eq!(
            encoded.as_chars(),
            expected_chars,
            "Hex {:#x} encoded incorrectly",
            hex_num
        );

        let decoded = from_dollcode(encoded.as_chars()).unwrap();
        assert_eq!(decoded, hex_num, "Hex {:#x} round-trip failed", hex_num);
    }
}

#[test]
fn debug_max_u64_encoding() {
    let num: u64 = 0xFFFFFFFFFFFFFFFF;
    let mut output = [0u8; MAX_DOLLCODE_SIZE];
    let mut digits = 0;
    let mut working = num;

    // Collect remainders in fixed array
    while working > 0 && digits < MAX_DOLLCODE_SIZE {
        let rem = (working - 1) % 3;
        output[digits] = rem as u8;
        working = (working - 1 - rem) / 3;
        digits += 1;
    }

    // Expected remainders at divergence point (indexes 32-39)
    let expected_remainders: [u8; 8] = [2, 1, 0, 1, 1, 0, 0, 0];
    let test_slice = &output[32..40];

    assert_eq!(
        test_slice, &expected_remainders,
        "Remainders diverge at position 33"
    );
}

#[test]
fn debug_char_matching() {
    let test_chars = ['▖', '▘', '▌'];
    let test_vals = [
        test_chars[0] as u32,
        test_chars[1] as u32,
        test_chars[2] as u32,
    ];
    assert_eq!(test_vals, [0x2596, 0x2598, 0x258C]);

    let input = "▘▘▌▌▌";
    for (i, c) in input.chars().enumerate() {
        let val = c as u32;
        match val {
            0x2596 => assert_eq!(c, '▖'),
            0x2598 => assert_eq!(c, '▘'),
            0x258C => assert_eq!(c, '▌'),
            _ => panic!("Invalid char at pos {}: {:#x}", i, val),
        }
    }
}

#[test]
fn test_dollcode_char_decode() {
    let input = "▘▘▌▌▌"; // Known working sequence for 0xFF
    let chars: [char; 5] = ['▘', '▘', '▌', '▌', '▌'];

    // Test direct decoding
    let result = from_dollcode(&chars).unwrap();
    assert_eq!(result, 0xFF);

    // Test string decode with fixed array
    let mut input_chars = ['\0'; 64];
    let mut len = 0;
    for (i, c) in input.chars().enumerate() {
        input_chars[i] = c;
        len += 1;
    }
    let str_result = from_dollcode(&input_chars[..len]).unwrap();
    assert_eq!(str_result, 0xFF);
}

#[test]
fn test_max_buffer_utilization() {
    // Test encoding maximum u64 value
    let max_u64 = u64::MAX;
    let encoded = to_dollcode(max_u64).unwrap();

    // Verify we actually need the buffer size we have
    assert!(
        encoded.len() <= 41,
        "Encoded length {} exceeds theoretical maximum of 41 digits",
        encoded.len()
    );

    // Verify we can decode it back
    let decoded = from_dollcode(encoded.as_chars()).unwrap();
    assert_eq!(decoded, max_u64);
}

#[test]
fn test_buffer_size_requirement() {
    // Calculate required digits for powers of 2
    for i in 0..64 {
        let num = 1u64 << i;
        if let Ok(encoded) = to_dollcode(num) {
            assert!(
                encoded.len() <= MAX_DOLLCODE_SIZE,
                "2^{} requires {} digits, exceeds buffer size {}",
                i,
                encoded.len(),
                MAX_DOLLCODE_SIZE
            );
        }
    }
}

#[test]
fn test_new_dollcode_is_empty() {
    let dollcode = Dollcode::new();
    assert!(dollcode.is_empty());
    assert_eq!(dollcode.len(), 0);
    let default_dollcode = Dollcode::default();
    assert!(default_dollcode.is_empty());
}

#[test]
fn test_overflow_boundary() {
    // 42 glyphs: even the smallest 42-digit value exceeds u64::MAX
    let long = ['▖'; 42];
    assert!(matches!(
        from_dollcode(&long),
        Err(dollcode::DollcodeError::Overflow)
    ));

    // the largest 41-digit sequence also exceeds u64::MAX
    let heavy = ['▌'; 41];
    assert!(matches!(
        from_dollcode(&heavy),
        Err(dollcode::DollcodeError::Overflow)
    ));

    // the smallest 41-digit sequence still fits
    let light = ['▖'; 41];
    assert_eq!(from_dollcode(&light).unwrap(), 18236498188585393201);

    // a non-glyph character is invalid input
    assert!(matches!(
        from_dollcode(&['▖', 'x', '▌']),
        Err(dollcode::DollcodeError::InvalidInput)
    ));
}

#[test]
fn test_roundtrip_representative_values() {
    let values = [
        0u64,
        1,
        2,
        3,
        4,
        12,
        13,
        42,
        121,
        364,
        1092,
        3280,
        u64::MAX / 2,
        u64::MAX - 1,
        u64::MAX,
    ];
    for &v in &values {
        let encoded = to_dollcode(v).unwrap();
        assert_eq!(from_dollcode(encoded.as_chars()).unwrap(), v);
    }
}

#[test]
fn test_injectivity_sample() {
    // distinct values give distinct sequences
    let mut seen: Vec<String> = Vec::new();
    for v in 0u64..200 {
        let s: String = to_dollcode(v).unwrap().as_chars().iter().collect();
        assert!(!seen.contains(&s), "values below {} share encoding {}", v, s);
        seen.push(s);
    }
}
