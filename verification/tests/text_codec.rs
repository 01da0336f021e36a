use dollcode::text::{TextDecoder, TextIterator, TextSegment};
use dollcode::DollcodeError;

#[test]
fn test_ascii_roundtrip() {
    let test_cases = [
        (' ', 32, "▌▖▘"),
        ('!', 33, "▌▖▌"),
        ('"', 34, "▌▘▖"),
        ('#', 35, "▌▘▘"),
        ('$', 36, "▌▘▌"),
        ('%', 37, "▌▌▖"),
        ('&', 38, "▌▌▘"),
        ('\'', 39, "▌▌▌"),
        ('(', 40, "▖▖▖▖"),
        (')', 41, "▖▖▖▘"),
        ('*', 42, "▖▖▖▌"),
        ('+', 43, "▖▖▘▖"),
        (',', 44, "▖▖▘▘"),
        ('-', 45, "▖▖▘▌"),
        ('.', 46, "▖▖▌▖"),
        ('/', 47, "▖▖▌▘"),
        ('0', 48, "▖▖▌▌"),
        ('1', 49, "▖▘▖▖"),
        ('2', 50, "▖▘▖▘"),
        ('3', 51, "▖▘▖▌"),
        ('4', 52, "▖▘▘▖"),
        ('5', 53, "▖▘▘▘"),
        ('6', 54, "▖▘▘▌"),
        ('7', 55, "▖▘▌▖"),
        ('8', 56, "▖▘▌▘"),
        ('9', 57, "▖▘▌▌"),
        (':', 58, "▖▌▖▖"),
        (';', 59, "▖▌▖▘"),
        ('<', 60, "▖▌▖▌"),
        ('=', 61, "▖▌▘▖"),
        ('>', 62, "▖▌▘▘"),
        ('?', 63, "▖▌▘▌"),
        ('@', 64, "▖▌▌▖"),
        ('A', 65, "▖▌▌▘"),
        ('B', 66, "▖▌▌▌"),
        ('C', 67, "▘▖▖▖"),
        ('D', 68, "▘▖▖▘"),
        ('E', 69, "▘▖▖▌"),
        ('F', 70, "▘▖▘▖"),
        ('G', 71, "▘▖▘▘"),
        ('H', 72, "▘▖▘▌"),
        ('I', 73, "▘▖▌▖"),
        ('J', 74, "▘▖▌▘"),
        ('K', 75, "▘▖▌▌"),
        ('L', 76, "▘▘▖▖"),
        ('M', 77, "▘▘▖▘"),
        ('N', 78, "▘▘▖▌"),
        ('O', 79, "▘▘▘▖"),
        ('P', 80, "▘▘▘▘"),
        ('Q', 81, "▘▘▘▌"),
        ('R', 82, "▘▘▌▖"),
        ('S', 83, "▘▘▌▘"),
        ('T', 84, "▘▘▌▌"),
        ('U', 85, "▘▌▖▖"),
        ('V', 86, "▘▌▖▘"),
        ('W', 87, "▘▌▖▌"),
        ('X', 88, "▘▌▘▖"),
        ('Y', 89, "▘▌▘▘"),
        ('Z', 90, "▘▌▘▌"),
        ('[', 91, "▘▌▌▖"),
        ('\\', 92, "▘▌▌▘"),
        (']', 93, "▘▌▌▌"),
        ('^', 94, "▌▖▖▖"),
        ('_', 95, "▌▖▖▘"),
        ('`', 96, "▌▖▖▌"),
        ('a', 97, "▌▖▘▖"),
        ('b', 98, "▌▖▘▘"),
        ('c', 99, "▌▖▘▌"),
        ('d', 100, "▌▖▌▖"),
        ('e', 101, "▌▖▌▘"),
        ('f', 102, "▌▖▌▌"),
        ('g', 103, "▌▘▖▖"),
        ('h', 104, "▌▘▖▘"),
        ('i', 105, "▌▘▖▌"),
        ('j', 106, "▌▘▘▖"),
        ('k', 107, "▌▘▘▘"),
        ('l', 108, "▌▘▘▌"),
        ('m', 109, "▌▘▌▖"),
        ('n', 110, "▌▘▌▘"),
        ('o', 111, "▌▘▌▌"),
        ('p', 112, "▌▌▖▖"),
        ('q', 113, "▌▌▖▘"),
        ('r', 114, "▌▌▖▌"),
        ('s', 115, "▌▌▘▖"),
        ('t', 116, "▌▌▘▘"),
        ('u', 117, "▌▌▘▌"),
        ('v', 118, "▌▌▌▖"),
        ('w', 119, "▌▌▌▘"),
        ('x', 120, "▌▌▌▌"),
        ('y', 121, "▖▖▖▖▖"),
        ('z', 122, "▖▖▖▖▘"),
        ('{', 123, "▖▖▖▖▌"),
        ('|', 124, "▖▖▖▘▖"),
        ('}', 125, "▖▖▖▘▘"),
        ('~', 126, "▖▖▖▘▌"),
    ];

    for &(c, _, encoded) in &test_cases {
        // Decode test
        let mut decoder = TextDecoder::new(encoded);
        let decoded = decoder.next().unwrap().unwrap();

        assert_eq!(decoded, c, "Decoded character should match original");
    }
}

#[test]
fn test_invalid_input() {
    // Test invalid symbol
    let invalid_input = "▖▌X";
    let mut decoder = TextDecoder::new(invalid_input);
    match decoder.next() {
        Some(Err(DollcodeError::InvalidChar(c, pos))) => {
            assert_eq!(c, 'X');
            assert_eq!(pos, 2);
        }
        _ => panic!("Expected InvalidChar error"),
    }

    // Test value exceeding ASCII range
    let invalid_input = "▖▖▖▌▘";
    let mut decoder = TextDecoder::new(invalid_input);
    match decoder.next() {
        Some(Err(DollcodeError::InvalidInput)) => (),
        _ => panic!("Expected InvalidInput error"),
    }

    // Test incomplete sequence
    let invalid_input = "▖▌";
    let mut decoder = TextDecoder::new(invalid_input);
    match decoder.next() {
        Some(Err(DollcodeError::InvalidInput)) => (),
        _ => panic!("Expected InvalidInput error"),
    }
}

#[test]
fn test_encoding_with_delimiter() {
    let text = "Hi!";
    let mut encoded: Vec<char> = Vec::new();

    let mut iter = TextIterator::new(text);
    while let Some(segment) = iter.next() {
        let segment = segment.unwrap();
        encoded.extend_from_slice(segment.as_chars());
    }

    let expected = "▘▖▘▌\u{200d}▌▘▖▌\u{200d}▌▖▌\u{200d}";
    let encoded_str: String = encoded.iter().collect();
    assert_eq!(
        encoded_str, expected,
        "Encoded string does not match expected value"
    );
}

#[test]
fn test_roundtrip_with_delimiter() {
    let original = "Hello, World!";
    let mut encoded: Vec<char> = Vec::new();

    let mut iter = TextIterator::new(original);
    while let Some(segment) = iter.next() {
        let segment = segment.unwrap();
        encoded.extend_from_slice(segment.as_chars());
    }

    let encoded_str: String = encoded.iter().collect();
    let mut decoder = TextDecoder::new(&encoded_str);
    let mut decoded = String::new();

    while let Some(result) = decoder.next() {
        let c = result.unwrap();
        decoded.push(c);
    }

    assert_eq!(decoded, original, "Roundtrip encoding/decoding failed");
}

#[test]
fn test_new_segment_is_empty() {
    let segment = TextSegment::new();
    assert!(segment.is_empty());
    assert_eq!(segment.len(), 0);
    assert!(segment.as_chars().is_empty());
    let default_segment = TextSegment::default();
    assert!(default_segment.is_empty());
}

#[test]
fn test_iterator_invalid_char_position() {
    // the error carries the 0-based index of the offending character
    let mut iter = TextIterator::new("ab\u{7F}");
    assert!(iter.next().unwrap().is_ok());
    assert!(iter.next().unwrap().is_ok());
    match iter.next() {
        Some(Err(DollcodeError::InvalidChar(c, pos))) => {
            assert_eq!(c, '\u{7F}');
            assert_eq!(pos, 2);
        }
        _ => panic!("Expected InvalidChar error"),
    }
    assert!(iter.next().is_none());
}

#[test]
fn test_error_kind_messages() {
    assert_eq!(
        DollcodeError::InvalidInput.message(),
        "Invalid dollcode sequence"
    );
    assert_eq!(
        DollcodeError::InvalidChar('☺', 5).message(),
        "Invalid character"
    );
    assert_eq!(DollcodeError::Overflow.message(), "Value overflow");
}
