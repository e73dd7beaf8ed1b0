use tlsn_disclosure::range_set::{ByteRange, ByteRangeSet};
use tlsn_disclosure::text::{bytes_to_redacted_string, redact, InvalidUtf8, REDACTION_MARKER};
use tlsn_disclosure::transcript::RevealedBytes;

#[test]
fn marker_is_four_characters() {
    assert_eq!(REDACTION_MARKER.chars().count(), 4);
    let codes: Vec<u32> = REDACTION_MARKER.chars().map(|c| c as u32).collect();
    assert_eq!(codes, vec![0xf0, 0x178, 0x2122, 0x2c6]);
}

/// One direction of which `ranges` were revealed.
fn shown_at(bytes: &[u8], ranges: &[(usize, usize)]) -> RevealedBytes {
    let ranges = ranges.iter().map(|(start, end)| ByteRange { start: *start, end: *end }).collect();
    RevealedBytes::new(bytes.to_vec(), &ranges).unwrap()
}

#[test]
fn redacted_string_marks_what_was_not_revealed() {
    let m = REDACTION_MARKER;
    let shown = bytes_to_redacted_string(&shown_at(b"ab\0cd\0\0", &[(0, 2), (3, 5)])).unwrap();
    assert_eq!(shown, format!("ab{m}cd{m}{m}"));
    let shown = bytes_to_redacted_string(&shown_at(b"key: secret!", &[(0, 5), (11, 12)])).unwrap();
    assert_eq!(shown, format!("key: {}!", m.repeat(6)));
}

#[test]
fn redacted_string_keeps_a_revealed_nul() {
    let m = REDACTION_MARKER;
    // Both positions were revealed: the NUL is content and stays.
    assert_eq!(bytes_to_redacted_string(&shown_at(&[97, 0], &[(0, 2)])), Ok("a\0".to_string()));
    // The same bytes with the NUL not revealed.
    assert_eq!(bytes_to_redacted_string(&shown_at(&[97, 0], &[(0, 1)])), Ok(format!("a{m}")));
    assert_eq!(
        bytes_to_redacted_string(&shown_at(b"ab\0cd\0\0", &[(0, 7)])),
        Ok("ab\0cd\0\0".to_string())
    );
    assert_eq!(
        bytes_to_redacted_string(&shown_at(b"ab\0cd\0\0", &[(0, 3), (6, 7)])),
        Ok(format!("ab\0{m}{m}{m}\0"))
    );
}

#[test]
fn redacted_string_keeps_text_that_was_revealed() {
    assert_eq!(
        bytes_to_redacted_string(&shown_at(b"GET / HTTP/1.1", &[(0, 14)])).unwrap(),
        "GET / HTTP/1.1"
    );
    assert_eq!(bytes_to_redacted_string(&shown_at(b"", &[])).unwrap(), "");
    assert_eq!(
        bytes_to_redacted_string(&shown_at("h\u{e9}llo".as_bytes(), &[(0, 6)])).unwrap(),
        "h\u{e9}llo"
    );
}

#[test]
fn redacted_string_rejects_revealed_bytes_that_are_no_text() {
    assert_eq!(bytes_to_redacted_string(&shown_at(&[0x61, 0xff, 0x62], &[(0, 3)])), Err(InvalidUtf8));
    assert_eq!(bytes_to_redacted_string(&shown_at(&[0xc3], &[(0, 1)])), Err(InvalidUtf8));
    // What was not revealed need not be text.
    assert_eq!(
        bytes_to_redacted_string(&shown_at(&[0x61, 0xff, 0x62], &[(0, 1), (2, 3)])),
        Ok(format!("a{REDACTION_MARKER}b"))
    );
}

#[test]
fn redacted_string_of_a_long_buffer() {
    let bytes: Vec<u8> = (0..4096).map(|i| b'a' + (i % 26) as u8).collect();
    let ranges: Vec<(usize, usize)> = (0..4096).filter(|i| i % 7 != 0).map(|i| (i, i + 1)).collect();
    let expected: String = (0..4096)
        .map(|i| if i % 7 == 0 { REDACTION_MARKER.to_string() } else { ((b'a' + (i % 26) as u8) as char).to_string() })
        .collect();
    assert_eq!(bytes_to_redacted_string(&shown_at(&bytes, &ranges)).unwrap(), expected);
}

#[test]
fn redact_keeps_revealed_bytes_in_place() {
    let mut revealed = ByteRangeSet::new(6);
    revealed.insert(ByteRange { start: 0, end: 2 }).unwrap();
    revealed.insert(ByteRange { start: 4, end: 6 }).unwrap();
    assert_eq!(redact(b"abcdef", &revealed, b'X'), b"abXXef".to_vec());
    assert_eq!(redact(b"abcdef", &ByteRangeSet::new(6), 0), vec![0u8; 6]);
    assert_eq!(redact(b"", &revealed, b'X'), Vec::<u8>::new());
}
