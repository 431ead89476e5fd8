//! The decoders of the value behind a key.

use steam_shortcuts::cursor::Cursor;
use steam_shortcuts::value::{parse_value_bytes, parse_value_str, parse_value_u32};

#[test]
fn integer_is_little_endian() {
    let data = [0x05, 0x2c, 0x13, 0xa6];
    let mut it = Cursor::new(&data);
    assert_eq!(parse_value_u32(&mut it), Some(2786274309));
    assert_eq!(it.remaining(), 0);
}

#[test]
fn each_byte_has_its_weight() {
    for (data, value) in [
        ([1u8, 0, 0, 0], 1u32),
        ([0, 1, 0, 0], 0x100),
        ([0, 0, 1, 0], 0x1_0000),
        ([0, 0, 0, 1], 0x100_0000),
        ([0x78, 0x56, 0x34, 0x12], 0x1234_5678),
    ] {
        let mut it = Cursor::new(&data);
        assert_eq!(parse_value_u32(&mut it), Some(value));
    }
}

#[test]
fn any_integer_is_accepted() {
    let mut it = Cursor::new(&[0, 0, 0, 0]);
    assert_eq!(parse_value_u32(&mut it), Some(0));
    let mut it = Cursor::new(&[0xff, 0xff, 0xff, 0xff]);
    assert_eq!(parse_value_u32(&mut it), Some(u32::MAX));
}

#[test]
fn integer_takes_exactly_four_bytes() {
    let data = [0x40, 0xe5, 0xb3, 0xae, 0x01, 0x02];
    let mut it = Cursor::new(&data);
    assert_eq!(parse_value_u32(&mut it), Some(2931025216));
    assert_eq!(it.as_slice(), &[0x01, 0x02]);
}

#[test]
fn integer_cut_short_fails() {
    for len in 0..4 {
        let data = [0x11u8, 0x22, 0x33];
        let mut it = Cursor::new(&data[..len]);
        assert_eq!(parse_value_u32(&mut it), None);
        assert_eq!(it.remaining(), 0);
    }
}

#[test]
fn text_ends_at_the_first_nul() {
    let data = b"Anki\0\"anki\"\0";
    let mut it = Cursor::new(data);
    assert_eq!(parse_value_str(&mut it), Some("Anki".to_string()));
    assert_eq!(it.as_slice(), b"\"anki\"\0");
    assert_eq!(parse_value_str(&mut it), Some("\"anki\"".to_string()));
    assert_eq!(it.remaining(), 0);
}

#[test]
fn empty_text_is_accepted() {
    let data = [0x00, 0x41];
    let mut it = Cursor::new(&data);
    assert_eq!(parse_value_str(&mut it), Some(String::new()));
    assert_eq!(it.as_slice(), &[0x41]);
}

#[test]
fn text_without_terminator_fails() {
    let data = b"no end";
    let mut it = Cursor::new(data);
    assert_eq!(parse_value_str(&mut it), None);
    assert_eq!(it.remaining(), 0);
}

#[test]
fn text_of_empty_input_fails() {
    let mut it = Cursor::new(&[]);
    assert_eq!(parse_value_str(&mut it), None);
    assert_eq!(it.remaining(), 0);
}

#[test]
fn text_beyond_ascii_is_decoded() {
    let data = "Zürich → 東京\0".as_bytes();
    let mut it = Cursor::new(data);
    assert_eq!(parse_value_str(&mut it), Some("Zürich → 東京".to_string()));
}

#[test]
fn invalid_text_is_replaced_not_rejected() {
    let data = [b'a', 0xff, b'b', 0x00, b'c'];
    let mut it = Cursor::new(&data);
    assert_eq!(parse_value_str(&mut it), Some("a\u{fffd}b".to_string()));
    assert_eq!(it.as_slice(), b"c");
}

#[test]
fn truncated_sequence_is_replaced() {
    // The first two bytes of a three-byte sequence, then the terminator.
    let data = [0xe6, 0x9d, 0x00];
    let mut it = Cursor::new(&data);
    assert_eq!(parse_value_str(&mut it), Some("\u{fffd}".to_string()));
}

#[test]
fn raw_bytes_are_taken_verbatim() {
    let data = [b'a', 0xff, b'"', 0x00, b'c', 0x00];
    let mut it = Cursor::new(&data);
    assert_eq!(parse_value_bytes(&mut it), Some(vec![b'a', 0xff, b'"']));
    assert_eq!(parse_value_bytes(&mut it), Some(vec![b'c']));
    assert_eq!(parse_value_bytes(&mut it), None);
    assert_eq!(it.remaining(), 0);
}
