use blockfall::input::decode_byte;
use blockfall::input::decode_escape;
use blockfall::input::ByteScan;
use blockfall::Key;

#[test]
fn letters_decode_to_directions() {
    assert_eq!(decode_byte(b'w'), ByteScan::Key(Key::Up));
    assert_eq!(decode_byte(b'a'), ByteScan::Key(Key::Left));
    assert_eq!(decode_byte(b's'), ByteScan::Key(Key::Down));
    assert_eq!(decode_byte(b'd'), ByteScan::Key(Key::Right));
    assert_eq!(decode_byte(b' '), ByteScan::Key(Key::Space));
    assert_eq!(decode_byte(0x03), ByteScan::Key(Key::CtrlC));
}

#[test]
fn other_ascii_bytes_pass_through_as_characters() {
    assert_eq!(decode_byte(b'q'), ByteScan::Key(Key::Char('q')));
    assert_eq!(decode_byte(b'e'), ByteScan::Key(Key::Char('e')));
    assert_eq!(decode_byte(b'r'), ByteScan::Key(Key::Char('r')));
}

#[test]
fn non_ascii_bytes_are_invalid() {
    assert_eq!(decode_byte(0x80), ByteScan::Invalid);
    assert_eq!(decode_byte(0xff), ByteScan::Invalid);
}

#[test]
fn escape_byte_starts_a_sequence() {
    assert_eq!(decode_byte(0x1b), ByteScan::EscapeStart);
}

#[test]
fn arrow_escape_sequences_decode() {
    assert_eq!(decode_escape(b'[', b'A'), Some(Key::Up));
    assert_eq!(decode_escape(b'[', b'B'), Some(Key::Down));
    assert_eq!(decode_escape(b'[', b'C'), Some(Key::Right));
    assert_eq!(decode_escape(b'[', b'D'), Some(Key::Left));
}

#[test]
fn partial_or_unknown_escapes_yield_no_key() {
    assert_eq!(decode_escape(b'[', b'E'), None);
    assert_eq!(decode_escape(b'A', b'A'), None);
    assert_eq!(decode_escape(0, 0), None);
}
