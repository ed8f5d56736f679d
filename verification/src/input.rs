use vstd::prelude::*;
use crate::Key;

verus! {

/// What a single leading input byte decodes to: a finished key, the start
/// of a three-byte escape sequence, or nothing.
#[derive(Clone, Copy, PartialEq, Eq, Structural, Debug)]
pub enum ByteScan {
    Key(Key),
    EscapeStart,
    Invalid,
}

/// The decoding of one leading input byte: the letters w, a, s, d map to
/// the directions, space and control-C to their keys, the escape byte
/// starts a sequence, any other ASCII byte passes through as a character,
/// and a non-ASCII byte is invalid.
pub open spec fn spec_decode_byte(b: u8) -> ByteScan {
    if b == 119 {
        ByteScan::Key(Key::Up)
    } else if b == 97 {
        ByteScan::Key(Key::Left)
    } else if b == 115 {
        ByteScan::Key(Key::Down)
    } else if b == 100 {
        ByteScan::Key(Key::Right)
    } else if b == 32 {
        ByteScan::Key(Key::Space)
    } else if b == 3 {
        ByteScan::Key(Key::CtrlC)
    } else if b == 27 {
        ByteScan::EscapeStart
    } else if b < 128 {
        ByteScan::Key(Key::Char(b as char))
    } else {
        ByteScan::Invalid
    }
}

/// Decodes one leading input byte.
pub fn decode_byte(b: u8) -> (r: ByteScan)
    ensures
        r == spec_decode_byte(b),
{
    if b == 119 {
        ByteScan::Key(Key::Up)
    } else if b == 97 {
        ByteScan::Key(Key::Left)
    } else if b == 115 {
        ByteScan::Key(Key::Down)
    } else if b == 100 {
        ByteScan::Key(Key::Right)
    } else if b == 32 {
        ByteScan::Key(Key::Space)
    } else if b == 3 {
        ByteScan::Key(Key::CtrlC)
    } else if b == 27 {
        ByteScan::EscapeStart
    } else if b < 128 {
        ByteScan::Key(Key::Char(b as char))
    } else {
        ByteScan::Invalid
    }
}

/// The decoding of the two bytes that follow an escape byte: only the four
/// arrow-key sequences yield a key; anything else is dropped, so a partial
/// or unknown sequence never becomes a spurious key event.
pub open spec fn spec_decode_escape(b1: u8, b2: u8) -> Option<Key> {
    if b1 != 91 {
        None
    } else if b2 == 65 {
        Some(Key::Up)
    } else if b2 == 66 {
        Some(Key::Down)
    } else if b2 == 67 {
        Some(Key::Right)
    } else if b2 == 68 {
        Some(Key::Left)
    } else {
        None
    }
}

/// Decodes the two bytes that follow an escape byte.
pub fn decode_escape(b1: u8, b2: u8) -> (r: Option<Key>)
    ensures
        r == spec_decode_escape(b1, b2),
{
    if b1 != 91 {
        None
    } else if b2 == 65 {
        Some(Key::Up)
    } else if b2 == 66 {
        Some(Key::Down)
    } else if b2 == 67 {
        Some(Key::Right)
    } else if b2 == 68 {
        Some(Key::Left)
    } else {
        None
    }
}

} // verus!
