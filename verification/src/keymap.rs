//! The conventional host-keyboard layout for the 16-key keypad: the
//! 4x4 block 1234 / qwer / asdf / zxcv maps to the keypad indices.

use vstd::prelude::*;

verus! {

/// The keypad index bound to a host key character, if any.
pub open spec fn key_index(key: char) -> Option<usize> {
    if key == '1' {
        Some(0x1usize)
    } else if key == '2' {
        Some(0x2usize)
    } else if key == '3' {
        Some(0x3usize)
    } else if key == '4' {
        Some(0xCusize)
    } else if key == 'q' {
        Some(0x4usize)
    } else if key == 'w' {
        Some(0x5usize)
    } else if key == 'e' {
        Some(0x6usize)
    } else if key == 'r' {
        Some(0xDusize)
    } else if key == 'a' {
        Some(0x7usize)
    } else if key == 's' {
        Some(0x8usize)
    } else if key == 'd' {
        Some(0x9usize)
    } else if key == 'f' {
        Some(0xEusize)
    } else if key == 'z' {
        Some(0xAusize)
    } else if key == 'x' {
        Some(0x0usize)
    } else if key == 'c' {
        Some(0xBusize)
    } else if key == 'v' {
        Some(0xFusize)
    } else {
        None
    }
}

/// Translate a host key character to its keypad index. Every returned
/// index is a valid argument to `Chip8::keypress`.
pub fn key2btn(key: char) -> (r: Option<usize>)
    ensures
        r == key_index(key),
        r matches Some(k) ==> k < crate::state::NUM_KEYS,
{
    match key {
        '1' => Some(0x1),
        '2' => Some(0x2),
        '3' => Some(0x3),
        '4' => Some(0xC),
        'q' => Some(0x4),
        'w' => Some(0x5),
        'e' => Some(0x6),
        'r' => Some(0xD),
        'a' => Some(0x7),
        's' => Some(0x8),
        'd' => Some(0x9),
        'f' => Some(0xE),
        'z' => Some(0xA),
        'x' => Some(0x0),
        'c' => Some(0xB),
        'v' => Some(0xF),
        _ => None,
    }
}

} // verus!
