//! The decision core of the keyboard handler: which decoded keys are
//! echoed to the screen, and as which character.  Scancode decoding and
//! the printing itself happen at the hardware boundary; this module owns
//! the policy.

use vstd::prelude::*;

verus! {

/// A raw (non-printing) key, reduced to what the policy distinguishes.
#[derive(Clone, Copy, PartialEq, Eq, Structural, Debug)]
pub enum RawKey {
    Backspace,
    Tab,
    Return,
    Other,
}

/// A decoded key event: either a character or a raw key.
#[derive(Clone, Copy, PartialEq, Eq, Structural, Debug)]
pub enum KeyInput {
    Unicode(char),
    Raw(RawKey),
}

/// A control character: the basic control range below space, delete,
/// and the extended control range.
pub open spec fn is_control_char(c: char) -> bool {
    (c as u32) < 0x20 || (0x7f <= (c as u32) && (c as u32) < 0xa0)
}

/// The character echoed for a key, if any: printable characters pass
/// through; of the control characters only backspace, tab and newline
/// are echoed; of the raw keys only backspace, tab and return are
/// echoed, as their control characters.
pub open spec fn spec_key_output(k: KeyInput) -> Option<char> {
    match k {
        KeyInput::Unicode(c) => {
            if !is_control_char(c) {
                Some(c)
            } else if c == '\u{8}' || c == '\t' || c == '\n' {
                Some(c)
            } else {
                None
            }
        },
        KeyInput::Raw(r) => {
            match r {
                RawKey::Backspace => Some('\u{8}'),
                RawKey::Tab => Some('\t'),
                RawKey::Return => Some('\r'),
                RawKey::Other => None,
            }
        },
    }
}

/// Decides what a decoded key prints, if anything.
pub fn key_output(k: KeyInput) -> (r: Option<char>)
    ensures
        r == spec_key_output(k),
{
    match k {
        KeyInput::Unicode(c) => {
            let code = c as u32;
            let control = code < 0x20 || (0x7f <= code && code < 0xa0);
            if !control {
                Some(c)
            } else if c == '\u{8}' || c == '\t' || c == '\n' {
                Some(c)
            } else {
                None
            }
        },
        KeyInput::Raw(r) => {
            match r {
                RawKey::Backspace => Some('\u{8}'),
                RawKey::Tab => Some('\t'),
                RawKey::Return => Some('\r'),
                RawKey::Other => None,
            }
        },
    }
}

} // verus!
