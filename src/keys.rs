//! Decoding raw terminal bytes into key events.

use vstd::prelude::*;

verus! {

/// A key event of the line editor.
#[derive(PartialEq, Eq, Structural, Clone, Copy, Debug)]
pub enum Key {
    Enter,
    Tab,
    Backspace,
    Delete,
    Left,
    Right,
    Up,
    Down,
    /// An escape sequence that is not recognised.
    Escape,
    /// A single ASCII character, printable or control.
    Char(char),
    /// A byte that stands for no key (outside ASCII).
    Ignored,
}

/// What the first byte of a key tells.
#[derive(PartialEq, Eq, Structural, Clone, Copy, Debug)]
pub enum FirstByte {
    /// The key is complete.
    Done(Key),
    /// `ESC`: up to two more bytes follow.
    EscapeStart,
}

/// What the two bytes after `ESC` tell.
#[derive(PartialEq, Eq, Structural, Clone, Copy, Debug)]
pub enum EscapeStep {
    /// The key is complete.
    Done(Key),
    /// `ESC [ 3`: one more byte decides whether this is Delete.
    NeedsTilde,
}

pub const ESC: u8 = 0x1B;

/// The key that a byte stands for when it is not `ESC`.
pub open spec fn byte_key(b: u8) -> Key {
    if b == 0x0D || b == 0x0A {
        Key::Enter
    } else if b == 0x7F {
        Key::Backspace
    } else if b == 0x09 {
        Key::Tab
    } else if b < 0x80 {
        Key::Char(b as char)
    } else {
        Key::Ignored
    }
}

/// Decodes the first byte of a key.
pub fn decode_first(b: u8) -> (r: FirstByte)
    ensures
        b == ESC ==> r == FirstByte::EscapeStart,
        b != ESC ==> r == FirstByte::Done(byte_key(b)),
{
    if b == ESC {
        FirstByte::EscapeStart
    } else if b == 0x0D || b == 0x0A {
        FirstByte::Done(Key::Enter)
    } else if b == 0x7F {
        FirstByte::Done(Key::Backspace)
    } else if b == 0x09 {
        FirstByte::Done(Key::Tab)
    } else if b < 0x80 {
        FirstByte::Done(Key::Char(b as char))
    } else {
        FirstByte::Done(Key::Ignored)
    }
}

/// Decodes the two bytes that followed `ESC`: `[ A`, `[ B`, `[ C`, `[ D` are the
/// arrows up, down, right and left; `[ 3` waits for a `~`; anything else is Escape.
pub fn decode_escape(b1: u8, b2: u8) -> (r: EscapeStep)
    ensures
        r == (if b1 != 0x5B {
            EscapeStep::Done(Key::Escape)
        } else if b2 == 0x41 {
            EscapeStep::Done(Key::Up)
        } else if b2 == 0x42 {
            EscapeStep::Done(Key::Down)
        } else if b2 == 0x43 {
            EscapeStep::Done(Key::Right)
        } else if b2 == 0x44 {
            EscapeStep::Done(Key::Left)
        } else if b2 == 0x33 {
            EscapeStep::NeedsTilde
        } else {
            EscapeStep::Done(Key::Escape)
        }),
{
    if b1 != 0x5B {
        EscapeStep::Done(Key::Escape)
    } else if b2 == 0x41 {
        EscapeStep::Done(Key::Up)
    } else if b2 == 0x42 {
        EscapeStep::Done(Key::Down)
    } else if b2 == 0x43 {
        EscapeStep::Done(Key::Right)
    } else if b2 == 0x44 {
        EscapeStep::Done(Key::Left)
    } else if b2 == 0x33 {
        EscapeStep::NeedsTilde
    } else {
        EscapeStep::Done(Key::Escape)
    }
}

/// Decodes the byte after `ESC [ 3`: `~` completes Delete.
pub fn decode_tilde(b: u8) -> (r: Key)
    ensures
        r == (if b == 0x7E { Key::Delete } else { Key::Escape }),
{
    if b == 0x7E {
        Key::Delete
    } else {
        Key::Escape
    }
}

} // verus!
