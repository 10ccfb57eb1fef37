use shell_core::keys::{decode_escape, decode_first, decode_tilde, EscapeStep, FirstByte, Key};

#[test]
fn single_bytes() {
    assert_eq!(decode_first(b'\r'), FirstByte::Done(Key::Enter));
    assert_eq!(decode_first(b'\n'), FirstByte::Done(Key::Enter));
    assert_eq!(decode_first(0x7F), FirstByte::Done(Key::Backspace));
    assert_eq!(decode_first(0x09), FirstByte::Done(Key::Tab));
    assert_eq!(decode_first(b'a'), FirstByte::Done(Key::Char('a')));
    assert_eq!(decode_first(0xC3), FirstByte::Done(Key::Ignored));
    assert_eq!(decode_first(0x1B), FirstByte::EscapeStart);
}

#[test]
fn escape_sequences() {
    assert_eq!(decode_escape(0x5B, 0x41), EscapeStep::Done(Key::Up));
    assert_eq!(decode_escape(0x5B, 0x42), EscapeStep::Done(Key::Down));
    assert_eq!(decode_escape(0x5B, 0x43), EscapeStep::Done(Key::Right));
    assert_eq!(decode_escape(0x5B, 0x44), EscapeStep::Done(Key::Left));
    assert_eq!(decode_escape(0x5B, 0x33), EscapeStep::NeedsTilde);
    assert_eq!(decode_escape(0x5B, 0x35), EscapeStep::Done(Key::Escape));
    assert_eq!(decode_escape(0x4F, 0x41), EscapeStep::Done(Key::Escape));
    assert_eq!(decode_tilde(0x7E), Key::Delete);
    assert_eq!(decode_tilde(0x41), Key::Escape);
}
