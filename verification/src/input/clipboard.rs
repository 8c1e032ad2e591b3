//! Clipboard integration: copy/paste keybinding detection and bracketed paste.

use vstd::prelude::*;
use vstd::string::StringSliceAdditionalSpecFns;
use crate::input::{is_char, Key, ModifiersState};
use crate::text::str_chars;

verus! {

/// Whether the key event is the copy or paste chord for letter `letter`:
/// Cmd+letter without Ctrl (macOS), or Ctrl+Shift+letter (Linux).
pub open spec fn clipboard_chord(key: Key, m: ModifiersState, letter: char) -> bool {
    (key matches Key::Character(s) && is_char(s@, letter)) && ((m.super_key && !m.control) || (
    m.control && m.shift))
}

fn is_clipboard_chord(key: &Key, modifiers: ModifiersState, letter: char) -> (b: bool)
    ensures
        b == clipboard_chord(*key, modifiers, letter),
{
    let is_letter = match key {
        Key::Character(s) => {
            let chars = str_chars(s.as_str());
            chars.len() == 1 && chars[0] == letter
        },
        _ => false,
    };
    if !is_letter {
        return false;
    }
    if modifiers.super_key() && !modifiers.control_key() {
        return true;
    }
    modifiers.control_key() && modifiers.shift_key()
}

/// Detect if a key event is a copy keybinding.
/// macOS: Cmd+C, Linux: Ctrl+Shift+C.
pub fn is_copy_keybinding(key: &Key, modifiers: ModifiersState) -> (b: bool)
    ensures
        b == clipboard_chord(*key, modifiers, 'c'),
{
    is_clipboard_chord(key, modifiers, 'c')
}

/// Detect if a key event is a paste keybinding.
/// macOS: Cmd+V, Linux: Ctrl+Shift+V.
pub fn is_paste_keybinding(key: &Key, modifiers: ModifiersState) -> (b: bool)
    ensures
        b == clipboard_chord(*key, modifiers, 'v'),
{
    is_clipboard_chord(key, modifiers, 'v')
}

/// `ESC [ 2 0 0 ~`, the bracketed paste start marker.
pub open spec fn paste_start_marker() -> Seq<u8> {
    seq![0x1bu8, 0x5bu8, 0x32u8, 0x30u8, 0x30u8, 0x7eu8]
}

/// `ESC [ 2 0 1 ~`, the bracketed paste end marker.
pub open spec fn paste_end_marker() -> Seq<u8> {
    seq![0x1bu8, 0x5bu8, 0x32u8, 0x30u8, 0x31u8, 0x7eu8]
}

fn push_bytes(out: &mut Vec<u8>, bytes: &[u8])
    ensures
        final(out)@ == old(out)@ + bytes@,
{
    let mut i: usize = 0;
    while i < bytes.len()
        invariant
            i <= bytes@.len(),
            out@ == old(out)@ + bytes@.subrange(0, i as int),
        decreases bytes.len() - i,
    {
        out.push(bytes[i]);
        i = i + 1;
        assert(out@ =~= old(out)@ + bytes@.subrange(0, i as int));
    }
    assert(bytes@.subrange(0, bytes@.len() as int) =~= bytes@);
}

/// Wrap text in bracketed paste mode escape sequences.
pub fn wrap_bracketed_paste(text: &str) -> (bytes: Vec<u8>)
    ensures
        bytes@ == paste_start_marker() + text.spec_bytes() + paste_end_marker(),
{
    let mut bytes: Vec<u8> = Vec::new();
    bytes.push(0x1b);
    bytes.push(0x5b);
    bytes.push(0x32);
    bytes.push(0x30);
    bytes.push(0x30);
    bytes.push(0x7e);
    assert(bytes@ =~= paste_start_marker());
    push_bytes(&mut bytes, text.as_bytes());
    let ghost mid = bytes@;
    bytes.push(0x1b);
    bytes.push(0x5b);
    bytes.push(0x32);
    bytes.push(0x30);
    bytes.push(0x31);
    bytes.push(0x7e);
    assert(bytes@ =~= mid + paste_end_marker());
    bytes
}

/// Generate bytes to send to the PTY for a paste operation.
/// If bracketed paste mode is enabled, wraps text in escape sequences.
pub fn paste_bytes(text: &str, bracketed_paste_enabled: bool) -> (bytes: Vec<u8>)
    ensures
        bracketed_paste_enabled ==> bytes@ == paste_start_marker() + text.spec_bytes()
            + paste_end_marker(),
        !bracketed_paste_enabled ==> bytes@ == text.spec_bytes(),
{
    if bracketed_paste_enabled {
        wrap_bracketed_paste(text)
    } else {
        let mut bytes: Vec<u8> = Vec::new();
        push_bytes(&mut bytes, text.as_bytes());
        assert(bytes@ =~= text.spec_bytes());
        bytes
    }
}

} // verus!
