//! The live editor embedded in a cell: the size of its pseudo-terminal, and the bytes
//! a key press becomes on the editor's input.

use vstd::prelude::*;
use vstd::utf8::encode_scalar;
use crate::config::{KeyCode, KeyModifiers};
use crate::text::{clamp, edit_box_rows};

verus! {

/// `char::to_ascii_uppercase`.
pub open spec fn ascii_upper(c: char) -> char {
    if 'a' <= c && c <= 'z' {
        ((c as u32) - 32) as char
    } else {
        c
    }
}

/// The byte a character becomes with `as u8` (its low eight bits).
pub open spec fn low_byte(c: char) -> u8 {
    ((c as u32) % 256) as u8
}

/// The bytes a terminal program expects for a key: Ctrl with `@`..`_` (after
/// upper-casing; the character's low byte is what is compared) gives the control code,
/// Ctrl-`?` gives DEL, other characters their UTF-8 bytes; named keys their usual
/// escape sequences; keys without one give nothing.
pub open spec fn key_bytes(code: KeyCode, mods: KeyModifiers) -> Seq<u8> {
    match code {
        KeyCode::Char(c) => {
            let up = low_byte(ascii_upper(c));
            if mods.control && 0x40 <= up && up <= 0x5f {
                seq![(up - 0x40) as u8]
            } else if mods.control && c == '?' {
                seq![0x7fu8]
            } else {
                encode_scalar(c as u32)
            }
        },
        KeyCode::Enter => seq![0x0du8],
        KeyCode::Tab => seq![0x09u8],
        KeyCode::BackTab => seq![0x1bu8, 0x5b, 0x5a],
        KeyCode::Backspace => seq![0x7fu8],
        KeyCode::Esc => seq![0x1bu8],
        KeyCode::Left => seq![0x1bu8, 0x5b, 0x44],
        KeyCode::Right => seq![0x1bu8, 0x5b, 0x43],
        KeyCode::Up => seq![0x1bu8, 0x5b, 0x41],
        KeyCode::Down => seq![0x1bu8, 0x5b, 0x42],
        KeyCode::Home => seq![0x1bu8, 0x5b, 0x48],
        KeyCode::End => seq![0x1bu8, 0x5b, 0x46],
        KeyCode::PageUp => seq![0x1bu8, 0x5b, 0x35, 0x7e],
        KeyCode::PageDown => seq![0x1bu8, 0x5b, 0x36, 0x7e],
        KeyCode::Delete => seq![0x1bu8, 0x5b, 0x33, 0x7e],
        KeyCode::Insert => seq![0x1bu8, 0x5b, 0x32, 0x7e],
        _ => Seq::empty(),
    }
}

fn utf8_of(c: char) -> (v: Vec<u8>)
    ensures
        v@ == encode_scalar(c as u32),
{
    let u = c as u32;
    proof {
        vstd::utf8::char_is_scalar(c);
    }
    if u <= 0x7F {
        vec![(u & 0x7F) as u8]
    } else if u <= 0x7FF {
        vec![0xC0 | ((u >> 6) & 0x1F) as u8, 0x80 | (u & 0x3F) as u8]
    } else if u <= 0xFFFF {
        vec![0xE0 | ((u >> 12) & 0x0F) as u8, 0x80 | ((u >> 6) & 0x3F) as u8, 0x80 | (u & 0x3F) as u8]
    } else {
        vec![
            0xF0 | ((u >> 18) & 0x7) as u8,
            0x80 | ((u >> 12) & 0x3F) as u8,
            0x80 | ((u >> 6) & 0x3F) as u8,
            0x80 | (u & 0x3F) as u8,
        ]
    }
}

fn bytes(b: &[u8]) -> (v: Vec<u8>)
    ensures
        v@ == b@,
{
    let mut v: Vec<u8> = Vec::new();
    for i in 0..b.len()
        invariant
            v@ == b@.take(i as int),
    {
        v.push(b[i]);
        assert(b@.take(i + 1) == b@.take(i as int).push(b@[i as int]));
    }
    assert(b@.take(b.len() as int) == b@);
    v
}

/// The escape sequences and control bytes sent for named keys, whatever modifiers are
/// held: the arrows ESC `[` `D` (Left), `C` (Right), `A` (Up), `B` (Down); Home ESC `[H`,
/// End ESC `[F`, Shift-Tab ESC `[Z`; PageUp, PageDown, Delete and Insert ESC `[5~`,
/// `[6~`, `[3~`, `[2~`; Enter CR, Tab HT, Backspace DEL, Esc ESC.
pub proof fn lemma_named_key_bytes(m: KeyModifiers)
    ensures
        key_bytes(KeyCode::Left, m) == seq![27u8, 91, 68],
        key_bytes(KeyCode::Right, m) == seq![27u8, 91, 67],
        key_bytes(KeyCode::Up, m) == seq![27u8, 91, 65],
        key_bytes(KeyCode::Down, m) == seq![27u8, 91, 66],
        key_bytes(KeyCode::Home, m) == seq![27u8, 91, 72],
        key_bytes(KeyCode::End, m) == seq![27u8, 91, 70],
        key_bytes(KeyCode::BackTab, m) == seq![27u8, 91, 90],
        key_bytes(KeyCode::PageUp, m) == seq![27u8, 91, 53, 126],
        key_bytes(KeyCode::PageDown, m) == seq![27u8, 91, 54, 126],
        key_bytes(KeyCode::Delete, m) == seq![27u8, 91, 51, 126],
        key_bytes(KeyCode::Insert, m) == seq![27u8, 91, 50, 126],
        key_bytes(KeyCode::Enter, m) == seq![13u8],
        key_bytes(KeyCode::Tab, m) == seq![9u8],
        key_bytes(KeyCode::Backspace, m) == seq![127u8],
        key_bytes(KeyCode::Esc, m) == seq![27u8],
{
}

/// A character without Control is sent as its UTF-8 bytes; Control with a letter sends
/// that letter's control code (Ctrl-A and Ctrl-a give 1, up to Ctrl-Z giving 26).
pub proof fn lemma_char_key_bytes(c: char, m: KeyModifiers)
    ensures
        !m.control ==> key_bytes(KeyCode::Char(c), m) == encode_scalar(c as u32),
        m.control && 'a' <= c && c <= 'z' ==> key_bytes(KeyCode::Char(c), m) == seq![
            ((c as u32) - 96) as u8,
        ],
        m.control && 'A' <= c && c <= 'Z' ==> key_bytes(KeyCode::Char(c), m) == seq![
            ((c as u32) - 64) as u8,
        ],
{
    if 'a' <= c && c <= 'z' {
        assert(ascii_upper(c) as u32 == (c as u32) - 32);
        assert(low_byte(ascii_upper(c)) == (c as u32) - 32);
    } else if 'A' <= c && c <= 'Z' {
        assert(low_byte(ascii_upper(c)) == c as u32);
    }
}

/// Translates a key into the bytes a terminal program expects on its input.
pub fn key_to_bytes(code: KeyCode, mods: KeyModifiers) -> (v: Vec<u8>)
    ensures
        v@ == key_bytes(code, mods),
{
    let ctrl = mods.control;
    match code {
        KeyCode::Char(c) => {
            let upc: char = if 'a' <= c && c <= 'z' {
                ((c as u32) - 32) as u8 as char
            } else {
                c
            };
            let up = ((upc as u32) % 256) as u8;
            if ctrl && 0x40 <= up && up <= 0x5f {
                vec![up - 0x40]
            } else if ctrl && c == '?' {
                vec![0x7f]
            } else {
                utf8_of(c)
            }
        },
        KeyCode::Enter => vec![0x0d],
        KeyCode::Tab => vec![0x09],
        KeyCode::BackTab => bytes(&[0x1b, 0x5b, 0x5a]),
        KeyCode::Backspace => vec![0x7f],
        KeyCode::Esc => vec![0x1b],
        KeyCode::Left => bytes(&[0x1b, 0x5b, 0x44]),
        KeyCode::Right => bytes(&[0x1b, 0x5b, 0x43]),
        KeyCode::Up => bytes(&[0x1b, 0x5b, 0x41]),
        KeyCode::Down => bytes(&[0x1b, 0x5b, 0x42]),
        KeyCode::Home => bytes(&[0x1b, 0x5b, 0x48]),
        KeyCode::End => bytes(&[0x1b, 0x5b, 0x46]),
        KeyCode::PageUp => bytes(&[0x1b, 0x5b, 0x35, 0x7e]),
        KeyCode::PageDown => bytes(&[0x1b, 0x5b, 0x36, 0x7e]),
        KeyCode::Delete => bytes(&[0x1b, 0x5b, 0x33, 0x7e]),
        KeyCode::Insert => bytes(&[0x1b, 0x5b, 0x32, 0x7e]),
        _ => Vec::new(),
    }
}

/// Size of a live editor for a terminal of `term_height` x `term_width`: its box
/// height (see `edit_box_rows`, over the rows above the status bar), and the columns and
/// rows inside the box's borders, each at least 1.
pub fn editor_pty_size(term_height: u16, term_width: u16, source_lines: u16) -> (r: (u16, u16, u16))
    requires
        term_height >= 11,
        source_lines + 5 <= u16::MAX,
    ensures
        r.0 == clamp(source_lines + 5, 6, term_height - 5),
        r.1 == (if term_width >= 3 {
            term_width - 2
        } else {
            1
        }),
        r.2 == (if r.0 >= 3 {
            r.0 - 2
        } else {
            1
        }),
{
    let edit_rows = edit_box_rows(term_height.saturating_sub(1), source_lines);
    let c = term_width.saturating_sub(2);
    let cols = if c < 1 {
        1
    } else {
        c
    };
    let r = edit_rows.saturating_sub(2);
    let rows = if r < 1 {
        1
    } else {
        r
    };
    (edit_rows, cols, rows)
}

} // verus!
