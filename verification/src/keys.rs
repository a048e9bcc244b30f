//! Keys: what a key press sends to the running program, and the key
//! bindings of the upper-case input editor.

use vstd::prelude::*;
use crate::text::push_char;

verus! {

/// The keys that the terminal tells apart.
#[derive(Clone, Copy, Debug, PartialEq, Eq, Structural)]
pub enum KeyCode {
    Backspace,
    Enter,
    Esc,
    Tab,
    Up,
    Down,
    Left,
    Right,
    Delete,
    Insert,
    Home,
    End,
    PageUp,
    PageDown,
    Char(char),
    Other,
}

/// Whether a key event is a press, a repeat or a release.
#[derive(Clone, Copy, Debug, PartialEq, Eq, Structural)]
pub enum KeyKind {
    Press,
    Repeat,
    Release,
}

/// What one poll of the terminal delivered.
#[derive(Clone, Copy, Debug, PartialEq, Eq, Structural)]
pub enum InputEvent {
    Key { code: KeyCode, ctrl: bool, kind: KeyKind },
    Other,
}

/// A Unicode scalar value: what `char::from_u32` accepts.
pub open spec fn is_scalar_value(v: u32) -> bool {
    v <= 0x10FFFF && !(0xD800 <= v && v <= 0xDFFF)
}

/// `char::from_u32`: the character with code `v`, where `v` is a Unicode
/// scalar value, as its documentation says.
#[verifier::external_body]
fn char_from_u32(v: u32) -> (r: Option<char>)
    ensures
        r == (if is_scalar_value(v) {
            Some(v as char)
        } else {
            None
        }),
{
    std::char::from_u32(v)
}

/// What a key sends: control codes for editing keys, a NUL and a scan code
/// letter for cursor keys, the character for a character key, the
/// character 60 codes lower for a character key with control held (or
/// nothing where that is no character; below `<` the 32-bit subtraction
/// wraps past every character, so such a key sends nothing too), nothing
/// for other keys.
pub open spec fn key_text(code: KeyCode, ctrl: bool) -> Seq<char> {
    match code {
        KeyCode::Backspace => seq!['\u{8}'],
        KeyCode::Enter => seq!['\r'],
        KeyCode::Esc => seq!['\u{1b}'],
        KeyCode::Tab => seq!['\t'],
        KeyCode::Up => seq!['\0', 'H'],
        KeyCode::Down => seq!['\0', 'P'],
        KeyCode::Left => seq!['\0', 'K'],
        KeyCode::Right => seq!['\0', 'M'],
        KeyCode::Delete => seq!['\0', 'S'],
        KeyCode::Insert => seq!['\0', 'R'],
        KeyCode::Home => seq!['\0', 'G'],
        KeyCode::End => seq!['\0', 'O'],
        KeyCode::PageUp => seq!['\0', 'I'],
        KeyCode::PageDown => seq!['\0', 'Q'],
        KeyCode::Char(c) => if ctrl {
            let v = (c as u32 - 60) as u32;
            if c as u32 >= 60 && is_scalar_value(v) {
                seq![v as char]
            } else {
                seq![]
            }
        } else {
            seq![c]
        },
        KeyCode::Other => seq![],
    }
}

fn text_of(chars: &str) -> (s: String)
    ensures
        s@ == chars@,
{
    String::from_str(chars)
}

fn one_char(c: char) -> (s: String)
    ensures
        s@ == seq![c],
{
    let mut s = String::new();
    push_char(&mut s, c);
    s
}

fn two_chars(a: char, b: char) -> (s: String)
    ensures
        s@ == seq![a, b],
{
    let mut s = String::new();
    push_char(&mut s, a);
    push_char(&mut s, b);
    s
}

/// The text that a key sends to the running program.
pub fn map_key(code: KeyCode, ctrl: bool) -> (s: String)
    ensures
        s@ == key_text(code, ctrl),
{
    match code {
        KeyCode::Backspace => one_char('\u{8}'),
        KeyCode::Enter => one_char('\r'),
        KeyCode::Esc => one_char('\u{1b}'),
        KeyCode::Tab => one_char('\t'),
        KeyCode::Up => two_chars('\0', 'H'),
        KeyCode::Down => two_chars('\0', 'P'),
        KeyCode::Left => two_chars('\0', 'K'),
        KeyCode::Right => two_chars('\0', 'M'),
        KeyCode::Delete => two_chars('\0', 'S'),
        KeyCode::Insert => two_chars('\0', 'R'),
        KeyCode::Home => two_chars('\0', 'G'),
        KeyCode::End => two_chars('\0', 'O'),
        KeyCode::PageUp => two_chars('\0', 'I'),
        KeyCode::PageDown => two_chars('\0', 'Q'),
        KeyCode::Char(c) => {
            if ctrl {
                if (c as u32) < 60 {
                    return String::new();
                }
                match char_from_u32(c as u32 - 60) {
                    Some(d) => one_char(d),
                    None => String::new(),
                }
            } else {
                one_char(c)
            }
        },
        KeyCode::Other => String::new(),
    }
}

/// One round of waiting for a key: where nothing came in time, the answer is
/// the empty text; a key press or repeat answers with its text; anything
/// else (a release, another event) means waiting on.
pub fn inkey_step(polled: Option<InputEvent>) -> (r: Option<String>)
    ensures
        match polled {
            None => r matches Some(s) && s@.len() == 0,
            Some(InputEvent::Key { code, ctrl, kind }) => if kind == KeyKind::Press || kind
                == KeyKind::Repeat {
                r matches Some(s) && s@ == key_text(code, ctrl)
            } else {
                r is None
            },
            Some(InputEvent::Other) => r is None,
        },
{
    match polled {
        None => Some(String::new()),
        Some(InputEvent::Key { code, ctrl, kind }) => {
            match kind {
                KeyKind::Press | KeyKind::Repeat => Some(map_key(code, ctrl)),
                KeyKind::Release => None,
            }
        },
        Some(InputEvent::Other) => None,
    }
}

/// The bindings of the upper-case input editor: each lower-case letter
/// inserts its upper-case letter.
pub open spec fn caps_binding(i: int) -> (char, Seq<char>) {
    ((97 + i) as char, seq![(65 + i) as char])
}

/// The key bindings that make an input editor type in upper case, from `a`
/// to `z`.
pub fn caps_bindings() -> (v: Vec<(char, String)>)
    ensures
        v@.len() == 26,
        forall|i: int| 0 <= i < 26 ==> (#[trigger] v@[i]).0 == caps_binding(i).0 && v@[i].1@
            == caps_binding(i).1,
{
    let mut v: Vec<(char, String)> = Vec::new();
    let mut ch: u8 = 97;
    while ch <= 122
        invariant
            97 <= ch <= 123,
            v@.len() == ch - 97,
            forall|i: int| 0 <= i < ch - 97 ==> (#[trigger] v@[i]).0 == caps_binding(i).0
                && v@[i].1@ == caps_binding(i).1,
        decreases 123 - ch,
    {
        let upper = ch - 32;
        v.push((ch as char, one_char(upper as char)));
        ch = ch + 1;
    }
    v
}

/// Without Control, a character key sends exactly that character, whatever
/// it is.
pub proof fn law_plain_character_key_sends_itself(c: char)
    ensures
        key_text(KeyCode::Char(c), false) == seq![c],
{
}

} // verus!
