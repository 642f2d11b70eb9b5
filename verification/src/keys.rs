//! Keys, and what they do in a text field.

use crate::library::is_control;
use crate::strings::{chars_of, is_digit, string_of};
use vstd::prelude::*;

verus! {

/// A key of the keyboard, by its place.
#[derive(Clone, Copy, PartialEq, Eq, Structural, Debug)]
pub enum Key {
    Backspace,
    Enter,
    NumpadEnter,
    Escape,
    ArrowLeft,
    ArrowRight,
    ArrowUp,
    ArrowDown,
    Home,
    End,
    Tab,
    Space,
    Delete,
    Insert,
    F1,
    F2,
    F3,
    F4,
    F5,
    F6,
    F7,
    BracketLeft,
    BracketRight,
    Digit1,
    Digit2,
    Digit3,
    Digit4,
    B,
    C,
    E,
    I,
    N,
    O,
    P,
    Q,
    R,
    S,
    V,
    W,
    Y,
    Z,
    Control,
    Shift,
    Alt,
    Other,
}

/// A key as the fields of a panel take it.
#[derive(Clone, Copy, PartialEq, Eq, Structural, Debug)]
pub enum WidgetKey {
    Backspace,
    Enter,
    Escape,
    Left,
    Right,
    Up,
    Down,
    Home,
    End,
    Tab,
    Char(char),
}

/// Whether a number field takes the character.
pub open spec fn is_number_char(c: char) -> bool {
    is_digit(c) || c == '.' || c == '-'
}

/// The key as a panel takes it: `typed` is the first character that it types, `number` says
/// that the fields hold numbers. Such fields take the tabulator, and of the characters only
/// digits, the point and the minus sign; others take every character.
pub open spec fn widget_key(code: Key, typed: Option<char>, number: bool) -> Option<WidgetKey> {
    match code {
        Key::Backspace => Some(WidgetKey::Backspace),
        Key::Enter | Key::NumpadEnter => Some(WidgetKey::Enter),
        Key::Escape => Some(WidgetKey::Escape),
        Key::ArrowLeft => Some(WidgetKey::Left),
        Key::ArrowRight => Some(WidgetKey::Right),
        Key::ArrowUp => Some(WidgetKey::Up),
        Key::ArrowDown => Some(WidgetKey::Down),
        Key::Home => Some(WidgetKey::Home),
        Key::End => Some(WidgetKey::End),
        _ => if code is Tab && number {
            Some(WidgetKey::Tab)
        } else if typed is Some && (!number || is_number_char(typed->0)) {
            Some(WidgetKey::Char(typed->0))
        } else {
            None
        },
    }
}

/// The key as a panel takes it.
pub fn code_to_widget_key(code: Key, typed: Option<char>, number: bool) -> (r: Option<WidgetKey>)
    ensures
        r == widget_key(code, typed, number),
{
    match code {
        Key::Backspace => Some(WidgetKey::Backspace),
        Key::Enter | Key::NumpadEnter => Some(WidgetKey::Enter),
        Key::Escape => Some(WidgetKey::Escape),
        Key::ArrowLeft => Some(WidgetKey::Left),
        Key::ArrowRight => Some(WidgetKey::Right),
        Key::ArrowUp => Some(WidgetKey::Up),
        Key::ArrowDown => Some(WidgetKey::Down),
        Key::Home => Some(WidgetKey::Home),
        Key::End => Some(WidgetKey::End),
        _ => {
            if number && code == Key::Tab {
                return Some(WidgetKey::Tab);
            }
            match typed {
                Some(c) => if !number || ('0' <= c && c <= '9') || c == '.' || c == '-' {
                    Some(WidgetKey::Char(c))
                } else {
                    None
                },
                None => None,
            }
        },
    }
}

/// What a floating field holds.
#[derive(Clone, Copy, PartialEq, Eq, Structural, Debug)]
pub enum Field {
    /// A comment: every character but control characters.
    Comment,
    /// A number: digits, the point, the minus sign and `e`.
    Number,
}

/// Whether the field takes a character.
pub open spec fn is_allowed(f: Field, c: char) -> bool {
    match f {
        Field::Comment => !is_control(c),
        Field::Number => is_number_char(c) || c == 'e',
    }
}

/// Whether the field takes a character.
pub fn allowed(f: Field, c: char) -> (r: bool)
    ensures
        r == is_allowed(f, c),
{
    let n: u32 = c as u32;
    match f {
        Field::Comment => !(n < 0x20 || (0x7f <= n && n <= 0x9f)),
        Field::Number => ('0' <= c && c <= '9') || c == '.' || c == '-' || c == 'e',
    }
}

/// The text without its last character.
pub open spec fn shortened(s: Seq<char>) -> Seq<char> {
    if s.len() == 0 {
        s
    } else {
        s.drop_last()
    }
}

/// Takes the last character of a text away, where it has one.
pub fn drop_char(s: &mut String)
    ensures
        final(s)@ == shortened(old(s)@),
{
    let mut v: Vec<char> = chars_of(s.as_str());
    if v.len() > 0 {
        let _last: Option<char> = v.pop();
    }
    *s = string_of(&v);
}

/// The text of a field after a key.
pub open spec fn edited(s: Seq<char>, code: Key, typed: Option<char>, f: Field) -> Seq<char> {
    match code {
        Key::Enter | Key::NumpadEnter | Key::Escape => s,
        Key::Backspace => shortened(s),
        _ => if typed is Some && is_allowed(f, typed->0) {
            s.push(typed->0)
        } else {
            s
        },
    }
}

/// A key in a floating field: whether it ends the edit by taking its text over, and whether it
/// ends it by giving it up.
pub fn handle_text_edit(buf: &mut String, code: Key, typed: Option<char>, f: Field) -> (r: (
    bool,
    bool,
))
    ensures
        final(buf)@ == edited(old(buf)@, code, typed, f),
        r.0 == (code is Enter || code is NumpadEnter),
        r.1 == (code is Escape),
{
    match code {
        Key::Enter | Key::NumpadEnter => (true, false),
        Key::Escape => (false, true),
        Key::Backspace => {
            drop_char(buf);
            (false, false)
        },
        _ => {
            if let Some(c) = typed {
                if allowed(f, c) {
                    buf.push(c);
                }
            }
            (false, false)
        },
    }
}

/// Law: a key that types a character into a field is undone by the key that takes one back.
pub proof fn law_backspace_undoes_typing(s: Seq<char>, code: Key, c: char, f: Field)
    requires
        is_allowed(f, c),
        !(code is Enter) && !(code is NumpadEnter) && !(code is Escape) && !(code is Backspace),
    ensures
        edited(edited(s, code, Some(c), f), Key::Backspace, None, f) == s,
{
    assert(s.push(c).drop_last() =~= s);
}

/// Law: keys that move or delete stay what they are in a panel, whatever they type; the tabulator only
/// where numbers stand; and of the characters a field of numbers gets the figures, the point and the
/// minus sign alone.
pub proof fn law_panel_keys(code: Key, c: char, number: bool)
    ensures
        widget_key(Key::Backspace, Some(c), number) == Some(WidgetKey::Backspace),
        widget_key(Key::Enter, Some(c), number) == Some(WidgetKey::Enter),
        widget_key(Key::NumpadEnter, Some(c), number) == Some(WidgetKey::Enter),
        widget_key(Key::Escape, Some(c), number) == Some(WidgetKey::Escape),
        widget_key(Key::ArrowLeft, Some(c), number) == Some(WidgetKey::Left),
        widget_key(Key::ArrowRight, Some(c), number) == Some(WidgetKey::Right),
        widget_key(Key::ArrowUp, Some(c), number) == Some(WidgetKey::Up),
        widget_key(Key::ArrowDown, Some(c), number) == Some(WidgetKey::Down),
        widget_key(Key::Home, Some(c), number) == Some(WidgetKey::Home),
        widget_key(Key::End, Some(c), number) == Some(WidgetKey::End),
        widget_key(Key::Tab, Some(c), true) == Some(WidgetKey::Tab),
        widget_key(Key::Tab, None, false) is None,
        widget_key(Key::Other, Some(c), false) == Some(WidgetKey::Char(c)),
        '0' <= c <= '9' || c == '.' || c == '-' ==> widget_key(Key::Other, Some(c), true) == Some(
            WidgetKey::Char(c),
        ),
        !('0' <= c <= '9' || c == '.' || c == '-') ==> widget_key(Key::Other, Some(c), true) is None,
        widget_key(Key::Other, None, number) is None,
        widget_key(code, Some(c), number) matches Some(WidgetKey::Char(d)) ==> d == c,
{
}

/// Law: a comment takes no control character, and everything else; a number takes the figures, the
/// point, the minus sign and the letter of an exponent.
pub proof fn law_what_fields_take(c: char, s: Seq<char>)
    ensures
        edited(s, Key::Other, Some(c), Field::Comment) == (if (c as u32) < 32 || 127 <= (c as u32)
            <= 159 {
            s
        } else {
            s.push(c)
        }),
        edited(s, Key::Other, Some(c), Field::Number) == (if ('0' <= c <= '9') || c == '.' || c == '-'
            || c == 'e' {
            s.push(c)
        } else {
            s
        }),
        edited(s, Key::Enter, Some(c), Field::Comment) == s,
        edited(s, Key::NumpadEnter, Some(c), Field::Comment) == s,
        edited(s, Key::Escape, Some(c), Field::Comment) == s,
        edited(s.push(c), Key::Backspace, None, Field::Comment) == s,
        edited(s.push(c), Key::Backspace, None, Field::Number) == s,
        edited(Seq::empty(), Key::Backspace, None, Field::Number) == Seq::<char>::empty(),
{
    assert(s.push(c).drop_last() =~= s);
}

} // verus!
