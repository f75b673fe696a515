//! Keys: how they are told apart, what a program in a terminal is sent for them, and the
//! editing of a line.

use crate::text::{control, is_control, string_of};
use vstd::prelude::*;
use vstd::utf8::encode_utf8;

verus! {

/// A key without its modifiers.
#[derive(Debug, Clone, Copy, PartialEq, Eq, Structural)]
pub enum KeyCode {
    Char(char),
    Enter,
    Backspace,
    Tab,
    BackTab,
    Esc,
    Left,
    Right,
    Up,
    Down,
    Home,
    End,
    PageUp,
    PageDown,
    Delete,
    Insert,
    /// Any other key.
    Other,
}

/// The modifiers that are held with a key.
#[derive(Debug, Clone, Copy, PartialEq, Eq, Structural)]
pub struct KeyModifiers {
    pub shift: bool,
    pub control: bool,
    pub alt: bool,
    /// Whether any other modifier is held.
    pub other: bool,
}

/// A key press.
#[derive(Debug, Clone, Copy, PartialEq, Eq, Structural)]
pub struct Key {
    pub code: KeyCode,
    pub modifiers: KeyModifiers,
}

impl KeyModifiers {
    /// No modifier at all.
    pub open spec fn none(self) -> bool {
        !self.shift && !self.control && !self.alt && !self.other
    }

    /// The shift key and no other modifier.
    pub open spec fn only_shift(self) -> bool {
        self.shift && !self.control && !self.alt && !self.other
    }

    /// The control key and no other modifier.
    pub open spec fn only_control(self) -> bool {
        !self.shift && self.control && !self.alt && !self.other
    }

    /// Whether no modifier is held.
    pub fn is_none(self) -> (r: bool)
        ensures
            r == self.none(),
    {
        !self.shift && !self.control && !self.alt && !self.other
    }

    /// Whether the shift key is held, and nothing else.
    pub fn is_only_shift(self) -> (r: bool)
        ensures
            r == self.only_shift(),
    {
        self.shift && !self.control && !self.alt && !self.other
    }

    /// Whether the control key is held, and nothing else.
    pub fn is_only_control(self) -> (r: bool)
        ensures
            r == self.only_control(),
    {
        !self.shift && self.control && !self.alt && !self.other
    }
}

impl Key {
    /// A character, whatever the modifiers.
    pub open spec fn types(self, ch: char) -> bool {
        self.code == KeyCode::Char(ch)
    }

    /// A character without modifiers.
    pub open spec fn plain(self, ch: char) -> bool {
        self.types(ch) && self.modifiers.none()
    }

    /// A character with the control key alone.
    pub open spec fn control(self, ch: char) -> bool {
        self.types(ch) && self.modifiers.only_control()
    }

    /// Whether this is a character, whatever the modifiers.
    pub fn is_char(self, ch: char) -> (r: bool)
        ensures
            r == self.types(ch),
    {
        self.code == KeyCode::Char(ch)
    }

    /// Whether this is a character without modifiers.
    pub fn is_plain(self, ch: char) -> (r: bool)
        ensures
            r == self.plain(ch),
    {
        self.is_char(ch) && self.modifiers.is_none()
    }

    /// Whether this is a character with the control key alone.
    pub fn is_control(self, ch: char) -> (r: bool)
        ensures
            r == self.control(ch),
    {
        self.is_char(ch) && self.modifiers.is_only_control()
    }
}

// What a program is sent
// ----------------------

/// The letter that a character stands for under the control key: that of its code's low
/// byte, in lower case.
pub open spec fn control_letter(ch: char) -> int {
    let code = if 'A' <= ch <= 'Z' {
        ch as int + 32
    } else {
        ch as int
    };
    code % 256
}

/// The bytes for a character. With the control key, a blank is zero and a letter its place
/// in the alphabet; otherwise it is the character's UTF-8, behind an escape with the alt
/// key.
pub open spec fn char_bytes(ch: char, modifiers: KeyModifiers) -> Seq<u8> {
    if modifiers.control && ch == ' ' {
        seq![0u8]
    } else if modifiers.control && 97 <= control_letter(ch) <= 122 {
        seq![(control_letter(ch) - 96) as u8]
    } else if modifiers.alt {
        seq![0x1bu8] + encode_utf8(seq![ch])
    } else {
        encode_utf8(seq![ch])
    }
}

/// The bytes that a program in a terminal is sent for a key; none for a key that it is not
/// sent.
pub open spec fn key_bytes(key: Key) -> Option<Seq<u8>> {
    match key.code {
        KeyCode::Char(ch) => Some(char_bytes(ch, key.modifiers)),
        KeyCode::Enter => Some(seq![13u8]),
        KeyCode::Backspace => Some(seq![0x7fu8]),
        KeyCode::Tab => Some(seq![9u8]),
        KeyCode::BackTab => Some(seq![0x1bu8, 91u8, 90u8]),
        KeyCode::Esc => Some(seq![0x1bu8]),
        KeyCode::Left => Some(seq![0x1bu8, 91u8, 68u8]),
        KeyCode::Right => Some(seq![0x1bu8, 91u8, 67u8]),
        KeyCode::Up => Some(seq![0x1bu8, 91u8, 65u8]),
        KeyCode::Down => Some(seq![0x1bu8, 91u8, 66u8]),
        KeyCode::Home => Some(seq![0x1bu8, 91u8, 72u8]),
        KeyCode::End => Some(seq![0x1bu8, 91u8, 70u8]),
        KeyCode::PageUp => Some(seq![0x1bu8, 91u8, 53u8, 126u8]),
        KeyCode::PageDown => Some(seq![0x1bu8, 91u8, 54u8, 126u8]),
        KeyCode::Delete => Some(seq![0x1bu8, 91u8, 51u8, 126u8]),
        KeyCode::Insert => Some(seq![0x1bu8, 91u8, 50u8, 126u8]),
        KeyCode::Other => None,
    }
}

fn encode_char(ch: char, modifiers: KeyModifiers) -> (r: Vec<u8>)
    ensures
        r@ == char_bytes(ch, modifiers),
{
    if modifiers.control {
        if ch == ' ' {
            return vec![0];
        }
        let code: u32 = if 'A' <= ch && ch <= 'Z' {
            ch as u32 + 32
        } else {
            ch as u32
        };
        let low: u32 = code % 256;
        if 97 <= low && low <= 122 {
            return vec![(low - 96) as u8];
        }
    }
    let mut out: Vec<u8> = Vec::new();
    if modifiers.alt {
        out.push(0x1b);
    }
    let mut text: String = String::new();
    text.push(ch);
    assert(text@ =~= seq![ch]);
    let bytes: &[u8] = text.as_str().as_bytes();
    let mut encoded: Vec<u8> = vstd::slice::slice_to_vec(bytes);
    out.append(&mut encoded);
    assert(out@ =~= char_bytes(ch, modifiers));
    out
}

/// The bytes that a program in a terminal is sent for a key.
pub fn encode_key(key: Key) -> (r: Option<Vec<u8>>)
    ensures
        match r {
            Some(bytes) => key_bytes(key) == Some(bytes@),
            None => key_bytes(key) is None,
        },
{
    let bytes: Vec<u8> = match key.code {
        KeyCode::Char(ch) => encode_char(ch, key.modifiers),
        KeyCode::Enter => vec![13],
        KeyCode::Backspace => vec![0x7f],
        KeyCode::Tab => vec![9],
        KeyCode::BackTab => vec![0x1b, 91, 90],
        KeyCode::Esc => vec![0x1b],
        KeyCode::Left => vec![0x1b, 91, 68],
        KeyCode::Right => vec![0x1b, 91, 67],
        KeyCode::Up => vec![0x1b, 91, 65],
        KeyCode::Down => vec![0x1b, 91, 66],
        KeyCode::Home => vec![0x1b, 91, 72],
        KeyCode::End => vec![0x1b, 91, 70],
        KeyCode::PageUp => vec![0x1b, 91, 53, 126],
        KeyCode::PageDown => vec![0x1b, 91, 54, 126],
        KeyCode::Delete => vec![0x1b, 91, 51, 126],
        KeyCode::Insert => vec![0x1b, 91, 50, 126],
        KeyCode::Other => {
            return None;
        },
    };
    assert(key_bytes(key)->0 =~= bytes@);
    Some(bytes)
}

// Editing a line
// --------------

/// A line that is being typed.
#[derive(Debug)]
pub struct Prompt {
    pub chars: Vec<char>,
}

impl View for Prompt {
    type V = Seq<char>;

    open spec fn view(&self) -> Seq<char> {
        self.chars@
    }
}

/// Whether a key ends the line.
pub open spec fn ends_line(key: Key) -> bool {
    key.code == KeyCode::Enter || key.code == KeyCode::Esc
}

/// The line after a key: escape empties it, backspace takes the last character away, and
/// characters that are no control characters are added, unless other modifiers than the
/// shift key are held.
pub open spec fn edited(line: Seq<char>, key: Key) -> Seq<char> {
    match key.code {
        KeyCode::Esc => Seq::empty(),
        KeyCode::Backspace => if line.len() > 0 {
            line.drop_last()
        } else {
            line
        },
        KeyCode::Char(ch) => if (key.modifiers.none() || key.modifiers.only_shift()) && !control(
            ch,
        ) {
            line.push(ch)
        } else {
            line
        },
        _ => line,
    }
}

impl Prompt {
    /// An empty line.
    pub fn new() -> (r: Self)
        ensures
            r@ == Seq::<char>::empty(),
    {
        Prompt { chars: Vec::new() }
    }

    /// Takes in a key. Returns whether the line is finished.
    pub fn handle_key(&mut self, key: Key) -> (r: bool)
        ensures
            r == ends_line(key),
            final(self)@ == edited(old(self)@, key),
    {
        match key.code {
            KeyCode::Enter => true,
            KeyCode::Esc => {
                self.chars.clear();
                true
            },
            KeyCode::Backspace => {
                let _ = self.chars.pop();
                assert(self@ =~= edited(old(self)@, key));
                false
            },
            KeyCode::Char(ch) => {
                if (key.modifiers.is_none() || key.modifiers.is_only_shift()) && !is_control(ch) {
                    self.chars.push(ch);
                }
                false
            },
            _ => false,
        }
    }

    /// The line.
    pub fn text(&self) -> (r: String)
        ensures
            r@ == self@,
    {
        string_of(self.chars.as_slice())
    }
}

// Laws
// ----

/// A character alone.
pub open spec fn pressed(key: Key, ch: char) -> bool {
    key == Key {
        code: KeyCode::Char(ch),
        modifiers: KeyModifiers { shift: false, control: false, alt: false, other: false },
    }
}

/// A character with the control key.
pub open spec fn with_control(key: Key, ch: char) -> bool {
    key == Key {
        code: KeyCode::Char(ch),
        modifiers: KeyModifiers { shift: false, control: true, alt: false, other: false },
    }
}

/// A character that is typed reaches the program as its UTF-8; with the alt key an escape
/// goes before it; with the control key a letter, in either case, is sent as its place in
/// the alphabet, and a blank as zero.
pub proof fn typed_characters_are_sent(key: Key, ch: char)
    requires
        key.code == KeyCode::Char(ch),
    ensures
        !key.modifiers.control && !key.modifiers.alt ==> crate::utf8::decoded(key_bytes(key)->0).text
            == seq![ch],
        !key.modifiers.control && key.modifiers.alt ==> key_bytes(key) == Some(
            seq![0x1bu8] + key_bytes(
                Key {
                    modifiers: KeyModifiers { alt: false, ..key.modifiers },
                    ..key
                },
            )->0,
        ),
        key.modifiers.control && 'a' <= ch <= 'z' ==> key_bytes(key) == Some(
            seq![(ch as u8 - 'a' as u8 + 1) as u8],
        ),
        key.modifiers.control && 'A' <= ch <= 'Z' ==> key_bytes(key) == Some(
            seq![(ch as u8 - 'A' as u8 + 1) as u8],
        ),
        key.modifiers.control && ch == ' ' ==> key_bytes(key) == Some(seq![0u8]),
        key_bytes(key) is Some,
{
    crate::utf8::encoded_text_is_decoded(seq![ch]);
}

/// The number of the control function that an editing key is sent as.
spec fn function_of(bytes: Seq<u8>) -> (int, int, int) {
    (
        bytes.len() as int,
        if bytes.len() > 2 {
            bytes[2] as int
        } else {
            -1
        },
        if bytes.len() > 0 {
            bytes[0] as int
        } else {
            -1
        },
    )
}

/// The keys that are no characters are sent as terminals send them: the arrow keys as the
/// control functions that move the cursor their way, the others each as something of its
/// own.
pub proof fn editing_keys_are_sent(a: Key, b: Key)
    ensures
        a.code == KeyCode::Up ==> key_bytes(a) == Some(seq![0x1bu8, '[' as u8, 'A' as u8]),
        a.code == KeyCode::Down ==> key_bytes(a) == Some(seq![0x1bu8, '[' as u8, 'B' as u8]),
        a.code == KeyCode::Right ==> key_bytes(a) == Some(seq![0x1bu8, '[' as u8, 'C' as u8]),
        a.code == KeyCode::Left ==> key_bytes(a) == Some(seq![0x1bu8, '[' as u8, 'D' as u8]),
        a.code == KeyCode::Home ==> key_bytes(a) == Some(seq![0x1bu8, '[' as u8, 'H' as u8]),
        a.code == KeyCode::End ==> key_bytes(a) == Some(seq![0x1bu8, '[' as u8, 'F' as u8]),
        a.code == KeyCode::BackTab ==> key_bytes(a) == Some(seq![0x1bu8, '[' as u8, 'Z' as u8]),
        a.code == KeyCode::Insert ==> key_bytes(a) == Some(
            seq![0x1bu8, '[' as u8, '2' as u8, '~' as u8],
        ),
        a.code == KeyCode::Delete ==> key_bytes(a) == Some(
            seq![0x1bu8, '[' as u8, '3' as u8, '~' as u8],
        ),
        a.code == KeyCode::PageUp ==> key_bytes(a) == Some(
            seq![0x1bu8, '[' as u8, '5' as u8, '~' as u8],
        ),
        a.code == KeyCode::PageDown ==> key_bytes(a) == Some(
            seq![0x1bu8, '[' as u8, '6' as u8, '~' as u8],
        ),
        a.code == KeyCode::Enter ==> key_bytes(a) == Some(seq!['\r' as u8]),
        a.code == KeyCode::Tab ==> key_bytes(a) == Some(seq!['\t' as u8]),
        a.code == KeyCode::Backspace ==> key_bytes(a) == Some(seq![127u8]),
        a.code == KeyCode::Esc ==> key_bytes(a) == Some(seq![0x1bu8]),
        a.code == KeyCode::Other <==> key_bytes(a) is None,
        !(a.code is Char) && !(b.code is Char) && a.code != b.code ==> key_bytes(a)
            != key_bytes(b),
{
    if !(a.code is Char) && !(b.code is Char) && a.code != b.code {
        if let (Some(x), Some(y)) = (key_bytes(a), key_bytes(b)) {
            assert(function_of(x) != function_of(y));
        }
    }
}

/// Editing a line: what has been typed is taken back by a backspace; enter keeps the line
/// and ends it, escape empties it and ends it, and other keys do neither.
pub proof fn typing_is_taken_back(line: Seq<char>, key: Key, back: Key)
    requires
        back.code == KeyCode::Backspace,
    ensures
        key.code matches KeyCode::Char(ch) ==> ch as u32 >= 32 && (ch as u32) < 127
            && !key.modifiers.control && !key.modifiers.alt && !key.modifiers.other ==> {
            &&& edited(line, key) == line.push(ch)
            &&& edited(edited(line, key), back) == line
            &&& !ends_line(key)
        },
        key.code is Char && (key.modifiers.control || key.modifiers.alt) ==> edited(line, key)
            == line,
        key.code == KeyCode::Enter ==> edited(line, key) == line && ends_line(key),
        key.code == KeyCode::Esc ==> edited(line, key).len() == 0 && ends_line(key),
        !(key.code is Char) && key.code != KeyCode::Esc && key.code != KeyCode::Backspace
            ==> edited(line, key) == line,
        !ends_line(back),
        edited(Seq::<char>::empty(), back).len() == 0,
        ends_line(key) <==> key.code == KeyCode::Enter || key.code == KeyCode::Esc,
{
    if let KeyCode::Char(ch) = key.code {
        assert(line.push(ch).drop_last() =~= line);
    }
}

} // verus!
