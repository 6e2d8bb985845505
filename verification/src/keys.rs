//! Keyboard input: from key presses to the bytes a shell expects, and the
//! application's own shortcuts.

use vstd::prelude::*;
use vstd::utf8;

use crate::text;

verus! {

/// A key that has a name rather than a character.
#[derive(Debug, Clone, Copy, PartialEq, Eq, Structural)]
pub enum NamedKey {
    Enter,
    Tab,
    Backspace,
    Escape,
    ArrowUp,
    ArrowDown,
    ArrowRight,
    ArrowLeft,
    Home,
    End,
    Delete,
    PageUp,
    PageDown,
    Space,
    /// Any other named key.
    Other,
}

/// What a key means under the current keyboard layout.
#[derive(Debug)]
pub enum Key {
    Character(String),
    Named(NamedKey),
    /// A dead key, or one that is not known.
    Unknown,
}

/// A key event.
#[derive(Debug)]
pub struct KeyInput {
    /// Whether the key went down, rather than up.
    pub pressed: bool,
    pub key: Key,
    /// The text that the key composes under the current layout.
    pub text: Option<String>,
}

/// The modifiers that are held.
#[derive(Debug, Clone, Copy, PartialEq, Eq, Structural)]
pub struct Modifiers {
    pub super_key: bool,
    pub control: bool,
    pub alt: bool,
}

/// The model of a key.
#[verifier::ext_equal]
pub enum KeyModel {
    Character(Seq<char>),
    Named(NamedKey),
    Unknown,
}

/// The model of a key event.
#[verifier::ext_equal]
pub struct KeyEvent {
    pub pressed: bool,
    pub key: KeyModel,
    pub text: Option<Seq<char>>,
}

impl View for KeyInput {
    type V = KeyEvent;

    open spec fn view(&self) -> KeyEvent {
        KeyEvent {
            pressed: self.pressed,
            key: match self.key {
                Key::Character(s) => KeyModel::Character(s@),
                Key::Named(k) => KeyModel::Named(k),
                Key::Unknown => KeyModel::Unknown,
            },
            text: match self.text {
                Some(s) => Some(s@),
                None => None,
            },
        }
    }
}

/// The ASCII control character that Ctrl makes of a character.
pub open spec fn control_byte(c: char) -> Option<u8> {
    if 'a' <= c <= 'z' {
        Some((c as u32 - 'a' as u32 + 1) as u8)
    } else if 'A' <= c <= 'Z' {
        Some((c as u32 - 'A' as u32 + 1) as u8)
    } else if c == '@' || c == ' ' {
        Some(0x00u8)
    } else if c == '[' {
        Some(0x1bu8)
    } else if c == '\\' {
        Some(0x1cu8)
    } else if c == ']' {
        Some(0x1du8)
    } else if c == '^' {
        Some(0x1eu8)
    } else if c == '_' {
        Some(0x1fu8)
    } else if c == '?' {
        Some(0x7fu8)
    } else {
        None
    }
}

/// The bytes of a named key that has fixed ones.
pub open spec fn named_bytes(key: NamedKey) -> Option<Seq<u8>> {
    match key {
        NamedKey::Enter => Some(seq![0x0du8]),
        NamedKey::Tab => Some(seq![0x09u8]),
        NamedKey::Backspace => Some(seq![0x7fu8]),
        NamedKey::Escape => Some(seq![0x1bu8]),
        NamedKey::ArrowUp => Some(seq![0x1bu8, 0x5bu8, 0x41u8]),
        NamedKey::ArrowDown => Some(seq![0x1bu8, 0x5bu8, 0x42u8]),
        NamedKey::ArrowRight => Some(seq![0x1bu8, 0x5bu8, 0x43u8]),
        NamedKey::ArrowLeft => Some(seq![0x1bu8, 0x5bu8, 0x44u8]),
        NamedKey::Home => Some(seq![0x1bu8, 0x5bu8, 0x48u8]),
        NamedKey::End => Some(seq![0x1bu8, 0x5bu8, 0x46u8]),
        NamedKey::Delete => Some(seq![0x1bu8, 0x5bu8, 0x33u8, 0x7eu8]),
        NamedKey::PageUp => Some(seq![0x1bu8, 0x5bu8, 0x35u8, 0x7eu8]),
        NamedKey::PageDown => Some(seq![0x1bu8, 0x5bu8, 0x36u8, 0x7eu8]),
        NamedKey::Space | NamedKey::Other => None,
    }
}

/// The bytes of a key event, as far as it is meant for the shell.
///
/// - Super (Cmd): a shortcut of the application, never forwarded.
/// - Ctrl and a character: the ASCII control character; Ctrl and the space key:
///   NUL.
/// - Alt and characters: ESC and the characters.
/// - Named keys: fixed sequences.
/// - Otherwise the text that the key composes.
pub open spec fn key_bytes(event: KeyEvent, mods: Modifiers) -> Option<Seq<u8>> {
    let by_control = match event.key {
        KeyModel::Character(s) => if mods.control && s.len() > 0 {
            control_byte(s[0])
        } else {
            None
        },
        KeyModel::Named(NamedKey::Space) => if mods.control {
            control_byte(' ')
        } else {
            None
        },
        _ => None,
    };
    let by_name = match event.key {
        KeyModel::Named(k) => named_bytes(k),
        _ => None,
    };
    if !event.pressed || mods.super_key {
        None
    } else if by_control is Some {
        Some(seq![by_control->0])
    } else if mods.alt && !mods.control && event.key is Character {
        Some(seq![0x1bu8] + utf8::encode_utf8(event.key->Character_0))
    } else if by_name is Some {
        by_name
    } else {
        match event.text {
            Some(t) => Some(utf8::encode_utf8(t)),
            None => None,
        }
    }
}

fn control_code(c: char) -> (r: Option<u8>)
    ensures
        r == control_byte(c),
{
    match c {
        'a'..='z' => Some((c as u32 - 'a' as u32 + 1) as u8),
        'A'..='Z' => Some((c as u32 - 'A' as u32 + 1) as u8),
        '@' | ' ' => Some(0x00),
        '[' => Some(0x1b),
        '\\' => Some(0x1c),
        ']' => Some(0x1d),
        '^' => Some(0x1e),
        '_' => Some(0x1f),
        '?' => Some(0x7f),
        _ => None,
    }
}

fn csi_key(a: u8) -> (r: Vec<u8>)
    ensures
        r@ == seq![0x1bu8, 0x5bu8, a],
{
    let r: Vec<u8> = vec![0x1b, 0x5b, a];
    assert(r@ =~= seq![0x1bu8, 0x5bu8, a]);
    r
}

fn tilde_key(a: u8) -> (r: Vec<u8>)
    ensures
        r@ == seq![0x1bu8, 0x5bu8, a, 0x7eu8],
{
    let r: Vec<u8> = vec![0x1b, 0x5b, a, 0x7e];
    assert(r@ =~= seq![0x1bu8, 0x5bu8, a, 0x7eu8]);
    r
}

fn one_byte(b: u8) -> (r: Vec<u8>)
    ensures
        r@ == seq![b],
{
    let r: Vec<u8> = vec![b];
    assert(r@ =~= seq![b]);
    r
}

fn named_key_bytes(key: NamedKey) -> (r: Option<Vec<u8>>)
    ensures
        match r {
            Some(bytes) => named_bytes(key) == Some(bytes@),
            None => named_bytes(key) is None,
        },
{
    match key {
        NamedKey::Enter => Some(one_byte(0x0d)),
        NamedKey::Tab => Some(one_byte(0x09)),
        NamedKey::Backspace => Some(one_byte(0x7f)),
        NamedKey::Escape => Some(one_byte(0x1b)),
        NamedKey::ArrowUp => Some(csi_key(0x41)),
        NamedKey::ArrowDown => Some(csi_key(0x42)),
        NamedKey::ArrowRight => Some(csi_key(0x43)),
        NamedKey::ArrowLeft => Some(csi_key(0x44)),
        NamedKey::Home => Some(csi_key(0x48)),
        NamedKey::End => Some(csi_key(0x46)),
        NamedKey::Delete => Some(tilde_key(0x33)),
        NamedKey::PageUp => Some(tilde_key(0x35)),
        NamedKey::PageDown => Some(tilde_key(0x36)),
        NamedKey::Space | NamedKey::Other => None,
    }
}

/// Translates a key event into the bytes a shell expects on its input.
pub fn key_event_to_bytes(event: &KeyInput, mods: Modifiers) -> (r: Option<Vec<u8>>)
    ensures
        match r {
            Some(bytes) => key_bytes(event@, mods) == Some(bytes@),
            None => key_bytes(event@, mods) is None,
        },
{
    if !event.pressed || mods.super_key {
        return None;
    }
    match &event.key {
        Key::Character(s) => {
            if mods.control {
                let chars = text::chars_of(s.as_str());
                if chars.len() > 0 {
                    if let Some(b) = control_code(chars[0]) {
                        return Some(one_byte(b));
                    }
                }
            } else if mods.alt {
                let mut out = one_byte(0x1b);
                out.extend_from_slice(s.as_str().as_bytes());
                assert(out@ =~= seq![0x1bu8] + utf8::encode_utf8(s@));
                return Some(out);
            }
        },
        Key::Named(named) => {
            if mods.control && *named == NamedKey::Space {
                return Some(one_byte(0x00));
            }
            if let Some(bytes) = named_key_bytes(*named) {
                return Some(bytes);
            }
        },
        Key::Unknown => {},
    }
    match &event.text {
        Some(t) => Some(text::copied(t.as_str().as_bytes())),
        None => None,
    }
}

/// A shortcut of the application.
#[derive(Debug, Clone, Copy, PartialEq, Eq, Structural)]
pub enum Shortcut {
    ZoomIn,
    ZoomOut,
    ZoomReset,
    Copy,
    Paste,
    NewTab,
    CloseTab,
    /// Switch to the tab at this index.
    SwitchTab(usize),
    /// Switch to the last tab.
    LastTab,
}

/// The shortcut that a character stands for. Zoom takes Super or Ctrl, since no
/// shell sees these with Ctrl. Everything else takes Super alone: Ctrl+C,
/// Ctrl+W and Ctrl+T belong to the shell.
pub open spec fn shortcut_of(c: char, mods: Modifiers) -> Option<Shortcut> {
    if (mods.control || mods.super_key) && (c == '=' || c == '+') {
        Some(Shortcut::ZoomIn)
    } else if (mods.control || mods.super_key) && c == '-' {
        Some(Shortcut::ZoomOut)
    } else if (mods.control || mods.super_key) && c == '0' {
        Some(Shortcut::ZoomReset)
    } else if !mods.super_key {
        None
    } else if c == 'c' || c == 'C' {
        Some(Shortcut::Copy)
    } else if c == 'v' || c == 'V' {
        Some(Shortcut::Paste)
    } else if c == 't' || c == 'T' {
        Some(Shortcut::NewTab)
    } else if c == 'w' || c == 'W' {
        Some(Shortcut::CloseTab)
    } else if '1' <= c <= '8' {
        Some(Shortcut::SwitchTab((c as u32 - '1' as u32) as usize))
    } else if c == '9' {
        Some(Shortcut::LastTab)
    } else {
        None
    }
}

/// The shortcut of a key event: of a key that goes down and means exactly one
/// character.
pub open spec fn event_shortcut(event: KeyEvent, mods: Modifiers) -> Option<Shortcut> {
    match event.key {
        KeyModel::Character(s) => if event.pressed && s.len() == 1 {
            shortcut_of(s[0], mods)
        } else {
            None
        },
        _ => None,
    }
}

/// Reads a key event as a shortcut of the application.
pub fn shortcut(event: &KeyInput, mods: Modifiers) -> (r: Option<Shortcut>)
    ensures
        r == event_shortcut(event@, mods),
{
    if !event.pressed {
        return None;
    }
    if let Key::Character(s) = &event.key {
        let chars = text::chars_of(s.as_str());
        if chars.len() != 1 {
            return None;
        }
        let c: char = chars[0];
        if mods.control || mods.super_key {
            match c {
                '=' | '+' => {
                    return Some(Shortcut::ZoomIn);
                },
                '-' => {
                    return Some(Shortcut::ZoomOut);
                },
                '0' => {
                    return Some(Shortcut::ZoomReset);
                },
                _ => {},
            }
        }
        if mods.super_key {
            match c {
                'c' | 'C' => {
                    return Some(Shortcut::Copy);
                },
                'v' | 'V' => {
                    return Some(Shortcut::Paste);
                },
                't' | 'T' => {
                    return Some(Shortcut::NewTab);
                },
                'w' | 'W' => {
                    return Some(Shortcut::CloseTab);
                },
                '1'..='8' => {
                    return Some(Shortcut::SwitchTab((c as u32 - '1' as u32) as usize));
                },
                '9' => {
                    return Some(Shortcut::LastTab);
                },
                _ => {},
            }
        }
    }
    None
}

/// Nothing that is held with Super reaches the shell, and no shortcut but zoom
/// is taken from what is held with Ctrl alone.
pub proof fn shortcuts_and_shell_are_apart(event: KeyEvent, mods: Modifiers)
    ensures
        mods.super_key ==> key_bytes(event, mods) is None,
        !mods.super_key ==> {
            ||| event_shortcut(event, mods) is None
            ||| event_shortcut(event, mods) == Some(Shortcut::ZoomIn)
            ||| event_shortcut(event, mods) == Some(Shortcut::ZoomOut)
            ||| event_shortcut(event, mods) == Some(Shortcut::ZoomReset)
        },
{
}

/// The event of a key that goes down and means one character.
pub open spec fn pressing(c: char, text: Option<Seq<char>>) -> KeyEvent {
    KeyEvent { pressed: true, key: KeyModel::Character(seq![c]), text }
}

/// The event of a named key that goes down.
pub open spec fn pressing_named(key: NamedKey, text: Option<Seq<char>>) -> KeyEvent {
    KeyEvent { pressed: true, key: KeyModel::Named(key), text }
}

/// Ctrl clears the upper bits: a letter, and each of `@ [ \ ] ^ _`, gives its
/// code's lower five bits, whatever text the key composes. So the two cases of a
/// letter give the same byte, and the letters give the bytes from 1 to 26 in
/// alphabetical order. Ctrl and `?` give DEL, Ctrl and the space NUL.
pub proof fn control_clears_the_upper_bits(c: char, text: Option<Seq<char>>, mods: Modifiers)
    requires
        mods.control,
        !mods.super_key,
    ensures
        ({
            let n = c as u32;
            let sent = key_bytes(pressing(c, text), mods);
            &&& 0x40 <= n <= 0x5f || 0x61 <= n <= 0x7a || n == 0x20 ==> sent == Some(
                seq![(n & 0x1f) as u8],
            )
            &&& 0x61 <= n <= 0x7a ==> sent == Some(seq![(n - 0x60) as u8]) && sent == key_bytes(
                pressing((n - 0x20) as char, text),
                mods,
            )
            &&& 0x41 <= n <= 0x5a ==> sent == Some(seq![(n - 0x40) as u8])
            &&& n == 0x3f ==> sent == Some(seq![0x7fu8])
        }),
        key_bytes(pressing_named(NamedKey::Space, text), mods) == Some(seq![0x00u8]),
{
    let n = c as u32;
    assert(0x61 <= n <= 0x7a ==> n & 0x1f == n - 0x60) by (bit_vector);
    assert(0x40 <= n <= 0x5f ==> n & 0x1f == n - 0x40) by (bit_vector);
    assert(0x20u32 & 0x1f == 0) by (bit_vector);
}

/// With Ctrl, different letters give different bytes, and these are the bytes
/// from 1 to 26.
pub proof fn control_tells_letters_apart(a: char, b: char, mods: Modifiers)
    requires
        mods.control,
        !mods.super_key,
        'a' <= a <= 'z',
        'a' <= b <= 'z',
    ensures
        key_bytes(pressing(a, None), mods) == key_bytes(pressing(b, None), mods) ==> a == b,
        key_bytes(pressing(a, None), mods) matches Some(bytes) && bytes.len() == 1 && 1 <= bytes[0]
            <= 26,
{
    let sent_a = seq![(a as u32 - 0x60) as u8];
    let sent_b = seq![(b as u32 - 0x60) as u8];
    assert(key_bytes(pressing(a, None), mods) == Some(sent_a));
    assert(key_bytes(pressing(b, None), mods) == Some(sent_b));
    if sent_a == sent_b {
        assert(sent_a[0] == sent_b[0]);
    }
}

/// A character that Ctrl makes nothing of, and any character without modifiers,
/// gives the text that the key composes, in UTF-8; with Alt alone it gives ESC and
/// the character itself. A key that goes up gives nothing.
pub proof fn characters_are_sent_as_text(
    c: char,
    text: Option<Seq<char>>,
    mods: Modifiers,
    event: KeyEvent,
)
    requires
        !mods.super_key,
    ensures
        !mods.control && !mods.alt ==> key_bytes(pressing(c, text), mods) == match text {
            Some(t) => Some(utf8::encode_utf8(t)),
            None => None,
        },
        mods.control && !(0x40 <= c as u32 <= 0x5f || 0x61 <= c as u32 <= 0x7a || c as u32 == 0x20
            || c as u32 == 0x3f) ==> key_bytes(pressing(c, text), mods) == match text {
            Some(t) => Some(utf8::encode_utf8(t)),
            None => None,
        },
        mods.alt && !mods.control ==> key_bytes(pressing(c, text), mods) == Some(
            seq![0x1bu8] + utf8::encode_utf8(seq![c]),
        ),
        !event.pressed ==> key_bytes(event, mods) is None,
        event.pressed && event.key is Unknown ==> key_bytes(event, mods) == match event.text {
            Some(t) => Some(utf8::encode_utf8(t)),
            None => None,
        },
{
}

/// The code of the key in a sequence of the form `ESC [ code` or `ESC [ code ~`.
pub open spec fn is_sequence(bytes: Option<Seq<u8>>, code: u8, tilde: bool) -> bool {
    &&& bytes matches Some(b)
    &&& b.len() == if tilde {
        4int
    } else {
        3
    }
    &&& b[0] == 0x1b
    &&& b[1] == 0x5b
    &&& b[2] == code
    &&& tilde ==> b[3] == 0x7e
}

/// Named keys give the bytes that terminals give: CR, HT, DEL and ESC; the arrow
/// keys the cursor sequences A, B, C and D, Home and End H and F; Delete and the
/// page keys 3, 5 and 6 with a tilde. Neither the modifiers nor the text matter.
/// The space key without Ctrl, and any other named key, gives its text.
pub proof fn named_keys_are_sent_as_sequences(
    key: NamedKey,
    text: Option<Seq<char>>,
    mods: Modifiers,
)
    requires
        !mods.super_key,
    ensures
        ({
            let sent = key_bytes(pressing_named(key, text), mods);
            match key {
                NamedKey::Enter => sent == Some(seq![0x0du8]),
                NamedKey::Tab => sent == Some(seq![0x09u8]),
                NamedKey::Backspace => sent == Some(seq![0x7fu8]),
                NamedKey::Escape => sent == Some(seq![0x1bu8]),
                NamedKey::ArrowUp => is_sequence(sent, 0x41, false),
                NamedKey::ArrowDown => is_sequence(sent, 0x42, false),
                NamedKey::ArrowRight => is_sequence(sent, 0x43, false),
                NamedKey::ArrowLeft => is_sequence(sent, 0x44, false),
                NamedKey::Home => is_sequence(sent, 0x48, false),
                NamedKey::End => is_sequence(sent, 0x46, false),
                NamedKey::Delete => is_sequence(sent, 0x33, true),
                NamedKey::PageUp => is_sequence(sent, 0x35, true),
                NamedKey::PageDown => is_sequence(sent, 0x36, true),
                NamedKey::Space => !mods.control ==> sent == match text {
                    Some(t) => Some(utf8::encode_utf8(t)),
                    None => None,
                },
                NamedKey::Other => sent == match text {
                    Some(t) => Some(utf8::encode_utf8(t)),
                    None => None,
                },
            }
        }),
{
}

/// No two named keys that have bytes of their own give the same bytes.
pub proof fn named_keys_are_told_apart(a: NamedKey, b: NamedKey, mods: Modifiers)
    requires
        !mods.super_key,
        key_bytes(pressing_named(a, None), mods) is Some,
        key_bytes(pressing_named(a, None), mods) == key_bytes(pressing_named(b, None), mods),
    ensures
        a == b,
{
    named_keys_are_sent_as_sequences(a, None, mods);
    named_keys_are_sent_as_sequences(b, None, mods);
    let sent = key_bytes(pressing_named(a, None), mods)->0;
    assert(sent == key_bytes(pressing_named(b, None), mods)->0);
    assert(sent.len() > 0);
    let first = sent[0];
    assert(seq![0x0du8][0] == 0x0d && seq![0x09u8][0] == 0x09 && seq![0x7fu8][0] == 0x7f
        && seq![0x1bu8][0] == 0x1b && seq![0x00u8][0] == 0x00);
}

/// With Super held, a digit from 1 to 8 shows the tab of that number and 9 the
/// last one; no other key switches tabs. The letters C, V, T and W copy, paste,
/// open and close, in either case; plus or equals, minus and 0 zoom in, out and
/// back. Nothing else is a shortcut.
pub proof fn shortcuts_with_super(c: char, mods: Modifiers, text: Option<Seq<char>>)
    requires
        mods.super_key,
    ensures
        ({
            let n = c as u32;
            let r = event_shortcut(pressing(c, text), mods);
            &&& 0x31 <= n <= 0x38 ==> r == Some(Shortcut::SwitchTab((n - 0x31) as usize))
            &&& r matches Some(Shortcut::SwitchTab(_)) ==> 0x31 <= n <= 0x38
            &&& r == Some(Shortcut::LastTab) <==> n == 0x39
            &&& r == Some(Shortcut::Copy) <==> n == 0x43 || n == 0x63
            &&& r == Some(Shortcut::Paste) <==> n == 0x56 || n == 0x76
            &&& r == Some(Shortcut::NewTab) <==> n == 0x54 || n == 0x74
            &&& r == Some(Shortcut::CloseTab) <==> n == 0x57 || n == 0x77
            &&& r == Some(Shortcut::ZoomIn) <==> n == 0x2b || n == 0x3d
            &&& r == Some(Shortcut::ZoomOut) <==> n == 0x2d
            &&& r == Some(Shortcut::ZoomReset) <==> n == 0x30
        }),
{
}

/// With Ctrl alone only zoom is a shortcut, by the same characters; without
/// either nothing is. A key that goes up, or that means no single character, is
/// none.
pub proof fn shortcuts_without_super(
    c: char,
    mods: Modifiers,
    text: Option<Seq<char>>,
    event: KeyEvent,
)
    requires
        !mods.super_key,
    ensures
        mods.control ==> event_shortcut(pressing(c, text), mods) == if c as u32 == 0x2b || c as u32
            == 0x3d {
            Some(Shortcut::ZoomIn)
        } else if c as u32 == 0x2d {
            Some(Shortcut::ZoomOut)
        } else if c as u32 == 0x30 {
            Some(Shortcut::ZoomReset)
        } else {
            None
        },
        !mods.control ==> event_shortcut(event, mods) is None,
        !event.pressed ==> event_shortcut(event, mods) is None,
        !(event.key is Character) ==> event_shortcut(event, mods) is None,
        event.key matches KeyModel::Character(s) && s.len() != 1 ==> event_shortcut(event, mods)
            is None,
{
}

/// With Alt alone, a key that means several characters gives ESC and all of them; with
/// Ctrl the first of them counts.
pub proof fn keys_of_several_characters(chars: Seq<char>, text: Option<Seq<char>>, mods: Modifiers)
    requires
        chars.len() > 0,
        !mods.super_key,
    ensures
        ({
            let event = KeyEvent { pressed: true, key: KeyModel::Character(chars), text };
            &&& mods.alt && !mods.control ==> key_bytes(event, mods) == Some(
                seq![0x1bu8] + utf8::encode_utf8(chars),
            )
            &&& mods.control ==> key_bytes(event, mods) == key_bytes(pressing(chars[0], text), mods)
        }),
{
}

} // verus!
