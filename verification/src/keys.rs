//! Key presses and the bindings that recognise them.
use vstd::prelude::*;

verus! {

/// A key on the keyboard.
#[derive(Debug, Clone, Copy, PartialEq, Eq, Structural)]
pub enum Key {
    Char(char),
    Enter,
    Esc,
    Tab,
    BackTab,
    Backspace,
    Delete,
    Up,
    Down,
    Left,
    Right,
    Home,
    End,
    PageUp,
    PageDown,
}

/// The modifier keys held with a key.
#[derive(Debug, Clone, Copy, PartialEq, Eq, Structural)]
pub struct KeyModifiers {
    pub control: bool,
    pub shift: bool,
    pub alt: bool,
}

impl KeyModifiers {
    /// No modifier held.
    pub fn none() -> (r: KeyModifiers)
        ensures
            r == (KeyModifiers { control: false, shift: false, alt: false }),
    {
        KeyModifiers { control: false, shift: false, alt: false }
    }

    /// Control held.
    pub fn control() -> (r: KeyModifiers)
        ensures
            r == (KeyModifiers { control: true, shift: false, alt: false }),
    {
        KeyModifiers { control: true, shift: false, alt: false }
    }

    /// Shift held.
    pub fn shift() -> (r: KeyModifiers)
        ensures
            r == (KeyModifiers { control: false, shift: true, alt: false }),
    {
        KeyModifiers { control: false, shift: true, alt: false }
    }
}

/// A key press: the key and the modifiers held with it.
#[derive(Debug, Clone, Copy, PartialEq, Eq, Structural)]
pub struct KeyEvent {
    pub code: Key,
    pub modifiers: KeyModifiers,
}

impl KeyEvent {
    pub fn new(code: Key, modifiers: KeyModifiers) -> (r: KeyEvent)
        ensures
            r == (KeyEvent { code, modifiers }),
    {
        KeyEvent { code, modifiers }
    }

    /// The key pressed alone.
    pub fn plain(code: Key) -> (r: KeyEvent)
        ensures
            r == (KeyEvent { code, modifiers: KeyModifiers { control: false, shift: false, alt: false } }),
    {
        KeyEvent { code, modifiers: KeyModifiers::none() }
    }
}

/// A binding: the key press it stands for.
#[derive(Debug, Clone, Copy, PartialEq, Eq, Structural)]
pub struct KeySpec {
    pub code: Key,
    pub modifiers: KeyModifiers,
}

impl KeySpec {
    /// `code` with no modifier.
    pub fn key(code: Key) -> (r: KeySpec)
        ensures
            r == (KeySpec { code, modifiers: KeyModifiers { control: false, shift: false, alt: false } }),
    {
        KeySpec { code, modifiers: KeyModifiers::none() }
    }

    /// The character `c` typed with no modifier.
    pub fn plain(c: char) -> (r: KeySpec)
        ensures
            r == (KeySpec {
                code: Key::Char(c),
                modifiers: KeyModifiers { control: false, shift: false, alt: false },
            }),
    {
        KeySpec { code: Key::Char(c), modifiers: KeyModifiers::none() }
    }

    /// `code` with `modifiers`.
    pub fn key_with_modifiers(code: Key, modifiers: KeyModifiers) -> (r: KeySpec)
        ensures
            r == (KeySpec { code, modifiers }),
    {
        KeySpec { code, modifiers }
    }

    /// A binding recognises exactly the key press it stands for.
    pub open spec fn spec_matches(self, key: KeyEvent) -> bool {
        self.code == key.code && self.modifiers == key.modifiers
    }

    pub fn matches(&self, key: KeyEvent) -> (r: bool)
        ensures
            r == self.spec_matches(key),
    {
        self.code == key.code && self.modifiers == key.modifiers
    }
}

/// Whether any binding recognises `key`.
pub open spec fn spec_matches_any(bindings: Seq<KeySpec>, key: KeyEvent) -> bool {
    exists|i: int| 0 <= i < bindings.len() && (#[trigger] bindings[i]).spec_matches(key)
}

pub fn matches_any(bindings: &[KeySpec], key: KeyEvent) -> (r: bool)
    ensures
        r == spec_matches_any(bindings@, key),
{
    let mut i: usize = 0;
    while i < bindings.len()
        invariant
            i <= bindings@.len(),
            forall|j: int| 0 <= j < i ==> !(#[trigger] bindings@[j]).spec_matches(key),
        decreases bindings@.len() - i,
    {
        if bindings[i].matches(key) {
            return true;
        }
        i += 1;
    }
    false
}

/// The code of `c` with ASCII upper-case letters taken to lower case.
pub open spec fn ascii_lower(c: char) -> u32 {
    if 'A' <= c <= 'Z' {
        (c as u32 + 32) as u32
    } else {
        c as u32
    }
}

fn ascii_lower_code(c: char) -> (r: u32)
    ensures
        r == ascii_lower(c),
{
    let code = c as u32;
    if c >= 'A' && c <= 'Z' {
        code + 32
    } else {
        code
    }
}

/// Whether a hotkey and a key press are the same press: the same modifiers, and the same key,
/// letters compared without regard to ASCII case.
pub open spec fn spec_keys_match(hotkey: KeyEvent, key: KeyEvent) -> bool {
    hotkey.modifiers == key.modifiers && match (hotkey.code, key.code) {
        (Key::Char(a), Key::Char(b)) => ascii_lower(a) == ascii_lower(b),
        (a, b) => a == b,
    }
}

pub fn keys_match(hotkey: KeyEvent, key: KeyEvent) -> (r: bool)
    ensures
        r == spec_keys_match(hotkey, key),
{
    if hotkey.modifiers != key.modifiers {
        return false;
    }
    match (hotkey.code, key.code) {
        (Key::Char(a), Key::Char(b)) => ascii_lower_code(a) == ascii_lower_code(b),
        (a, b) => a == b,
    }
}

} // verus!
