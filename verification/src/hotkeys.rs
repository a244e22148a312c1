//! Hotkey strings such as "Ctrl+Shift+F6" or "F7", and the table of
//! registered hotkeys that tells which clicker action an id stands for.

use vstd::prelude::*;
use std::collections::HashMap;
use vstd::std_specs::iter::IteratorSpec;
use crate::text::{all_ascii, ascii_lower, chars_eq, chars_of, lemma_split_on_last, lemma_split_on_nonempty, lemma_split_on_pair, lemma_split_on_single, lemma_split_on_concat, lemma_upper_then_lower, upper_ascii, lemma_lowercase_lower, lemma_split_lower, lemma_trim_lower, lower_ascii, lowercase, split_chars, split_on, string_of, to_lowercase, trim, trim_chars, unicode_white_space, views};

verus! {

/// The main (non-modifier) key of a hotkey.
#[derive(Debug, Clone, Copy, PartialEq, Eq, Hash, Structural)]
pub enum KeyCode {
    F1,
    F2,
    F3,
    F4,
    F5,
    F6,
    F7,
    F8,
    F9,
    F10,
    F11,
    F12,
    KeyA,
    KeyB,
    KeyC,
    KeyD,
    KeyE,
    KeyF,
    KeyG,
    KeyH,
    KeyI,
    KeyJ,
    KeyK,
    KeyL,
    KeyM,
    KeyN,
    KeyO,
    KeyP,
    KeyQ,
    KeyR,
    KeyS,
    KeyT,
    KeyU,
    KeyV,
    KeyW,
    KeyX,
    KeyY,
    KeyZ,
    Digit0,
    Digit1,
    Digit2,
    Digit3,
    Digit4,
    Digit5,
    Digit6,
    Digit7,
    Digit8,
    Digit9,
    Space,
    Enter,
    Tab,
    Escape,
    Backspace,
    Insert,
    Delete,
    Home,
    End,
    PageUp,
    PageDown,
}

/// The key a one-character name (already lowercased) stands for.
pub open spec fn single_char_key(c: char) -> Option<KeyCode> {
    match c {
        'a' => Some(KeyCode::KeyA),
        'b' => Some(KeyCode::KeyB),
        'c' => Some(KeyCode::KeyC),
        'd' => Some(KeyCode::KeyD),
        'e' => Some(KeyCode::KeyE),
        'f' => Some(KeyCode::KeyF),
        'g' => Some(KeyCode::KeyG),
        'h' => Some(KeyCode::KeyH),
        'i' => Some(KeyCode::KeyI),
        'j' => Some(KeyCode::KeyJ),
        'k' => Some(KeyCode::KeyK),
        'l' => Some(KeyCode::KeyL),
        'm' => Some(KeyCode::KeyM),
        'n' => Some(KeyCode::KeyN),
        'o' => Some(KeyCode::KeyO),
        'p' => Some(KeyCode::KeyP),
        'q' => Some(KeyCode::KeyQ),
        'r' => Some(KeyCode::KeyR),
        's' => Some(KeyCode::KeyS),
        't' => Some(KeyCode::KeyT),
        'u' => Some(KeyCode::KeyU),
        'v' => Some(KeyCode::KeyV),
        'w' => Some(KeyCode::KeyW),
        'x' => Some(KeyCode::KeyX),
        'y' => Some(KeyCode::KeyY),
        'z' => Some(KeyCode::KeyZ),
        '0' => Some(KeyCode::Digit0),
        '1' => Some(KeyCode::Digit1),
        '2' => Some(KeyCode::Digit2),
        '3' => Some(KeyCode::Digit3),
        '4' => Some(KeyCode::Digit4),
        '5' => Some(KeyCode::Digit5),
        '6' => Some(KeyCode::Digit6),
        '7' => Some(KeyCode::Digit7),
        '8' => Some(KeyCode::Digit8),
        '9' => Some(KeyCode::Digit9),
        _ => None,
    }
}

/// The key a lowercased name stands for, or `None` when the name is unknown.
pub open spec fn key_from_name(n: Seq<char>) -> Option<KeyCode> {
    if n.len() == 1 {
        single_char_key(n[0])
    } else if n == seq!['f', '1'] {
        Some(KeyCode::F1)
    } else if n == seq!['f', '2'] {
        Some(KeyCode::F2)
    } else if n == seq!['f', '3'] {
        Some(KeyCode::F3)
    } else if n == seq!['f', '4'] {
        Some(KeyCode::F4)
    } else if n == seq!['f', '5'] {
        Some(KeyCode::F5)
    } else if n == seq!['f', '6'] {
        Some(KeyCode::F6)
    } else if n == seq!['f', '7'] {
        Some(KeyCode::F7)
    } else if n == seq!['f', '8'] {
        Some(KeyCode::F8)
    } else if n == seq!['f', '9'] {
        Some(KeyCode::F9)
    } else if n == seq!['f', '1', '0'] {
        Some(KeyCode::F10)
    } else if n == seq!['f', '1', '1'] {
        Some(KeyCode::F11)
    } else if n == seq!['f', '1', '2'] {
        Some(KeyCode::F12)
    } else if n == seq!['s', 'p', 'a', 'c', 'e'] {
        Some(KeyCode::Space)
    } else if n == seq!['e', 'n', 't', 'e', 'r'] {
        Some(KeyCode::Enter)
    } else if n == seq!['t', 'a', 'b'] {
        Some(KeyCode::Tab)
    } else if n == seq!['e', 's', 'c', 'a', 'p', 'e'] {
        Some(KeyCode::Escape)
    } else if n == seq!['e', 's', 'c'] {
        Some(KeyCode::Escape)
    } else if n == seq!['b', 'a', 'c', 'k', 's', 'p', 'a', 'c', 'e'] {
        Some(KeyCode::Backspace)
    } else if n == seq!['i', 'n', 's', 'e', 'r', 't'] {
        Some(KeyCode::Insert)
    } else if n == seq!['d', 'e', 'l', 'e', 't', 'e'] {
        Some(KeyCode::Delete)
    } else if n == seq!['h', 'o', 'm', 'e'] {
        Some(KeyCode::Home)
    } else if n == seq!['e', 'n', 'd'] {
        Some(KeyCode::End)
    } else if n == seq!['p', 'a', 'g', 'e', 'u', 'p'] {
        Some(KeyCode::PageUp)
    } else if n == seq!['p', 'a', 'g', 'e', 'd', 'o', 'w', 'n'] {
        Some(KeyCode::PageDown)
    } else {
        None
    }
}

fn single_char_key_exec(c: char) -> (r: Option<KeyCode>)
    ensures
        r == single_char_key(c),
{
    match c {
        'a' => Some(KeyCode::KeyA),
        'b' => Some(KeyCode::KeyB),
        'c' => Some(KeyCode::KeyC),
        'd' => Some(KeyCode::KeyD),
        'e' => Some(KeyCode::KeyE),
        'f' => Some(KeyCode::KeyF),
        'g' => Some(KeyCode::KeyG),
        'h' => Some(KeyCode::KeyH),
        'i' => Some(KeyCode::KeyI),
        'j' => Some(KeyCode::KeyJ),
        'k' => Some(KeyCode::KeyK),
        'l' => Some(KeyCode::KeyL),
        'm' => Some(KeyCode::KeyM),
        'n' => Some(KeyCode::KeyN),
        'o' => Some(KeyCode::KeyO),
        'p' => Some(KeyCode::KeyP),
        'q' => Some(KeyCode::KeyQ),
        'r' => Some(KeyCode::KeyR),
        's' => Some(KeyCode::KeyS),
        't' => Some(KeyCode::KeyT),
        'u' => Some(KeyCode::KeyU),
        'v' => Some(KeyCode::KeyV),
        'w' => Some(KeyCode::KeyW),
        'x' => Some(KeyCode::KeyX),
        'y' => Some(KeyCode::KeyY),
        'z' => Some(KeyCode::KeyZ),
        '0' => Some(KeyCode::Digit0),
        '1' => Some(KeyCode::Digit1),
        '2' => Some(KeyCode::Digit2),
        '3' => Some(KeyCode::Digit3),
        '4' => Some(KeyCode::Digit4),
        '5' => Some(KeyCode::Digit5),
        '6' => Some(KeyCode::Digit6),
        '7' => Some(KeyCode::Digit7),
        '8' => Some(KeyCode::Digit8),
        '9' => Some(KeyCode::Digit9),
        _ => None,
    }
}

/// The key named by `name`, which is compared as it stands (callers pass the
/// lowercased text).
pub fn key_from_lowercase(name: &[char]) -> (r: Option<KeyCode>)
    ensures
        r == key_from_name(name@),
{
    if name.len() == 1 {
        single_char_key_exec(name[0])
    } else if chars_eq(name, &['f', '1']) {
        proof { assert(&['f', '1']@ == seq!['f', '1']); }
        Some(KeyCode::F1)
    } else if chars_eq(name, &['f', '2']) {
        proof { assert(&['f', '2']@ == seq!['f', '2']); }
        Some(KeyCode::F2)
    } else if chars_eq(name, &['f', '3']) {
        proof { assert(&['f', '3']@ == seq!['f', '3']); }
        Some(KeyCode::F3)
    } else if chars_eq(name, &['f', '4']) {
        proof { assert(&['f', '4']@ == seq!['f', '4']); }
        Some(KeyCode::F4)
    } else if chars_eq(name, &['f', '5']) {
        proof { assert(&['f', '5']@ == seq!['f', '5']); }
        Some(KeyCode::F5)
    } else if chars_eq(name, &['f', '6']) {
        proof { assert(&['f', '6']@ == seq!['f', '6']); }
        Some(KeyCode::F6)
    } else if chars_eq(name, &['f', '7']) {
        proof { assert(&['f', '7']@ == seq!['f', '7']); }
        Some(KeyCode::F7)
    } else if chars_eq(name, &['f', '8']) {
        proof { assert(&['f', '8']@ == seq!['f', '8']); }
        Some(KeyCode::F8)
    } else if chars_eq(name, &['f', '9']) {
        proof { assert(&['f', '9']@ == seq!['f', '9']); }
        Some(KeyCode::F9)
    } else if chars_eq(name, &['f', '1', '0']) {
        proof { assert(&['f', '1', '0']@ == seq!['f', '1', '0']); }
        Some(KeyCode::F10)
    } else if chars_eq(name, &['f', '1', '1']) {
        proof { assert(&['f', '1', '1']@ == seq!['f', '1', '1']); }
        Some(KeyCode::F11)
    } else if chars_eq(name, &['f', '1', '2']) {
        proof { assert(&['f', '1', '2']@ == seq!['f', '1', '2']); }
        Some(KeyCode::F12)
    } else if chars_eq(name, &['s', 'p', 'a', 'c', 'e']) {
        proof { assert(&['s', 'p', 'a', 'c', 'e']@ == seq!['s', 'p', 'a', 'c', 'e']); }
        Some(KeyCode::Space)
    } else if chars_eq(name, &['e', 'n', 't', 'e', 'r']) {
        proof { assert(&['e', 'n', 't', 'e', 'r']@ == seq!['e', 'n', 't', 'e', 'r']); }
        Some(KeyCode::Enter)
    } else if chars_eq(name, &['t', 'a', 'b']) {
        proof { assert(&['t', 'a', 'b']@ == seq!['t', 'a', 'b']); }
        Some(KeyCode::Tab)
    } else if chars_eq(name, &['e', 's', 'c', 'a', 'p', 'e']) {
        proof { assert(&['e', 's', 'c', 'a', 'p', 'e']@ == seq!['e', 's', 'c', 'a', 'p', 'e']); }
        Some(KeyCode::Escape)
    } else if chars_eq(name, &['e', 's', 'c']) {
        proof { assert(&['e', 's', 'c']@ == seq!['e', 's', 'c']); }
        Some(KeyCode::Escape)
    } else if chars_eq(name, &['b', 'a', 'c', 'k', 's', 'p', 'a', 'c', 'e']) {
        proof { assert(&['b', 'a', 'c', 'k', 's', 'p', 'a', 'c', 'e']@ == seq!['b', 'a', 'c', 'k', 's', 'p', 'a', 'c', 'e']); }
        Some(KeyCode::Backspace)
    } else if chars_eq(name, &['i', 'n', 's', 'e', 'r', 't']) {
        proof { assert(&['i', 'n', 's', 'e', 'r', 't']@ == seq!['i', 'n', 's', 'e', 'r', 't']); }
        Some(KeyCode::Insert)
    } else if chars_eq(name, &['d', 'e', 'l', 'e', 't', 'e']) {
        proof { assert(&['d', 'e', 'l', 'e', 't', 'e']@ == seq!['d', 'e', 'l', 'e', 't', 'e']); }
        Some(KeyCode::Delete)
    } else if chars_eq(name, &['h', 'o', 'm', 'e']) {
        proof { assert(&['h', 'o', 'm', 'e']@ == seq!['h', 'o', 'm', 'e']); }
        Some(KeyCode::Home)
    } else if chars_eq(name, &['e', 'n', 'd']) {
        proof { assert(&['e', 'n', 'd']@ == seq!['e', 'n', 'd']); }
        Some(KeyCode::End)
    } else if chars_eq(name, &['p', 'a', 'g', 'e', 'u', 'p']) {
        proof { assert(&['p', 'a', 'g', 'e', 'u', 'p']@ == seq!['p', 'a', 'g', 'e', 'u', 'p']); }
        Some(KeyCode::PageUp)
    } else if chars_eq(name, &['p', 'a', 'g', 'e', 'd', 'o', 'w', 'n']) {
        proof { assert(&['p', 'a', 'g', 'e', 'd', 'o', 'w', 'n']@ == seq!['p', 'a', 'g', 'e', 'd', 'o', 'w', 'n']); }
        Some(KeyCode::PageDown)
    } else {
        assert(&['f', '1']@ == seq!['f', '1']);
        assert(&['f', '2']@ == seq!['f', '2']);
        assert(&['f', '3']@ == seq!['f', '3']);
        assert(&['f', '4']@ == seq!['f', '4']);
        assert(&['f', '5']@ == seq!['f', '5']);
        assert(&['f', '6']@ == seq!['f', '6']);
        assert(&['f', '7']@ == seq!['f', '7']);
        assert(&['f', '8']@ == seq!['f', '8']);
        assert(&['f', '9']@ == seq!['f', '9']);
        assert(&['f', '1', '0']@ == seq!['f', '1', '0']);
        assert(&['f', '1', '1']@ == seq!['f', '1', '1']);
        assert(&['f', '1', '2']@ == seq!['f', '1', '2']);
        assert(&['s', 'p', 'a', 'c', 'e']@ == seq!['s', 'p', 'a', 'c', 'e']);
        assert(&['e', 'n', 't', 'e', 'r']@ == seq!['e', 'n', 't', 'e', 'r']);
        assert(&['t', 'a', 'b']@ == seq!['t', 'a', 'b']);
        assert(&['e', 's', 'c', 'a', 'p', 'e']@ == seq!['e', 's', 'c', 'a', 'p', 'e']);
        assert(&['e', 's', 'c']@ == seq!['e', 's', 'c']);
        assert(&['b', 'a', 'c', 'k', 's', 'p', 'a', 'c', 'e']@ == seq!['b', 'a', 'c', 'k', 's', 'p', 'a', 'c', 'e']);
        assert(&['i', 'n', 's', 'e', 'r', 't']@ == seq!['i', 'n', 's', 'e', 'r', 't']);
        assert(&['d', 'e', 'l', 'e', 't', 'e']@ == seq!['d', 'e', 'l', 'e', 't', 'e']);
        assert(&['h', 'o', 'm', 'e']@ == seq!['h', 'o', 'm', 'e']);
        assert(&['e', 'n', 'd']@ == seq!['e', 'n', 'd']);
        assert(&['p', 'a', 'g', 'e', 'u', 'p']@ == seq!['p', 'a', 'g', 'e', 'u', 'p']);
        assert(&['p', 'a', 'g', 'e', 'd', 'o', 'w', 'n']@ == seq!['p', 'a', 'g', 'e', 'd', 'o', 'w', 'n']);
        None
    }
}

} // verus!

verus! {

/// Modifier keys held together with the main key.
#[derive(Debug, Clone, Copy, PartialEq, Eq, Hash, Structural)]
pub struct ModifierSet {
    pub control: bool,
    pub shift: bool,
    pub alt: bool,
    pub super_key: bool,
}

impl ModifierSet {
    /// No modifier held.
    pub fn none() -> (m: ModifierSet)
        ensures
            m.is_empty_spec(),
    {
        ModifierSet { control: false, shift: false, alt: false, super_key: false }
    }

    pub open spec fn is_empty_spec(self) -> bool {
        !self.control && !self.shift && !self.alt && !self.super_key
    }

    /// Whether no modifier is held.
    pub fn is_empty(&self) -> (r: bool)
        ensures
            r == self.is_empty_spec(),
    {
        !self.control && !self.shift && !self.alt && !self.super_key
    }
}

/// `m` with the modifier that the lowercased `name` stands for added; unknown
/// names leave `m` as it was.
pub open spec fn with_modifier(m: ModifierSet, name: Seq<char>) -> ModifierSet {
    if name == seq!['c', 't', 'r', 'l'] || name == seq!['c', 'o', 'n', 't', 'r', 'o', 'l'] {
        ModifierSet { control: true, shift: m.shift, alt: m.alt, super_key: m.super_key }
    } else if name == seq!['s', 'h', 'i', 'f', 't'] {
        ModifierSet { control: m.control, shift: true, alt: m.alt, super_key: m.super_key }
    } else if name == seq!['a', 'l', 't'] {
        ModifierSet { control: m.control, shift: m.shift, alt: true, super_key: m.super_key }
    } else if name == seq!['s', 'u', 'p', 'e', 'r'] || name == seq!['w', 'i', 'n'] || name == seq!['m', 'e', 't', 'a'] {
        ModifierSet { control: m.control, shift: m.shift, alt: m.alt, super_key: true }
    } else {
        m
    }
}

/// The modifiers named by `names`, taken in order, starting from none.
pub open spec fn modifiers_from(names: Seq<Seq<char>>) -> ModifierSet
    decreases names.len(),
{
    if names.len() == 0 {
        ModifierSet { control: false, shift: false, alt: false, super_key: false }
    } else {
        with_modifier(modifiers_from(names.drop_last()), names.last())
    }
}

/// Adds to `m` the modifier that the lowercased `name` stands for.
pub fn add_modifier(m: ModifierSet, name: &[char]) -> (r: ModifierSet)
    ensures
        r == with_modifier(m, name@),
{
    if chars_eq(name, &['c', 't', 'r', 'l']) || chars_eq(name, &['c', 'o', 'n', 't', 'r', 'o', 'l']) {
        proof { assert(&['c', 't', 'r', 'l']@ == seq!['c', 't', 'r', 'l']); assert(&['c', 'o', 'n', 't', 'r', 'o', 'l']@ == seq!['c', 'o', 'n', 't', 'r', 'o', 'l']); }
        ModifierSet { control: true, shift: m.shift, alt: m.alt, super_key: m.super_key }
    } else if chars_eq(name, &['s', 'h', 'i', 'f', 't']) {
        proof { assert(&['s', 'h', 'i', 'f', 't']@ == seq!['s', 'h', 'i', 'f', 't']); }
        ModifierSet { control: m.control, shift: true, alt: m.alt, super_key: m.super_key }
    } else if chars_eq(name, &['a', 'l', 't']) {
        proof { assert(&['a', 'l', 't']@ == seq!['a', 'l', 't']); }
        ModifierSet { control: m.control, shift: m.shift, alt: true, super_key: m.super_key }
    } else if chars_eq(name, &['s', 'u', 'p', 'e', 'r']) || chars_eq(name, &['w', 'i', 'n']) || chars_eq(name, &['m', 'e', 't', 'a']) {
        proof { assert(&['s', 'u', 'p', 'e', 'r']@ == seq!['s', 'u', 'p', 'e', 'r']); assert(&['w', 'i', 'n']@ == seq!['w', 'i', 'n']); assert(&['m', 'e', 't', 'a']@ == seq!['m', 'e', 't', 'a']); }
        ModifierSet { control: m.control, shift: m.shift, alt: m.alt, super_key: true }
    } else {
        assert(&['c', 't', 'r', 'l']@ == seq!['c', 't', 'r', 'l']);
        assert(&['c', 'o', 'n', 't', 'r', 'o', 'l']@ == seq!['c', 'o', 'n', 't', 'r', 'o', 'l']);
        assert(&['s', 'h', 'i', 'f', 't']@ == seq!['s', 'h', 'i', 'f', 't']);
        assert(&['a', 'l', 't']@ == seq!['a', 'l', 't']);
        assert(&['s', 'u', 'p', 'e', 'r']@ == seq!['s', 'u', 'p', 'e', 'r']);
        assert(&['w', 'i', 'n']@ == seq!['w', 'i', 'n']);
        assert(&['m', 'e', 't', 'a']@ == seq!['m', 'e', 't', 'a']);
        m
    }
}

/// The trimmed pieces of a hotkey string, split at `+`.
pub open spec fn hotkey_parts(s: Seq<char>) -> Seq<Seq<char>> {
    split_on(s, '+').map_values(|p: Seq<char>| trim(p))
}

/// The lowercased names of the pieces of a hotkey string.
pub open spec fn hotkey_names(s: Seq<char>) -> Seq<Seq<char>> {
    hotkey_parts(s).map_values(|p: Seq<char>| lowercase(p))
}

/// What a hotkey string means: the last piece names the key and must be
/// known; the pieces before it name modifiers, and unknown ones are ignored.
/// The modifier set is `None` when no modifier was named.
pub open spec fn parse_hotkey_spec(s: Seq<char>) -> Option<(Option<ModifierSet>, KeyCode)> {
    let names = hotkey_names(s);
    match key_from_name(names.last()) {
        None => None,
        Some(k) => {
            let m = modifiers_from(names.drop_last());
            Some((if m.is_empty_spec() { None } else { Some(m) }, k))
        },
    }
}

/// The lowercased, trimmed text of one piece.
fn piece_name(p: &[char]) -> (r: Vec<char>)
    ensures
        r@ == lowercase(trim(p@)),
{
    let t = trim_chars(p);
    let s = string_of(t.as_slice());
    let l = to_lowercase(s.as_str());
    chars_of(l.as_str())
}

/// Parses a hotkey string of the form "Ctrl+Shift+F6" or "F7".
pub fn parse_hotkey(s: &str) -> (r: Option<(Option<ModifierSet>, KeyCode)>)
    ensures
        r == parse_hotkey_spec(s@),
{
    let chars = chars_of(s);
    let pieces = split_chars(chars.as_slice(), '+');
    let n = pieces.len();
    let ghost names = hotkey_names(s@);
    assert(names.len() == n);
    let mut mods = ModifierSet::none();
    for i in 0..n - 1
        invariant
            n == pieces@.len(),
            n >= 1,
            names == hotkey_names(s@),
            names.len() == n,
            views(pieces@) == split_on(s@, '+'),
            mods == modifiers_from(names.take(i as int)),
    {
        assert(views(pieces@)[i as int] == pieces@[i as int]@);
        let name = piece_name(pieces[i].as_slice());
        mods = add_modifier(mods, name.as_slice());
        assert(names.take(i + 1).drop_last() =~= names.take(i as int));
    }
    assert(names.take(n - 1) =~= names.drop_last());
    assert(views(pieces@)[n - 1] == pieces@[n - 1]@);
    let key_name = piece_name(pieces[n - 1].as_slice());
    match key_from_lowercase(key_name.as_slice()) {
        None => None,
        Some(code) => {
            if mods.is_empty() {
                Some((None, code))
            } else {
                Some((Some(mods), code))
            }
        },
    }
}

/// Whether `s` is a hotkey string that `parse_hotkey` accepts.
pub fn validate_hotkey(s: &str) -> (r: bool)
    ensures
        r == parse_hotkey_spec(s@).is_some(),
{
    parse_hotkey(s).is_some()
}

} // verus!

verus! {

/// What a registered hotkey asks the clicker to do.
#[derive(Debug, Clone, Copy, PartialEq, Eq, Hash, Structural)]
pub enum HotKeyEvent {
    ToggleClicker,
    SetPosition,
}

/// A hotkey to register with the system, and the action it stands for.
#[derive(Debug, Clone, Copy, PartialEq, Eq, Structural)]
pub struct KeyRegistration {
    pub modifiers: Option<ModifierSet>,
    pub code: KeyCode,
    pub event: HotKeyEvent,
}

/// The hotkey string that configures `event`.
pub open spec fn key_for_event(
    event: HotKeyEvent,
    set_position_key: Seq<char>,
    toggle_key: Seq<char>,
) -> Seq<char> {
    match event {
        HotKeyEvent::SetPosition => set_position_key,
        HotKeyEvent::ToggleClicker => toggle_key,
    }
}

/// The registration for `event` when its hotkey string parses, none otherwise.
pub open spec fn registration_for(event: HotKeyEvent, key: Seq<char>) -> Seq<KeyRegistration> {
    match parse_hotkey_spec(key) {
        Some((modifiers, code)) => seq![KeyRegistration { modifiers, code, event }],
        None => seq![],
    }
}

/// The registrations asked for by the two configured hotkey strings: the
/// set-position key first, then the toggle key; a string that does not parse
/// is skipped.
pub open spec fn registration_plan_spec(
    set_position_key: Seq<char>,
    toggle_key: Seq<char>,
) -> Seq<KeyRegistration> {
    registration_for(HotKeyEvent::SetPosition, set_position_key) + registration_for(
        HotKeyEvent::ToggleClicker,
        toggle_key,
    )
}

/// The hotkeys to unregister when the strings change: for each registered
/// action, in the order `walk` visits them, the parsed new string of that
/// action, when it parses.
pub open spec fn unregistration_list(
    walk: Seq<HotKeyEvent>,
    set_position_key: Seq<char>,
    toggle_key: Seq<char>,
) -> Seq<(Option<ModifierSet>, KeyCode)>
    decreases walk.len(),
{
    if walk.len() == 0 {
        seq![]
    } else {
        let init = unregistration_list(walk.drop_last(), set_position_key, toggle_key);
        match parse_hotkey_spec(key_for_event(walk.last(), set_position_key, toggle_key)) {
            Some(p) => init.push(p),
            None => init,
        }
    }
}

/// The table of registered hotkeys: which action each hotkey id stands for,
/// and the id last registered for each action.
pub struct HotKeys {
    event_map: HashMap<u32, HotKeyEvent>,
    set_position_id: Option<u32>,
    toggle_id: Option<u32>,
}

impl HotKeys {
    /// The action of each registered hotkey id.
    pub closed spec fn events(&self) -> Map<u32, HotKeyEvent> {
        self.event_map@
    }

    /// The id last registered for `event`.
    pub closed spec fn registered_id_spec(&self, event: HotKeyEvent) -> Option<u32> {
        match event {
            HotKeyEvent::SetPosition => self.set_position_id,
            HotKeyEvent::ToggleClicker => self.toggle_id,
        }
    }

    /// A table with nothing registered.
    pub fn empty() -> (t: HotKeys)
        ensures
            t.events() == Map::<u32, HotKeyEvent>::empty(),
            t.registered_id_spec(HotKeyEvent::SetPosition) is None,
            t.registered_id_spec(HotKeyEvent::ToggleClicker) is None,
    {
        HotKeys { event_map: HashMap::new(), set_position_id: None, toggle_id: None }
    }

    /// The hotkeys to register for the two configured strings.
    pub fn registration_plan(set_position_key: &str, toggle_key: &str) -> (r: Vec<
        KeyRegistration,
    >)
        ensures
            r@ == registration_plan_spec(set_position_key@, toggle_key@),
    {
        let mut r: Vec<KeyRegistration> = Vec::new();
        if let Some((modifiers, code)) = parse_hotkey(set_position_key) {
            r.push(KeyRegistration { modifiers, code, event: HotKeyEvent::SetPosition });
        }
        if let Some((modifiers, code)) = parse_hotkey(toggle_key) {
            r.push(KeyRegistration { modifiers, code, event: HotKeyEvent::ToggleClicker });
        }
        assert(r@ =~= registration_plan_spec(set_position_key@, toggle_key@));
        r
    }

    /// Notes that the hotkey `id` was registered for `event`.
    pub fn record(&mut self, id: u32, event: HotKeyEvent)
        ensures
            final(self).events() == old(self).events().insert(id, event),
            final(self).registered_id_spec(event) == Some(id),
            forall|e: HotKeyEvent|
                e != event ==> final(self).registered_id_spec(e) == old(
                    self,
                ).registered_id_spec(e),
    {
        broadcast use vstd::std_specs::hash::group_hash_axioms;

        self.event_map.insert(id, event);
        match event {
            HotKeyEvent::SetPosition => self.set_position_id = Some(id),
            HotKeyEvent::ToggleClicker => self.toggle_id = Some(id),
        }
    }

    /// The action that hotkey `id` stands for.
    pub fn get_event(&self, id: u32) -> (r: Option<&HotKeyEvent>)
        ensures
            r is Some <==> self.events().contains_key(id),
            r matches Some(e) ==> *e == self.events()[id],
    {
        broadcast use vstd::std_specs::hash::group_hash_axioms;

        self.event_map.get(&id)
    }

    /// The id last registered for `event`.
    pub fn registered_id(&self, event: HotKeyEvent) -> (r: Option<u32>)
        ensures
            r == self.registered_id_spec(event),
    {
        match event {
            HotKeyEvent::SetPosition => self.set_position_id,
            HotKeyEvent::ToggleClicker => self.toggle_id,
        }
    }

    /// Forgets every registration.
    pub fn clear(&mut self)
        ensures
            final(self).events() == Map::<u32, HotKeyEvent>::empty(),
            final(self).registered_id_spec(HotKeyEvent::SetPosition) is None,
            final(self).registered_id_spec(HotKeyEvent::ToggleClicker) is None,
    {
        broadcast use vstd::std_specs::hash::group_hash_axioms;

        self.event_map.clear();
        self.set_position_id = None;
        self.toggle_id = None;
    }

    /// The hotkeys to unregister before the strings change: one for each
    /// registered id, parsed from the new string of its action. The order is
    /// that of the table's walk, which the hash map decides.
    pub fn unregistration_plan(&self, set_position_key: &str, toggle_key: &str) -> (r: Vec<
        (Option<ModifierSet>, KeyCode),
    >)
        ensures
            exists|walk: Seq<HotKeyEvent>|
                {
                    &&& walk.len() == self.events().dom().len()
                    &&& walk.to_set() == self.events().values()
                    &&& r@ == unregistration_list(walk, set_position_key@, toggle_key@)
                },
    {
        broadcast use vstd::std_specs::hash::group_hash_axioms;

        let mut r: Vec<(Option<ModifierSet>, KeyCode)> = Vec::new();
        let values = self.event_map.values();
        let ghost walk = values.remaining().unref();
        for e in it: values
            invariant
                it.seq().unref() == walk,
                walk.len() == self.events().dom().len(),
                walk.to_set() == self.events().values(),
                r@ == unregistration_list(
                    it.seq().unref().take(it.index() as int),
                    set_position_key@,
                    toggle_key@,
                ),
        {
            let ghost walk = it.seq().unref();
            assert(walk.take(it.index() + 1).drop_last() =~= walk.take(it.index() as int));
            let key = match *e {
                HotKeyEvent::SetPosition => set_position_key,
                HotKeyEvent::ToggleClicker => toggle_key,
            };
            if let Some(p) = parse_hotkey(key) {
                r.push(p);
            }
        }
        assert(walk.take(walk.len() as int) =~= walk);
        r
    }
}

/// A registration read back after it was recorded gives the action it was
/// recorded for, and other ids keep theirs.
pub proof fn lemma_record_then_lookup(before: HotKeys, after: HotKeys, id: u32, event: HotKeyEvent)
    requires
        after.events() == before.events().insert(id, event),
    ensures
        after.events().contains_key(id),
        after.events()[id] == event,
        forall|other: u32|
            other != id ==> (after.events().contains_key(other) == before.events().contains_key(
                other,
            ) && (before.events().contains_key(other) ==> after.events()[other]
                == before.events()[other])),
{
}

/// The table holds at most one id per action, and the per-action ids are
/// its inverse: each registered id stands for the action whose id it is.
pub open spec fn table_consistent(t: HotKeys) -> bool {
    &&& t.events().dom().finite()
    &&& forall|id: u32| #[trigger]
        t.events().contains_key(id) ==> t.registered_id_spec(t.events()[id]) == Some(id)
    &&& forall|e: HotKeyEvent|
        #[trigger] t.registered_id_spec(e) is Some ==> t.events().contains_key(
            t.registered_id_spec(e)->0,
        ) && t.events()[t.registered_id_spec(e)->0] == e
}

/// An empty table is consistent, and stays so when an action not yet
/// registered is recorded under an id not yet used (the system refuses a
/// hotkey that is registered already, so the ids of a fresh registration
/// differ); such a table never holds more than the two actions.
pub proof fn lemma_table_stays_consistent(
    before: HotKeys,
    after: HotKeys,
    id: u32,
    event: HotKeyEvent,
)
    requires
        table_consistent(before),
        !before.events().contains_key(id),
        before.registered_id_spec(event) is None,
        after.events() == before.events().insert(id, event),
        after.registered_id_spec(event) == Some(id),
        forall|e: HotKeyEvent|
            e != event ==> after.registered_id_spec(e) == before.registered_id_spec(e),
    ensures
        table_consistent(after),
{
    assert forall|i: u32| #[trigger] after.events().contains_key(i) implies after.registered_id_spec(
        after.events()[i],
    ) == Some(i) by {
        if i != id {
            assert(before.events().contains_key(i));
            let e = before.events()[i];
            assert(before.registered_id_spec(e) == Some(i));
            if e == event {
                assert(false);
            }
        }
    }
    assert forall|e: HotKeyEvent| #[trigger] after.registered_id_spec(e) is Some implies after.events().contains_key(after.registered_id_spec(e)->0) && after.events()[after.registered_id_spec(e)->0] == e by {
        if e != event {
            assert(before.registered_id_spec(e) == after.registered_id_spec(e));
            let i = after.registered_id_spec(e)->0;
            assert(before.events().contains_key(i));
            assert(i != id);
        }
    }
}

/// An empty table is consistent.
pub proof fn lemma_empty_table_consistent(t: HotKeys)
    requires
        t.events() == Map::<u32, HotKeyEvent>::empty(),
        t.registered_id_spec(HotKeyEvent::SetPosition) is None,
        t.registered_id_spec(HotKeyEvent::ToggleClicker) is None,
    ensures
        table_consistent(t),
{
    assert forall|e: HotKeyEvent| #[trigger] t.registered_id_spec(e) is None by {
        match e {
            HotKeyEvent::SetPosition => {},
            HotKeyEvent::ToggleClicker => {},
        }
    }
}

/// A consistent table holds at most one id per action, so at most two.
pub proof fn lemma_consistent_table_small(t: HotKeys)
    requires
        table_consistent(t),
    ensures
        t.events().dom().len() <= 2,
{
    let sp = t.registered_id_spec(HotKeyEvent::SetPosition);
    let tg = t.registered_id_spec(HotKeyEvent::ToggleClicker);
    let a: u32 = if sp is Some { sp->0 } else { 0 };
    let b: u32 = if tg is Some { tg->0 } else { 0 };
    let ids = Set::<u32>::empty().insert(a).insert(b);
    assert(Set::<u32>::empty().insert(a).len() == 1);
    assert(ids.len() <= 2);
    assert forall|i: u32| t.events().dom().contains(i) implies ids.contains(i) by {
        assert(t.events().contains_key(i));
        match t.events()[i] {
            HotKeyEvent::SetPosition => {},
            HotKeyEvent::ToggleClicker => {},
        }
    }
    vstd::set_lib::lemma_len_subset(t.events().dom(), ids);
}

/// The plan registers an action exactly when its hotkey string is valid,
/// the set-position key before the toggle key, each with the parsed keys.
pub proof fn lemma_plan_follows_validity(set_position_key: Seq<char>, toggle_key: Seq<char>)
    ensures
        ({
            let plan = registration_plan_spec(set_position_key, toggle_key);
            let sp = parse_hotkey_spec(set_position_key);
            let tg = parse_hotkey_spec(toggle_key);
            &&& plan.len() == (if sp is Some { 1int } else { 0 }) + (if tg is Some { 1int } else { 0 })
            &&& sp matches Some((m, c)) ==> plan[0] == KeyRegistration {
                modifiers: m,
                code: c,
                event: HotKeyEvent::SetPosition,
            }
            &&& tg matches Some((m, c)) ==> plan.last() == KeyRegistration {
                modifiers: m,
                code: c,
                event: HotKeyEvent::ToggleClicker,
            }
        }),
{
}

} // verus!

verus! {

/// The names of a string's pieces end with the name of its last piece.
proof fn lemma_last_name(s: Seq<char>)
    ensures
        split_on(s, '+').len() >= 1,
        hotkey_names(s).len() == split_on(s, '+').len(),
        hotkey_names(s).last() == lowercase(trim(split_on(s, '+').last())),
{
    lemma_split_on_nonempty(s, '+');
    let sp = split_on(s, '+');
    assert(hotkey_parts(s)[sp.len() - 1] == trim(sp[sp.len() - 1]));
}

/// Only the last `+`-piece decides whether a hotkey string is valid and
/// which key it names: the words before it, modifiers or not, never make a
/// string valid or invalid.
pub proof fn lemma_last_piece_decides(p: Seq<char>, s: Seq<char>)
    ensures
        parse_hotkey_spec(p + seq!['+'] + s) is Some <==> parse_hotkey_spec(s) is Some,
        parse_hotkey_spec(s) matches Some((_m, k)) ==> (parse_hotkey_spec(p + seq!['+'] + s) matches Some((_m2, k2)) && k2 == k),
{
    lemma_split_on_last(p, s, '+');
    lemma_last_name(p + seq!['+'] + s);
    lemma_last_name(s);
}

/// Naming two modifiers in either order gives the same set, and naming one
/// twice is naming it once.
pub proof fn lemma_modifier_words_commute(m: ModifierSet, a: Seq<char>, b: Seq<char>)
    ensures
        with_modifier(with_modifier(m, a), b) == with_modifier(with_modifier(m, b), a),
        with_modifier(with_modifier(m, a), a) == with_modifier(m, a),
{
}

/// The key `k` names, read in ASCII lowercase.
pub open spec fn ascii_key(k: Seq<char>) -> Option<KeyCode> {
    key_from_name(k.map_values(|c: char| ascii_lower(c)))
}

/// A set holding the one modifier.
pub open spec fn only(control: bool, shift: bool, alt: bool) -> ModifierSet {
    ModifierSet { control, shift, alt, super_key: false }
}

proof fn lemma_plain_word(w: Seq<char>)
    requires
        all_ascii(w),
        w.len() > 0,
        !unicode_white_space(w[0]),
        !unicode_white_space(w.last()),
    ensures
        lowercase(trim(w)) == w.map_values(|c: char| ascii_lower(c)),
{
}

/// A key word `k` with a modifier word `w` before it parses as that key
/// with the modifier `w` names.
proof fn lemma_with_word(w: Seq<char>, k: Seq<char>)
    requires
        all_ascii(w),
        !w.contains('+'),
        w.len() > 0,
        !unicode_white_space(w[0]),
        !unicode_white_space(w.last()),
        all_ascii(k),
        !k.contains('+'),
        k.len() > 0,
        !unicode_white_space(k[0]),
        !unicode_white_space(k.last()),
        ascii_key(k) is Some,
        !with_modifier(only(false, false, false), w.map_values(|c: char| ascii_lower(c))).is_empty_spec(),
    ensures
        parse_hotkey_spec(w + seq!['+'] + k) == Some((Some(with_modifier(only(false, false, false), w.map_values(|c: char| ascii_lower(c)))), ascii_key(k)->0)),
{
    lemma_split_on_pair(w, k, '+');
    lemma_plain_word(w);
    lemma_plain_word(k);
    let names = hotkey_names(w + seq!['+'] + k);
    assert(hotkey_parts(w + seq!['+'] + k) =~= seq![trim(w), trim(k)]);
    assert(names =~= seq![lowercase(trim(w)), lowercase(trim(k))]);
    assert(names.drop_last() =~= seq![lowercase(trim(w))]);
    let one = seq![lowercase(trim(w))];
    assert(one.drop_last() =~= Seq::<Seq<char>>::empty());
    assert(modifiers_from(Seq::<Seq<char>>::empty()) == only(false, false, false));
    assert(modifiers_from(one) == with_modifier(only(false, false, false), one.last()));
    assert(names.last() == lowercase(trim(k)));
}

/// The documented format is accepted: an ASCII key name `k` (such as `F6`,
/// `S` or `7`, in either case) with no `+` and no white space at its ends
/// that names a key parses alone with no modifier, and after `Ctrl+`,
/// `Shift+` or `Alt+` with exactly that modifier.
pub proof fn lemma_documented_format(k: Seq<char>)
    requires
        all_ascii(k),
        !k.contains('+'),
        k.len() > 0,
        !unicode_white_space(k[0]),
        !unicode_white_space(k.last()),
        ascii_key(k) is Some,
    ensures
        parse_hotkey_spec(k) == Some((None::<ModifierSet>, ascii_key(k)->0)),
        parse_hotkey_spec("Ctrl+"@ + k) == Some((Some(only(true, false, false)), ascii_key(k)->0)),
        parse_hotkey_spec("Shift+"@ + k) == Some((Some(only(false, true, false)), ascii_key(k)->0)),
        parse_hotkey_spec("Alt+"@ + k) == Some((Some(only(false, false, true)), ascii_key(k)->0)),
{
    lemma_split_on_single(k, '+');
    lemma_plain_word(k);
    assert(hotkey_parts(k) =~= seq![trim(k)]);
    assert(hotkey_names(k) =~= seq![lowercase(trim(k))]);
    assert(hotkey_names(k).drop_last() =~= Seq::<Seq<char>>::empty());
    reveal_strlit("Ctrl+");
    reveal_strlit("Shift+");
    reveal_strlit("Alt+");
    let ctrl = seq!['C', 't', 'r', 'l'];
    let shift = seq!['S', 'h', 'i', 'f', 't'];
    let alt = seq!['A', 'l', 't'];
    assert(ctrl.map_values(|c: char| ascii_lower(c)) =~= seq!['c', 't', 'r', 'l']);
    assert(shift.map_values(|c: char| ascii_lower(c)) =~= seq!['s', 'h', 'i', 'f', 't']);
    assert(alt.map_values(|c: char| ascii_lower(c)) =~= seq!['a', 'l', 't']);
    assert(!ctrl.contains('+'));
    assert(!shift.contains('+'));
    assert(!alt.contains('+'));
    lemma_with_word(ctrl, k);
    lemma_with_word(shift, k);
    lemma_with_word(alt, k);
    assert("Ctrl+"@ + k =~= ctrl + seq!['+'] + k);
    assert("Shift+"@ + k =~= shift + seq!['+'] + k);
    assert("Alt+"@ + k =~= alt + seq!['+'] + k);
}

/// The examples the settings page gives parse: `F6`, `Ctrl+S`,
/// `Shift+F1` and `Alt+A`.
pub proof fn lemma_documented_examples()
    ensures
        parse_hotkey_spec("F6"@) == Some((None::<ModifierSet>, KeyCode::F6)),
        parse_hotkey_spec("Ctrl+S"@) == Some((Some(only(true, false, false)), KeyCode::KeyS)),
        parse_hotkey_spec("Shift+F1"@) == Some((Some(only(false, true, false)), KeyCode::F1)),
        parse_hotkey_spec("Alt+A"@) == Some((Some(only(false, false, true)), KeyCode::KeyA)),
{
    reveal_strlit("F6");
    reveal_strlit("S");
    reveal_strlit("F1");
    reveal_strlit("A");
    reveal_strlit("Ctrl+");
    reveal_strlit("Shift+");
    reveal_strlit("Alt+");
    reveal_strlit("Ctrl+S");
    reveal_strlit("Shift+F1");
    reveal_strlit("Alt+A");
    assert("F6"@.map_values(|c: char| ascii_lower(c)) =~= seq!['f', '6']);
    assert("S"@.map_values(|c: char| ascii_lower(c)) =~= seq!['s']);
    assert("F1"@.map_values(|c: char| ascii_lower(c)) =~= seq!['f', '1']);
    assert("A"@.map_values(|c: char| ascii_lower(c)) =~= seq!['a']);
    assert(!"F6"@.contains('+'));
    assert(!"S"@.contains('+'));
    assert(!"F1"@.contains('+'));
    assert(!"A"@.contains('+'));
    lemma_documented_format("F6"@);
    lemma_documented_format("S"@);
    lemma_documented_format("F1"@);
    lemma_documented_format("A"@);
    assert("Ctrl+"@ + "S"@ =~= "Ctrl+S"@);
    assert("Shift+"@ + "F1"@ =~= "Shift+F1"@);
    assert("Alt+"@ + "A"@ =~= "Alt+A"@);
}

/// Case does not matter in ASCII hotkey strings: lowering the ASCII
/// letters of a string gives the same hotkey, or invalidity, as before.
pub proof fn lemma_ascii_case_ignored(s: Seq<char>)
    requires
        all_ascii(s),
    ensures
        parse_hotkey_spec(lower_ascii(s)) == parse_hotkey_spec(s),
{
    lemma_split_lower(s);
    let sp = split_on(s, '+');
    let a = hotkey_names(lower_ascii(s));
    let b = hotkey_names(s);
    assert(a.len() == b.len());
    assert forall|i: int| 0 <= i < a.len() implies #[trigger] a[i] == b[i] by {
        assert(all_ascii(sp[i]));
        lemma_trim_lower(sp[i]);
        lemma_lowercase_lower(trim(sp[i]));
        assert(split_on(lower_ascii(s), '+')[i] == lower_ascii(sp[i]));
    }
    assert(a =~= b);
}

/// Case does not matter in ASCII hotkey strings either way: raising the
/// ASCII letters of a string gives the same hotkey, or invalidity.
pub proof fn lemma_ascii_upper_case_ignored(s: Seq<char>)
    requires
        all_ascii(s),
    ensures
        parse_hotkey_spec(upper_ascii(s)) == parse_hotkey_spec(s),
{
    lemma_upper_then_lower(s);
    lemma_ascii_case_ignored(upper_ascii(s));
    lemma_ascii_case_ignored(s);
}

proof fn lemma_modifiers_swap_front(a: Seq<char>, b: Seq<char>, q: Seq<Seq<char>>)
    ensures
        modifiers_from(seq![a, b] + q) == modifiers_from(seq![b, a] + q),
        modifiers_from(seq![a, a] + q) == modifiers_from(seq![a] + q),
    decreases q.len(),
{
    let none = ModifierSet { control: false, shift: false, alt: false, super_key: false };
    if q.len() == 0 {
        assert(seq![a, b] + q =~= seq![a, b]);
        assert(seq![b, a] + q =~= seq![b, a]);
        assert(seq![a, a] + q =~= seq![a, a]);
        assert(seq![a] + q =~= seq![a]);
        assert(seq![a, b].drop_last() =~= seq![a]);
        assert(seq![b, a].drop_last() =~= seq![b]);
        assert(seq![a, a].drop_last() =~= seq![a]);
        assert(seq![a].drop_last() =~= Seq::<Seq<char>>::empty());
        assert(seq![b].drop_last() =~= Seq::<Seq<char>>::empty());
        assert(modifiers_from(Seq::<Seq<char>>::empty()) == none);
        assert(seq![a].last() == a);
        assert(seq![b].last() == b);
        assert(seq![a, b].last() == b);
        assert(seq![b, a].last() == a);
        assert(seq![a, a].last() == a);
        assert(modifiers_from(seq![a]) == with_modifier(none, a));
        assert(modifiers_from(seq![b]) == with_modifier(none, b));
        lemma_modifier_words_commute(none, a, b);
    } else {
        lemma_modifiers_swap_front(a, b, q.drop_last());
        assert((seq![a, b] + q).drop_last() =~= seq![a, b] + q.drop_last());
        assert((seq![b, a] + q).drop_last() =~= seq![b, a] + q.drop_last());
        assert((seq![a, a] + q).drop_last() =~= seq![a, a] + q.drop_last());
        assert((seq![a] + q).drop_last() =~= seq![a] + q.drop_last());
        assert((seq![a, b] + q).last() == q.last());
        assert((seq![b, a] + q).last() == q.last());
        assert((seq![a, a] + q).last() == q.last());
        assert((seq![a] + q).last() == q.last());
    }
}

/// The names of the pieces of `a`, `+`, `b`, `+`, `k` for words `a` and `b`
/// without `+`.
proof fn lemma_names_two_words(a: Seq<char>, b: Seq<char>, k: Seq<char>)
    requires
        !a.contains('+'),
        !b.contains('+'),
    ensures
        hotkey_names(a + seq!['+'] + b + seq!['+'] + k) == seq![
            lowercase(trim(a)),
            lowercase(trim(b)),
        ] + hotkey_names(k),
{
    lemma_split_on_pair(a, b, '+');
    lemma_split_on_concat(a + seq!['+'] + b, k, '+');
    let x = a + seq!['+'] + b + seq!['+'] + k;
    let sp = split_on(x, '+');
    assert(sp == seq![a, b] + split_on(k, '+'));
    assert(hotkey_names(x) =~= seq![lowercase(trim(a)), lowercase(trim(b))] + hotkey_names(k));
}

/// The names of the pieces of `a`, `+`, `k` for a word `a` without `+`.
proof fn lemma_names_one_word(a: Seq<char>, k: Seq<char>)
    requires
        !a.contains('+'),
    ensures
        hotkey_names(a + seq!['+'] + k) == seq![lowercase(trim(a))] + hotkey_names(k),
{
    lemma_split_on_single(a, '+');
    lemma_split_on_concat(a, k, '+');
    let x = a + seq!['+'] + k;
    assert(hotkey_names(x) =~= seq![lowercase(trim(a))] + hotkey_names(k));
}

/// The order of two words before the key does not matter, and a word named
/// twice counts once: for words `a` and `b` without `+` and any rest `k`,
/// `a+b+k` parses as `b+a+k`, and `a+a+k` as `a+k`.
pub proof fn lemma_word_order_ignored(a: Seq<char>, b: Seq<char>, k: Seq<char>)
    requires
        !a.contains('+'),
        !b.contains('+'),
    ensures
        parse_hotkey_spec(a + seq!['+'] + b + seq!['+'] + k) == parse_hotkey_spec(
            b + seq!['+'] + a + seq!['+'] + k,
        ),
        parse_hotkey_spec(a + seq!['+'] + a + seq!['+'] + k) == parse_hotkey_spec(
            a + seq!['+'] + k,
        ),
{
    lemma_names_two_words(a, b, k);
    lemma_names_two_words(b, a, k);
    lemma_names_two_words(a, a, k);
    lemma_names_one_word(a, k);
    lemma_last_name(k);
    let nk = hotkey_names(k);
    let na = lowercase(trim(a));
    let nb = lowercase(trim(b));
    let q = nk.drop_last();
    lemma_modifiers_swap_front(na, nb, q);
    assert((seq![na, nb] + nk).drop_last() =~= seq![na, nb] + q);
    assert((seq![nb, na] + nk).drop_last() =~= seq![nb, na] + q);
    assert((seq![na, na] + nk).drop_last() =~= seq![na, na] + q);
    assert((seq![na] + nk).drop_last() =~= seq![na] + q);
    assert((seq![na, nb] + nk).last() == nk.last());
    assert((seq![nb, na] + nk).last() == nk.last());
    assert((seq![na, na] + nk).last() == nk.last());
    assert((seq![na] + nk).last() == nk.last());
}

/// The ids the system gave, in plan order, recorded for their actions
/// (`None` where it refused the registration).
pub open spec fn recorded_events(
    plan: Seq<KeyRegistration>,
    ids: Seq<Option<u32>>,
    n: nat,
) -> Map<u32, HotKeyEvent>
    decreases n,
{
    if n == 0 {
        Map::empty()
    } else {
        let prev = recorded_events(plan, ids, (n - 1) as nat);
        match ids[n - 1] {
            Some(id) => prev.insert(id, plan[n - 1].event),
            None => prev,
        }
    }
}

/// The id last recorded for `event` among the first `n` registrations.
pub open spec fn recorded_id(
    plan: Seq<KeyRegistration>,
    ids: Seq<Option<u32>>,
    event: HotKeyEvent,
    n: nat,
) -> Option<u32>
    decreases n,
{
    if n == 0 {
        None
    } else if ids[n - 1] is Some && plan[n - 1].event == event {
        ids[n - 1]
    } else {
        recorded_id(plan, ids, event, (n - 1) as nat)
    }
}

/// No two registrations of `plan` are for the same action.
pub open spec fn distinct_events(plan: Seq<KeyRegistration>) -> bool {
    forall|i: int, j: int| 0 <= i < j < plan.len() ==> plan[i].event != plan[j].event
}

/// No id was given twice.
pub open spec fn distinct_ids(ids: Seq<Option<u32>>) -> bool {
    forall|i: int, j: int|
        0 <= i < j < ids.len() && ids[i] is Some && ids[j] is Some ==> ids[i] != ids[j]
}

/// The plan never registers an action twice.
pub proof fn lemma_plan_events_distinct(set_position_key: Seq<char>, toggle_key: Seq<char>)
    ensures
        distinct_events(registration_plan_spec(set_position_key, toggle_key)),
{
}

impl HotKeys {
    /// The table after the registrations `plan` were tried and the system
    /// gave `ids` (`None` where it refused one): each accepted registration
    /// recorded in order. When each action comes once and no id comes twice
    /// (the system refuses a hotkey that is registered already), the table
    /// is consistent: at most one id per action, the per-action ids its
    /// inverse.
    pub fn from_registrations(plan: &[KeyRegistration], ids: &[Option<u32>]) -> (t: HotKeys)
        requires
            plan@.len() == ids@.len(),
        ensures
            t.events() == recorded_events(plan@, ids@, plan@.len()),
            forall|e: HotKeyEvent|
                #[trigger] t.registered_id_spec(e) == recorded_id(plan@, ids@, e, plan@.len()),
            distinct_events(plan@) && distinct_ids(ids@) ==> table_consistent(t),
    {
        let mut t = HotKeys::empty();
        proof {
            lemma_empty_table_consistent(t);
        }
        let n = plan.len();
        for k in 0..n
            invariant
                n == plan@.len(),
                n == ids@.len(),
                t.events() == recorded_events(plan@, ids@, k as nat),
                forall|e: HotKeyEvent|
                    #[trigger] t.registered_id_spec(e) == recorded_id(plan@, ids@, e, k as nat),
                forall|id: u32|
                    #[trigger] t.events().contains_key(id) ==> exists|i: int|
                        0 <= i < k && ids@[i] == Some(id),
                distinct_events(plan@) && distinct_ids(ids@) ==> table_consistent(t),
                distinct_events(plan@) ==> forall|j: int|
                    k <= j < n ==> (#[trigger] t.registered_id_spec(plan@[j].event)) is None,
        {
            let ghost before = t;
            match ids[k] {
                Some(id) => {
                    let event = plan[k].event;
                    t.record(id, event);
                    proof {
                        if distinct_events(plan@) && distinct_ids(ids@) {
                            assert(!before.events().contains_key(id)) by {
                                if before.events().contains_key(id) {
                                    let i = choose|i: int| 0 <= i < k && ids@[i] == Some(id);
                                    assert(ids@[i] != ids@[k as int]);
                                }
                            }
                            lemma_table_stays_consistent(before, t, id, event);
                        }
                        assert forall|i: u32| #[trigger] t.events().contains_key(i) implies exists|
                            j: int,
                        | 0 <= j < k + 1 && ids@[j] == Some(i) by {
                            if i != id {
                                assert(before.events().contains_key(i));
                            } else {
                                assert(ids@[k as int] == Some(i));
                            }
                        }
                        if distinct_events(plan@) {
                            assert forall|j: int| k + 1 <= j < n implies (
                            #[trigger] t.registered_id_spec(plan@[j].event)) is None by {
                                assert(plan@[j].event != event);
                            }
                        }
                    }
                },
                None => {},
            }
        }
        t
    }
}

/// Each key name, in lowercase, names its own key: `f1` to `f12` the
/// function keys, each letter and digit its key, and the named keys (with
/// `esc` as well as `escape` for Escape). With `lemma_documented_format`,
/// a string such as `F10` parses as that key with no modifier.
pub proof fn lemma_key_names()
    ensures
        key_from_name(seq!['f', '1']) == Some(KeyCode::F1),
        key_from_name(seq!['f', '2']) == Some(KeyCode::F2),
        key_from_name(seq!['f', '3']) == Some(KeyCode::F3),
        key_from_name(seq!['f', '4']) == Some(KeyCode::F4),
        key_from_name(seq!['f', '5']) == Some(KeyCode::F5),
        key_from_name(seq!['f', '6']) == Some(KeyCode::F6),
        key_from_name(seq!['f', '7']) == Some(KeyCode::F7),
        key_from_name(seq!['f', '8']) == Some(KeyCode::F8),
        key_from_name(seq!['f', '9']) == Some(KeyCode::F9),
        key_from_name(seq!['f', '1', '0']) == Some(KeyCode::F10),
        key_from_name(seq!['f', '1', '1']) == Some(KeyCode::F11),
        key_from_name(seq!['f', '1', '2']) == Some(KeyCode::F12),
        key_from_name(seq!['a']) == Some(KeyCode::KeyA),
        key_from_name(seq!['b']) == Some(KeyCode::KeyB),
        key_from_name(seq!['c']) == Some(KeyCode::KeyC),
        key_from_name(seq!['d']) == Some(KeyCode::KeyD),
        key_from_name(seq!['e']) == Some(KeyCode::KeyE),
        key_from_name(seq!['f']) == Some(KeyCode::KeyF),
        key_from_name(seq!['g']) == Some(KeyCode::KeyG),
        key_from_name(seq!['h']) == Some(KeyCode::KeyH),
        key_from_name(seq!['i']) == Some(KeyCode::KeyI),
        key_from_name(seq!['j']) == Some(KeyCode::KeyJ),
        key_from_name(seq!['k']) == Some(KeyCode::KeyK),
        key_from_name(seq!['l']) == Some(KeyCode::KeyL),
        key_from_name(seq!['m']) == Some(KeyCode::KeyM),
        key_from_name(seq!['n']) == Some(KeyCode::KeyN),
        key_from_name(seq!['o']) == Some(KeyCode::KeyO),
        key_from_name(seq!['p']) == Some(KeyCode::KeyP),
        key_from_name(seq!['q']) == Some(KeyCode::KeyQ),
        key_from_name(seq!['r']) == Some(KeyCode::KeyR),
        key_from_name(seq!['s']) == Some(KeyCode::KeyS),
        key_from_name(seq!['t']) == Some(KeyCode::KeyT),
        key_from_name(seq!['u']) == Some(KeyCode::KeyU),
        key_from_name(seq!['v']) == Some(KeyCode::KeyV),
        key_from_name(seq!['w']) == Some(KeyCode::KeyW),
        key_from_name(seq!['x']) == Some(KeyCode::KeyX),
        key_from_name(seq!['y']) == Some(KeyCode::KeyY),
        key_from_name(seq!['z']) == Some(KeyCode::KeyZ),
        key_from_name(seq!['0']) == Some(KeyCode::Digit0),
        key_from_name(seq!['1']) == Some(KeyCode::Digit1),
        key_from_name(seq!['2']) == Some(KeyCode::Digit2),
        key_from_name(seq!['3']) == Some(KeyCode::Digit3),
        key_from_name(seq!['4']) == Some(KeyCode::Digit4),
        key_from_name(seq!['5']) == Some(KeyCode::Digit5),
        key_from_name(seq!['6']) == Some(KeyCode::Digit6),
        key_from_name(seq!['7']) == Some(KeyCode::Digit7),
        key_from_name(seq!['8']) == Some(KeyCode::Digit8),
        key_from_name(seq!['9']) == Some(KeyCode::Digit9),
        key_from_name(seq!['s', 'p', 'a', 'c', 'e']) == Some(KeyCode::Space),
        key_from_name(seq!['e', 'n', 't', 'e', 'r']) == Some(KeyCode::Enter),
        key_from_name(seq!['t', 'a', 'b']) == Some(KeyCode::Tab),
        key_from_name(seq!['e', 's', 'c', 'a', 'p', 'e']) == Some(KeyCode::Escape),
        key_from_name(seq!['e', 's', 'c']) == Some(KeyCode::Escape),
        key_from_name(seq!['b', 'a', 'c', 'k', 's', 'p', 'a', 'c', 'e']) == Some(KeyCode::Backspace),
        key_from_name(seq!['i', 'n', 's', 'e', 'r', 't']) == Some(KeyCode::Insert),
        key_from_name(seq!['d', 'e', 'l', 'e', 't', 'e']) == Some(KeyCode::Delete),
        key_from_name(seq!['h', 'o', 'm', 'e']) == Some(KeyCode::Home),
        key_from_name(seq!['e', 'n', 'd']) == Some(KeyCode::End),
        key_from_name(seq!['p', 'a', 'g', 'e', 'u', 'p']) == Some(KeyCode::PageUp),
        key_from_name(seq!['p', 'a', 'g', 'e', 'd', 'o', 'w', 'n']) == Some(KeyCode::PageDown),
{
}

proof fn lemma_plain_key(k: Seq<char>, lower: Seq<char>)
    requires
        all_ascii(k),
        k.len() > 0,
        forall|i: int| 0 <= i < k.len() ==> k[i] != '+' && !unicode_white_space(#[trigger] k[i]),
        k.map_values(|c: char| ascii_lower(c)) == lower,
        key_from_name(lower) is Some,
    ensures
        parse_hotkey_spec(k) == Some((None::<ModifierSet>, key_from_name(lower)->0)),
{
    assert(!k.contains('+'));
    assert(k[k.len() - 1] == k.last());
    lemma_documented_format(k);
}

/// Every function key name, written `F1` to `F12`, parses as that function
/// key with no modifier.
pub proof fn lemma_function_keys()
    ensures
        parse_hotkey_spec(seq!['F', '1']) == Some((None::<ModifierSet>, KeyCode::F1)),
        parse_hotkey_spec(seq!['F', '2']) == Some((None::<ModifierSet>, KeyCode::F2)),
        parse_hotkey_spec(seq!['F', '3']) == Some((None::<ModifierSet>, KeyCode::F3)),
        parse_hotkey_spec(seq!['F', '4']) == Some((None::<ModifierSet>, KeyCode::F4)),
        parse_hotkey_spec(seq!['F', '5']) == Some((None::<ModifierSet>, KeyCode::F5)),
        parse_hotkey_spec(seq!['F', '6']) == Some((None::<ModifierSet>, KeyCode::F6)),
        parse_hotkey_spec(seq!['F', '7']) == Some((None::<ModifierSet>, KeyCode::F7)),
        parse_hotkey_spec(seq!['F', '8']) == Some((None::<ModifierSet>, KeyCode::F8)),
        parse_hotkey_spec(seq!['F', '9']) == Some((None::<ModifierSet>, KeyCode::F9)),
        parse_hotkey_spec(seq!['F', '1', '0']) == Some((None::<ModifierSet>, KeyCode::F10)),
        parse_hotkey_spec(seq!['F', '1', '1']) == Some((None::<ModifierSet>, KeyCode::F11)),
        parse_hotkey_spec(seq!['F', '1', '2']) == Some((None::<ModifierSet>, KeyCode::F12)),
{
    lemma_key_names();
    assert(seq!['F', '1'].map_values(|c: char| ascii_lower(c)) =~= seq!['f', '1']);
    lemma_plain_key(seq!['F', '1'], seq!['f', '1']);
    assert(seq!['F', '2'].map_values(|c: char| ascii_lower(c)) =~= seq!['f', '2']);
    lemma_plain_key(seq!['F', '2'], seq!['f', '2']);
    assert(seq!['F', '3'].map_values(|c: char| ascii_lower(c)) =~= seq!['f', '3']);
    lemma_plain_key(seq!['F', '3'], seq!['f', '3']);
    assert(seq!['F', '4'].map_values(|c: char| ascii_lower(c)) =~= seq!['f', '4']);
    lemma_plain_key(seq!['F', '4'], seq!['f', '4']);
    assert(seq!['F', '5'].map_values(|c: char| ascii_lower(c)) =~= seq!['f', '5']);
    lemma_plain_key(seq!['F', '5'], seq!['f', '5']);
    assert(seq!['F', '6'].map_values(|c: char| ascii_lower(c)) =~= seq!['f', '6']);
    lemma_plain_key(seq!['F', '6'], seq!['f', '6']);
    assert(seq!['F', '7'].map_values(|c: char| ascii_lower(c)) =~= seq!['f', '7']);
    lemma_plain_key(seq!['F', '7'], seq!['f', '7']);
    assert(seq!['F', '8'].map_values(|c: char| ascii_lower(c)) =~= seq!['f', '8']);
    lemma_plain_key(seq!['F', '8'], seq!['f', '8']);
    assert(seq!['F', '9'].map_values(|c: char| ascii_lower(c)) =~= seq!['f', '9']);
    lemma_plain_key(seq!['F', '9'], seq!['f', '9']);
    assert(seq!['F', '1', '0'].map_values(|c: char| ascii_lower(c)) =~= seq!['f', '1', '0']);
    lemma_plain_key(seq!['F', '1', '0'], seq!['f', '1', '0']);
    assert(seq!['F', '1', '1'].map_values(|c: char| ascii_lower(c)) =~= seq!['f', '1', '1']);
    lemma_plain_key(seq!['F', '1', '1'], seq!['f', '1', '1']);
    assert(seq!['F', '1', '2'].map_values(|c: char| ascii_lower(c)) =~= seq!['f', '1', '2']);
    lemma_plain_key(seq!['F', '1', '2'], seq!['f', '1', '2']);
}

} // verus!
