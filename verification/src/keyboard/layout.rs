//! Mapping of keys to characters.
use vstd::prelude::*;
use crate::keyboard::ModifierState;
use crate::ps2::Key;

verus! {

/// What a key press produces.
#[derive(Clone, Copy, Debug, PartialEq, Eq, Structural)]
pub enum Character {
    Char(char),
    Escape,
    Tab,
    Enter,
    ArrowUp,
    Backspace,
    ArrowDown,
    ArrowLeft,
    ArrowRight,
    CapsLock,
    NumLock,
    ScrollLock,
    F1,
    F2,
    F3,
    F4,
    F5,
    F6,
    F7,
    F8,
    F9,
    F10,
    F11,
    F12,
    KeypadAdd,
    KeypadSub,
    KeypadMul,
    KeypadDiv,
    KeypadEnter,
    KeypadN0,
    KeypadN1,
    KeypadN2,
    KeypadN3,
    KeypadN4,
    KeypadN5,
    KeypadN6,
    KeypadN7,
    KeypadN8,
    KeypadN9,
    KeypadComma,
}

/// A produced character together with the modifiers held when it was typed.
#[derive(Clone, Copy, Debug, PartialEq, Eq, Structural)]
pub struct CharacterFull {
    pub character: Character,
    pub modifiers: ModifierState,
}

impl CharacterFull {
    /// Pairs a character with its modifiers.
    pub fn new(character: Character, modifiers: ModifierState) -> (r: Self)
        ensures
            r == (CharacterFull { character, modifiers }),
    {
        Self { character, modifiers }
    }
}

/// The key maps a layout can use.
#[derive(Clone, Copy, Debug, PartialEq, Eq, Structural)]
pub enum KeyMap {
    Qwerty,
}

/// A keyboard layout: the map it turns keys into characters with.
#[derive(Clone, Copy, Debug, PartialEq, Eq, Structural)]
pub struct Layout {
    pub map: KeyMap,
}

/// What a key map gives for a key and modifier state.
pub open spec fn map_spec(map: KeyMap, key: Key, modifiers: ModifierState) -> Option<CharacterFull> {
    match map {
        KeyMap::Qwerty => qwerty(key, modifiers),
    }
}

impl Layout {
    /// A layout using `map`.
    pub fn new(map: KeyMap) -> (r: Self)
        ensures
            r.map == map,
    {
        Self { map }
    }

    /// The character `key` gives under this layout with `modifiers` held.
    pub fn map(&self, key: Key, modifiers: ModifierState) -> (r: Option<CharacterFull>)
        ensures
            r == map_spec(self.map, key, modifiers),
    {
        match self.map {
            KeyMap::Qwerty => map_qwerty(key, modifiers),
        }
    }
}

/// The modifier keys, which give no character.
pub open spec fn is_modifier_key(key: Key) -> bool {
    match key {
        Key::LeftAlt | Key::RightAlt | Key::LeftShift | Key::RightShift | Key::LeftCtrl | Key::RightCtrl | Key::LeftGui | Key::RightGui => true,
        _ => false,
    }
}

/// The keys that always give the same non-printable character.
pub open spec fn qwerty_special(key: Key) -> Option<Character> {
    match key {
        Key::Escape => Some(Character::Escape),
        Key::Tab => Some(Character::Tab),
        Key::Enter => Some(Character::Enter),
        Key::ArrowUp => Some(Character::ArrowUp),
        Key::Backspace => Some(Character::Backspace),
        Key::ArrowDown => Some(Character::ArrowDown),
        Key::ArrowLeft => Some(Character::ArrowLeft),
        Key::ArrowRight => Some(Character::ArrowRight),
        Key::CapsLock => Some(Character::CapsLock),
        Key::NumLock => Some(Character::NumLock),
        Key::ScrollLock => Some(Character::ScrollLock),
        Key::F1 => Some(Character::F1),
        Key::F2 => Some(Character::F2),
        Key::F3 => Some(Character::F3),
        Key::F4 => Some(Character::F4),
        Key::F5 => Some(Character::F5),
        Key::F6 => Some(Character::F6),
        Key::F7 => Some(Character::F7),
        Key::F8 => Some(Character::F8),
        Key::F9 => Some(Character::F9),
        Key::F10 => Some(Character::F10),
        Key::F11 => Some(Character::F11),
        Key::F12 => Some(Character::F12),
        Key::KeypadAdd => Some(Character::KeypadAdd),
        Key::KeypadSub => Some(Character::KeypadSub),
        Key::KeypadMul => Some(Character::KeypadMul),
        Key::KeypadDiv => Some(Character::KeypadDiv),
        Key::KeypadEnter => Some(Character::KeypadEnter),
        Key::KeypadN0 => Some(Character::KeypadN0),
        Key::KeypadN1 => Some(Character::KeypadN1),
        Key::KeypadN2 => Some(Character::KeypadN2),
        Key::KeypadN3 => Some(Character::KeypadN3),
        Key::KeypadN4 => Some(Character::KeypadN4),
        Key::KeypadN5 => Some(Character::KeypadN5),
        Key::KeypadN6 => Some(Character::KeypadN6),
        Key::KeypadN7 => Some(Character::KeypadN7),
        Key::KeypadN8 => Some(Character::KeypadN8),
        Key::KeypadN9 => Some(Character::KeypadN9),
        Key::KeypadComma => Some(Character::KeypadComma),
        _ => None,
    }
}

/// The printable keys: the character without and with shift held.
pub open spec fn qwerty_printable(key: Key) -> Option<(char, char)> {
    match key {
        Key::A => Some(('a', 'A')),
        Key::B => Some(('b', 'B')),
        Key::C => Some(('c', 'C')),
        Key::D => Some(('d', 'D')),
        Key::E => Some(('e', 'E')),
        Key::F => Some(('f', 'F')),
        Key::G => Some(('g', 'G')),
        Key::H => Some(('h', 'H')),
        Key::I => Some(('i', 'I')),
        Key::J => Some(('j', 'J')),
        Key::K => Some(('k', 'K')),
        Key::L => Some(('l', 'L')),
        Key::M => Some(('m', 'M')),
        Key::N => Some(('n', 'N')),
        Key::O => Some(('o', 'O')),
        Key::P => Some(('p', 'P')),
        Key::Q => Some(('q', 'Q')),
        Key::R => Some(('r', 'R')),
        Key::S => Some(('s', 'S')),
        Key::T => Some(('t', 'T')),
        Key::U => Some(('u', 'U')),
        Key::V => Some(('v', 'V')),
        Key::W => Some(('w', 'W')),
        Key::X => Some(('x', 'X')),
        Key::Y => Some(('y', 'Y')),
        Key::Z => Some(('z', 'Z')),
        Key::N0 => Some(('0', ')')),
        Key::N1 => Some(('1', '!')),
        Key::N2 => Some(('2', '@')),
        Key::N3 => Some(('3', '#')),
        Key::N4 => Some(('4', '$')),
        Key::N5 => Some(('5', '%')),
        Key::N6 => Some(('6', '^')),
        Key::N7 => Some(('7', '&')),
        Key::N8 => Some(('8', '*')),
        Key::N9 => Some(('9', '(')),
        Key::Point => Some(('.', '>')),
        Key::Equal => Some(('=', '+')),
        Key::Minus => Some(('-', '_')),
        Key::Comma => Some((',', '<')),
        Key::Backtick => Some(('`', '~')),
        Key::Semicolon => Some((';', ':')),
        Key::Slash => Some(('/', '?')),
        Key::Backslash => Some(('\\', '|')),
        Key::SingleQuote => Some(('\'', '\"')),
        Key::SquareBracketsOpen => Some(('}', '{')),
        Key::SquareBracketsClosed => Some((']', '}')),
        Key::Space => Some((' ', ' ')),
        _ => None,
    }
}

/// The QWERTY layout: modifier keys give nothing, printable keys their
/// character (the shifted one while shift is held), the others their
/// special character; the modifiers are passed along.
pub open spec fn qwerty(key: Key, modifiers: ModifierState) -> Option<CharacterFull> {
    if is_modifier_key(key) {
        None
    } else {
        let c = match qwerty_printable(key) {
            Some(pair) => Character::Char(if modifiers.shift_pressed { pair.1 } else { pair.0 }),
            None => qwerty_special(key).unwrap(),
        };
        Some(CharacterFull { character: c, modifiers })
    }
}

/// Maps `key` with the QWERTY layout.
pub fn map_qwerty(key: Key, modifiers: ModifierState) -> (r: Option<CharacterFull>)
    ensures
        r == qwerty(key, modifiers),
{
    let shift = modifiers.shift_pressed;
    let c = match key {
        Key::Escape => Character::Escape,
        Key::Tab => Character::Tab,
        Key::Enter => Character::Enter,
        Key::ArrowUp => Character::ArrowUp,
        Key::Backspace => Character::Backspace,
        Key::ArrowDown => Character::ArrowDown,
        Key::ArrowLeft => Character::ArrowLeft,
        Key::ArrowRight => Character::ArrowRight,
        Key::CapsLock => Character::CapsLock,
        Key::NumLock => Character::NumLock,
        Key::ScrollLock => Character::ScrollLock,
        Key::F1 => Character::F1,
        Key::F2 => Character::F2,
        Key::F3 => Character::F3,
        Key::F4 => Character::F4,
        Key::F5 => Character::F5,
        Key::F6 => Character::F6,
        Key::F7 => Character::F7,
        Key::F8 => Character::F8,
        Key::F9 => Character::F9,
        Key::F10 => Character::F10,
        Key::F11 => Character::F11,
        Key::F12 => Character::F12,
        Key::KeypadAdd => Character::KeypadAdd,
        Key::KeypadSub => Character::KeypadSub,
        Key::KeypadMul => Character::KeypadMul,
        Key::KeypadDiv => Character::KeypadDiv,
        Key::KeypadEnter => Character::KeypadEnter,
        Key::KeypadN0 => Character::KeypadN0,
        Key::KeypadN1 => Character::KeypadN1,
        Key::KeypadN2 => Character::KeypadN2,
        Key::KeypadN3 => Character::KeypadN3,
        Key::KeypadN4 => Character::KeypadN4,
        Key::KeypadN5 => Character::KeypadN5,
        Key::KeypadN6 => Character::KeypadN6,
        Key::KeypadN7 => Character::KeypadN7,
        Key::KeypadN8 => Character::KeypadN8,
        Key::KeypadN9 => Character::KeypadN9,
        Key::KeypadComma => Character::KeypadComma,
        Key::LeftAlt => {
            return None;
        },
        Key::RightAlt => {
            return None;
        },
        Key::LeftShift => {
            return None;
        },
        Key::RightShift => {
            return None;
        },
        Key::LeftCtrl => {
            return None;
        },
        Key::RightCtrl => {
            return None;
        },
        Key::LeftGui => {
            return None;
        },
        Key::RightGui => {
            return None;
        },
        Key::A => Character::Char(if shift { 'A' } else { 'a' }),
        Key::B => Character::Char(if shift { 'B' } else { 'b' }),
        Key::C => Character::Char(if shift { 'C' } else { 'c' }),
        Key::D => Character::Char(if shift { 'D' } else { 'd' }),
        Key::E => Character::Char(if shift { 'E' } else { 'e' }),
        Key::F => Character::Char(if shift { 'F' } else { 'f' }),
        Key::G => Character::Char(if shift { 'G' } else { 'g' }),
        Key::H => Character::Char(if shift { 'H' } else { 'h' }),
        Key::I => Character::Char(if shift { 'I' } else { 'i' }),
        Key::J => Character::Char(if shift { 'J' } else { 'j' }),
        Key::K => Character::Char(if shift { 'K' } else { 'k' }),
        Key::L => Character::Char(if shift { 'L' } else { 'l' }),
        Key::M => Character::Char(if shift { 'M' } else { 'm' }),
        Key::N => Character::Char(if shift { 'N' } else { 'n' }),
        Key::O => Character::Char(if shift { 'O' } else { 'o' }),
        Key::P => Character::Char(if shift { 'P' } else { 'p' }),
        Key::Q => Character::Char(if shift { 'Q' } else { 'q' }),
        Key::R => Character::Char(if shift { 'R' } else { 'r' }),
        Key::S => Character::Char(if shift { 'S' } else { 's' }),
        Key::T => Character::Char(if shift { 'T' } else { 't' }),
        Key::U => Character::Char(if shift { 'U' } else { 'u' }),
        Key::V => Character::Char(if shift { 'V' } else { 'v' }),
        Key::W => Character::Char(if shift { 'W' } else { 'w' }),
        Key::X => Character::Char(if shift { 'X' } else { 'x' }),
        Key::Y => Character::Char(if shift { 'Y' } else { 'y' }),
        Key::Z => Character::Char(if shift { 'Z' } else { 'z' }),
        Key::N0 => Character::Char(if shift { ')' } else { '0' }),
        Key::N1 => Character::Char(if shift { '!' } else { '1' }),
        Key::N2 => Character::Char(if shift { '@' } else { '2' }),
        Key::N3 => Character::Char(if shift { '#' } else { '3' }),
        Key::N4 => Character::Char(if shift { '$' } else { '4' }),
        Key::N5 => Character::Char(if shift { '%' } else { '5' }),
        Key::N6 => Character::Char(if shift { '^' } else { '6' }),
        Key::N7 => Character::Char(if shift { '&' } else { '7' }),
        Key::N8 => Character::Char(if shift { '*' } else { '8' }),
        Key::N9 => Character::Char(if shift { '(' } else { '9' }),
        Key::Point => Character::Char(if shift { '>' } else { '.' }),
        Key::Equal => Character::Char(if shift { '+' } else { '=' }),
        Key::Minus => Character::Char(if shift { '_' } else { '-' }),
        Key::Comma => Character::Char(if shift { '<' } else { ',' }),
        Key::Backtick => Character::Char(if shift { '~' } else { '`' }),
        Key::Semicolon => Character::Char(if shift { ':' } else { ';' }),
        Key::Slash => Character::Char(if shift { '?' } else { '/' }),
        Key::Backslash => Character::Char(if shift { '|' } else { '\\' }),
        Key::SingleQuote => Character::Char(if shift { '\"' } else { '\'' }),
        Key::SquareBracketsOpen => Character::Char(if shift { '{' } else { '}' }),
        Key::SquareBracketsClosed => Character::Char(if shift { '}' } else { ']' }),
        Key::Space => Character::Char(' '),
    };
    Some(CharacterFull::new(c, modifiers))
}


/// The letter keys in alphabetical order: `A` is 0, `Z` is 25.
pub open spec fn letter_key(i: int) -> Key {
    if i == 0 {
        Key::A
    } else if i == 1 {
        Key::B
    } else if i == 2 {
        Key::C
    } else if i == 3 {
        Key::D
    } else if i == 4 {
        Key::E
    } else if i == 5 {
        Key::F
    } else if i == 6 {
        Key::G
    } else if i == 7 {
        Key::H
    } else if i == 8 {
        Key::I
    } else if i == 9 {
        Key::J
    } else if i == 10 {
        Key::K
    } else if i == 11 {
        Key::L
    } else if i == 12 {
        Key::M
    } else if i == 13 {
        Key::N
    } else if i == 14 {
        Key::O
    } else if i == 15 {
        Key::P
    } else if i == 16 {
        Key::Q
    } else if i == 17 {
        Key::R
    } else if i == 18 {
        Key::S
    } else if i == 19 {
        Key::T
    } else if i == 20 {
        Key::U
    } else if i == 21 {
        Key::V
    } else if i == 22 {
        Key::W
    } else if i == 23 {
        Key::X
    } else if i == 24 {
        Key::Y
    } else if i == 25 {
        Key::Z
    } else {
        Key::Z
    }
}

/// The digit keys of the top row: `N0` is 0, `N9` is 9.
pub open spec fn digit_key(i: int) -> Key {
    if i == 0 {
        Key::N0
    } else if i == 1 {
        Key::N1
    } else if i == 2 {
        Key::N2
    } else if i == 3 {
        Key::N3
    } else if i == 4 {
        Key::N4
    } else if i == 5 {
        Key::N5
    } else if i == 6 {
        Key::N6
    } else if i == 7 {
        Key::N7
    } else if i == 8 {
        Key::N8
    } else if i == 9 {
        Key::N9
    } else {
        Key::N9
    }
}

/// Letters under QWERTY: the `i`-th letter key gives the `i`-th lower-case
/// letter of the alphabet without shift and the `i`-th capital with it, and
/// passes the modifiers along.
pub proof fn law_qwerty_letters(i: int, modifiers: ModifierState)
    requires
        0 <= i < 26,
    ensures
        qwerty(letter_key(i), modifiers) == Some(
            CharacterFull {
                character: Character::Char((if modifiers.shift_pressed { 'A' as int + i } else { 'a' as int + i }) as char),
                modifiers,
            },
        ),
        !modifiers.shift_pressed ==> qwerty(letter_key(i), modifiers) != qwerty(letter_key(i), ModifierState { shift_pressed: true, ..modifiers }),
{
}

/// Digits under QWERTY: the `i`-th digit key gives the digit `i` without shift.
pub proof fn law_qwerty_digits(i: int, modifiers: ModifierState)
    requires
        0 <= i < 10,
        !modifiers.shift_pressed,
    ensures
        qwerty(digit_key(i), modifiers) == Some(
            CharacterFull { character: Character::Char(('0' as int + i) as char), modifiers },
        ),
{
}


/// Shifted digits under QWERTY: the `i`-th digit key gives the `i`-th
/// symbol of `)!@#$%^&*(` while shift is held.
pub proof fn law_qwerty_shifted_digits(i: int, modifiers: ModifierState)
    requires
        0 <= i < 10,
        modifiers.shift_pressed,
    ensures
        qwerty(digit_key(i), modifiers) == Some(
            CharacterFull { character: Character::Char(seq![')', '!', '@', '#', '$', '%', '^', '&', '*', '('][i]), modifiers },
        ),
{
}

/// Modifier keys give no character; every other key gives one, with the
/// modifiers it was typed with.
pub proof fn law_qwerty_modifier_keys(key: Key, modifiers: ModifierState)
    ensures
        (key == Key::LeftShift || key == Key::RightShift || key == Key::LeftCtrl || key == Key::RightCtrl || key == Key::LeftAlt
            || key == Key::RightAlt || key == Key::LeftGui || key == Key::RightGui) <==> qwerty(key, modifiers) is None,
        qwerty(key, modifiers) matches Some(c) ==> c.modifiers == modifiers,
{
}

} // verus!
