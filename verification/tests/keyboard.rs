use kfs::keyboard::layout::{map_qwerty, Character, CharacterFull, KeyMap, Layout};
use kfs::keyboard::{Keyboard, ModifierState};
use kfs::ps2::{Buffer, Event, Key, KeyEvent};

fn mods(shift: bool) -> ModifierState {
    ModifierState { shift_pressed: shift, ctrl_pressed: false, alt_pressed: false, gui_pressed: false }
}

fn press(key: Key) -> KeyEvent {
    KeyEvent { key, event: Event::Pressed }
}

fn release(key: Key) -> KeyEvent {
    KeyEvent { key, event: Event::Released }
}

#[test]
fn qwerty_letters_follow_shift() {
    assert_eq!(
        map_qwerty(Key::A, mods(false)),
        Some(CharacterFull { character: Character::Char('a'), modifiers: mods(false) })
    );
    assert_eq!(
        map_qwerty(Key::A, mods(true)),
        Some(CharacterFull { character: Character::Char('A'), modifiers: mods(true) })
    );
    assert_eq!(map_qwerty(Key::N1, mods(true)).unwrap().character, Character::Char('!'));
    assert_eq!(map_qwerty(Key::Slash, mods(false)).unwrap().character, Character::Char('/'));
}

#[test]
fn qwerty_modifier_keys_give_nothing() {
    assert_eq!(map_qwerty(Key::LeftShift, mods(false)), None);
    assert_eq!(map_qwerty(Key::RightGui, mods(true)), None);
}

#[test]
fn qwerty_special_keys_ignore_shift() {
    assert_eq!(map_qwerty(Key::F1, mods(true)).unwrap().character, Character::F1);
    assert_eq!(map_qwerty(Key::Enter, mods(false)).unwrap().character, Character::Enter);
    assert_eq!(map_qwerty(Key::Space, mods(true)).unwrap().character, Character::Char(' '));
}

#[test]
fn qwerty_open_bracket_without_shift_gives_closing_brace() {
    assert_eq!(map_qwerty(Key::SquareBracketsOpen, mods(false)).unwrap().character, Character::Char('}'));
    assert_eq!(map_qwerty(Key::SquareBracketsOpen, mods(true)).unwrap().character, Character::Char('{'));
}

#[test]
fn layout_dispatches_to_its_map() {
    let layout = Layout::new(KeyMap::Qwerty);
    assert_eq!(layout.map(Key::Z, mods(true)), map_qwerty(Key::Z, mods(true)));
}

#[test]
fn keyboard_tracks_shift_across_events() {
    let mut kb = Keyboard::new(Layout::new(KeyMap::Qwerty));
    let mut buf = Buffer::new();
    buf.push(press(Key::LeftShift));
    buf.push(press(Key::B));
    buf.push(release(Key::LeftShift));
    buf.push(press(Key::B));
    let first = kb.next_full(&mut buf).unwrap();
    assert_eq!(first.character, Character::Char('B'));
    assert!(first.modifiers.shift_pressed);
    assert_eq!(kb.next(&mut buf), Some(Character::Char('b')));
    assert!(!kb.modifier.shift_pressed);
    assert_eq!(kb.next(&mut buf), None);
}

#[test]
fn keyboard_skips_releases_and_stops_when_empty() {
    let mut kb = Keyboard::new(Layout::new(KeyMap::Qwerty));
    let mut buf = Buffer::new();
    buf.push(release(Key::A));
    buf.push(press(Key::RightCtrl));
    assert_eq!(kb.next(&mut buf), None);
    assert!(kb.modifier.ctrl_pressed);
    assert!(buf.is_empty());
}

#[test]
fn keyboard_leaves_later_events_queued() {
    let mut kb = Keyboard::new(Layout::new(KeyMap::Qwerty));
    let mut buf = Buffer::new();
    buf.push(press(Key::A));
    buf.push(press(Key::C));
    assert_eq!(kb.next(&mut buf), Some(Character::Char('a')));
    assert!(!buf.is_empty());
    assert_eq!(buf.pop(), Some(press(Key::C)));
}
