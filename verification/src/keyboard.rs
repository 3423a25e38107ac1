//! Turns the stream of key events into characters, tracking the modifier keys.
use vstd::prelude::*;
use crate::keyboard::layout::{CharacterFull, Character, Layout, map_spec};
use crate::ps2::{Buffer, Event, Key, KeyEvent};

pub mod layout;

verus! {

/// Which modifier keys are held.
#[derive(Clone, Copy, Debug, PartialEq, Eq, Structural)]
pub struct ModifierState {
    pub shift_pressed: bool,
    pub ctrl_pressed: bool,
    pub alt_pressed: bool,
    pub gui_pressed: bool,
}

/// A keyboard: the held modifiers and the layout keys are mapped with.
#[derive(Clone, Copy, Debug, PartialEq, Eq, Structural)]
pub struct Keyboard {
    pub modifier: ModifierState,
    pub layout: Layout,
}

/// The modifier state after `e`; keys that are no modifier leave it as it is.
pub open spec fn update_modifiers(m: ModifierState, e: KeyEvent) -> ModifierState {
    let down = e.event == Event::Pressed;
    match e.key {
        Key::LeftShift | Key::RightShift => ModifierState { shift_pressed: down, ..m },
        Key::LeftCtrl | Key::RightCtrl => ModifierState { ctrl_pressed: down, ..m },
        Key::LeftAlt | Key::RightAlt => ModifierState { alt_pressed: down, ..m },
        Key::LeftGui | Key::RightGui => ModifierState { gui_pressed: down, ..m },
        _ => m,
    }
}

/// Whether `key` is one of the tracked modifier keys.
pub open spec fn tracked_modifier(key: Key) -> bool {
    match key {
        Key::LeftShift | Key::RightShift | Key::LeftCtrl | Key::RightCtrl | Key::LeftAlt | Key::RightAlt
        | Key::LeftGui | Key::RightGui => true,
        _ => false,
    }
}

/// Reading `events` with `layout` from modifier state `m`: modifier events
/// update the state, releases of other keys are skipped, and the first press
/// of another key ends the reading with what the layout maps it to. The
/// result is the final modifier state, what was produced, and how many events
/// were consumed.
pub open spec fn scan(layout: Layout, m: ModifierState, events: Seq<KeyEvent>) -> (ModifierState, Option<
    CharacterFull,
>, nat)
    decreases events.len(),
{
    if events.len() == 0 {
        (m, None, 0)
    } else {
        let e = events[0];
        if tracked_modifier(e.key) {
            let rest = scan(layout, update_modifiers(m, e), events.drop_first());
            (rest.0, rest.1, rest.2 + 1)
        } else if e.event == Event::Pressed {
            (m, map_spec(layout.map, e.key, m), 1)
        } else {
            let rest = scan(layout, m, events.drop_first());
            (rest.0, rest.1, rest.2 + 1)
        }
    }
}

impl Keyboard {
    /// A keyboard with no modifier held.
    pub fn new(layout: Layout) -> (r: Self)
        ensures
            r.layout == layout,
            r.modifier == (ModifierState {
                shift_pressed: false,
                ctrl_pressed: false,
                alt_pressed: false,
                gui_pressed: false,
            }),
    {
        Self {
            modifier: ModifierState {
                shift_pressed: false,
                ctrl_pressed: false,
                alt_pressed: false,
                gui_pressed: false,
            },
            layout,
        }
    }

    /// Takes events from `buffer` until a key press gives a result (see
    /// `scan`), and returns that result with its modifiers.
    pub fn next_full(&mut self, buffer: &mut Buffer) -> (r: Option<CharacterFull>)
        requires
            old(buffer).wf(),
        ensures
            final(buffer).wf(),
            ({
                let s = scan(old(self).layout, old(self).modifier, old(buffer).events());
                &&& final(self).modifier == s.0
                &&& r == s.1
                &&& s.2 <= old(buffer).events().len()
                &&& final(buffer).events() == old(buffer).events().skip(s.2 as int)
            }),
            final(self).layout == old(self).layout,
    {
        let ghost start = buffer.events();
        let ghost m0 = self.modifier;
        let ghost mut taken: nat = 0;
        proof {
            lemma_scan_bound(self.layout, self.modifier, start);
        }
        loop
            invariant
                buffer.wf(),
                self.layout == old(self).layout,
                start == old(buffer).events(),
                m0 == old(self).modifier,
                taken <= start.len(),
                buffer.events() == start.skip(taken as int),
                scan(self.layout, m0, start) == ({
                    let rest = scan(self.layout, self.modifier, buffer.events());
                    (rest.0, rest.1, rest.2 + taken)
                }),
            decreases buffer.events().len(),
        {
            let ghost before = buffer.events();
            let ghost m_before = self.modifier;
            let popped = buffer.pop();
            match popped {
                None => {
                    return None;
                },
                Some(key_event) => {
                    proof {
                        assert(before[0] == key_event);
                        assert(scan(self.layout, m_before, before) == (if tracked_modifier(key_event.key) {
                            let rest = scan(self.layout, update_modifiers(m_before, key_event), before.drop_first());
                            (rest.0, rest.1, rest.2 + 1)
                        } else if key_event.event == Event::Pressed {
                            (m_before, map_spec(self.layout.map, key_event.key, m_before), 1nat)
                        } else {
                            let rest = scan(self.layout, m_before, before.drop_first());
                            (rest.0, rest.1, rest.2 + 1)
                        }));
                        assert(before.drop_first() =~= start.skip(taken + 1int));
                        taken = taken + 1;
                    }
                    match key_event.key {
                        Key::LeftShift | Key::RightShift => {
                            self.modifier.shift_pressed = key_event.event == Event::Pressed;
                        },
                        Key::LeftCtrl | Key::RightCtrl => {
                            self.modifier.ctrl_pressed = key_event.event == Event::Pressed;
                        },
                        Key::LeftAlt | Key::RightAlt => {
                            self.modifier.alt_pressed = key_event.event == Event::Pressed;
                        },
                        Key::LeftGui | Key::RightGui => {
                            self.modifier.gui_pressed = key_event.event == Event::Pressed;
                        },
                        _ => {
                            if key_event.event == Event::Pressed {
                                return self.layout.map(key_event.key, self.modifier);
                            }
                        },
                    }
                },
            }
        }
    }

    /// The next character typed, without its modifiers.
    pub fn next(&mut self, buffer: &mut Buffer) -> (r: Option<Character>)
        requires
            old(buffer).wf(),
        ensures
            final(buffer).wf(),
            ({
                let s = scan(old(self).layout, old(self).modifier, old(buffer).events());
                &&& final(self).modifier == s.0
                &&& r == match s.1 {
                    Some(c) => Some(c.character),
                    None => None,
                }
                &&& final(buffer).events() == old(buffer).events().skip(s.2 as int)
            }),
            final(self).layout == old(self).layout,
    {
        match self.next_full(buffer) {
            Some(c) => Some(c.character),
            None => None,
        }
    }
}

/// `scan` consumes no more events than there are.
proof fn lemma_scan_bound(layout: Layout, m: ModifierState, events: Seq<KeyEvent>)
    ensures
        scan(layout, m, events).2 <= events.len(),
    decreases events.len(),
{
    if events.len() > 0 {
        let e = events[0];
        if tracked_modifier(e.key) {
            lemma_scan_bound(layout, update_modifiers(m, e), events.drop_first());
        } else if e.event != Event::Pressed {
            lemma_scan_bound(layout, m, events.drop_first());
        }
    }
}

} // verus!
