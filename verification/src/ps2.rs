//! PS/2 keyboard events and the ring buffer that carries them from the
//! interrupt handler to the reader.
use vstd::prelude::*;

pub mod controller;

verus! {

/// Port the PS/2 controller delivers data bytes on.
pub const DATA_PORT: u16 = 0x60;

/// Port the PS/2 controller reports its status on.
pub const STATUS_PORT: u16 = 0x64;

/// Port commands are sent to the PS/2 controller on.
pub const COMMAND_PORT: u16 = 0x64;

/// Status bit that is set while the output buffer holds a byte.
pub const OUTPUT_BUFFER_STATUS_BIT: u8 = 1;

/// A key of the keyboard.
#[derive(Clone, Copy, Debug, PartialEq, Eq, Structural)]
pub enum Key {
    Escape,
    Tab,
    Enter,
    ArrowUp,
    Backspace,
    ArrowDown,
    ArrowLeft,
    ArrowRight,
    CapsLock,
    NumLock,
    ScrollLock,
    F1,
    F2,
    F3,
    F4,
    F5,
    F6,
    F7,
    F8,
    F9,
    F10,
    F11,
    F12,
    KeypadAdd,
    KeypadSub,
    KeypadMul,
    KeypadDiv,
    KeypadEnter,
    KeypadN0,
    KeypadN1,
    KeypadN2,
    KeypadN3,
    KeypadN4,
    KeypadN5,
    KeypadN6,
    KeypadN7,
    KeypadN8,
    KeypadN9,
    KeypadComma,
    LeftAlt,
    RightAlt,
    LeftShift,
    RightShift,
    LeftCtrl,
    RightCtrl,
    LeftGui,
    RightGui,
    A,
    B,
    C,
    D,
    E,
    F,
    G,
    H,
    I,
    J,
    K,
    L,
    M,
    N,
    O,
    P,
    Q,
    R,
    S,
    T,
    U,
    V,
    W,
    X,
    Y,
    Z,
    N0,
    N1,
    N2,
    N3,
    N4,
    N5,
    N6,
    N7,
    N8,
    N9,
    Point,
    Equal,
    Minus,
    Comma,
    Backtick,
    Semicolon,
    Slash,
    Backslash,
    SingleQuote,
    SquareBracketsOpen,
    SquareBracketsClosed,
    Space,
}

/// Whether a key went down or came up.
#[derive(Clone, Copy, Debug, PartialEq, Eq, Structural)]
pub enum Event {
    Pressed,
    Released,
}

/// A key together with what happened to it.
#[derive(Clone, Copy, Debug, PartialEq, Eq, Structural)]
pub struct KeyEvent {
    pub key: Key,
    pub event: Event,
}

/// Prefix byte announcing a scancode of the extended set.
pub const EXTENDED_PREFIX: u8 = 0xE0;

/// Where the keyboard handler looks a byte up.
#[derive(Clone, Copy, Debug, PartialEq, Eq, Structural)]
pub enum ScancodeLookup {
    /// The byte announces an extended scancode: nothing to look up yet.
    Prefix,
    /// Look the byte up in the table of ordinary scancodes.
    Normal(u8),
    /// Look the byte up in the table of extended scancodes.
    Extended(u8),
}

/// The keyboard handler's step on a byte from the data port: after the
/// extended prefix the byte is an extended scancode (and the prefix is
/// consumed); otherwise the prefix itself is remembered and any other byte
/// is an ordinary scancode. Returns whether a prefix is now pending and
/// where to look the byte up.
pub fn scancode_step(extended_sent: bool, scancode: u8) -> (r: (bool, ScancodeLookup))
    ensures
        extended_sent ==> r == (false, ScancodeLookup::Extended(scancode)),
        !extended_sent && scancode == EXTENDED_PREFIX ==> r == (true, ScancodeLookup::Prefix),
        !extended_sent && scancode != EXTENDED_PREFIX ==> r == (false, ScancodeLookup::Normal(scancode)),
{
    if extended_sent {
        (false, ScancodeLookup::Extended(scancode))
    } else if scancode == EXTENDED_PREFIX {
        (true, ScancodeLookup::Prefix)
    } else {
        (false, ScancodeLookup::Normal(scancode))
    }
}

/// Number of slots of the ring buffer; one slot always stays free.
pub const BUFFER_SIZE: usize = 256;

/// A ring buffer of key events. When it is full, pushing drops the oldest event.
pub struct Buffer {
    buffer: Vec<Option<KeyEvent>>,
    read_pos: usize,
    write_pos: usize,
}

impl Buffer {
    /// Slot of the `i`-th queued event.
    closed spec fn slot(&self, i: int) -> int {
        if self.read_pos + i < 256 {
            self.read_pos + i
        } else {
            self.read_pos + i - 256
        }
    }

    /// Number of queued events.
    closed spec fn count(&self) -> int {
        if self.write_pos >= self.read_pos {
            self.write_pos - self.read_pos
        } else {
            self.write_pos + 256 - self.read_pos
        }
    }

    /// The buffer's shape: 256 slots, both positions inside, every queued slot filled.
    pub closed spec fn wf(&self) -> bool {
        &&& self.buffer@.len() == 256
        &&& self.read_pos < 256
        &&& self.write_pos < 256
        &&& forall|i: int| 0 <= i < self.count() ==> (#[trigger] self.buffer@[self.slot(i)]) is Some
    }

    /// The queued events, oldest first.
    pub closed spec fn events(&self) -> Seq<KeyEvent> {
        Seq::new(self.count() as nat, |i: int| self.buffer@[self.slot(i)].unwrap())
    }

    /// An empty buffer.
    pub fn new() -> (r: Self)
        ensures
            r.wf(),
            r.events() == Seq::<KeyEvent>::empty(),
    {
        let mut buffer: Vec<Option<KeyEvent>> = Vec::new();
        while buffer.len() < BUFFER_SIZE
            invariant
                buffer@.len() <= 256,
            decreases 256 - buffer@.len(),
        {
            buffer.push(None);
        }
        let r = Self { buffer, read_pos: 0, write_pos: 0 };
        assert(r.events() =~= Seq::<KeyEvent>::empty());
        r
    }

    /// Queues `key_event`; when 255 events are already queued, the oldest is dropped.
    pub fn push(&mut self, key_event: KeyEvent)
        requires
            old(self).wf(),
        ensures
            final(self).wf(),
            old(self).events().len() < 255 ==> final(self).events() == old(self).events().push(key_event),
            old(self).events().len() == 255 ==> final(self).events() == old(self).events().drop_first().push(
                key_event,
            ),
            final(self).events().len() <= 255,
    {
        let ghost old_events = self.events();
        let ghost old_self = *self;
        let next_write = (self.write_pos + 1) % BUFFER_SIZE;
        if next_write == self.read_pos {
            self.read_pos = (self.read_pos + 1) % BUFFER_SIZE;
        }
        self.buffer.set(self.write_pos, Some(key_event));
        self.write_pos = next_write;
        proof {
            let n = old_self.count();
            if n == 255 {
                assert(self.count() == 255);
                assert forall|i: int| 0 <= i < 255 implies self.slot(i) == old_self.slot(i + 1) by {}
                assert(self.slot(254) == old_self.write_pos);
                assert forall|i: int| 0 <= i < self.count() implies (#[trigger] self.buffer@[self.slot(i)]) is Some by {
                    if i < 254 {
                        assert(old_self.buffer@[old_self.slot(i + 1)] is Some);
                    }
                }
                assert(self.events() =~= old_events.drop_first().push(key_event));
            } else {
                assert(self.count() == n + 1);
                assert forall|i: int| 0 <= i < n implies self.slot(i) == old_self.slot(i) by {}
                assert(self.slot(n) == old_self.write_pos);
                assert forall|i: int| 0 <= i < self.count() implies (#[trigger] self.buffer@[self.slot(i)]) is Some by {
                    if i < n {
                        assert(old_self.buffer@[old_self.slot(i)] is Some);
                    }
                }
                assert(self.events() =~= old_events.push(key_event));
            }
        }
    }

    /// Takes the oldest queued event, if any.
    pub fn pop(&mut self) -> (r: Option<KeyEvent>)
        requires
            old(self).wf(),
        ensures
            final(self).wf(),
            old(self).events().len() == 0 ==> r is None && final(self).events() == old(self).events(),
            old(self).events().len() > 0 ==> r == Some(old(self).events()[0]) && final(self).events()
                == old(self).events().drop_first(),
    {
        if self.read_pos == self.write_pos {
            return None;
        }
        let ghost old_events = self.events();
        let ghost old_self = *self;
        proof {
            assert(old_self.buffer@[old_self.slot(0)] is Some);
        }
        let key = self.buffer[self.read_pos];
        self.read_pos = (self.read_pos + 1) % BUFFER_SIZE;
        proof {
            assert(self.count() == old_self.count() - 1);
            assert forall|i: int| 0 <= i < self.count() implies self.slot(i) == old_self.slot(i + 1) by {}
            assert forall|i: int| 0 <= i < self.count() implies (#[trigger] self.buffer@[self.slot(i)]) is Some by {
                assert(old_self.buffer@[old_self.slot(i + 1)] is Some);
            }
            assert(self.events() =~= old_events.drop_first());
        }
        key
    }

    /// Whether no event is queued.
    pub fn is_empty(&self) -> (r: bool)
        requires
            self.wf(),
        ensures
            r == (self.events().len() == 0),
    {
        self.read_pos == self.write_pos
    }
}

} // verus!
