//! The keyboard: from the codes of keys to characters.
//!
//! A key sends its code when it is pressed, and the code with bit 7 set when it
//! is released. Characters wait in a ring until they are read.

use vstd::prelude::*;

verus! {

/// Characters that can wait to be read.
pub const INPUT_BUF_SIZE: usize = 256;

/// How many key codes there are.
pub const KEY_COUNT: usize = 128;

pub const KEY_CTRL: u8 = 0x1D;

pub const KEY_LEFT_SHIFT: u8 = 0x2A;

pub const KEY_RIGHT_SHIFT: u8 = 0x36;

pub const KEY_ALT: u8 = 0x38;

pub const KEY_CAPS_LOCK: u8 = 0x3A;

pub const NEWLINE: u8 = 0x0A;

pub const BACKSPACE: u8 = 0x08;

/// The character of each key, 0 for a key without one.
pub const SCANCODE_TO_ASCII: [u8; KEY_COUNT] = [
    0, 0x1B, 0x31, 0x32, 0x33, 0x34, 0x35, 0x36,
    0x37, 0x38, 0x39, 0x30, 0x2D, 0x3D, 0x08, 0x09,
    0x71, 0x77, 0x65, 0x72, 0x74, 0x79, 0x75, 0x69,
    0x6F, 0x70, 0x5B, 0x5D, 0x0A, 0, 0x61, 0x73,
    0x64, 0x66, 0x67, 0x68, 0x6A, 0x6B, 0x6C, 0x3B,
    0x27, 0x60, 0, 0x5C, 0x7A, 0x78, 0x63, 0x76,
    0x62, 0x6E, 0x6D, 0x2C, 0x2E, 0x2F, 0, 0x2A,
    0, 0x20, 0, 0, 0, 0, 0, 0,
    0, 0, 0, 0, 0, 0, 0, 0,
    0, 0, 0, 0, 0, 0, 0, 0,
    0, 0, 0, 0, 0, 0, 0, 0,
    0, 0, 0, 0, 0, 0, 0, 0,
    0, 0, 0, 0, 0, 0, 0, 0,
    0, 0, 0, 0, 0, 0, 0, 0,
    0, 0, 0, 0, 0, 0, 0, 0,
    0, 0, 0, 0, 0, 0, 0, 0,
];

/// The character of each key while letters are large.
pub const SCANCODE_TO_ASCII_SHIFT: [u8; KEY_COUNT] = [
    0, 0x1B, 0x21, 0x40, 0x23, 0x24, 0x25, 0x5E,
    0x26, 0x2A, 0x28, 0x29, 0x5F, 0x2B, 0x08, 0x09,
    0x51, 0x57, 0x45, 0x52, 0x54, 0x59, 0x55, 0x49,
    0x4F, 0x50, 0x7B, 0x7D, 0x0A, 0, 0x41, 0x53,
    0x44, 0x46, 0x47, 0x48, 0x4A, 0x4B, 0x4C, 0x3A,
    0x22, 0x7E, 0, 0x7C, 0x5A, 0x58, 0x43, 0x56,
    0x42, 0x4E, 0x4D, 0x3C, 0x3E, 0x3F, 0, 0x2A,
    0, 0x20, 0, 0, 0, 0, 0, 0,
    0, 0, 0, 0, 0, 0, 0, 0,
    0, 0, 0, 0, 0, 0, 0, 0,
    0, 0, 0, 0, 0, 0, 0, 0,
    0, 0, 0, 0, 0, 0, 0, 0,
    0, 0, 0, 0, 0, 0, 0, 0,
    0, 0, 0, 0, 0, 0, 0, 0,
    0, 0, 0, 0, 0, 0, 0, 0,
    0, 0, 0, 0, 0, 0, 0, 0,
];

/// Which of the special keys are held, and whether letters are locked.
#[derive(Debug, Clone, Copy, PartialEq, Eq, Structural)]
pub struct KeyboardState {
    pub left_shift: bool,
    pub right_shift: bool,
    pub caps_lock: bool,
    pub ctrl: bool,
    pub alt: bool,
}

impl KeyboardState {
    /// Letters are large: one of the shift keys is held, or letters are locked,
    /// but not both.
    pub open spec fn large(self) -> bool {
        (self.left_shift || self.right_shift) != self.caps_lock
    }

    /// No key is held.
    pub fn new() -> (r: KeyboardState)
        ensures
            r == (KeyboardState {
                left_shift: false,
                right_shift: false,
                caps_lock: false,
                ctrl: false,
                alt: false,
            }),
    {
        KeyboardState {
            left_shift: false,
            right_shift: false,
            caps_lock: false,
            ctrl: false,
            alt: false,
        }
    }

    /// Whether a shift key is held.
    pub fn shift(&self) -> (r: bool)
        ensures
            r == (self.left_shift || self.right_shift),
    {
        self.left_shift || self.right_shift
    }

    /// Whether letters are large.
    pub fn uppercase(&self) -> (r: bool)
        ensures
            r == self.large(),
    {
        self.shift() != self.caps_lock
    }
}

/// Characters that wait to be read, in a ring.
pub struct InputBuffer {
    data: [u8; INPUT_BUF_SIZE],
    /// Where the next character is read.
    read_pos: usize,
    /// Where the next character is put.
    write_pos: usize,
    count: usize,
}

impl View for InputBuffer {
    type V = Seq<u8>;

    closed spec fn view(&self) -> Seq<u8> {
        Seq::new(
            self.count as nat,
            |i: int| self.data@[(self.read_pos + i) % INPUT_BUF_SIZE as int],
        )
    }
}

impl InputBuffer {
    #[verifier::type_invariant]
    spec fn in_order(self) -> bool {
        &&& self.read_pos < INPUT_BUF_SIZE
        &&& self.count <= INPUT_BUF_SIZE
        &&& self.write_pos == (self.read_pos + self.count) % INPUT_BUF_SIZE as int
    }

    /// No character waits.
    pub fn new() -> (r: InputBuffer)
        ensures
            r@ == Seq::<u8>::empty(),
    {
        let r = InputBuffer { data: [0u8; INPUT_BUF_SIZE], read_pos: 0, write_pos: 0, count: 0 };
        assert(r@ =~= Seq::<u8>::empty());
        r
    }

    /// How many characters wait.
    pub fn len(&self) -> (r: usize)
        ensures
            r == self@.len(),
            r <= INPUT_BUF_SIZE,
    {
        proof {
            use_type_invariant(self);
        }
        self.count
    }

    /// Adds a character. It is lost if there is no room for it.
    pub fn push(&mut self, ch: u8)
        ensures
            final(self)@ == pushed(old(self)@, ch),
    {
        proof {
            use_type_invariant(&*self);
        }
        let ghost before = self@;
        if self.count < INPUT_BUF_SIZE {
            let mut data: [u8; INPUT_BUF_SIZE] = self.data;
            data[self.write_pos] = ch;
            *self = InputBuffer {
                data,
                read_pos: self.read_pos,
                write_pos: (self.write_pos + 1) % INPUT_BUF_SIZE,
                count: self.count + 1,
            };
        }
        assert(self@ =~= pushed(before, ch));
    }

    /// Takes the character that has waited longest.
    pub fn pop(&mut self) -> (r: Option<u8>)
        ensures
            (final(self)@, r) == popped(old(self)@),
    {
        proof {
            use_type_invariant(&*self);
        }
        let ghost before = self@;
        if self.count == 0 {
            return None;
        }
        let ch: u8 = self.data[self.read_pos];
        *self = InputBuffer {
            data: self.data,
            read_pos: (self.read_pos + 1) % INPUT_BUF_SIZE,
            write_pos: self.write_pos,
            count: self.count - 1,
        };
        assert(self@ =~= before.subrange(1, before.len() as int));
        Some(ch)
    }
}

/// Waiting characters with one more, if there is room.
pub open spec fn pushed(s: Seq<u8>, ch: u8) -> Seq<u8> {
    if s.len() < INPUT_BUF_SIZE {
        s.push(ch)
    } else {
        s
    }
}

/// Waiting characters without the first, and the first.
pub open spec fn popped(s: Seq<u8>) -> (Seq<u8>, Option<u8>) {
    if s.len() == 0 {
        (s, None)
    } else {
        (s.subrange(1, s.len() as int), Some(s[0]))
    }
}

/// What the screen shows of a key.
#[derive(Debug, Clone, Copy, PartialEq, Eq, Structural)]
pub enum Echo {
    Nothing,
    NewLine,
    /// The last character goes.
    Erase,
    Show(u8),
}

/// The state of the special keys after a code.
pub open spec fn held_after(s: KeyboardState, scancode: u8) -> KeyboardState {
    let code = scancode % 128;
    let pressed = scancode < 128;
    if code == KEY_LEFT_SHIFT {
        KeyboardState { left_shift: pressed, ..s }
    } else if code == KEY_RIGHT_SHIFT {
        KeyboardState { right_shift: pressed, ..s }
    } else if code == KEY_CTRL {
        KeyboardState { ctrl: pressed, ..s }
    } else if code == KEY_ALT {
        KeyboardState { alt: pressed, ..s }
    } else if code == KEY_CAPS_LOCK && pressed {
        KeyboardState { caps_lock: !s.caps_lock, ..s }
    } else {
        s
    }
}

/// The character that a code stands for, 0 if it stands for none: special keys
/// and released keys have no character.
pub open spec fn char_of(large: bool, scancode: u8) -> u8 {
    if scancode >= 128 {
        0
    } else if large {
        SCANCODE_TO_ASCII_SHIFT@[scancode as int]
    } else {
        SCANCODE_TO_ASCII@[scancode as int]
    }
}

/// What the screen shows of a character.
pub open spec fn echo_of(ch: u8) -> Echo {
    if ch == 0 {
        Echo::Nothing
    } else if ch == NEWLINE {
        Echo::NewLine
    } else if ch == BACKSPACE {
        Echo::Erase
    } else {
        Echo::Show(ch)
    }
}

/// The waiting characters after a code.
pub open spec fn input_after(s: Seq<u8>, ch: u8) -> Seq<u8> {
    if ch == 0 {
        s
    } else {
        pushed(s, ch)
    }
}

/// Takes a code from the keyboard. Returns what the screen shows of it.
pub fn handle_scancode(state: &mut KeyboardState, input: &mut InputBuffer, scancode: u8) -> (r: Echo)
    ensures
        *final(state) == held_after(*old(state), scancode),
        final(input)@ == input_after(old(input)@, char_of(old(state).large(), scancode)),
        r == echo_of(char_of(old(state).large(), scancode)),
{
    let released: bool = scancode >= 128;
    let code: u8 = scancode % 128;
    proof {
        lemma_special_keys();
    }
    match code {
        KEY_LEFT_SHIFT => {
            state.left_shift = !released;
            Echo::Nothing
        },
        KEY_RIGHT_SHIFT => {
            state.right_shift = !released;
            Echo::Nothing
        },
        KEY_CTRL => {
            state.ctrl = !released;
            Echo::Nothing
        },
        KEY_ALT => {
            state.alt = !released;
            Echo::Nothing
        },
        _ => {
            if released {
                return Echo::Nothing;
            }
            if code == KEY_CAPS_LOCK {
                state.caps_lock = !state.caps_lock;
                return Echo::Nothing;
            }
            let plain: [u8; KEY_COUNT] = SCANCODE_TO_ASCII;
            let shifted: [u8; KEY_COUNT] = SCANCODE_TO_ASCII_SHIFT;
            let ch: u8 = if state.uppercase() {
                shifted[code as usize]
            } else {
                plain[code as usize]
            };
            if ch == 0 {
                return Echo::Nothing;
            }
            input.push(ch);
            if ch == NEWLINE {
                Echo::NewLine
            } else if ch == BACKSPACE {
                Echo::Erase
            } else {
                Echo::Show(ch)
            }
        },
    }
}

/// The special keys have no character.
proof fn lemma_special_keys()
    ensures
        forall|large: bool| #[trigger] char_of(large, KEY_LEFT_SHIFT) == 0,
        forall|large: bool| #[trigger] char_of(large, KEY_RIGHT_SHIFT) == 0,
        forall|large: bool| #[trigger] char_of(large, KEY_CTRL) == 0,
        forall|large: bool| #[trigger] char_of(large, KEY_ALT) == 0,
        forall|large: bool| #[trigger] char_of(large, KEY_CAPS_LOCK) == 0,
{
}

/// Reads the character that has waited longest.
pub fn read_char(input: &mut InputBuffer) -> (r: Option<u8>)
    ensures
        (final(input)@, r) == popped(old(input)@),
{
    input.pop()
}

/// Whether a character waits.
pub fn has_input(input: &InputBuffer) -> (r: bool)
    ensures
        r == (input@.len() > 0),
{
    input.len() > 0
}

/// Characters are read in the order of their keys: one that is typed while none
/// waits is the next one to be read, and those that wait come before it.
pub proof fn law_characters_keep_their_order(s: Seq<u8>, ch: u8)
    requires
        s.len() < INPUT_BUF_SIZE,
    ensures
        s.len() == 0 ==> popped(pushed(s, ch)) == (s, Some(ch)),
        s.len() > 0 ==> popped(pushed(s, ch)) == (pushed(popped(s).0, ch), popped(s).1),
{
    if s.len() == 0 {
        assert(pushed(s, ch).subrange(1, 1) =~= s);
    } else {
        assert(s.push(ch).subrange(1, (s.len() + 1) as int) =~= s.subrange(1, s.len() as int).push(ch));
    }
}

/// A special key that is pressed and released leaves everything as it was, unless
/// it locks letters: that takes a second time.
pub proof fn law_releasing_undoes_pressing(s: KeyboardState, key: u8)
    requires
        key < 128,
        key == KEY_LEFT_SHIFT ==> !s.left_shift,
        key == KEY_RIGHT_SHIFT ==> !s.right_shift,
        key == KEY_CTRL ==> !s.ctrl,
        key == KEY_ALT ==> !s.alt,
    ensures
        key != KEY_CAPS_LOCK ==> held_after(held_after(s, key), (key + 128) as u8) == s,
        key == KEY_CAPS_LOCK ==> held_after(held_after(s, key), key) == s,
{
}

} // verus!
