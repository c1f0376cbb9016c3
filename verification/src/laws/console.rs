//! The console: which character a key types, and where text stands on the screen.

use vstd::prelude::*;
use vstd::string::*;
use crate::keyboard;
use crate::keyboard::{Echo, InputBuffer, KeyboardState};
use crate::text;
use crate::vga;
use crate::vga::{Color, ColorCode, Page, Writer};

verus! {

/// The characters of the row of digits, from 1 to =.
pub open spec fn digit_row() -> Seq<u8> {
    seq![0x31u8, 0x32, 0x33, 0x34, 0x35, 0x36, 0x37, 0x38, 0x39, 0x30, 0x2D, 0x3D]
}

/// The characters of the row of digits, from 1 to =, with shift.
pub open spec fn digit_row_shifted() -> Seq<u8> {
    seq![0x21u8, 0x40, 0x23, 0x24, 0x25, 0x5E, 0x26, 0x2A, 0x28, 0x29, 0x5F, 0x2B]
}

/// The characters of the row from Q to the closing bracket.
pub open spec fn top_row() -> Seq<u8> {
    seq![0x71u8, 0x77, 0x65, 0x72, 0x74, 0x79, 0x75, 0x69, 0x6F, 0x70, 0x5B, 0x5D]
}

/// The characters of the row from Q to the closing bracket, with shift.
pub open spec fn top_row_shifted() -> Seq<u8> {
    seq![0x51u8, 0x57, 0x45, 0x52, 0x54, 0x59, 0x55, 0x49, 0x4F, 0x50, 0x7B, 0x7D]
}

/// The characters of the row from A to the backtick.
pub open spec fn home_row() -> Seq<u8> {
    seq![0x61u8, 0x73, 0x64, 0x66, 0x67, 0x68, 0x6A, 0x6B, 0x6C, 0x3B, 0x27, 0x60]
}

/// The characters of the row from A to the backtick, with shift.
pub open spec fn home_row_shifted() -> Seq<u8> {
    seq![0x41u8, 0x53, 0x44, 0x46, 0x47, 0x48, 0x4A, 0x4B, 0x4C, 0x3A, 0x22, 0x7E]
}

/// The characters of the row from the backslash to the slash.
pub open spec fn bottom_row() -> Seq<u8> {
    seq![0x5Cu8, 0x7A, 0x78, 0x63, 0x76, 0x62, 0x6E, 0x6D, 0x2C, 0x2E, 0x2F]
}

/// The characters of the row from the backslash to the slash, with shift.
pub open spec fn bottom_row_shifted() -> Seq<u8> {
    seq![0x7Cu8, 0x5A, 0x58, 0x43, 0x56, 0x42, 0x4E, 0x4D, 0x3C, 0x3E, 0x3F]
}

/// The character of the key with a code, 0 if it has none.
pub open spec fn key_char(code: int, large: bool) -> u8 {
    if 2 <= code < 14 {
        if large {
            digit_row_shifted()[code - 2]
        } else {
            digit_row()[code - 2]
        }
    } else if 16 <= code < 28 {
        if large {
            top_row_shifted()[code - 16]
        } else {
            top_row()[code - 16]
        }
    } else if 30 <= code < 42 {
        if large {
            home_row_shifted()[code - 30]
        } else {
            home_row()[code - 30]
        }
    } else if 43 <= code < 54 {
        if large {
            bottom_row_shifted()[code - 43]
        } else {
            bottom_row()[code - 43]
        }
    } else if code == 1 {
        0x1B
    } else if code == 14 {
        0x08
    } else if code == 15 {
        0x09
    } else if code == 28 {
        0x0A
    } else if code == 55 {
        0x2A
    } else if code == 57 {
        0x20
    } else {
        0
    }
}

pub proof fn lemma_key_char(code: u8, large: bool)
    requires
        code < 128,
    ensures
        keyboard::char_of(large, code) == key_char(code as int, large),
{
    if 0 <= code < 16 {
        lemma_keys_0(code, large);
    }
    if 16 <= code < 32 {
        lemma_keys_16(code, large);
    }
    if 32 <= code < 48 {
        lemma_keys_32(code, large);
    }
    if 48 <= code < 64 {
        lemma_keys_48(code, large);
    }
    if 64 <= code < 80 {
        lemma_keys_64(code, large);
    }
    if 80 <= code < 96 {
        lemma_keys_80(code, large);
    }
    if 96 <= code < 112 {
        lemma_keys_96(code, large);
    }
    if 112 <= code < 128 {
        lemma_keys_112(code, large);
    }
}

proof fn lemma_keys_0(code: u8, large: bool)
    requires
        0 <= code < 16,
    ensures
        keyboard::char_of(large, code) == key_char(code as int, large),
{
    assert(code == 0 || code == 1 || code == 2 || code == 3 || code == 4 || code == 5 || code == 6 || code == 7 || code == 8 || code == 9 || code == 10 || code == 11 || code == 12 || code == 13 || code == 14 || code == 15);
}

proof fn lemma_keys_16(code: u8, large: bool)
    requires
        16 <= code < 32,
    ensures
        keyboard::char_of(large, code) == key_char(code as int, large),
{
    assert(code == 16 || code == 17 || code == 18 || code == 19 || code == 20 || code == 21 || code == 22 || code == 23 || code == 24 || code == 25 || code == 26 || code == 27 || code == 28 || code == 29 || code == 30 || code == 31);
}

proof fn lemma_keys_32(code: u8, large: bool)
    requires
        32 <= code < 48,
    ensures
        keyboard::char_of(large, code) == key_char(code as int, large),
{
    assert(code == 32 || code == 33 || code == 34 || code == 35 || code == 36 || code == 37 || code == 38 || code == 39 || code == 40 || code == 41 || code == 42 || code == 43 || code == 44 || code == 45 || code == 46 || code == 47);
}

proof fn lemma_keys_48(code: u8, large: bool)
    requires
        48 <= code < 64,
    ensures
        keyboard::char_of(large, code) == key_char(code as int, large),
{
    assert(code == 48 || code == 49 || code == 50 || code == 51 || code == 52 || code == 53 || code == 54 || code == 55 || code == 56 || code == 57 || code == 58 || code == 59 || code == 60 || code == 61 || code == 62 || code == 63);
}

proof fn lemma_keys_64(code: u8, large: bool)
    requires
        64 <= code < 80,
    ensures
        keyboard::char_of(large, code) == key_char(code as int, large),
{
    assert(code == 64 || code == 65 || code == 66 || code == 67 || code == 68 || code == 69 || code == 70 || code == 71 || code == 72 || code == 73 || code == 74 || code == 75 || code == 76 || code == 77 || code == 78 || code == 79);
}

proof fn lemma_keys_80(code: u8, large: bool)
    requires
        80 <= code < 96,
    ensures
        keyboard::char_of(large, code) == key_char(code as int, large),
{
    assert(code == 80 || code == 81 || code == 82 || code == 83 || code == 84 || code == 85 || code == 86 || code == 87 || code == 88 || code == 89 || code == 90 || code == 91 || code == 92 || code == 93 || code == 94 || code == 95);
}

proof fn lemma_keys_96(code: u8, large: bool)
    requires
        96 <= code < 112,
    ensures
        keyboard::char_of(large, code) == key_char(code as int, large),
{
    assert(code == 96 || code == 97 || code == 98 || code == 99 || code == 100 || code == 101 || code == 102 || code == 103 || code == 104 || code == 105 || code == 106 || code == 107 || code == 108 || code == 109 || code == 110 || code == 111);
}

proof fn lemma_keys_112(code: u8, large: bool)
    requires
        112 <= code < 128,
    ensures
        keyboard::char_of(large, code) == key_char(code as int, large),
{
    assert(code == 112 || code == 113 || code == 114 || code == 115 || code == 116 || code == 117 || code == 118 || code == 119 || code == 120 || code == 121 || code == 122 || code == 123 || code == 124 || code == 125 || code == 126 || code == 127);
}

/// A key that is pressed types its character: that with shift exactly if either a shift
/// key is held or letters are locked, but not both. The character waits behind those that
/// wait already, if there are fewer than 256, and is shown; a key without a character does
/// nothing, and neither does one that is released.
pub proof fn law_pressed_key_types_its_character(
    state: &mut KeyboardState,
    input: &mut InputBuffer,
    scancode: u8,
    r: Echo,
)
    requires
        call_ensures(keyboard::handle_scancode, (state, input, scancode), r),
    ensures
        ({
            let shift = old(state).left_shift || old(state).right_shift;
            let ch = key_char(scancode as int, shift != old(state).caps_lock);
            &&& scancode < 128 && ch != 0 ==> {
                &&& old(input)@.len() < 256 ==> final(input)@ == old(input)@.push(ch)
                &&& old(input)@.len() >= 256 ==> final(input)@ == old(input)@
                &&& ch == 0x0A ==> r == Echo::NewLine
                &&& ch == 0x08 ==> r == Echo::Erase
                &&& ch != 0x0A && ch != 0x08 ==> r == Echo::Show(ch)
            }
            &&& scancode >= 128 || ch == 0 ==> final(input)@ == old(input)@ && r == Echo::Nothing
        }),
{
    if scancode < 128 {
        lemma_key_char(scancode, old(state).large());
    }
}

/// A special key is held from its code on up to its code with bit 7 set; the lock of
/// letters changes each time that its key is pressed. No other key changes them.
pub proof fn law_special_keys_are_held_until_released(
    state: &mut KeyboardState,
    input: &mut InputBuffer,
    scancode: u8,
    r: Echo,
)
    requires
        call_ensures(keyboard::handle_scancode, (state, input, scancode), r),
    ensures
        final(state).left_shift == (if scancode % 128 == 0x2A {
            scancode < 128
        } else {
            old(state).left_shift
        }),
        final(state).right_shift == (if scancode % 128 == 0x36 {
            scancode < 128
        } else {
            old(state).right_shift
        }),
        final(state).ctrl == (if scancode % 128 == 0x1D {
            scancode < 128
        } else {
            old(state).ctrl
        }),
        final(state).alt == (if scancode % 128 == 0x38 {
            scancode < 128
        } else {
            old(state).alt
        }),
        final(state).caps_lock == (if scancode == 0x3A {
            !old(state).caps_lock
        } else {
            old(state).caps_lock
        }),
{
}

/// Characters are read in the order in which they were typed; there is none exactly if
/// none waits.
pub proof fn law_first_character_is_read_first(input: &mut InputBuffer, r: Option<u8>)
    requires
        call_ensures(keyboard::read_char, (input,), r),
    ensures
        old(input)@.len() == 0 ==> r is None && final(input)@ == old(input)@,
        old(input)@.len() > 0 ==> r is Some && old(input)@ == seq![r->0] + final(input)@,
{
    if old(input)@.len() > 0 {
        assert(old(input)@ =~= seq![old(input)@[0]] + old(input)@.subrange(
            1,
            old(input)@.len() as int,
        ));
    }
}

/// A character is added behind the others as long as fewer than 256 wait, and the first
/// one is taken.
pub proof fn law_buffer_is_first_in_first_out(
    a: &mut InputBuffer,
    b: &mut InputBuffer,
    ch: u8,
    r: Option<u8>,
)
    requires
        call_ensures(InputBuffer::push, (a, ch), ()),
        call_ensures(InputBuffer::pop, (b,), r),
    ensures
        old(a)@.len() < 256 ==> final(a)@ == old(a)@.push(ch),
        old(a)@.len() >= 256 ==> final(a)@ == old(a)@,
        old(b)@.len() == 0 ==> r is None && final(b)@ == old(b)@,
        old(b)@.len() > 0 ==> r is Some && old(b)@ == seq![r->0] + final(b)@,
{
    if old(b)@.len() > 0 {
        assert(old(b)@ =~= seq![old(b)@[0]] + old(b)@.subrange(1, old(b)@.len() as int));
    }
}

/// What the screen shows of a character.
pub open spec fn shows(ch: u8, r: Echo) -> bool {
    &&& ch == 0 ==> r == Echo::Nothing
    &&& ch == 0x0A ==> r == Echo::NewLine
    &&& ch == 0x08 ==> r == Echo::Erase
    &&& ch != 0 && ch != 0x0A && ch != 0x08 ==> r == Echo::Show(ch)
}

/// Every cell holds a space, in one colour.
pub open spec fn all_spaces(cells: Seq<u16>, color: u8) -> bool {
    forall|i: int| 0 <= i < 2000 ==> cell_is(#[trigger] cells[i], 0x20, color)
}

/// At the start no key is held and no character waits, and whether one waits is told.
pub proof fn law_keyboard_starts_idle(
    state: KeyboardState,
    fresh: InputBuffer,
    input: &InputBuffer,
    waits: bool,
    n: usize,
)
    requires
        call_ensures(KeyboardState::new, (), state),
        call_ensures(InputBuffer::new, (), fresh),
        call_ensures(keyboard::has_input, (input,), waits),
        call_ensures(InputBuffer::len, (input,), n),
    ensures
        !state.left_shift && !state.right_shift && !state.caps_lock && !state.ctrl && !state.alt,
        fresh@.len() == 0,
        waits <==> input@.len() > 0,
        n == input@.len(),
{
}

/// The cell of a character: the character in the low byte, the colours in the high one.
pub open spec fn cell_is(c: u16, ch: u8, color: u8) -> bool {
    c == ch + 0x100 * color
}

/// From `p` to `q` text goes on at the start of the next line. In the last of the 25 lines
/// every line moves up instead, the first one goes, and the last one is blank.
pub open spec fn line_ended(p: Page, q: Page) -> bool {
    &&& q.color == p.color
    &&& q.col == 0
    &&& q.cells.len() == 2000
    &&& p.row < 24 ==> q.row == p.row + 1 && q.cells == p.cells
    &&& p.row >= 24 ==> {
        &&& q.row == p.row
        &&& forall|i: int| 0 <= i < 1920 ==> #[trigger] q.cells[i] == p.cells[i + 80]
        &&& forall|i: int| 1920 <= i < 2000 ==> cell_is(#[trigger] q.cells[i], 0x20, p.color)
    }
}

/// From `p` to `q` a character is put where text goes on, and no other cell changes.
pub open spec fn put_in_line(p: Page, q: Page, ch: u8) -> bool {
    &&& q.color == p.color
    &&& q.row == p.row
    &&& q.col == p.col + 1
    &&& q.cells.len() == 2000
    &&& cell_is(q.cells[p.row * 80 + p.col], ch, p.color)
    &&& forall|i: int|
        0 <= i < 2000 && i != p.row * 80 + p.col ==> #[trigger] q.cells[i] == p.cells[i]
}

/// From `p` to `q` a byte is written: a line feed ends the line, and a character is put in
/// the line, which ends first if all of its 80 columns are full.
pub open spec fn byte_written(p: Page, q: Page, byte: u8) -> bool {
    if byte == 0x0A {
        line_ended(p, q)
    } else if p.col < 80 {
        put_in_line(p, q, byte)
    } else {
        exists|o: Page| #[trigger] line_ended(p, o) && put_in_line(o, q, byte)
    }
}

proof fn lemma_line(p: Page)
    requires
        p.wf(),
    ensures
        line_ended(p, p.next_line()),
        p.next_line().wf(),
{
}

proof fn lemma_put(p: Page, ch: u8)
    requires
        p.wf(),
        p.col < 80,
    ensures
        put_in_line(p, p.shown(ch), ch),
        p.shown(ch).wf(),
{
}

proof fn lemma_written(p: Page, byte: u8)
    requires
        p.wf(),
    ensures
        byte_written(p, p.written(byte), byte),
        p.written(byte).wf(),
{
    lemma_line(p);
    if byte != 0x0A {
        if p.col < 80 {
            lemma_put(p, byte);
        } else {
            let o = p.next_line();
            lemma_put(o, byte);
            assert(line_ended(p, o) && put_in_line(o, p.written(byte), byte));
        }
    }
}

/// A byte is written where text goes on. See `byte_written`.
pub proof fn law_byte_is_put_where_text_goes_on(
    writer: &mut Writer,
    screen: &mut [u16],
    byte: u8,
)
    requires
        old(writer).page(old(screen)@).wf(),
        call_ensures(Writer::write_byte, (writer, screen, byte), ()),
    ensures
        byte_written(
            old(writer).page(old(screen)@),
            final(writer).page(final(screen)@),
            byte,
        ),
{
    let p = old(writer).page(old(screen)@);
    assert(final(writer).page(final(screen)@) == p.written(byte));
    lemma_written(p, byte);
}

/// What is shown of a byte of a text: itself, if it is a line feed or one of the
/// characters from the space to the tilde, and the mark 0xFE otherwise.
pub open spec fn mark(b: u8) -> u8 {
    if b == 0x0A || 0x20 <= b <= 0x7E {
        b
    } else {
        0xFE
    }
}

/// A text is written byte by byte, in its order, each where text then goes on: `steps`
/// are the pages in between.
pub open spec fn text_goes(p: Page, q: Page, t: Seq<u8>, steps: Seq<Page>) -> bool {
    &&& steps.len() == t.len() + 1
    &&& steps[0] == p
    &&& steps[t.len() as int] == q
    &&& forall|k: int|
        0 <= k < t.len() ==> byte_written(#[trigger] steps[k], steps[k + 1], mark(t[k]))
}

proof fn lemma_text(p: Page, t: Seq<u8>, n: int)
    requires
        p.wf(),
        0 <= n <= t.len(),
    ensures
        p.text_written(t, n).wf(),
        n > 0 ==> byte_written(p.text_written(t, n - 1), p.text_written(t, n), mark(t[n - 1])),
    decreases n,
{
    if n > 0 {
        lemma_text(p, t, n - 1);
        lemma_written(p.text_written(t, n - 1), vga::visible(t[n - 1]));
    }
}

/// The pages while a text is written.
pub proof fn lemma_text_goes(p: Page, t: Seq<u8>)
    requires
        p.wf(),
    ensures
        exists|steps: Seq<Page>| #[trigger]
            text_goes(p, p.text_written(t, t.len() as int), t, steps),
{
    let q = p.text_written(t, t.len() as int);
    let steps = Seq::new(t.len() + 1, |k: int| p.text_written(t, k));
    assert forall|k: int| 0 <= k < t.len() implies byte_written(
        #[trigger] steps[k],
        steps[k + 1],
        mark(t[k]),
    ) by {
        lemma_text(p, t, k + 1);
    }
    assert(text_goes(p, q, t, steps));
}

/// A text is written byte by byte. See `text_goes`.
pub proof fn law_text_is_written_byte_by_byte(writer: &mut Writer, screen: &mut [u16], s: &str)
    requires
        call_ensures(Writer::write_string, (writer, screen, s), ()),
    ensures
        exists|steps: Seq<Page>| #[trigger]
            text_goes(
                old(writer).page(old(screen)@),
                final(writer).page(final(screen)@),
                s.spec_bytes(),
                steps,
            ),
{
    let t = s.spec_bytes();
    let p = old(writer).page(old(screen)@);
    let q = final(writer).page(final(screen)@);
    assert(q == p.text_written(t, t.len() as int));
    lemma_text_goes(p, t);
}

/// A text without a line feed that fits in the line stands there from the place on where
/// text went on, and no other cell changes.
pub proof fn law_short_text_stands_in_its_line(writer: &mut Writer, screen: &mut [u16], s: &str)
    requires
        old(writer).page(old(screen)@).col + s.spec_bytes().len() <= 80,
        forall|i: int|
            0 <= i < s.spec_bytes().len() ==> #[trigger] s.spec_bytes()[i] != 0x0A,
        call_ensures(Writer::write_string, (writer, screen, s), ()),
    ensures
        ({
            let p = old(writer).page(old(screen)@);
            let at = p.row * 80 + p.col;
            let n = s.spec_bytes().len();
            &&& final(writer).page(final(screen)@).row == p.row
            &&& final(writer).page(final(screen)@).col == p.col + n
            &&& forall|i: int|
                0 <= i < n ==> cell_is(
                    final(screen)@[at + i],
                    mark(#[trigger] s.spec_bytes()[i]),
                    p.color,
                )
            &&& forall|i: int|
                0 <= i < 2000 && !(at <= i < at + n) ==> #[trigger] final(screen)@[i] == old(screen)@[i]
        }),
{
    let t = s.spec_bytes();
    let n = t.len() as int;
    let p = old(writer).page(old(screen)@);
    let q = final(writer).page(final(screen)@);
    let at = p.row * 80 + p.col;
    assert(q == p.text_written(t, n));
    vga::law_text_is_shown_in_its_line(p, t, n);
    assert forall|i: int| 0 <= i < n implies cell_is(
        final(screen)@[at + i],
        mark(#[trigger] t[i]),
        p.color,
    ) by {
        assert(q.cells[at + i] == vga::cell(vga::visible(t[i]), p.color));
    }
}

/// A screen that is cleared is blank everywhere, and text goes on at the top, in the same
/// colours.
pub proof fn law_cleared_screen_is_blank(writer: &mut Writer, screen: &mut [u16])
    requires
        call_ensures(vga::clear_screen, (writer, screen), ()),
    ensures
        final(screen)@.len() == 2000,
        forall|i: int|
            0 <= i < 2000 ==> cell_is(
                #[trigger] final(screen)@[i],
                0x20,
                old(writer).in_color(),
            ),
        final(writer).at_row() == 0,
        final(writer).at_col() == 0,
        final(writer).in_color() == old(writer).in_color(),
{
    let p = old(writer).page(old(screen)@);
    let q = final(writer).page(final(screen)@);
    assert(q == p.cleared());
    assert(q.cells == final(screen)@);
    assert(q.color == final(writer).in_color());
}

/// Text starts at the top, in light green (10) on black (0). The colours of a cell are the
/// background in the upper half of the byte and the text in the lower one.
pub proof fn law_text_starts_in_green(writer: Writer, fg: Color, bg: Color, a: u8, b: u8, c: ColorCode)
    requires
        call_ensures(Writer::new, (), writer),
        call_ensures(Color::number, (fg,), a),
        call_ensures(Color::number, (bg,), b),
        call_ensures(ColorCode::new, (fg, bg), c),
    ensures
        writer.at_row() == 0,
        writer.at_col() == 0,
        writer.in_color() == 10,
        c.0 == 16 * b + a,
        a < 16,
        fg == Color::Black <==> a == 0,
        fg == Color::Red <==> a == 4,
        fg == Color::LightGray <==> a == 7,
        fg == Color::LightGreen <==> a == 10,
        fg == Color::Yellow <==> a == 14,
        fg == Color::White <==> a == 15,
        fg != bg ==> a != b,
{
}

/// What some decimal digits are worth.
pub open spec fn worth(s: Seq<u8>) -> int
    decreases s.len(),
{
    if s.len() == 0 {
        0
    } else {
        10 * worth(s.drop_last()) + s.last() - 0x30
    }
}

/// A text is a number in decimal digits: there is no 0 in front, unless it is the only
/// digit.
pub open spec fn is_number(s: Seq<u8>, n: int) -> bool {
    &&& s.len() > 0
    &&& forall|i: int| 0 <= i < s.len() ==> 0x30 <= #[trigger] s[i] <= 0x39
    &&& s.len() > 1 ==> s[0] != 0x30
    &&& worth(s) == n
}

proof fn lemma_worth(s: Seq<u8>)
    ensures
        worth(s) == text::value_of(s),
    decreases s.len(),
{
    if s.len() > 0 {
        lemma_worth(s.drop_last());
    }
}

pub proof fn lemma_is_number(n: nat)
    ensures
        is_number(text::decimal(n), n as int),
    decreases n,
{
    text::law_digits_have_the_value(n);
    lemma_worth(text::decimal(n));
    if n == 0 {
        assert(text::decimal(0).len() == 1);
    }
}

/// A number is written in its decimal digits.
pub proof fn law_number_is_written_in_digits(n: u64, r: Vec<u8>)
    requires
        call_ensures(text::digits, (n,), r),
    ensures
        is_number(r@, n as int),
{
    lemma_is_number(n as nat);
}

/// A resolution is written as the width, an "x" and the height, of which the first 20
/// bytes are kept.
pub proof fn law_resolution_is_width_and_height(w: u32, h: u32, buf: &mut [u8; 20], r: &str)
    requires
        call_ensures(text::format_resolution, (w, h, buf), r),
    ensures
        exists|a: Seq<u8>, b: Seq<u8>|
            {
                let all = a + seq![0x78u8] + b;
                &&& #[trigger] is_number(a, w as int)
                &&& #[trigger] is_number(b, h as int)
                &&& r.spec_bytes() == (if all.len() <= 20 {
                    all
                } else {
                    all.subrange(0, 20)
                })
            },
{
    lemma_is_number(w as nat);
    lemma_is_number(h as nat);
    let a = text::decimal(w as nat);
    let b = text::decimal(h as nat);
    assert(is_number(a, w as int) && is_number(b, h as int));
}

/// The digits of a number are written from the given place on, as far as the 20 bytes
/// reach, and nothing else changes. Where they end is told.
pub proof fn law_digits_are_put_in_their_place(
    val: u32,
    buf: &mut [u8; 20],
    start: usize,
    r: usize,
)
    requires
        call_ensures(text::write_u32_to_buf, (val, buf, start), r),
    ensures
        exists|a: Seq<u8>|
            {
                &&& #[trigger] is_number(a, val as int)
                &&& forall|i: int|
                    0 <= i < 20 ==> #[trigger] final(buf)@[i] == (if start <= i < start + a.len() {
                        a[i - start]
                    } else {
                        old(buf)@[i]
                    })
                &&& start + a.len() <= 20 ==> r == start + a.len()
            },
{
    lemma_is_number(val as nat);
    let a = text::decimal(val as nat);
    assert(is_number(a, val as int));
    assert(final(buf)@ == crate::memory::ram::patched(old(buf)@, start as int, a));
}

} // verus!
