//! The text screen of 80 columns and 25 lines.
//!
//! A cell holds a character in its low byte and its colours in the high byte.

use vstd::prelude::*;
use vstd::string::*;

verus! {

pub const VGA_WIDTH: usize = 80;

pub const VGA_HEIGHT: usize = 25;

/// Cells of the screen.
pub const VGA_CELLS: usize = 2000;

/// Where the cells are in memory.
pub const VGA_BUFFER_ADDR: u64 = 0xb8000;

/// What stands for a character that cannot be shown.
pub const UNKNOWN_CHAR: u8 = 0xfe;

/// A colour.
#[derive(Debug, Clone, Copy, PartialEq, Eq, Structural)]
pub enum Color {
    Black,
    Blue,
    Green,
    Cyan,
    Red,
    Magenta,
    Brown,
    LightGray,
    DarkGray,
    LightBlue,
    LightGreen,
    LightCyan,
    LightRed,
    Pink,
    Yellow,
    White,
}

impl Color {
    /// The number of the colour.
    pub open spec fn code(self) -> u8 {
        match self {
            Color::Black => 0,
            Color::Blue => 1,
            Color::Green => 2,
            Color::Cyan => 3,
            Color::Red => 4,
            Color::Magenta => 5,
            Color::Brown => 6,
            Color::LightGray => 7,
            Color::DarkGray => 8,
            Color::LightBlue => 9,
            Color::LightGreen => 10,
            Color::LightCyan => 11,
            Color::LightRed => 12,
            Color::Pink => 13,
            Color::Yellow => 14,
            Color::White => 15,
        }
    }

    /// The number of the colour.
    pub fn number(self) -> (r: u8)
        ensures
            r == self.code(),
            r < 16,
    {
        match self {
            Color::Black => 0,
            Color::Blue => 1,
            Color::Green => 2,
            Color::Cyan => 3,
            Color::Red => 4,
            Color::Magenta => 5,
            Color::Brown => 6,
            Color::LightGray => 7,
            Color::DarkGray => 8,
            Color::LightBlue => 9,
            Color::LightGreen => 10,
            Color::LightCyan => 11,
            Color::LightRed => 12,
            Color::Pink => 13,
            Color::Yellow => 14,
            Color::White => 15,
        }
    }
}

/// The colours of a cell.
#[derive(Debug, Clone, Copy, PartialEq, Eq, Structural)]
pub struct ColorCode(pub u8);

impl ColorCode {
    /// A text colour on a background.
    pub fn new(fg: Color, bg: Color) -> (r: ColorCode)
        ensures
            r.0 == bg.code() * 16 + fg.code(),
    {
        ColorCode(bg.number() * 16 + fg.number())
    }
}

/// The screen with the place where text goes on.
#[verifier::ext_equal]
pub struct Page {
    pub cells: Seq<u16>,
    pub row: int,
    pub col: int,
    pub color: u8,
}

/// A cell with a character.
pub open spec fn cell(ch: u8, color: u8) -> u16 {
    (ch + color * 0x100) as u16
}

impl Page {
    /// A blank cell.
    pub open spec fn blank(self) -> u16 {
        cell(0x20, self.color)
    }

    /// Every cell is blank, and text goes on at the top.
    pub open spec fn cleared(self) -> Page {
        Page {
            cells: Seq::new(VGA_CELLS as nat, |i: int| self.blank()),
            row: 0,
            col: 0,
            color: self.color,
        }
    }

    /// The lines moved up by one, with a blank one at the bottom.
    pub open spec fn scrolled(self) -> Page {
        Page {
            cells: Seq::new(
                VGA_CELLS as nat,
                |i: int|
                    if i + VGA_WIDTH < VGA_CELLS {
                        self.cells[i + VGA_WIDTH]
                    } else {
                        self.blank()
                    },
            ),
            ..self
        }
    }

    /// Text goes on in the next line; at the bottom the lines move up.
    pub open spec fn next_line(self) -> Page {
        if self.row >= VGA_HEIGHT - 1 {
            Page { col: 0, ..self.scrolled() }
        } else {
            Page { row: self.row + 1, col: 0, ..self }
        }
    }

    /// A character written where text goes on, which is in the next line if the
    /// line is full.
    pub open spec fn shown(self, ch: u8) -> Page {
        let p = if self.col >= VGA_WIDTH {
            self.next_line()
        } else {
            self
        };
        Page {
            cells: p.cells.update(p.row * VGA_WIDTH + p.col, cell(ch, p.color)),
            col: p.col + 1,
            ..p
        }
    }

    /// A byte written: a line break, or a character.
    pub open spec fn written(self, byte: u8) -> Page {
        if byte == 0x0A {
            self.next_line()
        } else {
            self.shown(byte)
        }
    }

    /// The first `n` bytes of a text written, with a mark for every byte that is
    /// no character.
    pub open spec fn text_written(self, text: Seq<u8>, n: int) -> Page
        decreases n,
    {
        if n <= 0 {
            self
        } else {
            self.text_written(text, n - 1).written(visible(text[n - 1]))
        }
    }

    /// Text goes on at a place of the screen.
    pub open spec fn wf(self) -> bool {
        &&& self.cells.len() == VGA_CELLS
        &&& 0 <= self.row < VGA_HEIGHT
        &&& 0 <= self.col <= VGA_WIDTH
    }
}

/// Every cell is blank, in the given colours.
pub open spec fn all_blank(cells: Seq<u16>, color: u8) -> bool {
    cells == Seq::new(VGA_CELLS as nat, |i: int| cell(0x20, color))
}

/// A byte of a text as it is shown.
pub open spec fn visible(byte: u8) -> u8 {
    if 0x20 <= byte <= 0x7e || byte == 0x0A {
        byte
    } else {
        UNKNOWN_CHAR
    }
}

/// Writes text to the screen.
pub struct Writer {
    col: usize,
    row: usize,
    color: ColorCode,
}

impl Writer {
    #[verifier::type_invariant]
    spec fn on_screen(self) -> bool {
        self.col <= VGA_WIDTH && self.row < VGA_HEIGHT
    }

    /// The line where text goes on.
    pub closed spec fn at_row(&self) -> int {
        self.row as int
    }

    /// The column where text goes on.
    pub closed spec fn at_col(&self) -> int {
        self.col as int
    }

    /// The colours of the text.
    pub closed spec fn in_color(&self) -> u8 {
        self.color.0
    }

    /// The screen, when it holds the given cells.
    pub open spec fn page(&self, cells: Seq<u16>) -> Page {
        Page { cells, row: self.at_row(), col: self.at_col(), color: self.in_color() }
    }

    /// Starts at the top, in light green on black.
    pub fn new() -> (r: Writer)
        ensures
            r.at_row() == 0,
            r.at_col() == 0,
            r.in_color() == 10,
    {
        Writer { col: 0, row: 0, color: ColorCode::new(Color::LightGreen, Color::Black) }
    }

    /// A cell with a character in the colours of the text.
    fn cell_of(&self, ch: u8) -> (r: u16)
        ensures
            r == cell(ch, self.in_color()),
    {
        ch as u16 + self.color.0 as u16 * 0x100
    }

    /// Makes every cell blank, and goes on at the top.
    pub fn clear(&mut self, screen: &mut [u16])
        requires
            old(screen)@.len() == VGA_CELLS,
        ensures
            final(screen)@.len() == VGA_CELLS,
            final(self).page(final(screen)@) == old(self).page(old(screen)@).cleared(),
            final(self).page(final(screen)@).wf(),
    {
        proof {
            use_type_invariant(&*self);
        }
        let blank: u16 = self.cell_of(0x20);
        let mut i: usize = 0;
        while i < VGA_CELLS
            invariant
                i <= VGA_CELLS,
                screen@.len() == VGA_CELLS,
                forall|j: int| 0 <= j < i ==> screen@[j] == blank,
            decreases VGA_CELLS - i,
        {
            screen[i] = blank;
            i = i + 1;
        }
        self.col = 0;
        self.row = 0;
        assert(self.page(screen@) =~= old(self).page(old(screen)@).cleared());
    }

    /// Moves the lines up by one.
    fn scroll(&self, screen: &mut [u16])
        requires
            old(screen)@.len() == VGA_CELLS,
        ensures
            final(screen)@.len() == VGA_CELLS,
            self.page(final(screen)@) == self.page(old(screen)@).scrolled(),
    {
        let blank: u16 = self.cell_of(0x20);
        let mut i: usize = 0;
        while i < VGA_CELLS
            invariant
                i <= VGA_CELLS,
                screen@.len() == VGA_CELLS,
                old(screen)@.len() == VGA_CELLS,
                forall|j: int| i <= j < VGA_CELLS ==> screen@[j] == old(screen)@[j],
                forall|j: int|
                    0 <= j < i ==> screen@[j] == (if j + VGA_WIDTH < VGA_CELLS {
                        old(screen)@[j + VGA_WIDTH]
                    } else {
                        blank
                    }),
            decreases VGA_CELLS - i,
        {
            if i + VGA_WIDTH < VGA_CELLS {
                screen[i] = screen[i + VGA_WIDTH];
            } else {
                screen[i] = blank;
            }
            i = i + 1;
        }
        assert(self.page(screen@) =~= self.page(old(screen)@).scrolled());
    }

    /// Goes on in the next line.
    fn new_line(&mut self, screen: &mut [u16])
        requires
            old(screen)@.len() == VGA_CELLS,
        ensures
            final(screen)@.len() == VGA_CELLS,
            final(self).page(final(screen)@) == old(self).page(old(screen)@).next_line(),
    {
        proof {
            use_type_invariant(&*self);
        }
        if self.row >= VGA_HEIGHT - 1 {
            self.scroll(screen);
        } else {
            self.row = self.row + 1;
        }
        self.col = 0;
    }

    /// Writes a byte.
    pub fn write_byte(&mut self, screen: &mut [u16], byte: u8)
        requires
            old(screen)@.len() == VGA_CELLS,
        ensures
            final(screen)@.len() == VGA_CELLS,
            final(self).page(final(screen)@) == old(self).page(old(screen)@).written(byte),
            final(self).page(final(screen)@).wf(),
    {
        proof {
            use_type_invariant(&*self);
        }
        if byte == 0x0A {
            self.new_line(screen);
        } else {
            if self.col >= VGA_WIDTH {
                self.new_line(screen);
            }
            proof {
                use_type_invariant(&*self);
            }
            let at: usize = self.row * VGA_WIDTH + self.col;
            screen[at] = self.cell_of(byte);
            self.col = self.col + 1;
        }
    }

    /// Writes a text.
    pub fn write_string(&mut self, screen: &mut [u16], s: &str)
        requires
            old(screen)@.len() == VGA_CELLS,
        ensures
            old(self).page(old(screen)@).wf(),
            final(screen)@.len() == VGA_CELLS,
            final(self).page(final(screen)@) == old(self).page(old(screen)@).text_written(
                s.spec_bytes(),
                s.spec_bytes().len() as int,
            ),
            final(self).page(final(screen)@).wf(),
    {
        proof {
            use_type_invariant(&*self);
        }
        let text: &[u8] = s.as_bytes();
        let ghost p = self.page(screen@);
        let mut i: usize = 0;
        while i < text.len()
            invariant
                i <= text@.len(),
                screen@.len() == VGA_CELLS,
                self.page(screen@) == p.text_written(text@, i as int),
                self.page(screen@).wf(),
            decreases text@.len() - i,
        {
            let byte: u8 = text[i];
            if (byte >= 0x20 && byte <= 0x7e) || byte == 0x0A {
                self.write_byte(screen, byte);
            } else {
                self.write_byte(screen, UNKNOWN_CHAR);
            }
            i = i + 1;
        }
    }
}

/// Clears the screen.
pub fn clear_screen(writer: &mut Writer, screen: &mut [u16])
    requires
        old(screen)@.len() == VGA_CELLS,
    ensures
        final(screen)@.len() == VGA_CELLS,
        final(writer).page(final(screen)@) == old(writer).page(old(screen)@).cleared(),
{
    writer.clear(screen);
}

/// Text that is written stays on the screen, whatever it is.
pub proof fn law_text_stays_on_the_screen(p: Page, text: Seq<u8>, n: int)
    requires
        p.wf(),
        0 <= n <= text.len(),
    ensures
        p.text_written(text, n).wf(),
    decreases n,
{
    if n > 0 {
        law_text_stays_on_the_screen(p, text, n - 1);
    }
}

/// A text without line breaks that fits the rest of the line stands there, byte
/// for byte, and nothing else changes.
pub proof fn law_text_is_shown_in_its_line(p: Page, text: Seq<u8>, n: int)
    requires
        p.wf(),
        0 <= n <= text.len(),
        p.col + n <= VGA_WIDTH,
        forall|i: int| 0 <= i < n ==> text[i] != 0x0A,
    ensures
        ({
            let q = p.text_written(text, n);
            let at = p.row * VGA_WIDTH + p.col;
            &&& q.row == p.row
            &&& q.col == p.col + n
            &&& q.color == p.color
            &&& q.cells == Seq::new(
                VGA_CELLS as nat,
                |i: int|
                    if at <= i < at + n {
                        cell(visible(text[i - at]), p.color)
                    } else {
                        p.cells[i]
                    },
            )
        }),
    decreases n,
{
    let at = p.row * VGA_WIDTH + p.col;
    if n > 0 {
        law_text_is_shown_in_its_line(p, text, n - 1);
    }
    assert(p.text_written(text, n).cells =~= Seq::new(
        VGA_CELLS as nat,
        |i: int|
            if at <= i < at + n {
                cell(visible(text[i - at]), p.color)
            } else {
                p.cells[i]
            },
    ));
}

/// Once the last line is full, the oldest line goes and the others move up.
pub proof fn law_lines_move_up_at_the_bottom(p: Page, line: int, col: int)
    requires
        p.wf(),
        p.row == VGA_HEIGHT - 1,
        0 <= line < VGA_HEIGHT - 1,
        0 <= col < VGA_WIDTH,
    ensures
        p.next_line().cells[line * VGA_WIDTH + col] == p.cells[(line + 1) * VGA_WIDTH + col],
        p.next_line().cells[(VGA_HEIGHT - 1) * VGA_WIDTH + col] == p.blank(),
{
}

} // verus!
