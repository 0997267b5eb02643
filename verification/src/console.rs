//! VGA text-mode console: an 80x25 grid of character cells with a cursor.

use vstd::prelude::*;
use vstd::string::StringSliceAdditionalSpecFns;
use crate::port::PortOp;

verus! {

/// Columns of the grid.
pub const BUFFER_WIDTH: usize = 80;

/// Rows of the grid.
pub const BUFFER_HEIGHT: usize = 25;

/// Cells of the grid.
pub const BUFFER_SIZE: usize = 2000;

/// CRT controller register that selects what the data register addresses.
pub const CRT_INDEX: u16 = 0x03D4;

/// CRT controller data register.
pub const CRT_DATA: u16 = 0x03D5;

/// The sixteen entries of the text-mode palette.
#[derive(Clone, Copy, Debug, PartialEq, Eq, Structural)]
pub enum Color {
    Black,
    Blue,
    Green,
    Cyan,
    Red,
    Magenta,
    Brown,
    LightGray,
    DarkGray,
    LightBlue,
    LightGreen,
    LightCyan,
    LightRed,
    LightMagenta,
    Yellow,
    White,
}

impl Color {
    /// Position of the color in the palette.
    pub open spec fn index(self) -> u8 {
        match self {
            Color::Black => 0,
            Color::Blue => 1,
            Color::Green => 2,
            Color::Cyan => 3,
            Color::Red => 4,
            Color::Magenta => 5,
            Color::Brown => 6,
            Color::LightGray => 7,
            Color::DarkGray => 8,
            Color::LightBlue => 9,
            Color::LightGreen => 10,
            Color::LightCyan => 11,
            Color::LightRed => 12,
            Color::LightMagenta => 13,
            Color::Yellow => 14,
            Color::White => 15,
        }
    }

    /// Position of the color in the palette, always below 16.
    pub fn code(self) -> (r: u8)
        ensures
            r == self.index(),
            r < 16,
    {
        match self {
            Color::Black => 0,
            Color::Blue => 1,
            Color::Green => 2,
            Color::Cyan => 3,
            Color::Red => 4,
            Color::Magenta => 5,
            Color::Brown => 6,
            Color::LightGray => 7,
            Color::DarkGray => 8,
            Color::LightBlue => 9,
            Color::LightGreen => 10,
            Color::LightCyan => 11,
            Color::LightRed => 12,
            Color::LightMagenta => 13,
            Color::Yellow => 14,
            Color::White => 15,
        }
    }
}

/// Two palette indices packed into one byte: the first in the high four bits,
/// the second in the low four.
#[derive(Clone, Copy, Debug, PartialEq, Eq, Structural)]
pub struct CompositeColor(pub u8);

impl CompositeColor {
    /// Packs two colors into one byte.
    pub fn new(fc: Color, bc: Color) -> (r: CompositeColor)
        ensures
            r.0 == fc.index() * 16 + bc.index(),
    {
        let f: u8 = fc.code();
        let b: u8 = bc.code();
        assert(f < 16 && b < 16 ==> (f << 4 | b) == f * 16 + b) by (bit_vector);
        CompositeColor(f << 4 | b)
    }
}

/// One screen position: a byte and the color it is shown in.
#[derive(Clone, Copy, Debug, PartialEq, Eq, Structural)]
pub struct CharacterCell {
    pub chr: u8,
    pub color: CompositeColor,
}

impl CharacterCell {
    /// A cell showing `chr` in `color`.
    pub fn new(chr: u8, color: CompositeColor) -> (r: CharacterCell)
        ensures
            r == (CharacterCell { chr, color }),
    {
        CharacterCell { chr, color }
    }
}

/// The four port writes that move the hardware cursor to the cell at linear
/// offset `off`: high byte through register 0x0E, low byte through 0x0F.
pub open spec fn cursor_ops(off: int) -> Seq<PortOp> {
    seq![
        PortOp::Write { port: CRT_INDEX, value: 0x0E },
        PortOp::Write { port: CRT_DATA, value: ((off / 256) % 256) as u8 },
        PortOp::Write { port: CRT_INDEX, value: 0x0F },
        PortOp::Write { port: CRT_DATA, value: (off % 256) as u8 },
    ]
}

/// A blank grid in `color`, the cursor at the top left, no port operation
/// issued.
pub open spec fn blank_screen(color: CompositeColor) -> Screen {
    Screen {
        x: 0,
        y: 0,
        color,
        cells: Seq::new(2000, |i: int| CharacterCell { chr: 0x20, color }),
        ports: Seq::empty(),
    }
}

/// A byte that is stored in a cell: any but backspace, tab, newline and
/// carriage return.
pub open spec fn printable(b: u8) -> bool {
    b != 8 && b != 9 && b != 10 && b != 13
}

/// `n` newline bytes.
pub open spec fn newlines(n: nat) -> Seq<u8> {
    Seq::new(n, |i: int| 10u8)
}

/// What a console is: cursor, current color, the grid row by row, and the
/// port operations issued so far.
pub struct Screen {
    pub x: int,
    pub y: int,
    pub color: CompositeColor,
    pub cells: Seq<CharacterCell>,
    pub ports: Seq<PortOp>,
}

impl Screen {
    /// The cursor is on the grid (the column may stand just past the last
    /// one) and the grid is complete.
    pub open spec fn wf(self) -> bool {
        &&& 0 <= self.x <= 80
        &&& 0 <= self.y < 25
        &&& self.cells.len() == 2000
    }

    /// A space in the current color.
    pub open spec fn blank(self) -> CharacterCell {
        CharacterCell { chr: 0x20, color: self.color }
    }

    /// Linear offset of the cursor.
    pub open spec fn cursor(self) -> int {
        self.y * 80 + self.x
    }

    /// Every row moved up by one, the last row blank.
    pub open spec fn scrolled(self) -> Screen {
        Screen {
            cells: Seq::new(
                2000,
                |i: int|
                    if i < 1920 {
                        self.cells[i + 80]
                    } else {
                        self.blank()
                    },
            ),
            ..self
        }
    }

    /// Every cell blank, the cursor at the top left.
    pub open spec fn cleared(self) -> Screen {
        Screen { x: 0, y: 0, cells: Seq::new(2000, |i: int| self.blank()), ..self }.synced()
    }

    /// Cursor to the start of the next row; on the last row the grid scrolls.
    pub open spec fn line_fed(self) -> Screen {
        if self.y < 24 {
            Screen { x: 0, y: self.y + 1, ..self }
        } else {
            Screen { x: 0, ..self.scrolled() }
        }
    }

    /// The hardware cursor brought to where the logical cursor is.
    pub open spec fn synced(self) -> Screen {
        Screen { ports: self.ports + cursor_ops(self.cursor()), ..self }
    }

    /// An ordinary byte stored at the cursor, after a wrap if the row is full.
    pub open spec fn printed(self, b: u8) -> Screen {
        let s = if self.x >= 80 {
            self.line_fed()
        } else {
            self
        };
        Screen {
            cells: s.cells.update(s.cursor(), CharacterCell { chr: b, color: s.color }),
            x: s.x + 1,
            ..s
        }
    }

    /// Backspace: nothing on the first row; elsewhere the cell at the cursor
    /// goes blank (where the cursor stands on a cell of the grid) and the
    /// cursor moves one cell left, to the end of the row above from column 0.
    pub open spec fn erased(self) -> Screen {
        if self.y == 0 {
            self
        } else {
            Screen {
                cells: if self.cursor() < 2000 {
                    self.cells.update(self.cursor(), self.blank())
                } else {
                    self.cells
                },
                x: if self.x == 0 {
                    79
                } else {
                    self.x - 1
                },
                y: if self.x == 0 {
                    self.y - 1
                } else {
                    self.y
                },
                ..self
            }
        }
    }

    /// `n` spaces written one after the other, each followed by a cursor sync.
    pub open spec fn spaced(self, n: nat) -> Screen
        decreases n,
    {
        if n == 0 {
            self
        } else {
            self.printed(0x20).synced().spaced((n - 1) as nat)
        }
    }

    /// Tab: spaces up to the next column that is a multiple of 4.
    pub open spec fn tabbed(self) -> Screen {
        self.spaced((4 - self.x % 4) as nat)
    }

    /// The console after one byte was written to it.
    pub open spec fn stepped(self, b: u8) -> Screen {
        (if b == 13 {
            Screen { x: 0, ..self }
        } else if b == 10 {
            self.line_fed()
        } else if b == 9 {
            self.tabbed()
        } else if b == 8 {
            self.erased()
        } else {
            self.printed(b)
        }).synced()
    }

    /// The console after the bytes were written to it, first to last.
    pub open spec fn fed(self, bytes: Seq<u8>) -> Screen
        decreases bytes.len(),
    {
        if bytes.len() == 0 {
            self
        } else {
            self.fed(bytes.drop_last()).stepped(bytes.last())
        }
    }
}

/// The console: cursor, color, grid, and the port operations not yet handed
/// to the hardware.
pub struct TextWriter {
    x: usize,
    y: usize,
    color: CompositeColor,
    buffer: Vec<CharacterCell>,
    ports: Vec<PortOp>,
}

impl View for TextWriter {
    type V = Screen;

    closed spec fn view(&self) -> Screen {
        Screen {
            x: self.x as int,
            y: self.y as int,
            color: self.color,
            cells: self.buffer@,
            ports: self.ports@,
        }
    }
}

impl TextWriter {
    /// The invariant of a console.
    pub open spec fn wf(&self) -> bool {
        self@.wf()
    }

    /// A blank console in `color` with the cursor at the top left. Nothing is
    /// asked of the hardware yet.
    pub fn new(color: CompositeColor) -> (w: TextWriter)
        ensures
            w.wf(),
            w@ == blank_screen(color),
    {
        let chr = CharacterCell::new(0x20, color);
        let mut buffer: Vec<CharacterCell> = Vec::new();
        let mut i: usize = 0;
        while i < BUFFER_SIZE
            invariant
                i <= BUFFER_SIZE,
                buffer@.len() == i,
                forall|j: int| 0 <= j < i ==> buffer@[j] == chr,
            decreases BUFFER_SIZE - i,
        {
            buffer.push(chr);
            i += 1;
        }
        let w = TextWriter { x: 0, y: 0, color, buffer, ports: Vec::new() };
        assert(w@.cells =~= blank_screen(color).cells);
        assert(w@.ports =~= blank_screen(color).ports);
        w
    }

    /// Linear offset of the cell at column `x` of row `y`.
    pub fn offset(x: usize, y: usize) -> (r: usize)
        requires
            y * 80 + x <= usize::MAX,
        ensures
            r == y * 80 + x,
    {
        y * BUFFER_WIDTH + x
    }

    /// Asks for the hardware cursor to be moved to the logical cursor.
    pub fn relocate_cursor(&mut self)
        requires
            old(self).wf(),
        ensures
            final(self).wf(),
            final(self)@ == old(self)@.synced(),
    {
        let off: usize = TextWriter::offset(self.x, self.y);
        assert(off <= 2000 ==> (off >> 8) < 256 && (off >> 8) == (off / 256) % 256 && (off & 0xFF)
            == off % 256) by (bit_vector);
        let hi: u8 = (off >> 8) as u8;
        let lo: u8 = (off & 0xFF) as u8;
        self.ports.push(PortOp::Write { port: CRT_INDEX, value: 0x0E });
        self.ports.push(PortOp::Write { port: CRT_DATA, value: hi });
        self.ports.push(PortOp::Write { port: CRT_INDEX, value: 0x0F });
        self.ports.push(PortOp::Write { port: CRT_DATA, value: lo });
        assert(self@.ports =~= old(self)@.ports + cursor_ops(old(self)@.cursor()));
    }

    /// Moves every row up by one and blanks the last.
    pub fn scroll(&mut self)
        requires
            old(self).wf(),
        ensures
            final(self).wf(),
            final(self)@ == old(self)@.scrolled(),
    {
        let chr = CharacterCell::new(0x20, self.color);
        let mut off: usize = 0;
        while off < BUFFER_SIZE
            invariant
                off <= BUFFER_SIZE,
                self.x == old(self).x,
                self.y == old(self).y,
                self.color == old(self).color,
                self.ports == old(self).ports,
                chr == old(self)@.blank(),
                self.buffer@.len() == 2000,
                old(self).buffer@.len() == 2000,
                forall|j: int| 0 <= j < off ==> self.buffer@[j] == old(self)@.scrolled().cells[j],
                forall|j: int| off <= j < 2000 ==> self.buffer@[j] == old(self).buffer@[j],
            decreases BUFFER_SIZE - off,
        {
            if off < BUFFER_SIZE - BUFFER_WIDTH {
                let below = self.buffer[off + BUFFER_WIDTH];
                self.buffer.set(off, below);
            } else {
                self.buffer.set(off, chr);
            }
            off += 1;
        }
        assert(self@.cells =~= old(self)@.scrolled().cells);
    }

    /// Begins a new line.
    pub fn newline(&mut self)
        requires
            old(self).wf(),
        ensures
            final(self).wf(),
            final(self)@ == old(self)@.line_fed(),
    {
        self.x = 0;
        if self.y < BUFFER_HEIGHT - 1 {
            self.y += 1;
        } else {
            self.scroll();
        }
    }

    /// Blanks the grid and brings the cursor to the top left.
    pub fn clear(&mut self)
        requires
            old(self).wf(),
        ensures
            final(self).wf(),
            final(self)@ == old(self)@.cleared(),
    {
        self.x = 0;
        self.y = 0;
        let chr = CharacterCell::new(0x20, self.color);
        let mut off: usize = 0;
        while off < BUFFER_SIZE
            invariant
                off <= BUFFER_SIZE,
                self.x == 0,
                self.y == 0,
                self.color == old(self).color,
                self.ports == old(self).ports,
                chr == old(self)@.blank(),
                self.buffer@.len() == 2000,
                forall|j: int| 0 <= j < off ==> self.buffer@[j] == chr,
            decreases BUFFER_SIZE - off,
        {
            self.buffer.set(off, chr);
            off += 1;
        }
        assert(self@.cells =~= Seq::new(2000, |i: int| old(self)@.blank()));
        self.relocate_cursor();
    }

    /// Writes one byte: carriage return, newline, tab and backspace move the
    /// cursor as a terminal does, any other byte is stored at the cursor.
    pub fn write_byte(&mut self, byte: u8)
        requires
            old(self).wf(),
        ensures
            final(self).wf(),
            final(self)@ == old(self)@.stepped(byte),
        decreases
                (if byte == 9u8 {
                    1nat
                } else {
                    0nat
                }),
    {
        if byte == 13 {
            self.x = 0;
        } else if byte == 10 {
            self.newline();
        } else if byte == 9 {
            let n: usize = 4 - self.x % 4;
            let mut i: usize = 0;
            while i < n
                invariant
                    byte == 9,
                    i <= n,
                    self.wf(),
                    self@.spaced((n - i) as nat) == old(self)@.tabbed(),
                decreases n - i,
            {
                self.write_byte(0x20);
                i += 1;
            }
        } else if byte == 8 {
            let chr = CharacterCell::new(0x20, self.color);
            let off: usize = TextWriter::offset(self.x, self.y);
            if self.y != 0 {
                if off < BUFFER_SIZE {
                    self.buffer.set(off, chr);
                }
                if self.x == 0 {
                    self.y -= 1;
                    self.x = BUFFER_WIDTH - 1;
                } else {
                    self.x -= 1;
                }
            }
        } else {
            if self.x >= BUFFER_WIDTH {
                self.newline();
            }
            let chr = CharacterCell::new(byte, self.color);
            let off: usize = TextWriter::offset(self.x, self.y);
            self.buffer.set(off, chr);
            self.x += 1;
        }
        self.relocate_cursor();
    }

    /// Writes the bytes of `string`, first to last.
    pub fn write_str(&mut self, string: &str)
        requires
            old(self).wf(),
        ensures
            final(self).wf(),
            final(self)@ == old(self)@.fed(string.spec_bytes()),
    {
        let bytes = string.as_bytes();
        let mut i: usize = 0;
        while i < bytes.len()
            invariant
                i <= bytes@.len(),
                self.wf(),
                self@ == old(self)@.fed(bytes@.take(i as int)),
            decreases bytes@.len() - i,
        {
            assert(bytes@.take(i + 1).drop_last() =~= bytes@.take(i as int));
            self.write_byte(bytes[i]);
            i += 1;
        }
        assert(bytes@.take(i as int) =~= bytes@);
    }

    /// Whether the console meets its invariant, for callers that have no
    /// proof of it.
    pub fn in_order(&self) -> (ok: bool)
        ensures
            ok == self.wf(),
    {
        self.x <= BUFFER_WIDTH && self.y < BUFFER_HEIGHT && self.buffer.len() == BUFFER_SIZE
    }

    /// Column of the cursor.
    pub fn column(&self) -> (x: usize)
        ensures
            x == self@.x,
    {
        self.x
    }

    /// Row of the cursor.
    pub fn row(&self) -> (y: usize)
        ensures
            y == self@.y,
    {
        self.y
    }

    /// The cell at column `x` of row `y`, if the grid has one there.
    pub fn cell_at(&self, x: usize, y: usize) -> (c: Option<CharacterCell>)
        requires
            self.wf(),
        ensures
            c == if x < 80 && y < 25 {
                Some(self@.cells[y * 80 + x])
            } else {
                None
            },
    {
        if x < BUFFER_WIDTH && y < BUFFER_HEIGHT {
            Some(self.buffer[TextWriter::offset(x, y)])
        } else {
            None
        }
    }

    /// Hands over the port operations issued since the last call, in order,
    /// for the hardware to receive them.
    pub fn take_port_ops(&mut self) -> (ops: Vec<PortOp>)
        ensures
            ops@ == old(self)@.ports,
            final(self)@ == (Screen { ports: Seq::empty(), ..old(self)@ }),
    {
        let mut ops: Vec<PortOp> = Vec::new();
        std::mem::swap(&mut ops, &mut self.ports);
        ops
    }
}

/// Printable bytes that fit in the rest of the row fill it from the cursor
/// on, in order, and change nothing else of the grid; the cursor ends behind
/// the last of them, on the same row.
pub proof fn lemma_row_filled(s: Screen, bytes: Seq<u8>)
    requires
        s.wf(),
        s.x + bytes.len() <= 80,
        forall|i: int| 0 <= i < bytes.len() ==> printable(#[trigger] bytes[i]),
    ensures
        s.fed(bytes).wf(),
        s.fed(bytes).x == s.x + bytes.len(),
        s.fed(bytes).y == s.y,
        s.fed(bytes).color == s.color,
        forall|i: int|
            0 <= i < bytes.len() ==> #[trigger] s.fed(bytes).cells[s.cursor() + i] == (
            CharacterCell { chr: bytes[i], color: s.color }),
        forall|j: int|
            0 <= j < 2000 && !(s.cursor() <= j < s.cursor() + bytes.len()) ==> #[trigger] s.fed(
                bytes,
            ).cells[j] == s.cells[j],
    decreases bytes.len(),
{
    if bytes.len() > 0 {
        let front = bytes.drop_last();
        lemma_row_filled(s, front);
        let t = s.fed(front);
        assert(printable(bytes[bytes.len() - 1]));
        assert(s.fed(bytes) == t.stepped(bytes.last()));
        assert forall|i: int| 0 <= i < bytes.len() implies #[trigger] s.fed(bytes).cells[s.cursor()
            + i] == (CharacterCell { chr: bytes[i], color: s.color }) by {
            if i < front.len() {
                assert(t.cells[s.cursor() + i] == (CharacterCell { chr: front[i], color: s.color }));
            }
        }
    }
}

/// A full row wraps: after 80 printable bytes from column 0 the cursor stands
/// past the last column of the same row, and one more printable byte is
/// stored in column 0 of the row below (of the last row, after a scroll),
/// leaving the cursor in column 1 of that row.
pub proof fn lemma_full_row_wraps(s: Screen, bytes: Seq<u8>, b: u8)
    requires
        s.wf(),
        s.x == 0,
        bytes.len() == 80,
        forall|i: int| 0 <= i < bytes.len() ==> printable(#[trigger] bytes[i]),
        printable(b),
    ensures
        s.fed(bytes).x == 80,
        s.fed(bytes).y == s.y,
        s.fed(bytes.push(b)).x == 1,
        s.fed(bytes.push(b)).y == (if s.y < 24 {
            s.y + 1
        } else {
            24
        }),
        s.fed(bytes.push(b)).cells[s.fed(bytes.push(b)).y * 80] == (CharacterCell {
            chr: b,
            color: s.color,
        }),
{
    lemma_row_filled(s, bytes);
    assert(bytes.push(b).drop_last() =~= bytes);
    assert(bytes.push(b).last() == b);
}

/// Newlines move the cursor down to the last row and then scroll: after `n`
/// of them the grid has moved up by as many rows as did not fit, and what
/// came in from below is blank.
pub proof fn lemma_newlines_scroll(s: Screen, n: nat)
    requires
        s.wf(),
    ensures
        s.fed(newlines(n)).wf(),
        s.fed(newlines(n)).color == s.color,
        n > 0 ==> s.fed(newlines(n)).x == 0,
        s.fed(newlines(n)).y == (if s.y + n <= 24 {
            s.y + n
        } else {
            24
        }),
        forall|i: int|
            0 <= i < 2000 ==> #[trigger] s.fed(newlines(n)).cells[i] == (if s.y + n <= 24 {
                s.cells[i]
            } else if i + 80 * (s.y + n - 24) < 2000 {
                s.cells[i + 80 * (s.y + n - 24)]
            } else {
                s.blank()
            }),
    decreases n,
{
    if n > 0 {
        let m = (n - 1) as nat;
        lemma_newlines_scroll(s, m);
        assert(newlines(n).drop_last() =~= newlines(m));
        assert(newlines(n).last() == 10u8);
        let t = s.fed(newlines(m));
        assert(s.fed(newlines(n)) == t.stepped(10));
    }
}

/// Newlines blank the screen: after at least 49 of them, so after as many as
/// the grid has cells, every cell is blank and the cursor stands at the start
/// of the last row.
pub proof fn lemma_newlines_blank(s: Screen, n: nat)
    requires
        s.wf(),
        n >= 49,
    ensures
        s.fed(newlines(n)).x == 0,
        s.fed(newlines(n)).y == 24,
        forall|i: int| 0 <= i < 2000 ==> #[trigger] s.fed(newlines(n)).cells[i] == s.blank(),
{
    lemma_newlines_scroll(s, n);
}

/// A tab moves the cursor to the next column that is a multiple of 4, on the
/// same row; from past the last column the spaces wrap and end in column 4.
pub proof fn lemma_tab_rounds(s: Screen)
    requires
        s.wf(),
    ensures
        s.stepped(9).wf(),
        s.x < 80 ==> s.stepped(9).x == (s.x / 4 + 1) * 4 && s.stepped(9).y == s.y,
        s.x == 80 ==> s.stepped(9).x == 4,
{
    reveal_with_fuel(Screen::spaced, 5);
}

/// Backspace on the first row changes neither cursor nor grid; in column 0 of
/// a lower row it moves the cursor to the last column of the row above.
pub proof fn lemma_backspace_boundary(s: Screen)
    requires
        s.wf(),
    ensures
        s.stepped(8).wf(),
        s.y == 0 ==> s.stepped(8).x == s.x && s.stepped(8).y == 0 && s.stepped(8).cells == s.cells,
        s.y > 0 && s.x == 0 ==> s.stepped(8).x == 79 && s.stepped(8).y == s.y - 1,
        s.y > 0 && s.x > 0 ==> s.stepped(8).x == s.x - 1 && s.stepped(8).y == s.y,
{
}

} // verus!
