//! The VGA console as a device.

use vstd::prelude::*;
use crate::console::{blank_screen, CharacterCell, CompositeColor, Screen, TextWriter};
use crate::device::{DeviceInfo, DeviceWrite};
use crate::port::PortOp;

verus! {

/// The address of the framebuffer in memory.
pub const VGA_PTR: usize = 0xB8000;

/// Color of a new terminal: dark gray on black.
pub const VGA_COLOR: u8 = 0x80;

/// The framebuffer word of a cell: color in the high byte, character in the
/// low byte.
pub open spec fn word_of(cell: CharacterCell) -> u16 {
    (cell.color.0 * 256 + cell.chr) as u16
}

/// The console together with the address of the framebuffer that shows it.
pub struct TerminalDevice {
    ptr: usize,
    writer: TextWriter,
}

impl View for TerminalDevice {
    type V = Screen;

    closed spec fn view(&self) -> Screen {
        self.writer@
    }
}

impl TerminalDevice {
    /// The invariant of a terminal is that of its console.
    pub open spec fn wf(&self) -> bool {
        self@.wf()
    }

    /// The address of the framebuffer.
    pub closed spec fn spec_ptr(&self) -> usize {
        self.ptr
    }

    /// A cleared terminal for the framebuffer at `ptr`.
    pub fn new(ptr: usize) -> (t: TerminalDevice)
        ensures
            t.wf(),
            t.spec_ptr() == ptr,
            t@ == blank_screen(CompositeColor(VGA_COLOR)).cleared(),
    {
        let mut term = TerminalDevice { ptr, writer: TextWriter::new(CompositeColor(VGA_COLOR)) };
        term.clear();
        term
    }

    /// The address of the framebuffer.
    pub fn ptr(&self) -> (p: usize)
        ensures
            p == self.spec_ptr(),
    {
        self.ptr
    }

    /// Blanks the grid and brings the cursor to the top left.
    pub fn clear(&mut self)
        requires
            old(self).wf(),
        ensures
            final(self).wf(),
            final(self).spec_ptr() == old(self).spec_ptr(),
            final(self)@ == old(self)@.cleared(),
    {
        self.writer.clear();
    }

    /// Writes one byte to the console.
    pub fn write_byte(&mut self, byte: u8)
        requires
            old(self).wf(),
        ensures
            final(self).wf(),
            final(self).spec_ptr() == old(self).spec_ptr(),
            final(self)@ == old(self)@.stepped(byte),
    {
        self.writer.write_byte(byte);
    }

    /// Begins a new line.
    pub fn new_line(&mut self)
        requires
            old(self).wf(),
        ensures
            final(self).wf(),
            final(self).spec_ptr() == old(self).spec_ptr(),
            final(self)@ == old(self)@.line_fed(),
    {
        self.writer.newline();
    }

    /// Moves every row up by one and blanks the last.
    pub fn scroll(&mut self)
        requires
            old(self).wf(),
        ensures
            final(self).wf(),
            final(self).spec_ptr() == old(self).spec_ptr(),
            final(self)@ == old(self)@.scrolled(),
    {
        self.writer.scroll();
    }

    /// Asks for the hardware cursor to be moved to the logical cursor.
    pub fn update_physical_cursor(&mut self)
        requires
            old(self).wf(),
        ensures
            final(self).wf(),
            final(self).spec_ptr() == old(self).spec_ptr(),
            final(self)@ == old(self)@.synced(),
    {
        self.writer.relocate_cursor();
    }

    /// Whether the terminal meets its invariant, for callers that have no
    /// proof of it.
    pub fn in_order(&self) -> (ok: bool)
        ensures
            ok == self.wf(),
    {
        self.writer.in_order()
    }

    /// Column and row of the cursor.
    pub fn cursor(&self) -> (at: (usize, usize))
        ensures
            at.0 == self@.x,
            at.1 == self@.y,
    {
        (self.writer.column(), self.writer.row())
    }

    /// The grid as the framebuffer holds it: one word per cell, row by row.
    pub fn frame(&self) -> (words: Vec<u16>)
        requires
            self.wf(),
        ensures
            words@ == self@.cells.map_values(|c: CharacterCell| word_of(c)),
    {
        let mut words: Vec<u16> = Vec::new();
        let mut y: usize = 0;
        while y < 25
            invariant
                self.wf(),
                y <= 25,
                words@.len() == y * 80,
                forall|i: int| 0 <= i < words@.len() ==> words@[i] == word_of(self@.cells[i]),
            decreases 25 - y,
        {
            let mut x: usize = 0;
            while x < 80
                invariant
                    self.wf(),
                    y < 25,
                    x <= 80,
                    words@.len() == y * 80 + x,
                    forall|i: int| 0 <= i < words@.len() ==> words@[i] == word_of(self@.cells[i]),
                decreases 80 - x,
            {
                match self.writer.cell_at(x, y) {
                    Some(cell) => {
                        let hi: u16 = cell.color.0 as u16;
                        let lo: u16 = cell.chr as u16;
                        words.push(hi * 256 + lo);
                    },
                    None => {},
                }
                x += 1;
            }
            y += 1;
        }
        assert(words@ =~= self@.cells.map_values(|c: CharacterCell| word_of(c)));
        words
    }

    /// Hands over the port operations issued since the last call, in order,
    /// for the hardware to receive them.
    pub fn take_port_ops(&mut self) -> (ops: Vec<PortOp>)
        ensures
            ops@ == old(self)@.ports,
            final(self).spec_ptr() == old(self).spec_ptr(),
            final(self)@ == (Screen { ports: Seq::empty(), ..old(self)@ }),
    {
        self.writer.take_port_ops()
    }
}

impl DeviceWrite for TerminalDevice {
    type State = Screen;

    open spec fn state(&self) -> Screen {
        self@
    }

    open spec fn wf(&self) -> bool {
        self@.wf()
    }

    open spec fn step(s: Screen, b: u8) -> Screen {
        s.stepped(b)
    }

    fn write_byte(&mut self, _dev: &DeviceInfo, b: u8) {
        TerminalDevice::write_byte(self, b);
    }
}

} // verus!
