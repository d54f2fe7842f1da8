//! VGA text mode (80x25): each screen cell is two bytes, ASCII character + color attribute.
//! The hardware reads this memory and draws characters.

use vstd::prelude::*;
use vstd::utf8::encode_utf8;

use crate::serial::{write_byte, write_bytes, SerialPort};

verus! {

/// Columns on the screen.
pub const COLUMNS: usize = 80;

/// Rows on the screen.
pub const ROWS: usize = 25;

/// Cells on the screen.
pub const CELLS: usize = 2000;

/// The screen memory: 80 columns by 25 rows, each cell is `[char, attribute]`.
pub struct VgaBuffer(pub [[u8; 2]; CELLS]);

/// Cursor position + color, plus a mutable handle to the screen memory. What the cells show when the
/// writer goes away is what the screen memory holds from then on: no write changes which memory the
/// writer stands for.
pub struct VgaWriter<'a> {
    pub col: usize,
    pub row: usize,
    /// High nibble = background, low nibble = foreground (e.g. `0x0F` = white on black).
    pub color: u8,
    pub buffer: &'a mut VgaBuffer,
}

/// A screen with a cursor.
#[verifier::ext_equal]
pub struct Screen {
    pub col: int,
    pub row: int,
    pub color: u8,
    pub cells: Seq<[u8; 2]>,
}

impl<'a> View for VgaWriter<'a> {
    type V = Screen;

    open spec fn view(&self) -> Screen {
        Screen {
            col: self.col as int,
            row: self.row as int,
            color: self.color,
            cells: (*self.buffer).0@,
        }
    }
}

impl Screen {
    pub open spec fn wf(self) -> bool {
        &&& 0 <= self.col <= COLUMNS
        &&& 0 <= self.row < ROWS
        &&& self.cells.len() == CELLS
    }

    /// The cursor at the start of the next row. The row after the last is the first: no scrolling.
    pub open spec fn next_row(self) -> Screen {
        Screen {
            col: 0,
            row: if self.row + 1 >= ROWS {
                0
            } else {
                self.row + 1
            },
            ..self
        }
    }

    /// A cell set at the cursor, which steps right.
    pub open spec fn put(self, byte: u8) -> Screen {
        Screen {
            col: self.col + 1,
            cells: self.cells.update(self.row * COLUMNS + self.col, [byte, self.color]),
            ..self
        }
    }

    /// One byte written: a newline moves the cursor, anything else fills a cell, in the next row
    /// where the current one is full.
    pub open spec fn wrote(self, byte: u8) -> Screen {
        if byte == 0x0a {
            self.next_row()
        } else if self.col >= COLUMNS {
            self.next_row().put(byte)
        } else {
            self.put(byte)
        }
    }
}

impl<'a> VgaWriter<'a> {
    pub fn new(buffer: &'a mut VgaBuffer) -> (w: VgaWriter<'a>)
        ensures
            w@ == (Screen { col: 0, row: 0, color: 0x0f, cells: old(buffer).0@ }),
            w@.wf(),
            *final(w.buffer) == *final(buffer),
    {
        VgaWriter { col: 0, row: 0, color: 0x0f, buffer }
    }

    fn new_line(&mut self)
        requires
            old(self)@.wf(),
        ensures
            final(self)@ == old(self)@.next_row(),
            final(self)@.wf(),
            *final(final(self).buffer) == *final(old(self).buffer),
    {
        self.col = 0;
        self.row = self.row + 1;
        if self.row >= ROWS {
            self.row = 0;
        }
    }

    /// Writes one byte at the current cursor; wraps at 80 columns or on `\n`.
    /// After row 24, the cursor wraps to row 0 (overwrites the top of the screen, no scroll).
    pub fn write_byte(&mut self, byte: u8)
        requires
            old(self)@.wf(),
        ensures
            final(self)@ == old(self)@.wrote(byte),
            final(self)@.wf(),
            *final(final(self).buffer) == *final(old(self).buffer),
    {
        if byte == 0x0a {
            self.new_line();
        } else {
            if self.col >= COLUMNS {
                self.new_line();
            }
            let i: usize = self.row * COLUMNS + self.col;
            self.buffer.0[i] = [byte, self.color];
            self.col = self.col + 1;
        }
    }
}

impl Screen {
    /// Several bytes written, in order.
    pub open spec fn wrote_all(self, bytes: Seq<u8>) -> Screen
        decreases bytes.len(),
    {
        if bytes.len() == 0 {
            self
        } else {
            self.wrote_all(bytes.drop_last()).wrote(bytes.last())
        }
    }
}

impl<'a> VgaWriter<'a> {
    /// Writes bytes, in order.
    pub fn write_all(&mut self, bytes: &[u8])
        requires
            old(self)@.wf(),
        ensures
            final(self)@ == old(self)@.wrote_all(bytes@),
            final(self)@.wf(),
            *final(final(self).buffer) == *final(old(self).buffer),
    {
        let mut i: usize = 0;
        while i < bytes.len()
            invariant
                i <= bytes@.len(),
                self@ == old(self)@.wrote_all(bytes@.take(i as int)),
                self@.wf(),
                *final(self.buffer) == *final(old(self).buffer),
            decreases bytes@.len() - i,
        {
            self.write_byte(bytes[i]);
            i = i + 1;
            proof {
                assert(bytes@.take(i as int).drop_last() =~= bytes@.take(i - 1));
            }
        }
        assert(bytes@.take(i as int) =~= bytes@);
    }

    /// Writes the **UTF-8 bytes** of a text. ASCII is fine; other Unicode shows as multiple cells.
    pub fn write_str(&mut self, s: &str)
        requires
            old(self)@.wf(),
        ensures
            final(self)@ == old(self)@.wrote_all(encode_utf8(s@)),
            final(self)@.wf(),
            *final(final(self).buffer) == *final(old(self).buffer),
    {
        self.write_all(s.as_bytes());
    }
}

/// A blank in the color that fills the screen at first: high contrast, so that the screen is
/// obviously alive.
pub open spec fn blank() -> [u8; 2] {
    [0x20, 0x1f]
}

/// The screen as it is set up.
pub open spec fn first_screen() -> Screen {
    Screen { col: 0, row: 0, color: 0x0f, cells: Seq::new(CELLS as nat, |i: int| blank()) }
}

/// Fills the screen with blanks and returns its writer.
pub fn init<'a>(buffer: &'a mut VgaBuffer) -> (w: VgaWriter<'a>)
    ensures
        w@ == (Screen {
            col: 0,
            row: 0,
            color: 0x0f,
            cells: Seq::new(CELLS as nat, |i: int| blank()),
        }),
        w@.wf(),
        *final(w.buffer) == *final(buffer),
        w@ == first_screen(),
{
    let mut i: usize = 0;
    while i < CELLS
        invariant
            i <= CELLS,
            buffer.0@.len() == CELLS,
            forall|j: int| 0 <= j < i ==> buffer.0@[j] == blank(),
        decreases CELLS - i,
    {
        buffer.0[i] = [0x20, 0x1f];
        i = i + 1;
    }
    let w = VgaWriter::new(buffer);
    assert(w@.cells =~= Seq::new(CELLS as nat, |i: int| blank()));
    w
}

/// What a screen shows once bytes have been printed.
pub open spec fn with_bytes(screen: Option<Screen>, bytes: Seq<u8>) -> Option<Screen> {
    match screen {
        Some(s) => Some(s.wrote_all(bytes)),
        None => None,
    }
}

/// Prints bytes on the screen, if there is one, and mirrors them to the serial port.
pub fn print_bytes<'a>(writer: &mut Option<VgaWriter<'a>>, port: &mut SerialPort, bytes: &[u8])
    requires
        screen_of(*old(writer)) matches Some(s) ==> s.wf(),
    ensures
        screen_of(*final(writer)) == with_bytes(screen_of(*old(writer)), bytes@),
        screen_of(*final(writer)) matches Some(s) ==> s.wf(),
        *old(writer) matches Some(w) ==> (*final(writer) matches Some(f) && *final(f.buffer)
            == *final(w.buffer)),
        final(port)@ == old(port)@ + bytes@,
        final(port).data_port() == old(port).data_port(),
        crate::serial::sends(old(port)@, bytes@, final(port)@),
{
    if let Some(w) = writer {
        w.write_all(bytes);
    }
    write_bytes(port, bytes);
}

/// Prints a text on the screen, if there is one, and mirrors it to the serial port.
pub fn _print<'a>(writer: &mut Option<VgaWriter<'a>>, port: &mut SerialPort, text: &str)
    requires
        screen_of(*old(writer)) matches Some(s) ==> s.wf(),
    ensures
        screen_of(*final(writer)) == with_bytes(screen_of(*old(writer)), encode_utf8(text@)),
        screen_of(*final(writer)) matches Some(s) ==> s.wf(),
        *old(writer) matches Some(w) ==> (*final(writer) matches Some(f) && *final(f.buffer)
            == *final(w.buffer)),
        final(port)@ == old(port)@ + encode_utf8(text@),
        final(port).data_port() == old(port).data_port(),
        crate::serial::sends(old(port)@, encode_utf8(text@), final(port)@),
{
    print_bytes(writer, port, text.as_bytes());
}

/// What a screen shows once a line of bytes has been printed.
pub open spec fn with_line(screen: Option<Screen>, bytes: Seq<u8>) -> Option<Screen> {
    match screen {
        Some(s) => Some(s.wrote_all(bytes).wrote(0x0a)),
        None => None,
    }
}

/// What a writer's screen shows, where there is a writer.
pub open spec fn screen_of<'a>(writer: Option<VgaWriter<'a>>) -> Option<Screen> {
    match writer {
        Some(w) => Some(w@),
        None => None,
    }
}

/// Prints a line of bytes on the screen, if there is one, and on the serial port. The line ends
/// with a newline on the screen, with carriage return and newline on the serial port.
pub fn print_line<'a>(writer: &mut Option<VgaWriter<'a>>, port: &mut SerialPort, bytes: &[u8])
    requires
        screen_of(*old(writer)) matches Some(s) ==> s.wf(),
    ensures
        screen_of(*final(writer)) == with_line(screen_of(*old(writer)), bytes@),
        screen_of(*final(writer)) matches Some(s) ==> s.wf(),
        *old(writer) matches Some(w) ==> (*final(writer) matches Some(f) && *final(f.buffer)
            == *final(w.buffer)),
        final(port)@ == old(port)@ + bytes@ + seq![0x0du8, 0x0a],
        final(port).data_port() == old(port).data_port(),
        crate::serial::sends(old(port)@, bytes@ + seq![0x0du8, 0x0a], final(port)@),
{
    if let Some(w) = writer {
        w.write_all(bytes);
        w.write_byte(0x0a);
    }
    write_bytes(port, bytes);
    write_byte(port, 0x0d);
    write_byte(port, 0x0a);
    assert(port@ =~= old(port)@ + bytes@ + seq![0x0du8, 0x0a]);
}

/// Like [`_print`], then ends the line.
pub fn _println<'a>(writer: &mut Option<VgaWriter<'a>>, port: &mut SerialPort, text: &str)
    requires
        screen_of(*old(writer)) matches Some(s) ==> s.wf(),
    ensures
        screen_of(*final(writer)) == with_line(screen_of(*old(writer)), encode_utf8(text@)),
        screen_of(*final(writer)) matches Some(s) ==> s.wf(),
        *old(writer) matches Some(w) ==> (*final(writer) matches Some(f) && *final(f.buffer)
            == *final(w.buffer)),
        final(port)@ == old(port)@ + encode_utf8(text@) + seq![0x0du8, 0x0a],
        final(port).data_port() == old(port).data_port(),
        crate::serial::sends(old(port)@, encode_utf8(text@) + seq![0x0du8, 0x0a], final(port)@),
{
    print_line(writer, port, text.as_bytes());
}

/// A screenful of bytes without a newline fills every cell in reading order and leaves the cursor
/// at the end of the last row.
pub proof fn law_full_screen(s: Screen, bytes: Seq<u8>)
    requires
        s.wf(),
        s.col == 0,
        s.row == 0,
        bytes.len() == CELLS,
        forall|i: int| 0 <= i < bytes.len() ==> bytes[i] != 0x0a,
    ensures
        s.wrote_all(bytes).cells == Seq::new(CELLS as nat, |i: int| [bytes[i], s.color]),
        s.wrote_all(bytes).row == ROWS - 1,
        s.wrote_all(bytes).col == COLUMNS,
{
    lemma_filled(s, bytes, CELLS as int);
    assert(bytes.take(CELLS as int) =~= bytes);
    assert(s.wrote_all(bytes).cells =~= Seq::new(CELLS as nat, |i: int| [bytes[i], s.color]));
}

/// The first `n` bytes fill the first `n` cells.
proof fn lemma_filled(s: Screen, bytes: Seq<u8>, n: int)
    requires
        s.wf(),
        s.col == 0,
        s.row == 0,
        0 <= n <= bytes.len(),
        n <= CELLS,
        forall|i: int| 0 <= i < bytes.len() ==> bytes[i] != 0x0a,
    ensures
        ({
            let t = s.wrote_all(bytes.take(n));
            &&& t.wf()
            &&& t.color == s.color
            &&& t.row * COLUMNS + t.col == n
            &&& n > 0 ==> t.col > 0
            &&& forall|i: int| 0 <= i < n ==> t.cells[i] == [bytes[i], s.color]
        }),
    decreases n,
{
    if n > 0 {
        lemma_filled(s, bytes, n - 1);
        assert(bytes.take(n).drop_last() =~= bytes.take(n - 1));
        assert(bytes.take(n).last() == bytes[n - 1]);
    }
}

/// The screen stays 80 by 25 cells, whatever is written, and the cursor stays on it.
pub proof fn law_cursor_stays_on_screen(s: Screen, bytes: Seq<u8>)
    requires
        s.wf(),
    ensures
        s.wrote_all(bytes).wf(),
    decreases bytes.len(),
{
    if bytes.len() > 0 {
        law_cursor_stays_on_screen(s, bytes.drop_last());
    }
}

/// A newline moves the cursor to column 0 of the following row, or of row 0 after the last, and
/// changes no cell.
pub proof fn law_newline_starts_next_row(s: Screen)
    requires
        s.wf(),
    ensures
        s.wrote(0x0a).col == 0,
        s.wrote(0x0a).row == (s.row + 1) % 25,
        s.wrote(0x0a).cells == s.cells,
        s.wrote(0x0a).color == s.color,
{
}

/// Any other byte goes, in the current color, into the cell at the cursor, or into the first cell of
/// the next row where the row is full; the cursor stands right behind it, and no other cell changes.
pub proof fn law_byte_fills_cell_at_cursor(s: Screen, byte: u8, i: int)
    requires
        s.wf(),
        byte != 0x0a,
        0 <= i < 2000,
    ensures
        ({
            let row = if s.col < 80 {
                s.row
            } else {
                (s.row + 1) % 25
            };
            let col = if s.col < 80 {
                s.col
            } else {
                0
            };
            let t = s.wrote(byte);
            &&& t.row == row && t.col == col + 1
            &&& t.cells[i] == (if i == 80 * row + col {
                [byte, s.color]
            } else {
                s.cells[i]
            })
            &&& t.cells.len() == s.cells.len()
            &&& t.color == s.color
        }),
{
}

/// Bytes are written one after the other: writing two texts is writing the one, then the other.
pub proof fn law_bytes_are_written_in_order(s: Screen, a: Seq<u8>, b: Seq<u8>, byte: u8)
    ensures
        s.wrote_all(Seq::empty()) == s,
        s.wrote_all(seq![byte]) == s.wrote(byte),
        s.wrote_all(a + b) == s.wrote_all(a).wrote_all(b),
    decreases b.len(),
{
    reveal_with_fuel(Screen::wrote_all, 2);
    assert(seq![byte].drop_last() =~= Seq::empty());
    assert(seq![byte].last() == byte);
    if b.len() == 0 {
        assert(a + b =~= a);
    } else {
        law_bytes_are_written_in_order(s, a, b.drop_last(), byte);
        assert((a + b).drop_last() =~= a + b.drop_last());
        assert((a + b).last() == b.last());
    }
}

/// A printed line is its bytes and a newline behind them; without a screen nothing is shown.
pub proof fn law_line_ends_with_newline(s: Screen, bytes: Seq<u8>)
    ensures
        with_line(Some(s), bytes) == Some(s.wrote_all(bytes + seq![0x0au8])),
        with_bytes(Some(s), bytes) == Some(s.wrote_all(bytes)),
        with_line(None, bytes) is None,
        with_bytes(None, bytes) is None,
{
    law_bytes_are_written_in_order(s, bytes, seq![0x0au8], 0x0a);
    law_bytes_are_written_in_order(s.wrote_all(bytes), Seq::empty(), Seq::empty(), 0x0a);
}

/// A text of up to 80 bytes without a newline, written from the start of a row, stands in that row
/// from column 0 on.
pub proof fn law_text_stands_in_its_row(s: Screen, bytes: Seq<u8>, i: int)
    requires
        s.wf(),
        s.col == 0,
        bytes.len() <= 80,
        forall|k: int| 0 <= k < bytes.len() ==> bytes[k] != 0x0a,
        0 <= i < 2000,
    ensures
        ({
            let t = s.wrote_all(bytes);
            &&& t.row == s.row && t.col == bytes.len() && t.color == s.color
            &&& t.wf()
            &&& t.cells[i] == (if 80 * s.row <= i < 80 * s.row + bytes.len() {
                [bytes[i - 80 * s.row], s.color]
            } else {
                s.cells[i]
            })
        }),
    decreases bytes.len(),
{
    if bytes.len() > 0 {
        let front = bytes.drop_last();
        law_text_stands_in_its_row(s, front, i);
    }
}

/// The screen starts out with 25 rows of 80 blanks, bright white on blue, and the cursor in the first
/// cell; what is written then is bright white on black.
pub proof fn law_screen_starts_blank(i: int)
    requires
        0 <= i < 25 * 80,
    ensures
        first_screen().cells.len() == 25 * 80,
        first_screen().cells[i][0] == ' ' as int,
        first_screen().cells[i][1] % 16 == 15 && first_screen().cells[i][1] / 16 == 1,
        first_screen().row == 0 && first_screen().col == 0,
        first_screen().color % 16 == 15 && first_screen().color / 16 == 0,
        first_screen().wf(),
{
}

} // verus!
