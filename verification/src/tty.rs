//! Cooked TTY: PS/2 scan codes to ASCII (**shift**-aware), **canonical line** input for
//! `read(0, ...)`.
//!
//! A **line** is returned after **Enter** (`\n` appended). Backspace edits the current line.

use std::collections::VecDeque;

use vstd::prelude::*;

use crate::keyboard::{key_label, lemma_labels_are_ascii, lemma_rows, scancode_to_char};

verus! {

/// Most bytes in the line that is being edited.
pub const LINE_BUF: usize = 1024;

/// Most lines that wait to be read.
pub const MAX_READY_LINES: usize = 128;

/// Error number of a read that would block.
pub const WOULD_BLOCK: i32 = -11;

/// The line discipline.
pub struct TtyState {
    shift_left: bool,
    shift_right: bool,
    e0_prefix: bool,
    line_edit: Vec<u8>,
    ready_lines: VecDeque<Vec<u8>>,
}

/// The line discipline in the abstract.
#[verifier::ext_equal]
pub struct TtySpec {
    pub shift_left: bool,
    pub shift_right: bool,
    /// The next code belongs to an extended key.
    pub e0_prefix: bool,
    /// The line that is being edited.
    pub line: Seq<u8>,
    /// The lines that wait to be read, oldest first.
    pub ready: Seq<Seq<u8>>,
}

impl View for TtyState {
    type V = TtySpec;

    closed spec fn view(&self) -> TtySpec {
        TtySpec {
            shift_left: self.shift_left,
            shift_right: self.shift_right,
            e0_prefix: self.e0_prefix,
            line: self.line_edit@,
            ready: self.ready_lines@.map_values(|l: Vec<u8>| l@),
        }
    }
}

/// A line that waits: its only newline is its last byte.
pub open spec fn is_line(l: Seq<u8>) -> bool {
    &&& l.len() > 0
    &&& l.last() == 0x0a
    &&& forall|i: int| 0 <= i < l.len() - 1 ==> l[i] != 0x0a
}

impl TtySpec {
    /// The edited line fits its buffer and holds no newline; the lines that wait are lines, and
    /// there are not too many.
    pub open spec fn wf(self) -> bool {
        &&& self.line.len() <= LINE_BUF
        &&& forall|i: int| 0 <= i < self.line.len() ==> self.line[i] != 0x0a
        &&& self.ready.len() <= MAX_READY_LINES
        &&& forall|i: int| 0 <= i < self.ready.len() ==> is_line(#[trigger] self.ready[i])
    }

    /// A shift key is held.
    pub open spec fn shift(self) -> bool {
        self.shift_left || self.shift_right
    }

    /// A character that is typed into the line. A full buffer drops it.
    pub open spec fn typed(self, b: u8) -> TtySpec {
        if self.line.len() < LINE_BUF {
            TtySpec { line: self.line.push(b), ..self }
        } else {
            self
        }
    }

    /// Enter: the line waits to be read, unless too many do already; a new line starts.
    pub open spec fn entered(self) -> TtySpec {
        TtySpec {
            line: Seq::empty(),
            ready: if self.ready.len() < MAX_READY_LINES {
                self.ready.push(self.line.push(0x0a))
            } else {
                self.ready
            },
            ..self
        }
    }

    /// Backspace: the last byte of the line goes away, if there is one.
    pub open spec fn erased(self) -> TtySpec {
        if self.line.len() > 0 {
            TtySpec { line: self.line.drop_last(), ..self }
        } else {
            self
        }
    }

    /// What a scan code does.
    pub open spec fn fed(self, code: u8) -> TtySpec {
        if self.e0_prefix {
            TtySpec { e0_prefix: false, ..self }
        } else if code == 0xE0 {
            TtySpec { e0_prefix: true, ..self }
        } else if code == LEFT_SHIFT {
            TtySpec { shift_left: true, ..self }
        } else if code == LEFT_SHIFT + 0x80 {
            TtySpec { shift_left: false, ..self }
        } else if code == RIGHT_SHIFT {
            TtySpec { shift_right: true, ..self }
        } else if code == RIGHT_SHIFT + 0x80 {
            TtySpec { shift_right: false, ..self }
        } else {
            match printed(self.shift(), code) {
                None => self,
                Some(c) => if c == '\n' {
                    self.entered()
                } else if c == '\x08' {
                    self.erased()
                } else {
                    self.typed(c as u8)
                },
            }
        }
    }
}

/// Make code of the Enter key.
pub const ENTER: u8 = 0x1c;

/// Make code of the Backspace key.
pub const BACKSPACE: u8 = 0x0e;

/// Make code of the left shift key.
pub const LEFT_SHIFT: u8 = 0x2a;

/// Make code of the right shift key.
pub const RIGHT_SHIFT: u8 = 0x36;

/// A letter in upper case; anything else as it is.
pub open spec fn upper(c: char) -> char {
    if 'a' <= c <= 'z' {
        (c as u32 - 32) as char
    } else {
        c
    }
}

/// What a key prints with shift held.
pub open spec fn shifted_label(code: u8) -> Option<char> {
    if 0x02 <= code <= 0x0d {
        Some("!@#$%^&*()_+"@[code - 0x02])
    } else if code == 0x29 {
        Some('~')
    } else if code == 0x2b {
        Some('|')
    } else if 0x33 <= code <= 0x35 {
        Some("<>?"@[code - 0x33])
    } else {
        match key_label(code) {
            Some(c) => Some(upper(c)),
            None => None,
        }
    }
}

/// What a key prints.
pub open spec fn printed(shift: bool, code: u8) -> Option<char> {
    if shift {
        shifted_label(code)
    } else {
        key_label(code)
    }
}

proof fn lemma_shifted_rows()
    ensures
        "!@#$%^&*()_+"@ == seq!['!', '@', '#', '$', '%', '^', '&', '*', '(', ')', '_', '+'],
        "<>?"@ == seq!['<', '>', '?'],
{
    reveal_strlit("!@#$%^&*()_+");
    reveal_strlit("<>?");
    assert("!@#$%^&*()_+"@ =~= seq!['!', '@', '#', '$', '%', '^', '&', '*', '(', ')', '_', '+']);
    assert("<>?"@ =~= seq!['<', '>', '?']);
}

/// Every printed character is ASCII.
proof fn lemma_printed_is_ascii(shift: bool, code: u8)
    ensures
        printed(shift, code) matches Some(c) ==> 0 <= c as int && (c as int) < 0x80,
{
    lemma_shifted_rows();
    lemma_labels_are_ascii(code);
}

fn shifted_char(code: u8) -> (c: Option<char>)
    ensures
        c == shifted_label(code),
{
    proof {
        lemma_shifted_rows();
        lemma_labels_are_ascii(code);
    }
    match code {
        0x02 => Some('!'),
        0x03 => Some('@'),
        0x04 => Some('#'),
        0x05 => Some('$'),
        0x06 => Some('%'),
        0x07 => Some('^'),
        0x08 => Some('&'),
        0x09 => Some('*'),
        0x0a => Some('('),
        0x0b => Some(')'),
        0x0c => Some('_'),
        0x0d => Some('+'),
        0x29 => Some('~'),
        0x2b => Some('|'),
        0x33 => Some('<'),
        0x34 => Some('>'),
        0x35 => Some('?'),
        _ => match scancode_to_char(code) {
            Some(c) => if 'a' <= c && c <= 'z' {
                Some((c as u8 - 32) as char)
            } else {
                Some(c)
            },
            None => None,
        },
    }
}

impl TtyState {
    pub fn new() -> (t: TtyState)
        ensures
            t@ == (TtySpec {
                shift_left: false,
                shift_right: false,
                e0_prefix: false,
                line: Seq::empty(),
                ready: Seq::empty(),
            }),
            t@.wf(),
    {
        let t = TtyState {
            shift_left: false,
            shift_right: false,
            e0_prefix: false,
            line_edit: Vec::new(),
            ready_lines: VecDeque::new(),
        };
        assert(t@.ready =~= Seq::empty());
        t
    }

    fn shift(&self) -> (held: bool)
        ensures
            held == self@.shift(),
    {
        self.shift_left || self.shift_right
    }

    fn feed_scancode(&mut self, code: u8)
        ensures
            final(self)@ == old(self)@.fed(code),
            old(self)@.wf() ==> final(self)@.wf(),
    {
        proof {
            lemma_fed_wf(self@, code);
        }
        if self.e0_prefix {
            self.e0_prefix = false;
            return;
        }
        if code == 0xE0 {
            self.e0_prefix = true;
            return;
        }
        if code >= 0x80 {
            let mk: u8 = code - 0x80;
            if mk == LEFT_SHIFT {
                self.shift_left = false;
            } else if mk == RIGHT_SHIFT {
                self.shift_right = false;
            }
            return;
        }
        if code == LEFT_SHIFT {
            self.shift_left = true;
            return;
        }
        if code == RIGHT_SHIFT {
            self.shift_right = true;
            return;
        }
        let ch = if self.shift() {
            shifted_char(code)
        } else {
            scancode_to_char(code)
        };
        proof {
            lemma_printed_is_ascii(self@.shift(), code);
        }
        match ch {
            None => {},
            Some('\n') => {
                let mut line: Vec<u8> = Vec::new();
                std::mem::swap(&mut line, &mut self.line_edit);
                line.push(0x0a);
                if self.ready_lines.len() < MAX_READY_LINES {
                    self.ready_lines.push_back(line);
                }
                assert(self@.ready =~= old(self)@.entered().ready);
            },
            Some('\x08') => {
                let _ = self.line_edit.pop();
            },
            Some(c) => {
                if self.line_edit.len() < LINE_BUF {
                    self.line_edit.push(c as u8);
                }
            },
        }
    }
}

proof fn lemma_fed_wf(t: TtySpec, code: u8)
    ensures
        t.wf() ==> t.fed(code).wf(),
{
    lemma_printed_is_ascii(t.shift(), code);
    if t.wf() {
        if let Some(c) = printed(t.shift(), code) {
            assert(c as u8 == c as int);
        }
        let l = t.line.push(0x0a);
        assert(is_line(l));
        assert forall|i: int| 0 <= i < t.entered().ready.len() implies is_line(
            #[trigger] t.entered().ready[i],
        ) by {
            if i < t.ready.len() {
                assert(is_line(t.ready[i]));
            }
        }
    }
}

/// Called for each keyboard IRQ byte (after [`crate::keyboard::handle_keyboard_irq`] enqueues it).
pub fn feed_from_irq(t: &mut TtyState, scancode: u8)
    ensures
        final(t)@ == old(t)@.fed(scancode),
        old(t)@.wf() ==> final(t)@.wf(),
{
    t.feed_scancode(scancode);
}

/// The first bytes of the oldest line, at most `n` of them, are read; the rest of the line waits in
/// its place.
pub open spec fn after_read(ready: Seq<Seq<u8>>, n: int) -> Seq<Seq<u8>> {
    if n < ready[0].len() {
        ready.update(0, ready[0].skip(n))
    } else {
        ready.drop_first()
    }
}

/// How many bytes of a line go into a buffer.
pub open spec fn read_len(line: Seq<u8>, room: int) -> int {
    if line.len() < room {
        line.len() as int
    } else {
        room
    }
}

/// `buf` with `bytes` in place of what stood from `at` on.
pub open spec fn filled(buf: Seq<u8>, at: int, bytes: Seq<u8>) -> Seq<u8> {
    buf.take(at) + bytes + buf.skip(at + bytes.len())
}

/// Reads the oldest line, or the part of it that fits, into the `room` bytes of `buf` from `at` on.
/// `None` where there is no line.
pub fn read_at(t: &mut TtyState, buf: &mut [u8], at: usize, room: usize) -> (n: Option<usize>)
    requires
        at + room <= old(buf)@.len(),
    ensures
        old(t)@.wf() ==> final(t)@.wf(),
        if old(t)@.ready.len() == 0 {
            &&& n is None
            &&& final(t)@ == old(t)@
            &&& final(buf)@ == old(buf)@
        } else {
            let line = old(t)@.ready[0];
            let k = read_len(line, room as int);
            &&& n matches Some(n) && n == k
            &&& final(buf)@ == filled(old(buf)@, at as int, line.take(k))
            &&& final(t)@ == (TtySpec { ready: after_read(old(t)@.ready, k), ..old(t)@ })
        },
{
    match t.ready_lines.pop_front() {
        None => None,
        Some(line) => {
            assert(line@ == old(t)@.ready[0]);
            let n: usize = if line.len() < room {
                line.len()
            } else {
                room
            };
            let mut i: usize = 0;
            assert(buf@ =~= filled(old(buf)@, at as int, line@.take(0)));
            assert(buf.len() == buf@.len());
            while i < n
                invariant
                    i <= n,
                    n <= line@.len(),
                    at + n <= buf@.len(),
                    buf@.len() == old(buf)@.len(),
                    buf@.len() <= usize::MAX,
                    buf@ == filled(old(buf)@, at as int, line@.take(i as int)),
                decreases n - i,
            {
                buf[at + i] = line[i];
                i = i + 1;
                assert(buf@ =~= filled(old(buf)@, at as int, line@.take(i as int)));
            }
            if n < line.len() {
                let mut rest: Vec<u8> = Vec::new();
                let mut j: usize = n;
                while j < line.len()
                    invariant
                        n <= j <= line@.len(),
                        rest@ == line@.subrange(n as int, j as int),
                    decreases line@.len() - j,
                {
                    rest.push(line[j]);
                    j = j + 1;
                    assert(rest@ =~= line@.subrange(n as int, j as int));
                }
                assert(rest@ =~= line@.skip(n as int));
                t.ready_lines.push_front(rest);
            }
            proof {
                assert(t@.ready =~= after_read(old(t)@.ready, n as int));
                if old(t)@.wf() {
                    lemma_after_read_wf(old(t)@, n as int);
                }
            }
            Some(n)
        },
    }
}

/// How a read of the terminal goes on.
#[derive(Clone, Copy, Debug, PartialEq, Eq, Structural)]
pub enum LineRead {
    /// This many bytes of the oldest line are in the buffer.
    Done(usize),
    /// No line exists yet: wait for an interrupt and read again.
    Wait,
}

/// Line discipline: reads the oldest line, or the part of it that fits. Without a line a
/// **blocking** read waits until one exists, and a **non-blocking** one fails with `EAGAIN`
/// (`-11`).
pub fn read(t: &mut TtyState, dst: &mut [u8], nonblock: bool) -> (r: Result<LineRead, i32>)
    ensures
        old(t)@.wf() ==> final(t)@.wf(),
        if old(t)@.ready.len() == 0 {
            &&& r == (if nonblock {
                Err::<LineRead, i32>(WOULD_BLOCK)
            } else {
                Ok(LineRead::Wait)
            })
            &&& final(t)@ == old(t)@
            &&& final(dst)@ == old(dst)@
        } else {
            let line = old(t)@.ready[0];
            let k = read_len(line, old(dst)@.len() as int);
            &&& r matches Ok(LineRead::Done(n)) && n == k
            &&& final(dst)@ == filled(old(dst)@, 0, line.take(k))
            &&& final(t)@ == (TtySpec { ready: after_read(old(t)@.ready, k), ..old(t)@ })
            &&& old(t)@.wf() && old(dst)@.len() > 0 ==> k >= 1
        },
{
    let room: usize = dst.len();
    assert(old(t)@.wf() && old(t)@.ready.len() > 0 ==> is_line(old(t)@.ready[0]));
    match read_at(t, dst, 0, room) {
        Some(n) => Ok(LineRead::Done(n)),
        None => if nonblock {
            Err(WOULD_BLOCK)
        } else {
            Ok(LineRead::Wait)
        },
    }
}

proof fn lemma_after_read_wf(t: TtySpec, n: int)
    requires
        t.wf(),
        t.ready.len() > 0,
        0 <= n <= t.ready[0].len(),
    ensures
        (TtySpec { ready: after_read(t.ready, n), ..t }).wf(),
{
    let r = after_read(t.ready, n);
    assert(is_line(t.ready[0]));
    assert forall|i: int| 0 <= i < r.len() implies is_line(#[trigger] r[i]) by {
        if n < t.ready[0].len() {
            if i > 0 {
                assert(is_line(t.ready[i]));
            } else {
                let s = t.ready[0].skip(n);
                assert(s.last() == t.ready[0].last());
            }
        } else {
            assert(is_line(t.ready[i + 1]));
        }
    }
}

/// Blocking read of a line. `None` where no line exists yet: the caller waits for an interrupt and
/// reads again.
pub fn read_line(t: &mut TtyState, dst: &mut [u8]) -> (n: Option<usize>)
    ensures
        old(t)@.wf() ==> final(t)@.wf(),
        if old(t)@.ready.len() == 0 {
            &&& n is None
            &&& final(t)@ == old(t)@
            &&& final(dst)@ == old(dst)@
        } else {
            let line = old(t)@.ready[0];
            let k = read_len(line, old(dst)@.len() as int);
            &&& n matches Some(n) && n == k
            &&& final(dst)@ == filled(old(dst)@, 0, line.take(k))
            &&& final(t)@ == (TtySpec { ready: after_read(old(t)@.ready, k), ..old(t)@ })
            &&& old(t)@.wf() && old(dst)@.len() > 0 ==> k >= 1
        },
{
    match read(t, dst, false) {
        Ok(LineRead::Done(n)) => Some(n),
        _ => None,
    }
}

/// Feeding several scan codes, in order.
pub open spec fn fed_all(t: TtySpec, codes: Seq<u8>) -> TtySpec
    decreases codes.len(),
{
    if codes.len() == 0 {
        t
    } else {
        fed_all(t, codes.drop_last()).fed(codes.last())
    }
}

/// The code types a character into the line.
pub open spec fn is_text_key(shift: bool, code: u8) -> bool {
    &&& code != LEFT_SHIFT && code != RIGHT_SHIFT
    &&& printed(shift, code) matches Some(c) && c != '\n' && c != '\x08'
}

/// The bytes that text keys type.
pub open spec fn text_of(shift: bool, codes: Seq<u8>) -> Seq<u8> {
    codes.map_values(|code: u8| printed(shift, code)->0 as u8)
}

/// Text keys join the line in the order in which they are pressed.
pub proof fn law_typing_joins_line(t: TtySpec, codes: Seq<u8>)
    requires
        !t.e0_prefix,
        forall|i: int| 0 <= i < codes.len() ==> is_text_key(t.shift(), #[trigger] codes[i]),
        t.line.len() + codes.len() <= LINE_BUF,
    ensures
        fed_all(t, codes) == (TtySpec { line: t.line + text_of(t.shift(), codes), ..t }),
    decreases codes.len(),
{
    if codes.len() == 0 {
        assert(t.line + text_of(t.shift(), codes) =~= t.line);
    } else {
        let front = codes.drop_last();
        assert forall|i: int| 0 <= i < front.len() implies is_text_key(
            t.shift(),
            #[trigger] front[i],
        ) by {
            assert(front[i] == codes[i]);
        }
        law_typing_joins_line(t, front);
        let last = codes.last();
        assert(is_text_key(t.shift(), codes[codes.len() - 1]));
        assert(last < 0x80) by {
            lemma_printed_is_make_code(t.shift(), last);
        }
        assert(t.line + text_of(t.shift(), codes) =~= (t.line + text_of(t.shift(), front)).push(
            printed(t.shift(), last)->0 as u8,
        ));
    }
}

proof fn lemma_printed_is_make_code(shift: bool, code: u8)
    ensures
        printed(shift, code) is Some ==> code < 0x80,
{
}

/// What is typed, up to Enter, becomes the last line to be read: the text with a newline behind it.
/// Where no other line waits, a read with enough room returns exactly that.
pub proof fn law_typed_line_is_read_back(t: TtySpec, codes: Seq<u8>, room: int)
    requires
        !t.e0_prefix,
        t.line.len() == 0,
        t.ready.len() < MAX_READY_LINES,
        forall|i: int| 0 <= i < codes.len() ==> is_text_key(t.shift(), #[trigger] codes[i]),
        codes.len() <= LINE_BUF,
        codes.len() < room,
    ensures
        ({
            let line = text_of(t.shift(), codes).push(0x0a);
            let after = fed_all(t, codes).fed(ENTER);
            &&& after == (TtySpec { ready: t.ready.push(line), ..t })
            &&& t.ready.len() == 0 ==> after.ready[0].take(read_len(after.ready[0], room)) == line
        }),
{
    law_typing_joins_line(t, codes);
    assert(printed(t.shift(), ENTER) == Some('\n'));
    let text = text_of(t.shift(), codes);
    assert(t.line + text =~= text);
    assert(fed_all(t, codes).fed(ENTER) =~= TtySpec { ready: t.ready.push(text.push(0x0a)), ..t });
    assert(text.push(0x0a).take(text.len() as int + 1) =~= text.push(0x0a));
}

/// Backspace takes back what the last text key typed.
pub proof fn law_backspace_undoes_key(t: TtySpec, code: u8)
    requires
        !t.e0_prefix,
        is_text_key(t.shift(), code),
        t.line.len() < LINE_BUF,
    ensures
        t.fed(code).fed(BACKSPACE) == t,
{
    lemma_printed_is_make_code(t.shift(), code);
    assert(printed(t.shift(), BACKSPACE) == Some('\x08'));
    assert(t.line.push(printed(t.shift(), code)->0 as u8).drop_last() =~= t.line);
}

/// The byte behind the prefix of an extended key has no effect, whatever it is.
pub proof fn law_extended_keys_are_ignored(t: TtySpec, code: u8)
    requires
        !t.e0_prefix,
    ensures
        t.fed(0xE0).fed(code) == t,
{
}

/// Pressing and releasing a shift key leaves everything else as it was.
pub proof fn law_shift_release(t: TtySpec)
    requires
        !t.e0_prefix,
    ensures
        t.fed(LEFT_SHIFT).shift(),
        t.fed(RIGHT_SHIFT).shift(),
        t.fed(LEFT_SHIFT).fed((LEFT_SHIFT + 0x80) as u8) == (TtySpec { shift_left: false, ..t }),
        t.fed(RIGHT_SHIFT).fed((RIGHT_SHIFT + 0x80) as u8) == (TtySpec { shift_right: false, ..t }),
{
}

/// A line that is read in two pieces gives the same bytes as one read, and leaves the same lines.
pub proof fn law_reads_join_up(ready: Seq<Seq<u8>>, a: int, b: int)
    requires
        ready.len() > 0,
        0 <= a < ready[0].len(),
        0 <= b,
        a + b <= ready[0].len(),
    ensures
        ready[0].take(a) + after_read(ready, a)[0].take(b) == ready[0].take(a + b),
        after_read(after_read(ready, a), b) == after_read(ready, a + b),
{
    assert(ready[0].take(a) + after_read(ready, a)[0].take(b) =~= ready[0].take(a + b));
    let mid = after_read(ready, a);
    assert(mid[0] == ready[0].skip(a));
    if a + b < ready[0].len() {
        assert(ready[0].skip(a).skip(b) =~= ready[0].skip(a + b));
        assert(after_read(mid, b) =~= after_read(ready, a + b));
    } else {
        assert(after_read(mid, b) =~= after_read(ready, a + b));
    }
}

/// Every letter has its capital: a key that prints a letter prints, with shift held, the letter 32
/// below it in ASCII.
pub proof fn law_shift_gives_capitals(code: u8, c: char)
    requires
        key_label(code) == Some(c),
        97 <= c as int && c as int <= 122,
    ensures
        printed(false, code) == Some(c),
        printed(true, code) matches Some(d) && d as int == c as int - 32,
{
    lemma_rows();
    lemma_shifted_rows();
}

/// With shift the symbol keys print the symbol above, and every key that prints neither a letter nor
/// one of those prints what it prints without.
pub proof fn law_shift_gives_symbols(code: u8)
    ensures
        printed(true, 0x02) == Some('!') && printed(true, 0x03) == Some('@'),
        printed(true, 0x04) == Some('#') && printed(true, 0x05) == Some('$'),
        printed(true, 0x06) == Some('%') && printed(true, 0x07) == Some('^'),
        printed(true, 0x08) == Some('&') && printed(true, 0x09) == Some('*'),
        printed(true, 0x0a) == Some('(') && printed(true, 0x0b) == Some(')'),
        printed(true, 0x0c) == Some('_') && printed(true, 0x0d) == Some('+'),
        printed(true, 0x29) == Some('~') && printed(true, 0x2b) == Some('|'),
        printed(true, 0x33) == Some('<') && printed(true, 0x34) == Some('>'),
        printed(true, 0x35) == Some('?'),
        printed(true, code) is Some <==> printed(false, code) is Some,
        !(0x02 <= code <= 0x0d) && code != 0x29 && code != 0x2b && !(0x33 <= code <= 0x35) && (
        printed(false, code) matches Some(c) ==> !(97 <= c as int && c as int <= 122))
            ==> printed(true, code) == printed(false, code),
{
    lemma_rows();
    lemma_shifted_rows();
}

/// A letter key types its letter, or its capital while a shift key is held, at the end of the line;
/// nothing else changes.
pub proof fn law_letter_key_types_letter(t: TtySpec, code: u8, c: char)
    requires
        !t.e0_prefix,
        key_label(code) == Some(c),
        97 <= c as int && c as int <= 122,
        t.line.len() < 1024,
    ensures
        ({
            let b = if t.shift_left || t.shift_right {
                c as int - 32
            } else {
                c as int
            };
            let after = t.fed(code);
            &&& after.line.len() == t.line.len() + 1
            &&& after.line.last() == b
            &&& forall|i: int| 0 <= i < t.line.len() ==> after.line[i] == t.line[i]
            &&& after.ready == t.ready
            &&& after.shift_left == t.shift_left && after.shift_right == t.shift_right
            &&& !after.e0_prefix
        }),
{
    law_shift_gives_capitals(code, c);
    lemma_rows();
    lemma_printed_is_make_code(t.shift(), code);
}

/// Any key that prints something other than a newline or a backspace types that at the end of the
/// line, as long as the line has fewer than 1024 bytes; a full line stays as it is.
pub proof fn law_key_types_what_it_prints(t: TtySpec, code: u8, c: char)
    requires
        !t.e0_prefix,
        code != 0x2a && code != 0x36 && code < 0x80,
        printed(t.shift_left || t.shift_right, code) == Some(c),
        c != '\n' && c != '\x08',
    ensures
        t.line.len() < 1024 ==> t.fed(code) == (TtySpec { line: t.line + seq![c as u8], ..t }),
        t.line.len() >= 1024 ==> t.fed(code) == t,
{
    assert(t.line + seq![c as u8] =~= t.line.push(c as u8));
}

/// Releasing a key types nothing. The releases of the two shift keys end their shift, and no other
/// release does anything.
pub proof fn law_releases_type_nothing(t: TtySpec, code: u8)
    requires
        !t.e0_prefix,
        code >= 0x80,
        code != 0xe0,
    ensures
        t.fed(code).line == t.line,
        t.fed(code).ready == t.ready,
        !t.fed(code).e0_prefix,
        t.fed(code).shift_left == (t.shift_left && code != 0xaa),
        t.fed(code).shift_right == (t.shift_right && code != 0xb6),
{
}

/// Pressing a shift key starts its shift and types nothing.
pub proof fn law_shift_keys_start_shift(t: TtySpec)
    requires
        !t.e0_prefix,
    ensures
        t.fed(0x2a) == (TtySpec { shift_left: true, ..t }),
        t.fed(0x36) == (TtySpec { shift_right: true, ..t }),
        t.fed(0xe0) == (TtySpec { e0_prefix: true, ..t }),
{
}

/// Enter, with or without shift: the edited text and a newline join the lines that wait, as the last
/// of them, and the edited line is empty. With 128 lines waiting the text is dropped.
pub proof fn law_enter_ends_line(t: TtySpec)
    requires
        !t.e0_prefix,
    ensures
        ({
            let after = t.fed(0x1c);
            &&& after.line.len() == 0
            &&& t.ready.len() < 128 ==> after.ready == t.ready + seq![t.line + seq![0x0au8]]
            &&& t.ready.len() >= 128 ==> after.ready == t.ready
            &&& after.shift_left == t.shift_left && after.shift_right == t.shift_right
            &&& !after.e0_prefix
        }),
{
    assert(printed(t.shift(), 0x1c) == Some('\n'));
    assert(t.ready + seq![t.line + seq![0x0au8]] =~= t.ready.push(t.line.push(0x0a))) by {
        assert(t.line + seq![0x0au8] =~= t.line.push(0x0a));
    }
}

/// Backspace takes the last byte off the edited line, and only that; an empty line stays empty.
pub proof fn law_backspace_takes_last_byte(t: TtySpec)
    requires
        !t.e0_prefix,
    ensures
        t.line.len() == 0 ==> t.fed(0x0e) == t,
        t.line.len() > 0 ==> t.fed(0x0e) == (TtySpec { line: t.line.take(t.line.len() - 1), ..t }),
{
    assert(printed(t.shift(), 0x0e) == Some('\x08'));
    if t.line.len() > 0 {
        assert(t.line.take(t.line.len() - 1) =~= t.line.drop_last());
    }
}

/// A read takes its bytes off the front of the oldest line and leaves everything behind them: the
/// rest of that line first, then the other lines. It gets as much of the line as there is room for.
pub proof fn law_read_takes_front(ready: Seq<Seq<u8>>, room: int)
    requires
        ready.len() > 0,
        0 <= room,
    ensures
        ({
            let n = read_len(ready[0], room);
            let left = after_read(ready, n);
            &&& 0 <= n <= room && n <= ready[0].len()
            &&& n == room || n == ready[0].len()
            &&& n < ready[0].len() ==> left == seq![ready[0].subrange(n, ready[0].len() as int)]
                + ready.subrange(1, ready.len() as int)
            &&& n == ready[0].len() ==> left == ready.subrange(1, ready.len() as int)
        }),
{
    let n = read_len(ready[0], room);
    let left = after_read(ready, n);
    if n < ready[0].len() {
        assert(ready[0].skip(n) =~= ready[0].subrange(n, ready[0].len() as int));
        assert(left =~= seq![ready[0].subrange(n, ready[0].len() as int)] + ready.subrange(
            1,
            ready.len() as int,
        ));
    } else {
        assert(left =~= ready.subrange(1, ready.len() as int));
    }
}

/// Filling a buffer puts byte `i` of the bytes at `at + i` and leaves every other byte alone.
pub proof fn law_filling_a_buffer(buf: Seq<u8>, at: int, bytes: Seq<u8>, i: int)
    requires
        0 <= at,
        at + bytes.len() <= buf.len(),
        0 <= i < buf.len(),
    ensures
        filled(buf, at, bytes).len() == buf.len(),
        at <= i < at + bytes.len() ==> filled(buf, at, bytes)[i] == bytes[i - at],
        i < at || at + bytes.len() <= i ==> filled(buf, at, bytes)[i] == buf[i],
{
}

/// A line ends with its only newline.
pub proof fn law_line_has_one_newline(l: Seq<u8>, i: int)
    requires
        is_line(l),
        0 <= i < l.len(),
    ensures
        l[i] == 10 <==> i == l.len() - 1,
{
}

} // verus!
