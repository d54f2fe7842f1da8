//! PS/2 keyboard: the scan code queue and **scan code set 1**.
//!
//! Scan codes arrive on **IRQ1** into a small queue; use [`pop_scancode`] or [`read_scancode`] from
//! the main loop.

use vstd::prelude::*;

verus! {

/// Master PIC data port: each IRQ mask bit: `1` = IRQ **blocked**, `0` = **allowed**.
pub const PIC1_DATA: u16 = 0x21;

pub const PS2_DATA: u16 = 0x60;

pub const PS2_STATUS: u16 = 0x64;

/// Status bit: a byte waits at the data port.
pub const STATUS_OUT_FULL: u8 = 1;

/// Status bit: the byte is from the mouse.
pub const STATUS_AUX_DATA: u8 = 0x20;

/// Bytes in the ring; one of them always stays free.
pub const SCANCODE_BUF_SIZE: usize = 256;

/// A ring of scan codes.
pub struct ScancodeQueue {
    buf: [u8; SCANCODE_BUF_SIZE],
    head: usize,
    tail: usize,
}

impl View for ScancodeQueue {
    type V = Seq<u8>;

    /// The queued codes, oldest first.
    closed spec fn view(&self) -> Seq<u8> {
        Seq::new(
            self.count() as nat,
            |i: int| self.buf@[(self.head + i) % SCANCODE_BUF_SIZE as int],
        )
    }
}

impl ScancodeQueue {
    spec fn count(&self) -> int {
        if self.head <= self.tail {
            self.tail - self.head
        } else {
            self.tail + SCANCODE_BUF_SIZE - self.head
        }
    }

    pub closed spec fn wf(&self) -> bool {
        self.head < SCANCODE_BUF_SIZE && self.tail < SCANCODE_BUF_SIZE
    }

    pub fn new() -> (q: ScancodeQueue)
        ensures
            q.wf(),
            q@ == Seq::<u8>::empty(),
    {
        let q = ScancodeQueue { buf: [0u8; SCANCODE_BUF_SIZE], head: 0, tail: 0 };
        assert(q@ =~= Seq::<u8>::empty());
        q
    }

    /// Queues a code. A full ring drops it. See [`queue_with`].
    pub fn try_push(&mut self, b: u8) -> (ok: bool)
        requires
            old(self).wf(),
        ensures
            final(self).wf(),
            ok <==> old(self)@.len() < SCANCODE_BUF_SIZE - 1,
            final(self)@ == (if ok {
                old(self)@.push(b)
            } else {
                old(self)@
            }),
            final(self)@ == queue_with(old(self)@, b),
    {
        let next: usize = (self.tail + 1) % SCANCODE_BUF_SIZE;
        if next == self.head {
            return false;
        }
        self.buf[self.tail] = b;
        self.tail = next;
        assert(self@ =~= old(self)@.push(b));
        true
    }

    /// Takes the oldest code.
    pub fn try_pop(&mut self) -> (b: Option<u8>)
        requires
            old(self).wf(),
        ensures
            final(self).wf(),
            match b {
                Some(b) => {
                    &&& old(self)@.len() > 0
                    &&& b == old(self)@[0]
                    &&& final(self)@ == old(self)@.drop_first()
                },
                None => old(self)@.len() == 0 && final(self)@ == old(self)@,
            },
            b == oldest(old(self)@),
            final(self)@ == queue_without_oldest(old(self)@),
    {
        if self.head == self.tail {
            return None;
        }
        let b: u8 = self.buf[self.head];
        assert(b == old(self)@[0]);
        self.head = (self.head + 1) % SCANCODE_BUF_SIZE;
        assert(self@ =~= old(self)@.drop_first());
        Some(b)
    }
}

/// The queue once a code has come in: it stands last, or is lost where 255 codes wait already.
pub open spec fn queue_with(queue: Seq<u8>, b: u8) -> Seq<u8> {
    if queue.len() < SCANCODE_BUF_SIZE - 1 {
        queue.push(b)
    } else {
        queue
    }
}

/// The code that has waited longest.
pub open spec fn oldest(queue: Seq<u8>) -> Option<u8> {
    if queue.len() > 0 {
        Some(queue[0])
    } else {
        None
    }
}

pub open spec fn queue_without_oldest(queue: Seq<u8>) -> Seq<u8> {
    if queue.len() > 0 {
        queue.drop_first()
    } else {
        queue
    }
}

/// Several codes come in, in order.
pub open spec fn queue_with_all(queue: Seq<u8>, codes: Seq<u8>) -> Seq<u8>
    decreases codes.len(),
{
    if codes.len() == 0 {
        queue
    } else {
        queue_with(queue_with_all(queue, codes.drop_last()), codes.last())
    }
}

/// The mask of the first controller with the keyboard let through.
pub open spec fn keyboard_unmasked(mask: u8) -> u8 {
    mask & 0xFD
}

/// The mask that lets **IRQ1** (keyboard) through and leaves the other lines as they are.
pub fn unmask_keyboard_irq(mask: u8) -> (new_mask: u8)
    ensures
        new_mask == mask & 0xFD,
        new_mask == keyboard_unmasked(mask),
{
    mask & 0xFD
}

/// Alias for [`unmask_keyboard_irq`].
pub fn init_keyboard(mask: u8) -> (new_mask: u8)
    ensures
        new_mask == mask & 0xFD,
        new_mask == keyboard_unmasked(mask),
{
    unmask_keyboard_irq(mask)
}

/// A byte waits at the data port.
pub open spec fn byte_waits(status: u8) -> bool {
    status & STATUS_OUT_FULL != 0
}

/// The byte that waits is from the mouse.
pub open spec fn from_mouse(status: u8) -> bool {
    status & STATUS_AUX_DATA != 0
}

/// Returns true if the controller's status says that a byte waits at the data port.
pub fn output_full(status: u8) -> (full: bool)
    ensures
        full == byte_waits(status),
{
    status & STATUS_OUT_FULL != 0
}

/// The scan code that the controller gives: its byte, if one waits and is not from the mouse.
pub open spec fn key_byte(status: u8, data: u8) -> Option<u8> {
    if byte_waits(status) && !from_mouse(status) {
        Some(data)
    } else {
        None
    }
}

/// IRQ1 handler path, with the controller's status and the byte at its data port. A keyboard byte
/// is queued, and is handed on whether or not the queue had room; a mouse byte is dropped. Where no
/// byte waits, nothing happens, whatever `data` is.
pub fn handle_keyboard_irq(q: &mut ScancodeQueue, status: u8, data: u8) -> (b: Option<u8>)
    requires
        old(q).wf(),
    ensures
        final(q).wf(),
        b == key_byte(status, data),
        final(q)@ == (if b is Some && old(q)@.len() < SCANCODE_BUF_SIZE - 1 {
            old(q)@.push(data)
        } else {
            old(q)@
        }),
        b == key_byte(status, data),
        final(q)@ == queue_after_irq(old(q)@, status, data),
{
    let b = read_scancode_poll_port(status, data);
    if b.is_some() {
        let _ = q.try_push(data);
    }
    b
}

/// The queue after a keyboard interrupt.
pub open spec fn queue_after_irq(queue: Seq<u8>, status: u8, data: u8) -> Seq<u8> {
    match key_byte(status, data) {
        Some(b) => queue_with(queue, b),
        None => queue,
    }
}

/// Pop the next scan code enqueued by the keyboard interrupt.
pub fn pop_scancode(q: &mut ScancodeQueue) -> (b: Option<u8>)
    requires
        old(q).wf(),
    ensures
        final(q).wf(),
        match b {
            Some(b) => old(q)@.len() > 0 && b == old(q)@[0] && final(q)@ == old(q)@.drop_first(),
            None => old(q)@.len() == 0 && final(q)@ == old(q)@,
        },
        b == oldest(old(q)@),
        final(q)@ == queue_without_oldest(old(q)@),
{
    q.try_pop()
}

/// How reading a scan code goes on.
#[derive(Clone, Copy, Debug, PartialEq, Eq, Structural)]
pub enum ScancodeStep {
    /// The scan code, or that there is none.
    Done(Option<u8>),
    /// Nothing is queued: read the status port, and go on with [`poll_status`].
    ReadStatus,
    /// A byte waits: read the data port, and go on with [`read_scancode_poll_port`].
    ReadData,
}

/// IRQ queue first, then legacy **polling** of the port (works even if IRQ is masked).
pub fn read_scancode(q: &mut ScancodeQueue) -> (step: ScancodeStep)
    requires
        old(q).wf(),
    ensures
        final(q).wf(),
        if old(q)@.len() > 0 {
            &&& step == ScancodeStep::Done(Some(old(q)@[0]))
            &&& final(q)@ == old(q)@.drop_first()
        } else {
            &&& step == ScancodeStep::ReadStatus
            &&& final(q)@ == old(q)@
        },
        step == (match oldest(old(q)@) {
            Some(b) => ScancodeStep::Done(Some(b)),
            None => ScancodeStep::ReadStatus,
        }),
        final(q)@ == queue_without_oldest(old(q)@),
{
    match pop_scancode(q) {
        Some(b) => ScancodeStep::Done(Some(b)),
        None => ScancodeStep::ReadStatus,
    }
}

/// What a poll does once the status is known: the data port is read if and only if a byte waits.
pub open spec fn after_status(status: u8) -> ScancodeStep {
    if byte_waits(status) {
        ScancodeStep::ReadData
    } else {
        ScancodeStep::Done(None)
    }
}

/// Goes on with a poll whose status port has been read.
pub fn poll_status(status: u8) -> (step: ScancodeStep)
    ensures
        step == after_status(status),
{
    if output_full(status) {
        ScancodeStep::ReadData
    } else {
        ScancodeStep::Done(None)
    }
}

/// What a poll of the port gives, from the controller's status and the byte at its data port: a
/// scan code, or nothing where no byte waits or the byte is from the mouse.
pub fn read_scancode_poll_port(status: u8, data: u8) -> (b: Option<u8>)
    ensures
        b == key_byte(status, data),
{
    if !output_full(status) {
        return None;
    }
    if status & STATUS_AUX_DATA != 0 {
        None
    } else {
        Some(data)
    }
}

/// A poll that stops at the status gives what the whole poll would have given, whatever lies at the
/// data port; and it goes on to the data port exactly where a byte waits.
pub proof fn law_poll_stops_at_empty_controller(status: u8, data: u8)
    ensures
        match after_status(status) {
            ScancodeStep::Done(b) => !byte_waits(status) && b == key_byte(status, data),
            ScancodeStep::ReadData => byte_waits(status),
            ScancodeStep::ReadStatus => false,
        },
{
}

/// What the keys print without shift on a US 104-key layout, row by row. Numpad keys print their
/// label; every other key prints nothing.
pub open spec fn key_label(code: u8) -> Option<char> {
    if code == 0x01 {
        Some('\x1b')
    } else if code == 0x0E {
        Some('\x08')
    } else if code == 0x0F {
        Some('\t')
    } else if code == 0x1C {
        Some('\n')
    } else if code == 0x39 {
        Some(' ')
    } else if 0x02 <= code <= 0x0D {
        Some("1234567890-="@[code - 0x02])
    } else if 0x10 <= code <= 0x1B {
        Some("qwertyuiop[]"@[code - 0x10])
    } else if 0x1E <= code <= 0x29 {
        Some("asdfghjkl;'`"@[code - 0x1E])
    } else if 0x2B <= code <= 0x35 {
        Some("\\zxcvbnm,./"@[code - 0x2B])
    } else if code == 0x37 {
        Some('*')
    } else if 0x47 <= code <= 0x53 {
        Some("789-456+1230."@[code - 0x47])
    } else {
        None
    }
}

/// The rows of the layout, spelled out.
pub proof fn lemma_rows()
    ensures
        "1234567890-="@ == seq!['1', '2', '3', '4', '5', '6', '7', '8', '9', '0', '-', '='],
        "qwertyuiop[]"@ == seq!['q', 'w', 'e', 'r', 't', 'y', 'u', 'i', 'o', 'p', '[', ']'],
        "asdfghjkl;'`"@ == seq!['a', 's', 'd', 'f', 'g', 'h', 'j', 'k', 'l', ';', '\'', '`'],
        "\\zxcvbnm,./"@ == seq!['\\', 'z', 'x', 'c', 'v', 'b', 'n', 'm', ',', '.', '/'],
        "789-456+1230."@ == seq!['7', '8', '9', '-', '4', '5', '6', '+', '1', '2', '3', '0', '.'],
{
    reveal_strlit("1234567890-=");
    reveal_strlit("qwertyuiop[]");
    reveal_strlit("asdfghjkl;'`");
    reveal_strlit("\\zxcvbnm,./");
    reveal_strlit("789-456+1230.");
    assert("1234567890-="@ =~= seq!['1', '2', '3', '4', '5', '6', '7', '8', '9', '0', '-', '=']);
    assert("qwertyuiop[]"@ =~= seq!['q', 'w', 'e', 'r', 't', 'y', 'u', 'i', 'o', 'p', '[', ']']);
    assert("asdfghjkl;'`"@ =~= seq!['a', 's', 'd', 'f', 'g', 'h', 'j', 'k', 'l', ';', '\'', '`']);
    assert("\\zxcvbnm,./"@ =~= seq!['\\', 'z', 'x', 'c', 'v', 'b', 'n', 'm', ',', '.', '/']);
    assert("789-456+1230."@ =~= seq![
        '7',
        '8',
        '9',
        '-',
        '4',
        '5',
        '6',
        '+',
        '1',
        '2',
        '3',
        '0',
        '.',
    ]);
}

/// Every key label is an ASCII character.
pub proof fn lemma_labels_are_ascii(code: u8)
    ensures
        key_label(code) matches Some(c) ==> 0 <= c as int && (c as int) < 0x80,
{
    lemma_rows();
}

/// PS/2 scan code **set 1**, **make** code to **unshifted** US 104-key layout character.
///
/// Returns [`None`] for:
/// - Break codes (`>= 0x80`), extended prefix `0xE0`, or the second byte after `0xE0`
/// - Modifiers (Shift/Ctrl/Alt), Caps/Num/Scroll lock, F1-F12, Win/Menu (if present)
/// - Keys with no single Unicode scalar (arrows/Home/etc. usually need the `0xE0` sequence)
///
/// Numpad keys are mapped to their **digit/symbol** labels (`'0'`...`'9'`, `'+'`, `'-'`, `'*'`,
/// `'.'`).
pub fn scancode_to_char(scancode: u8) -> (c: Option<char>)
    ensures
        c == key_label(scancode),
{
    proof {
        lemma_rows();
    }
    match scancode {
        // Escape and whitespace / editing
        0x01 => Some('\x1b'),
        0x0E => Some('\x08'),  // Backspace
        0x0F => Some('\t'),
        0x1C => Some('\n'),  // Enter (main keyboard)
        0x39 => Some(' '),
        // Top row
        0x02 => Some('1'),
        0x03 => Some('2'),
        0x04 => Some('3'),
        0x05 => Some('4'),
        0x06 => Some('5'),
        0x07 => Some('6'),
        0x08 => Some('7'),
        0x09 => Some('8'),
        0x0A => Some('9'),
        0x0B => Some('0'),
        0x0C => Some('-'),
        0x0D => Some('='),
        // QWERTY row
        0x10 => Some('q'),
        0x11 => Some('w'),
        0x12 => Some('e'),
        0x13 => Some('r'),
        0x14 => Some('t'),
        0x15 => Some('y'),
        0x16 => Some('u'),
        0x17 => Some('i'),
        0x18 => Some('o'),
        0x19 => Some('p'),
        0x1A => Some('['),
        0x1B => Some(']'),
        // ASDF row
        0x1E => Some('a'),
        0x1F => Some('s'),
        0x20 => Some('d'),
        0x21 => Some('f'),
        0x22 => Some('g'),
        0x23 => Some('h'),
        0x24 => Some('j'),
        0x25 => Some('k'),
        0x26 => Some('l'),
        0x27 => Some(';'),
        0x28 => Some('\''),
        // Backtick (US), backslash (US ANSI between Enter and Backspace)
        0x29 => Some('`'),
        0x2B => Some('\\'),
        // ZXCV row
        0x2C => Some('z'),
        0x2D => Some('x'),
        0x2E => Some('c'),
        0x2F => Some('v'),
        0x30 => Some('b'),
        0x31 => Some('n'),
        0x32 => Some('m'),
        0x33 => Some(','),
        0x34 => Some('.'),
        0x35 => Some('/'),
        // Numpad
        0x37 => Some('*'),
        0x47 => Some('7'),
        0x48 => Some('8'),
        0x49 => Some('9'),
        0x4A => Some('-'),
        0x4B => Some('4'),
        0x4C => Some('5'),
        0x4D => Some('6'),
        0x4E => Some('+'),
        0x4F => Some('1'),
        0x50 => Some('2'),
        0x51 => Some('3'),
        0x52 => Some('0'),
        0x53 => Some('.'),
        _ => None,
    }
}

/// A break code, the prefix of an extended key, and a modifier print nothing.
pub proof fn law_silent_codes(code: u8)
    requires
        code >= 0x80 || code == 0x1D || code == 0x2A || code == 0x36 || code == 0x38,
    ensures
        key_label(code) is None,
{
}

/// The controller gives a scan code exactly while bit 0 of its status is set and bit 5 is not; then it
/// is the byte at the data port.
pub proof fn law_status_bits(status: u8, data: u8)
    ensures
        status & 1 == 1 && status & 0x20 == 0 ==> key_byte(status, data) == Some(data),
        status & 1 == 0 ==> key_byte(status, data) is None && after_status(status)
            == ScancodeStep::Done(None),
        status & 0x20 == 0x20 ==> key_byte(status, data) is None,
        status & 1 == 1 ==> after_status(status) == ScancodeStep::ReadData,
{
}

/// Every letter of the alphabet has a key, and so has every digit; different letters have different
/// keys.
pub proof fn law_letters_have_keys(a: u8, b: u8)
    ensures
        key_label(a) == key_label(b) && (key_label(a) matches Some(c) && 97 <= c as int && c as int
            <= 122) ==> a == b,
        key_label(0x1e) == Some('a') && key_label(0x30) == Some('b') && key_label(0x2e) == Some('c'),
        key_label(0x20) == Some('d') && key_label(0x12) == Some('e') && key_label(0x21) == Some('f'),
        key_label(0x22) == Some('g') && key_label(0x23) == Some('h') && key_label(0x17) == Some('i'),
        key_label(0x24) == Some('j') && key_label(0x25) == Some('k') && key_label(0x26) == Some('l'),
        key_label(0x32) == Some('m') && key_label(0x31) == Some('n') && key_label(0x18) == Some('o'),
        key_label(0x19) == Some('p') && key_label(0x10) == Some('q') && key_label(0x13) == Some('r'),
        key_label(0x1f) == Some('s') && key_label(0x14) == Some('t') && key_label(0x16) == Some('u'),
        key_label(0x2f) == Some('v') && key_label(0x11) == Some('w') && key_label(0x2d) == Some('x'),
        key_label(0x15) == Some('y') && key_label(0x2c) == Some('z') && key_label(0x39) == Some(' '),
        2 <= a <= 10 ==> (key_label(a) matches Some(c) && c as int == 47 + a),
        key_label(0x0b) == Some('0'),
{
    lemma_rows();
}

/// Codes come out in the order in which they came in, each once: up to 255 codes that come into an empty
/// queue all wait there, the first of them first, and a code beyond that is lost without disturbing
/// them.
pub proof fn law_codes_come_out_in_order(codes: Seq<u8>, b: u8)
    requires
        codes.len() <= 255,
    ensures
        queue_with_all(Seq::empty(), codes) == codes,
        codes.len() > 0 ==> oldest(queue_with_all(Seq::empty(), codes)) == Some(codes[0])
            && queue_without_oldest(queue_with_all(Seq::empty(), codes)) == codes.subrange(
            1,
            codes.len() as int,
        ),
        codes.len() == 0 ==> oldest(queue_with_all(Seq::empty(), codes)) is None,
        codes.len() == 255 ==> queue_with(codes, b) == codes,
        codes.len() < 255 ==> queue_with(codes, b) == codes + seq![b],
    decreases codes.len(),
{
    if codes.len() > 0 {
        law_codes_come_out_in_order(codes.drop_last(), b);
        assert(codes.drop_last().push(codes.last()) =~= codes);
        assert(codes.drop_first() =~= codes.subrange(1, codes.len() as int));
    }
    assert(codes.push(b) =~= codes + seq![b]);
}

/// A code that waits is handed out before any that comes later, and taking one leaves room for one.
pub proof fn law_queue_is_first_in_first_out(queue: Seq<u8>, b: u8)
    requires
        0 < queue.len() <= 255,
    ensures
        oldest(queue_with(queue, b)) == oldest(queue),
        queue_with(queue_without_oldest(queue), b).len() == queue.len(),
        queue_with(queue_without_oldest(queue), b).last() == b,
        queue.len() < 255 ==> queue_without_oldest(queue_with(queue, b)) == queue_with(
            queue_without_oldest(queue),
            b,
        ),
{
    if queue.len() < 255 {
        assert(queue.push(b).drop_first() =~= queue.drop_first().push(b));
    }
}

/// An interrupt queues the byte at the data port exactly if one waits there and is not from the mouse.
pub proof fn law_irq_queues_keyboard_bytes(queue: Seq<u8>, status: u8, data: u8)
    requires
        queue.len() < 255,
    ensures
        status & 1 == 1 && status & 0x20 == 0 ==> queue_after_irq(queue, status, data) == queue + seq![
            data,
        ],
        status & 1 == 0 || status & 0x20 == 0x20 ==> queue_after_irq(queue, status, data) == queue,
{
    law_status_bits(status, data);
    assert(queue.push(data) =~= queue + seq![data]);
}

/// Letting the keyboard through clears bit 1 of the mask and keeps the other seven.
pub proof fn law_unmasking_opens_keyboard(mask: u8)
    ensures
        (keyboard_unmasked(mask) / 2) % 2 == 0,
        keyboard_unmasked(mask) % 2 == mask % 2,
        keyboard_unmasked(mask) / 4 == mask / 4,
{
    assert(((mask & 0xFD) / 2) % 2 == 0 && (mask & 0xFD) % 2 == mask % 2 && (mask & 0xFD) / 4 == mask
        / 4) by (bit_vector);
}

/// The other keys: escape, backspace, tab, enter, punctuation, and the keypad, whose digits stand in rows
/// of three with the higher rows on top. A code that no key of these has is silent.
pub proof fn law_other_keys(code: u8)
    ensures
        key_label(0x01) == Some('\x1b') && key_label(0x0e) == Some('\x08'),
        key_label(0x0f) == Some('\t') && key_label(0x1c) == Some('\n'),
        key_label(0x0c) == Some('-') && key_label(0x0d) == Some('='),
        key_label(0x1a) == Some('[') && key_label(0x1b) == Some(']'),
        key_label(0x27) == Some(';') && key_label(0x28) == Some('\''),
        key_label(0x29) == Some('`') && key_label(0x2b) == Some('\\'),
        key_label(0x33) == Some(',') && key_label(0x34) == Some('.') && key_label(0x35) == Some('/'),
        key_label(0x37) == Some('*') && key_label(0x4a) == Some('-') && key_label(0x4e) == Some('+'),
        0x47 <= code <= 0x49 ==> (key_label(code) matches Some(c) && c as int == '7' as int + (code - 0x47)),
        0x4b <= code <= 0x4d ==> (key_label(code) matches Some(c) && c as int == '4' as int + (code - 0x4b)),
        0x4f <= code <= 0x51 ==> (key_label(code) matches Some(c) && c as int == '1' as int + (code - 0x4f)),
        key_label(0x52) == Some('0') && key_label(0x53) == Some('.'),
        code == 0 || 0x3a <= code <= 0x46 || 0x54 <= code ==> key_label(code) is None,
{
    lemma_rows();
}

} // verus!
