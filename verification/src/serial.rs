//! **COM1** (UART 16550 at `0x3F8`).
//!
//! A [`SerialPort`] collects the bytes to be sent, in order. The machine-facing code takes them with
//! [`SerialPort::take`] and feeds them to the UART one by one, each as soon as
//! [`line_sts_ready`] says that the transmitter is free.

use vstd::prelude::*;
use vstd::utf8::encode_utf8;

use crate::port::PortWrite;

verus! {

/// Base I/O port for the first serial port (`COM1`) on PC/AT compatibles.
pub const COM1_BASE: u16 = 0x3F8;

/// I/O port of the line status register.
pub const LINE_STATUS: u16 = 0x3FD;

/// A serial port and the bytes that it is to send.
pub struct SerialPort {
    base: u16,
    out: Vec<u8>,
}

impl View for SerialPort {
    type V = Seq<u8>;

    /// The bytes to be sent, first byte first.
    closed spec fn view(&self) -> Seq<u8> {
        self.out@
    }
}

/// **8N1**, divisor 3 for ~**38400 baud**, FIFOs on.
pub open spec fn uart_setup(base: u16) -> Seq<PortWrite> {
    seq![
        PortWrite { port: 0x3F9, value: 0x00 },
        PortWrite { port: 0x3FB, value: 0x80 },
        PortWrite { port: base, value: 0x03 },
        PortWrite { port: 0x3F9, value: 0x00 },
        PortWrite { port: 0x3FB, value: 0x03 },
        PortWrite { port: 0x3FA, value: 0xC7 },
        PortWrite { port: 0x3FC, value: 0x0B },
    ]
}

/// Between `before` and `after` just `bytes` were sent.
pub open spec fn sends(before: Seq<u8>, bytes: Seq<u8>, after: Seq<u8>) -> bool {
    after =~= before + bytes
}

impl SerialPort {
    /// I/O port of the data register.
    pub closed spec fn data_port(&self) -> u16 {
        self.base
    }

    pub fn new(base: u16) -> (p: SerialPort)
        ensures
            p@ == Seq::<u8>::empty(),
            p.data_port() == base,
    {
        SerialPort { base, out: Vec::new() }
    }

    /// The register writes that program **8N1**, divisor for ~**38400 baud**.
    pub fn init(&self) -> (writes: [PortWrite; 7])
        ensures
            writes@ == uart_setup(self.data_port()),
    {
        let writes: [PortWrite; 7] = [
            PortWrite { port: 0x3F9, value: 0x00 },
            PortWrite { port: 0x3FB, value: 0x80 },
            PortWrite { port: self.base, value: 0x03 },
            PortWrite { port: 0x3F9, value: 0x00 },
            PortWrite { port: 0x3FB, value: 0x03 },
            PortWrite { port: 0x3FA, value: 0xC7 },
            PortWrite { port: 0x3FC, value: 0x0B },
        ];
        assert(writes@ =~= uart_setup(self.data_port()));
        writes
    }

    /// Sends a byte.
    pub fn send_raw(&mut self, byte: u8)
        ensures
            final(self)@ == old(self)@.push(byte),
            final(self).data_port() == old(self).data_port(),
            sends(old(self)@, seq![byte], final(self)@),
    {
        self.out.push(byte);
    }

    /// Sends the UTF-8 bytes of a text.
    pub fn write_str(&mut self, s: &str)
        ensures
            final(self)@ == old(self)@ + encode_utf8(s@),
            final(self).data_port() == old(self).data_port(),
            sends(old(self)@, encode_utf8(s@), final(self)@),
    {
        write_bytes(self, s.as_bytes());
    }

    /// Hands over the bytes to be sent; none are left.
    pub fn take(&mut self) -> (bytes: Vec<u8>)
        ensures
            bytes@ == old(self)@,
            final(self)@ == Seq::<u8>::empty(),
            final(self).data_port() == old(self).data_port(),
    {
        let mut bytes: Vec<u8> = Vec::new();
        std::mem::swap(&mut bytes, &mut self.out);
        bytes
    }
}

/// The transmitter takes a byte.
pub open spec fn transmitter_empty(status: u8) -> bool {
    status & 0x20 != 0
}

/// Returns true if the line status says that the transmitter can take a byte.
pub fn line_sts_ready(status: u8) -> (ready: bool)
    ensures
        ready == (status & 0x20 != 0),
        ready == transmitter_empty(status),
{
    status & 0x20 != 0
}

/// The register writes that bring COM1 up. Nothing is sent before them.
pub fn init(port: &SerialPort) -> (writes: [PortWrite; 7])
    ensures
        writes@ == uart_setup(port.data_port()),
{
    port.init()
}

/// Send a single raw byte (e.g. control codes).
pub fn write_byte(port: &mut SerialPort, b: u8)
    ensures
        final(port)@ == old(port)@.push(b),
        final(port).data_port() == old(port).data_port(),
        sends(old(port)@, seq![b], final(port)@),
{
    port.send_raw(b);
}

/// Raw bytes to COM1 (used by `write` syscall path).
pub fn write_bytes(port: &mut SerialPort, bytes: &[u8])
    ensures
        final(port)@ == old(port)@ + bytes@,
        final(port).data_port() == old(port).data_port(),
        sends(old(port)@, bytes@, final(port)@),
{
    let mut i: usize = 0;
    assert(port@ =~= old(port)@ + bytes@.take(0));
    while i < bytes.len()
        invariant
            i <= bytes@.len(),
            port@ == old(port)@ + bytes@.take(i as int),
            port.data_port() == old(port).data_port(),
        decreases bytes@.len() - i,
    {
        port.send_raw(bytes[i]);
        i = i + 1;
        assert(port@ =~= old(port)@ + bytes@.take(i as int));
    }
    assert(bytes@.take(i as int) =~= bytes@);
}

/// A hexadecimal digit in ASCII, letters in lower case.
pub open spec fn hex_digit(d: int) -> u8 {
    if d < 10 {
        (0x30 + d) as u8
    } else {
        (0x61 + d - 10) as u8
    }
}

/// The hexadecimal digits of `n`, without leading zeros; 0 is one digit.
pub open spec fn hex_digits(n: int) -> Seq<u8>
    decreases n,
{
    if n < 16 {
        seq![hex_digit(n)]
    } else {
        hex_digits(n / 16).push(hex_digit(n % 16))
    }
}

/// `n` with the prefix `0x`.
pub open spec fn hex_text(n: u64) -> Seq<u8> {
    seq![0x30u8, 0x78] + hex_digits(n as int)
}

/// Lock-free friendly logging for fault handlers: `n` in hexadecimal.
pub fn debug_hex_u64(port: &mut SerialPort, n: u64)
    ensures
        final(port)@ == old(port)@ + hex_text(n),
        final(port).data_port() == old(port).data_port(),
{
    write_byte(port, 0x30);
    write_byte(port, 0x78);
    let mut rev: Vec<u8> = Vec::new();
    let mut v: u64 = n;
    while v >= 16
        invariant
            hex_digits(n as int) == hex_digits(v as int) + rev@.reverse(),
        decreases v,
    {
        let d: u8 = (v % 16) as u8;
        let ghost before = rev@;
        rev.push(
            if d < 10 {
                0x30 + d
            } else {
                0x61 + d - 10
            },
        );
        proof {
            assert(rev@.reverse() =~= seq![rev@.last()] + before.reverse());
            assert(hex_digits((v / 16) as int).push(rev@.last()) + before.reverse() =~= hex_digits(
                (v / 16) as int,
            ) + rev@.reverse());
        }
        v = v / 16;
    }
    let d: u8 = v as u8;
    rev.push(
        if d < 10 {
            0x30 + d
        } else {
            0x61 + d - 10
        },
    );
    assert(hex_digits(n as int) =~= rev@.reverse());
    let mut i: usize = rev.len();
    let ghost start = port@;
    while i > 0
        invariant
            i <= rev@.len(),
            port@ == start + rev@.reverse().take(rev@.len() - i),
            port.data_port() == old(port).data_port(),
        decreases i,
    {
        i = i - 1;
        write_byte(port, rev[i]);
        assert(port@ =~= start + rev@.reverse().take(rev@.len() - i));
    }
    assert(port@ =~= old(port)@ + hex_text(n));
}

/// Sends a text.
pub fn write_fmt(port: &mut SerialPort, text: &str)
    ensures
        final(port)@ == old(port)@ + encode_utf8(text@),
        final(port).data_port() == old(port).data_port(),
        sends(old(port)@, encode_utf8(text@), final(port)@),
{
    port.write_str(text);
}

/// Sends a text and ends the line with carriage return and newline.
pub fn write_line_fmt(port: &mut SerialPort, text: &str)
    ensures
        final(port)@ == old(port)@ + encode_utf8(text@) + seq![0x0du8, 0x0a],
        final(port).data_port() == old(port).data_port(),
        sends(old(port)@, encode_utf8(text@) + seq![0x0du8, 0x0a], final(port)@),
{
    port.write_str(text);
    port.send_raw(0x0d);
    port.send_raw(0x0a);
    assert(port@ =~= old(port)@ + encode_utf8(text@) + seq![0x0du8, 0x0a]);
}

/// Different numbers have different texts.
pub proof fn law_hex_is_injective(a: int, b: int)
    requires
        0 <= a,
        0 <= b,
        hex_digits(a) == hex_digits(b),
    ensures
        a == b,
    decreases a,
{
    lemma_hex_len(a);
    lemma_hex_len(b);
    if a >= 16 && b >= 16 {
        let x = hex_digits(a / 16);
        let y = hex_digits(b / 16);
        assert(x =~= hex_digits(a).drop_last());
        assert(y =~= hex_digits(b).drop_last());
        assert(hex_digits(a).last() == hex_digit(a % 16));
        assert(hex_digits(b).last() == hex_digit(b % 16));
        lemma_digit_is_injective(a % 16, b % 16);
        law_hex_is_injective(a / 16, b / 16);
    } else if a < 16 && b < 16 {
        assert(hex_digits(a)[0] == hex_digit(a));
        assert(hex_digits(b)[0] == hex_digit(b));
        lemma_digit_is_injective(a, b);
    }
}

proof fn lemma_digit_is_injective(a: int, b: int)
    requires
        0 <= a < 16,
        0 <= b < 16,
        hex_digit(a) == hex_digit(b),
    ensures
        a == b,
{
}

proof fn lemma_hex_len(n: int)
    requires
        0 <= n,
    ensures
        hex_digits(n).len() >= 1,
        n >= 16 ==> hex_digits(n).len() >= 2,
        n < 16 ==> hex_digits(n).len() == 1,
    decreases n,
{
    if n >= 16 {
        lemma_hex_len(n / 16);
    }
}

/// The number that hexadecimal digits spell.
pub open spec fn hex_value(digits: Seq<u8>) -> int
    decreases digits.len(),
{
    if digits.len() == 0 {
        0
    } else {
        let d = digits.last();
        16 * hex_value(digits.drop_last()) + if 0x30 <= d <= 0x39 {
            d - 0x30
        } else {
            d - 0x61 + 10
        }
    }
}

/// The digits of a number spell it, are lower-case hexadecimal digits, and do not start with a zero
/// unless the number is zero; the text has `0x` in front of them.
pub proof fn law_hex_spells_number(n: u64)
    ensures
        hex_text(n).len() >= 3,
        hex_text(n)[0] == 0x30 && hex_text(n)[1] == 0x78,
        hex_value(hex_text(n).skip(2)) == n,
        n > 0 ==> hex_text(n)[2] != 0x30,
        n == 0 ==> hex_text(n).len() == 3,
        forall|i: int|
            2 <= i < hex_text(n).len() ==> 0x30 <= #[trigger] hex_text(n)[i] <= 0x39 || 0x61
                <= hex_text(n)[i] <= 0x66,
{
    lemma_hex_value(n as int);
    assert(hex_text(n).skip(2) =~= hex_digits(n as int));
    assert forall|i: int| 2 <= i < hex_text(n).len() implies 0x30 <= #[trigger] hex_text(n)[i] <= 0x39
        || 0x61 <= hex_text(n)[i] <= 0x66 by {
        assert(hex_text(n)[i] == hex_digits(n as int)[i - 2]);
    }
    assert(hex_text(n)[2] == hex_digits(n as int)[0]);
}

proof fn lemma_hex_value(n: int)
    requires
        0 <= n,
    ensures
        hex_digits(n).len() >= 1,
        hex_value(hex_digits(n)) == n,
        n > 0 ==> hex_digits(n)[0] != 0x30,
        n < 16 ==> hex_digits(n).len() == 1,
        forall|i: int|
            0 <= i < hex_digits(n).len() ==> 0x30 <= #[trigger] hex_digits(n)[i] <= 0x39 || 0x61
                <= hex_digits(n)[i] <= 0x66,
    decreases n,
{
    reveal_with_fuel(hex_value, 2);
    let d = hex_digits(n);
    if n < 16 {
        assert(d.drop_last() =~= Seq::empty());
        assert(d.last() == hex_digit(n));
    } else {
        lemma_hex_value(n / 16);
        assert(d.drop_last() =~= hex_digits(n / 16));
        assert(d.last() == hex_digit(n % 16));
    }
}

/// A byte may be sent when bit 5 of the line status is set, whatever the other bits are.
pub proof fn law_transmitter_bit(status: u8)
    ensures
        transmitter_empty(status) <==> (status / 32) % 2 == 1,
{
    assert((status & 0x20 != 0) == ((status / 32) % 2 == 1)) by (bit_vector);
}

/// What is sent comes behind what was sent before, byte for byte and in order.
pub proof fn law_bytes_are_sent_in_order(before: Seq<u8>, bytes: Seq<u8>, after: Seq<u8>, i: int)
    requires
        sends(before, bytes, after),
    ensures
        after.len() == before.len() + bytes.len(),
        0 <= i < before.len() ==> after[i] == before[i],
        0 <= i < bytes.len() ==> after[before.len() + i] == bytes[i],
{
}

/// The port's interrupts are off before anything else is set. While the top bit of the line control
/// register is set, the data port and the one above it take the low and the high byte of the divisor of
/// 115200, which makes it 38400 baud; then that bit is cleared for 8 data bits, no parity and one stop
/// bit.
pub proof fn law_port_setup_order(base: u16)
    ensures
        uart_setup(base).len() == 7,
        uart_setup(base)[0] == (PortWrite { port: 0x3F9, value: 0 }),
        uart_setup(base)[1] == (PortWrite { port: 0x3FB, value: 128 }),
        uart_setup(base)[2].port == base && uart_setup(base)[3].port == 0x3F9,
        (uart_setup(base)[2].value + 256 * uart_setup(base)[3].value) * 38400 == 115200,
        uart_setup(base)[4] == (PortWrite { port: 0x3FB, value: 3 }),
        uart_setup(base)[5] == (PortWrite { port: 0x3FA, value: 0xC7 }),
        uart_setup(base)[6] == (PortWrite { port: 0x3FC, value: 0x0B }),
{
}

} // verus!
