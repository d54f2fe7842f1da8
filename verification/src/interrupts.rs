//! 8259 PIC remap, the timer tick, and what fault handlers report.

use vstd::prelude::*;
use vstd::utf8::encode_utf8;

use crate::keyboard::{
    handle_keyboard_irq, key_byte, queue_after_irq, ScancodeQueue, SCANCODE_BUF_SIZE,
};
use crate::port::PortWrite;
use crate::scheduler::{after_tick, on_timer_tick, Scheduler, SchedulerSpec};
use crate::serial::{debug_hex_u64, hex_text, write_fmt, SerialPort};
use crate::tty::{feed_from_irq, TtySpec, TtyState};

verus! {

pub const PIC1_CMD: u16 = 0x20;

pub const PIC1_DATA: u16 = 0x21;

pub const PIC2_CMD: u16 = 0xA0;

pub const PIC2_DATA: u16 = 0xA1;

/// A write to this port takes long enough for the PIC to settle.
pub const WAIT_PORT: u16 = 0x80;

/// IRQ0 goes to vector `0x20` after remap (master PIC offset).
pub const PIC_1_OFFSET: u8 = 0x20;

/// Tells a PIC that the interrupt has been handled.
pub const END_OF_INTERRUPT: u8 = 0x20;

/// Monotonic counter incremented on each **IRQ0** (PIT) interrupt.
///
/// Rate is set by [`crate::pit::TIMER_HZ`] (default ~100 Hz).
#[derive(Clone, Copy, Debug)]
pub struct Clock {
    pub ticks: u64,
}

impl Clock {
    pub fn new() -> (c: Clock)
        ensures
            c.ticks == 0,
    {
        Clock { ticks: 0 }
    }
}

/// Snapshot of the tick counter.
pub fn ticks(c: &Clock) -> (n: u64)
    ensures
        n == c.ticks,
{
    c.ticks
}

/// At least `n` ticks have passed since `start`.
pub open spec fn has_waited(ticks: u64, start: u64, n: u64) -> bool {
    n == 0 || ticks - start >= n
}

/// Returns true once at least `n` ticks have passed since `start`. Until then the caller idles.
pub fn wait_ticks(c: &Clock, start: u64, n: u64) -> (over: bool)
    ensures
        over <==> n == 0 || c.ticks - start >= n,
        over == has_waited(c.ticks, start, n),
{
    c.ticks.saturating_sub(start) >= n
}

/// The tick count after one more tick.
pub open spec fn next_tick(ticks: u64) -> u64 {
    if ticks == u64::MAX {
        0
    } else {
        (ticks + 1) as u64
    }
}

/// What a timer interrupt does to the tick count and to the scheduler.
pub open spec fn timer_ticks(ticks: u64, s: SchedulerSpec, ticks2: u64, s2: SchedulerSpec) -> bool {
    ticks2 == next_tick(ticks) && s2 == after_tick(s, ticks2)
}

/// IRQ0: counts the tick and tells the scheduler.
pub fn timer_interrupt_handler(c: &mut Clock, s: &mut Scheduler)
    ensures
        final(c).ticks == next_tick(old(c).ticks),
        final(s)@ == after_tick(old(s)@, next_tick(old(c).ticks)),
        old(s)@.wf() ==> final(s)@.wf(),
        timer_ticks(old(c).ticks, old(s)@, final(c).ticks, final(s)@),
{
    c.ticks = c.ticks.wrapping_add(1);
    on_timer_tick(s, c.ticks);
}

/// The terminal after a keyboard interrupt.
pub open spec fn terminal_after_irq(tty: TtySpec, status: u8, data: u8) -> TtySpec {
    match key_byte(status, data) {
        Some(b) => tty.fed(b),
        None => tty,
    }
}

/// IRQ1, with the status of the keyboard controller and the byte at its data port: a keyboard byte
/// is queued and goes to the terminal; a mouse byte is dropped, and so is what the port shows while
/// no byte waits.
pub fn keyboard_interrupt_handler(q: &mut ScancodeQueue, tty: &mut TtyState, status: u8, data: u8)
    requires
        old(q).wf(),
    ensures
        final(q).wf(),
        old(tty)@.wf() ==> final(tty)@.wf(),
        match key_byte(status, data) {
            Some(b) => {
                &&& final(q)@ == (if old(q)@.len() < SCANCODE_BUF_SIZE - 1 {
                    old(q)@.push(b)
                } else {
                    old(q)@
                })
                &&& final(tty)@ == old(tty)@.fed(b)
            },
            None => {
                &&& final(q)@ == old(q)@
                &&& final(tty)@ == old(tty)@
            },
        },
        final(q)@ == queue_after_irq(old(q)@, status, data),
        final(tty)@ == terminal_after_irq(old(tty)@, status, data),
{
    match handle_keyboard_irq(q, status, data) {
        Some(b) => {
            feed_from_irq(tty, b);
        },
        None => {},
    }
}

/// The hardware interrupts that the kernel handles.
#[derive(Clone, Copy, Debug, PartialEq, Eq, Structural)]
pub enum InterruptIndex {
    Timer,
    Keyboard,
}

/// The vector of an interrupt.
pub open spec fn vector_of(index: InterruptIndex) -> int {
    match index {
        InterruptIndex::Timer => PIC_1_OFFSET as int,
        InterruptIndex::Keyboard => PIC_1_OFFSET + 1,
    }
}

impl InterruptIndex {
    /// The vector of the interrupt.
    pub fn as_usize(self) -> (vector: usize)
        ensures
            vector == (match self {
                InterruptIndex::Timer => PIC_1_OFFSET as int,
                InterruptIndex::Keyboard => PIC_1_OFFSET + 1,
            }),
            vector == vector_of(self),
    {
        match self {
            InterruptIndex::Timer => 0x20,
            InterruptIndex::Keyboard => 0x21,
        }
    }
}

/// A write that is followed by a pause.
pub open spec fn slow_write(port: u16, value: u8) -> Seq<PortWrite> {
    seq![PortWrite { port, value }, PortWrite { port: WAIT_PORT, value: 0 }]
}

/// Both PICs are initialized (vectors `0x20` and `0x28`, slave on line 2, 8086 mode) and all their
/// lines are masked.
pub open spec fn pic_setup() -> Seq<PortWrite> {
    slow_write(PIC1_CMD, 0x11) + slow_write(PIC2_CMD, 0x11) + slow_write(PIC1_DATA, PIC_1_OFFSET)
        + slow_write(PIC2_DATA, 0x28) + slow_write(PIC1_DATA, 0x04) + slow_write(PIC2_DATA, 0x02)
        + slow_write(PIC1_DATA, 0x01) + slow_write(PIC2_DATA, 0x01) + slow_write(PIC1_DATA, 0xFF)
        + slow_write(PIC2_DATA, 0xFF)
}

fn push_slow(writes: &mut Vec<PortWrite>, port: u16, value: u8)
    ensures
        final(writes)@ == old(writes)@ + slow_write(port, value),
{
    writes.push(PortWrite { port, value });
    writes.push(PortWrite { port: WAIT_PORT, value: 0 });
    assert(writes@ =~= old(writes)@ + slow_write(port, value));
}

/// The writes that remap master/slave PICs to vectors `0x20`-`0x2F` and mask all IRQ lines.
pub fn init_pic() -> (writes: Vec<PortWrite>)
    ensures
        writes@ == pic_setup(),
{
    let mut w: Vec<PortWrite> = Vec::new();
    // ICW1: init + ICW4 needed
    push_slow(&mut w, PIC1_CMD, 0x11);
    push_slow(&mut w, PIC2_CMD, 0x11);
    // ICW2: vector offsets
    push_slow(&mut w, PIC1_DATA, PIC_1_OFFSET);
    push_slow(&mut w, PIC2_DATA, PIC_1_OFFSET + 8);
    // ICW3: master has slave on IRQ2; slave has cascade identity
    push_slow(&mut w, PIC1_DATA, 0b0000_0100);
    push_slow(&mut w, PIC2_DATA, 2);
    // ICW4: 8086 mode
    push_slow(&mut w, PIC1_DATA, 0x01);
    push_slow(&mut w, PIC2_DATA, 0x01);
    // Mask everything until specific IRQs are enabled
    push_slow(&mut w, PIC1_DATA, 0xFF);
    push_slow(&mut w, PIC2_DATA, 0xFF);
    assert(w@ =~= pic_setup());
    w
}

/// The mask of the first controller with the timer and the keyboard let through.
pub open spec fn unmasked(mask: u8) -> u8 {
    mask & 0xFC
}

/// The mask that lets **IRQ0** (PIT) and **IRQ1** (keyboard) through and leaves the other lines as
/// they are.
pub fn unmask_timer_and_keyboard(mask: u8) -> (new_mask: u8)
    ensures
        new_mask == mask & 0xFC,
        new_mask == unmasked(mask),
{
    mask & 0xFC
}

/// The bytes of a report with one value: a label and the value.
pub open spec fn field(label: Seq<char>, value: u64) -> Seq<u8> {
    encode_utf8(label) + hex_text(value)
}

fn write_field(port: &mut SerialPort, label: &str, value: u64)
    ensures
        final(port)@ == old(port)@ + field(label@, value),
        final(port).data_port() == old(port).data_port(),
{
    write_fmt(port, label);
    debug_hex_u64(port, value);
    assert(port@ =~= old(port)@ + field(label@, value));
}

/// Reports a double fault.
pub fn double_fault_handler(port: &mut SerialPort, error_code: u64, rip: u64)
    ensures
        final(port)@ == old(port)@ + field("\r\n!! double fault err="@, error_code) + field(
            " rip="@,
            rip,
        ) + encode_utf8("\r\n"@),
        final(port).data_port() == old(port).data_port(),
{
    write_field(port, "\r\n!! double fault err=", error_code);
    write_field(port, " rip=", rip);
    write_fmt(port, "\r\n");
}

/// Reports a page fault.
pub fn page_fault_handler(port: &mut SerialPort, cr2: u64, error: u64, rip: u64)
    ensures
        final(port)@ == old(port)@ + field("\r\n!! #PF cr2="@, cr2) + field(" err="@, error) + field(
            " rip="@,
            rip,
        ) + encode_utf8("\r\n"@),
        final(port).data_port() == old(port).data_port(),
{
    write_field(port, "\r\n!! #PF cr2=", cr2);
    write_field(port, " err=", error);
    write_field(port, " rip=", rip);
    write_fmt(port, "\r\n");
}

/// Reports a general protection fault.
pub fn gpf_handler(port: &mut SerialPort, error: u64, rip: u64)
    ensures
        final(port)@ == old(port)@ + field("\r\n!! #GP err="@, error) + field(" rip="@, rip)
            + encode_utf8("\r\n"@),
        final(port).data_port() == old(port).data_port(),
{
    write_field(port, "\r\n!! #GP err=", error);
    write_field(port, " rip=", rip);
    write_fmt(port, "\r\n");
}

/// Unmasking lets exactly the timer and the keyboard through: their two lines are open, and the
/// others are as they were.
pub proof fn law_unmask_opens_two_lines(mask: u8)
    ensures
        mask & 0xFC & 1 == 0,
        mask & 0xFC & 2 == 0,
        (mask & 0xFC) & 0xFC == mask & 0xFC,
        (mask & 0xFC) | (mask & 3) == mask,
{
    assert(mask & 0xFC & 1 == 0) by (bit_vector);
    assert(mask & 0xFC & 2 == 0) by (bit_vector);
    assert((mask & 0xFC) & 0xFC == mask & 0xFC) by (bit_vector);
    assert((mask & 0xFC) | (mask & 3) == mask) by (bit_vector);
}

/// Each tick counts one; only the last number is followed by 0.
pub proof fn law_ticks_count_up(ticks: u64)
    ensures
        ticks < u64::MAX ==> next_tick(ticks) == ticks + 1,
        ticks == u64::MAX ==> next_tick(ticks) == 0,
{
}

/// The PICs are set up with every write followed by a pause, in the order of the initialization
/// command words: both start, vectors `0x20` and `0x28`, the cascade on line 2, 8086 mode; and both end
/// fully masked.
pub proof fn law_pic_setup_order(i: int)
    requires
        0 <= i < 10,
    ensures
        pic_setup().len() == 20,
        pic_setup()[2 * i + 1] == (PortWrite { port: 0x80, value: 0 }),
        pic_setup()[2 * i].port == (if i % 2 == 0 {
            if i == 0 {
                0x20
            } else {
                0x21int
            }
        } else {
            if i == 1 {
                0xa0
            } else {
                0xa1int
            }
        }),
        i < 2 ==> pic_setup()[2 * i].value == 0x11,
        i == 2 ==> pic_setup()[2 * i].value == 0x20,
        i == 3 ==> pic_setup()[2 * i].value == 0x28,
        i == 4 ==> pic_setup()[2 * i].value == 4,
        i == 5 ==> pic_setup()[2 * i].value == 2,
        i == 6 || i == 7 ==> pic_setup()[2 * i].value == 1,
        i >= 8 ==> pic_setup()[2 * i].value == 0xff,
{
}

/// A report names its value: the label, then `0x` and digits that spell the value.
pub proof fn law_report_spells_value(label: Seq<char>, value: u64)
    ensures
        ({
            let f = field(label, value);
            let n = encode_utf8(label).len() as int;
            &&& f.take(n) == encode_utf8(label)
            &&& f.len() > n + 2
            &&& f[n] == 0x30 && f[n + 1] == 0x78
            &&& crate::serial::hex_value(f.skip(n + 2)) == value
        }),
{
    let f = field(label, value);
    let n = encode_utf8(label).len() as int;
    crate::serial::law_hex_spells_number(value);
    assert(f.take(n) =~= encode_utf8(label));
    assert(f.skip(n + 2) =~= hex_text(value).skip(2));
    assert(f[n] == hex_text(value)[0] && f[n + 1] == hex_text(value)[1]);
}

/// A timer interrupt counts one tick, and the scheduler sees the new count: whoever sleeps until exactly
/// that tick wakes, and whoever sleeps longer does not.
pub proof fn law_timer_wakes_at_new_count(
    ticks: u64,
    s: SchedulerSpec,
    ticks2: u64,
    s2: SchedulerSpec,
    i: int,
)
    requires
        timer_ticks(ticks, s, ticks2, s2),
        ticks < u64::MAX,
        s.queues is Some,
        0 <= i < s.sleepers.len(),
    ensures
        ticks2 == ticks + 1,
        s.sleepers[i].until <= ticks + 1 ==> crate::scheduler::known(
            s2.queues->0,
            s.sleepers[i].slot,
        ),
        s.sleepers[i].until > ticks + 1 ==> s2.sleepers.contains(s.sleepers[i]),
        ticks + 1 - s.queues->0.last_started_tick >= s.queues->0.time_slice_ticks ==> s2.need_resched,
{
    crate::scheduler::law_tick_wakes_exactly_the_due(s, ticks2, i);
    crate::scheduler::law_slice_end_asks_for_switch(s, ticks2);
}

/// A wait for `n` ticks is over `n` ticks after its start and not one before, and stays over.
pub proof fn law_wait_lasts_n_ticks(start: u64, n: u64, ticks: u64, later: u64)
    requires
        start <= ticks <= later,
    ensures
        has_waited(ticks, start, n) <==> ticks - start >= n,
        has_waited(ticks, start, n) ==> has_waited(later, start, n),
{
}

/// A keyboard byte reaches the terminal exactly if one waits at the controller and is not from the
/// mouse, whether or not the queue has room for it.
pub proof fn law_keyboard_bytes_reach_terminal(tty: TtySpec, status: u8, data: u8)
    ensures
        status & 1 == 1 && status & 0x20 == 0 ==> terminal_after_irq(tty, status, data) == tty.fed(data),
        status & 1 == 0 || status & 0x20 == 0x20 ==> terminal_after_irq(tty, status, data) == tty,
{
    crate::keyboard::law_status_bits(status, data);
}

/// Unmasking clears the two lowest bits of the mask, the timer's and the keyboard's, and keeps the other
/// six.
pub proof fn law_unmasking_opens_timer_and_keyboard(mask: u8)
    ensures
        unmasked(mask) % 4 == 0,
        unmasked(mask) / 4 == mask / 4,
{
    assert((mask & 0xFC) % 4 == 0 && (mask & 0xFC) / 4 == mask / 4) by (bit_vector);
}

/// The vectors of the controllers' lines stand behind the 32 of the processor's own exceptions, the timer
/// first and the keyboard next to it.
pub proof fn law_vectors_follow_exceptions(index: InterruptIndex)
    ensures
        vector_of(index) >= 32,
        vector_of(InterruptIndex::Timer) == 32,
        vector_of(InterruptIndex::Keyboard) == vector_of(InterruptIndex::Timer) + 1,
{
}

} // verus!
