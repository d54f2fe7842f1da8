//! What the kernel tries out while it boots: the frame allocator and the keyboard.

use vstd::prelude::*;
use vstd::utf8::encode_utf8;

use crate::keyboard::{key_label, lemma_labels_are_ascii, scancode_to_char};
use crate::memory::{
    allocate_frame, deallocate_frame, free_frames, takes_lowest, PhysicalMemory, PAGE_SIZE,
};
use crate::pit::TIMER_HZ;
use crate::serial::{hex_digit, SerialPort};
use crate::vga::{print_bytes, print_line, screen_of, with_bytes, with_line, VgaWriter};

verus! {

/// Seconds during which the keyboard is echoed.
pub const KEYBOARD_SECONDS: u64 = 5;

/// What the frame allocation test saw.
#[derive(Clone, Copy, Debug, PartialEq, Eq, Structural)]
pub struct FrameTest {
    pub first: u64,
    pub second: u64,
    pub free_before: u64,
    pub free_during: u64,
    pub free_after: u64,
}

/// Takes two frames and gives them back. With fewer than two free frames there is no test, and a
/// single frame stays taken.
pub fn frame_alloc_test(m: &mut PhysicalMemory) -> (test: Option<FrameTest>)
    requires
        old(m).wf(),
    ensures
        final(m).wf(),
        final(m).offset == old(m).offset,
        match test {
            Some(t) => {
                let a = t.first as int / PAGE_SIZE as int;
                let b = t.second as int / PAGE_SIZE as int;
                &&& final(m).free() == old(m).free()
                &&& takes_lowest(old(m).free(), a, old(m).free().remove(a))
                &&& takes_lowest(old(m).free().remove(a), b, old(m).free().remove(a).remove(b))
                &&& t.first % PAGE_SIZE == 0
                &&& t.second % PAGE_SIZE == 0
                &&& t.free_before == old(m).free().len()
                &&& t.free_during == old(m).free().len() - 2
                &&& t.free_after == t.free_before
            },
            None => {
                &&& final(m).free() == Set::<int>::empty()
                &&& old(m).free() == final(m).free() || exists|i: int|
                    takes_lowest(old(m).free(), i, final(m).free())
            },
        },
{
    proof {
        if let Some(fa) = &m.allocator {
            fa.lemma_free_frames();
        }
    }
    let free_before: u64 = free_frames(m);
    let f1 = allocate_frame(m);
    let ghost mid = m.free();
    let f2 = allocate_frame(m);
    match (f1, f2) {
        (Some(first), Some(second)) => {
            let free_during: u64 = free_frames(m);
            deallocate_frame(m, first);
            deallocate_frame(m, second);
            let ghost a = first as int / PAGE_SIZE as int;
            let ghost b = second as int / PAGE_SIZE as int;
            proof {
                assert(old(m).free().contains(a));
                assert(mid.contains(b));
                assert(old(m).free().contains(b));
                assert(m.free() =~= old(m).free());
            }
            let free_after: u64 = free_frames(m);
            Some(FrameTest { first, second, free_before, free_during, free_after })
        },
        _ => None,
    }
}

/// The tick at which an echo that starts at `now` ends.
pub open spec fn echo_end(now: u64) -> int {
    now + TIMER_HZ * KEYBOARD_SECONDS
}

/// The keyboard is echoed at tick `now` of an echo that ends at `until`.
pub open spec fn echoes(now: u64, until: int) -> bool {
    now < until
}

/// The tick at which the keyboard echo ends.
pub fn keyboard_until(now: u64) -> (until: u64)
    requires
        now + TIMER_HZ * KEYBOARD_SECONDS <= u64::MAX,
    ensures
        until == now + TIMER_HZ * KEYBOARD_SECONDS,
        until == echo_end(now),
{
    now + TIMER_HZ as u64 * KEYBOARD_SECONDS
}

/// Returns true while the keyboard is echoed.
pub fn keyboard_is_echoed(now: u64, until: u64) -> (echoed: bool)
    ensures
        echoed <==> now < until,
        echoed <==> echoes(now, until as int),
{
    now < until
}

/// Two hexadecimal digits.
pub open spec fn hex_pair(b: u8) -> Seq<u8> {
    seq![hex_digit(b as int / 16), hex_digit(b as int % 16)]
}

/// The line that shows a scan code without a character.
pub open spec fn raw_line(code: u8) -> Seq<u8> {
    encode_utf8("raw 0x"@) + hex_pair(code)
}

fn digit(d: u8) -> (c: u8)
    requires
        d < 16,
    ensures
        c == hex_digit(d as int),
{
    if d < 10 {
        0x30 + d
    } else {
        0x61 + (d - 10)
    }
}

/// The bytes that a key sends to the serial port when it is echoed.
pub open spec fn echo_of(code: u8) -> Seq<u8> {
    match key_label(code) {
        Some(c) => seq![c as u8],
        None => raw_line(code) + seq![0x0du8, 0x0a],
    }
}

/// Echoes a key: its character, or a line with its raw scan code.
pub fn echo_scancode<'a>(screen: &mut Option<VgaWriter<'a>>, port: &mut SerialPort, code: u8)
    requires
        screen_of(*old(screen)) matches Some(s) ==> s.wf(),
    ensures
        screen_of(*final(screen)) matches Some(s) ==> s.wf(),
        *old(screen) matches Some(w) ==> (*final(screen) matches Some(f) && *final(f.buffer)
            == *final(w.buffer)),
        final(port).data_port() == old(port).data_port(),
        match key_label(code) {
            Some(c) => {
                &&& screen_of(*final(screen)) == with_bytes(
                    screen_of(*old(screen)),
                    seq![c as u8],
                )
                &&& final(port)@ == old(port)@ + seq![c as u8]
            },
            None => {
                &&& screen_of(*final(screen)) == with_line(screen_of(*old(screen)), raw_line(code))
                &&& final(port)@ == old(port)@ + raw_line(code) + seq![0x0du8, 0x0a]
            },
        },
        final(port)@ == old(port)@ + echo_of(code),
{
    match scancode_to_char(code) {
        Some(c) => {
            proof {
                lemma_labels_are_ascii(code);
            }
            let byte: [u8; 1] = [c as u8];
            assert(byte@ =~= seq![c as u8]);
            print_bytes(screen, port, &byte);
        },
        None => {
            let mut line: Vec<u8> = Vec::new();
            line.extend_from_slice("raw 0x".as_bytes());
            line.push(digit(code / 16));
            line.push(digit(code % 16));
            assert(line@ =~= raw_line(code));
            print_line(screen, port, &line);
            assert(port@ =~= old(port)@ + echo_of(code));
        },
    }
}

/// A scan code without a character is shown as two hexadecimal digits that spell it.
pub proof fn law_raw_code_is_spelled(code: u8)
    ensures
        hex_pair(code).len() == 2,
        crate::serial::hex_value(hex_pair(code)) == code,
        raw_line(code).len() == encode_utf8("raw 0x"@).len() + 2,
        raw_line(code).skip(encode_utf8("raw 0x"@).len() as int) == hex_pair(code),
{
    reveal_with_fuel(crate::serial::hex_value, 3);
    let p = hex_pair(code);
    assert(p.drop_last() =~= seq![hex_digit(code as int / 16)]);
    assert(p.drop_last().drop_last() =~= Seq::empty());
    assert(raw_line(code).skip(encode_utf8("raw 0x"@).len() as int) =~= p);
}

/// A key with a character is echoed as that one ASCII byte; any other as a line that spells its code and
/// ends with carriage return and newline.
pub proof fn law_key_is_echoed(code: u8)
    ensures
        key_label(code) matches Some(c) ==> echo_of(code).len() == 1 && echo_of(code)[0] == c as int,
        key_label(code) is None ==> {
            let n = encode_utf8("raw 0x"@).len() as int;
            let e = echo_of(code);
            &&& e.len() == n + 4
            &&& e.take(n) == encode_utf8("raw 0x"@)
            &&& crate::serial::hex_value(e.subrange(n, n + 2)) == code
            &&& e[n + 2] == 0x0d && e[n + 3] == 0x0a
        },
{
    lemma_labels_are_ascii(code);
    if key_label(code) is None {
        let n = encode_utf8("raw 0x"@).len() as int;
        let e = echo_of(code);
        law_raw_code_is_spelled(code);
        assert(e.take(n) =~= encode_utf8("raw 0x"@));
        assert(e.subrange(n, n + 2) =~= hex_pair(code));
    }
}

/// With 100 ticks in a second, a key is echoed in the five seconds that follow the start, and not later.
pub proof fn law_echo_lasts_five_seconds(start: u64, now: u64)
    requires
        start <= now,
    ensures
        echoes(now, echo_end(start)) <==> (now - start) / 100 < 5,
{
}

} // verus!
