use rockos::boot::echo_scancode;
use rockos::interrupts::{
    double_fault_handler, gpf_handler, init_pic, page_fault_handler, ticks,
    timer_interrupt_handler, unmask_timer_and_keyboard, wait_ticks, Clock, InterruptIndex,
    PIC_1_OFFSET,
};
use rockos::pit;
use rockos::port::PortWrite;
use rockos::scheduler::{self, Scheduler};
use rockos::serial::{
    self, debug_hex_u64, line_sts_ready, write_byte, write_bytes, write_fmt, write_line_fmt,
    SerialPort, COM1_BASE,
};
use rockos::vga::{self, VgaBuffer, VgaWriter, CELLS, COLUMNS};

fn port() -> SerialPort {
    SerialPort::new(COM1_BASE)
}

fn writes(list: &[PortWrite]) -> Vec<(u16, u8)> {
    list.iter().map(|w| (w.port, w.value)).collect()
}

fn row(screen: &VgaBuffer, row: usize, len: usize) -> String {
    (0..len).map(|i| screen.0[row * COLUMNS + i][0] as char).collect()
}

#[test]
fn screen_starts_blank() {
    let mut screen = VgaBuffer([[7, 7]; CELLS]);
    let _ = vga::init(&mut screen);
    assert!(screen.0.iter().all(|c| *c == [b' ', 0x1f]));
}

#[test]
fn bytes_fill_cells_from_the_top_left() {
    let mut screen = VgaBuffer([[0, 0]; CELLS]);
    let mut w = VgaWriter::new(&mut screen);
    w.write_str("ab\nc");
    w.write_byte(b'd');
    assert_eq!(screen.0[0], [b'a', 0x0f]);
    assert_eq!(row(&screen, 0, 2), "ab");
    assert_eq!(row(&screen, 1, 2), "cd");
    assert_eq!(screen.0[2], [0, 0]);
}

#[test]
fn rows_wrap_at_eighty_columns() {
    let mut screen = VgaBuffer([[0, 0]; CELLS]);
    let mut w = VgaWriter::new(&mut screen);
    w.write_all(&[b'x'; 81]);
    assert_eq!(screen.0[79][0], b'x');
    assert_eq!(screen.0[80][0], b'x');
    assert_eq!(screen.0[81][0], 0);
    // A newline at the end of a full row moves on by one row only.
    let mut screen = VgaBuffer([[0, 0]; CELLS]);
    let mut w = VgaWriter::new(&mut screen);
    w.write_all(&[b'x'; 80]);
    w.write_str("\ny");
    assert_eq!(screen.0[80][0], b'y');
}

#[test]
fn the_screen_wraps_without_scrolling() {
    let mut screen = VgaBuffer([[0, 0]; CELLS]);
    let mut w = VgaWriter::new(&mut screen);
    let all: Vec<u8> = (0..CELLS).map(|i| b'0' + (i % 10) as u8).collect();
    w.write_all(&all);
    w.write_str("AB");
    assert_eq!(row(&screen, 0, 4), "AB23");
    assert_eq!(screen.0[CELLS - 1][0], b'9');
    let mut w = VgaWriter::new(&mut screen);
    w.write_str(&"\n".repeat(25));
    w.write_byte(b'C');
    assert_eq!(row(&screen, 0, 2), "CB");
}

#[test]
fn other_unicode_shows_as_several_cells() {
    let mut screen = VgaBuffer([[0, 0]; CELLS]);
    VgaWriter::new(&mut screen).write_str("\u{e9}");
    assert_eq!((screen.0[0][0], screen.0[1][0]), (0xc3, 0xa9));
}

#[test]
fn printing_mirrors_to_the_serial_port() {
    let mut screen = VgaBuffer([[0, 0]; CELLS]);
    let mut p = port();
    let mut w = Some(VgaWriter::new(&mut screen));
    vga::_print(&mut w, &mut p, "a");
    vga::_println(&mut w, &mut p, "b");
    vga::_print(&mut w, &mut p, "c");
    drop(w);
    assert_eq!(row(&screen, 0, 2), "ab");
    assert_eq!(row(&screen, 1, 1), "c");
    assert_eq!(p.take(), b"ab\r\nc");
    let mut none = None;
    vga::_println(&mut none, &mut p, "d");
    assert_eq!(p.take(), b"d\r\n");
    assert!(p.take().is_empty());
}

#[test]
fn keys_are_echoed() {
    let mut screen = VgaBuffer([[0, 0]; CELLS]);
    let mut p = port();
    let mut w = Some(VgaWriter::new(&mut screen));
    for code in [0x1e, 0x9e, 0x3b, 0x1c] {
        echo_scancode(&mut w, &mut p, code);
    }
    assert_eq!(p.take(), b"araw 0x9e\r\nraw 0x3b\r\n\n");
    drop(w);
    assert_eq!(row(&screen, 0, 9), "araw 0x9e");
    assert_eq!(row(&screen, 1, 8), "raw 0x3b");
}

#[test]
fn serial_setup() {
    let expected = [
        (0x3f9, 0x00),
        (0x3fb, 0x80),
        (0x3f8, 0x03),
        (0x3f9, 0x00),
        (0x3fb, 0x03),
        (0x3fa, 0xc7),
        (0x3fc, 0x0b),
    ];
    assert_eq!(writes(&serial::init(&port())), expected);
    assert_eq!(SerialPort::new(0x2f8).init()[2].port, 0x2f8);
    assert!(line_sts_ready(0x60));
    assert!(!line_sts_ready(0xdf));
}

#[test]
fn serial_bytes_keep_their_order() {
    let mut p = port();
    write_byte(&mut p, 7);
    write_bytes(&mut p, b"ab");
    write_fmt(&mut p, "\u{e9}");
    write_line_fmt(&mut p, "x");
    p.send_raw(1);
    p.write_str("y");
    assert_eq!(p.take(), b"\x07ab\xc3\xa9x\r\n\x01y");
}

#[test]
fn hexadecimal_numbers() {
    let hex = |n: u64| {
        let mut p = port();
        debug_hex_u64(&mut p, n);
        String::from_utf8(p.take()).unwrap()
    };
    assert_eq!(hex(0), "0x0");
    assert_eq!(hex(9), "0x9");
    assert_eq!(hex(15), "0xf");
    assert_eq!(hex(16), "0x10");
    assert_eq!(hex(0x1234_abcd), "0x1234abcd");
    assert_eq!(hex(u64::MAX), "0xffffffffffffffff");
    for n in [1, 0xfff, 0x8000_0000_0000_0000, 0xdec0_dec0_de] {
        assert_eq!(hex(n), format!("{n:#x}"));
    }
}

#[test]
fn fault_reports() {
    let mut p = port();
    double_fault_handler(&mut p, 0, 0x401000);
    assert_eq!(p.take(), b"\r\n!! double fault err=0x0 rip=0x401000\r\n");
    page_fault_handler(&mut p, 0xdead, 6, 0x400010);
    assert_eq!(p.take(), b"\r\n!! #PF cr2=0xdead err=0x6 rip=0x400010\r\n");
    gpf_handler(&mut p, 0x10, 1);
    assert_eq!(p.take(), b"\r\n!! #GP err=0x10 rip=0x1\r\n");
}

#[test]
fn timer_ticks_reach_the_scheduler() {
    let mut c = Clock::new();
    let mut s = Scheduler::new();
    scheduler::init(&mut s, 1, 0);
    for _ in 0..15 {
        assert!(!s.need_resched);
        timer_interrupt_handler(&mut c, &mut s);
    }
    assert_eq!(ticks(&c), 15);
    assert!(s.need_resched);
    c.ticks = u64::MAX;
    timer_interrupt_handler(&mut c, &mut s);
    assert_eq!(ticks(&c), 0);
}

#[test]
fn waiting_for_ticks() {
    let c = Clock { ticks: 10 };
    assert!(wait_ticks(&c, 8, 2));
    assert!(!wait_ticks(&c, 8, 3));
    assert!(wait_ticks(&c, 11, 0));
    assert!(!wait_ticks(&c, 11, 1));
}

#[test]
fn interrupt_vectors_and_masks() {
    assert_eq!(InterruptIndex::Timer.as_usize(), 0x20);
    assert_eq!(InterruptIndex::Keyboard.as_usize(), 0x21);
    assert_eq!(PIC_1_OFFSET, 0x20);
    assert_eq!(unmask_timer_and_keyboard(0xff), 0xfc);
    assert_eq!(unmask_timer_and_keyboard(0x07), 0x04);
}

#[test]
fn pic_setup_sequence() {
    let list = init_pic();
    assert!(list.chunks(2).all(|c| c[0].port != 0x80));
    assert!(list.chunks(2).all(|c| c[1].port == 0x80 && c[1].value == 0));
    let steps: Vec<PortWrite> = list.chunks(2).map(|c| c[0]).collect();
    assert_eq!(
        writes(&steps),
        [
            (0x20, 0x11),
            (0xa0, 0x11),
            (0x21, 0x20),
            (0xa1, 0x28),
            (0x21, 0x04),
            (0xa1, 0x02),
            (0x21, 0x01),
            (0xa1, 0x01),
            (0x21, 0xff),
            (0xa1, 0xff),
        ]
    );
}

#[test]
fn pit_setup_sequence() {
    assert_eq!(pit::DEFAULT_TIMER_DIVISOR, 11931);
    assert_eq!(
        writes(&pit::init(pit::DEFAULT_TIMER_DIVISOR)),
        [(0x43, 0x34), (0x40, 0x9b), (0x40, 0x2e)]
    );
    assert_eq!(writes(&pit::init(0)), [(0x43, 0x34), (0x40, 0), (0x40, 0)]);
}
