use rockos::errno::{EBADF, EFAULT, ENOSYS};
use rockos::fs::{self, ReadStep};
use rockos::interrupts::keyboard_interrupt_handler;
use rockos::keyboard::{
    handle_keyboard_irq, init_keyboard, output_full, poll_status, pop_scancode, read_scancode,
    read_scancode_poll_port, scancode_to_char, unmask_keyboard_irq, ScancodeQueue, ScancodeStep,
};
use rockos::serial::{SerialPort, COM1_BASE};
use rockos::tty::{feed_from_irq, read, read_line, LineRead, TtyState, LINE_BUF, MAX_READY_LINES};
use rockos::user::USER_WINDOW;

fn type_codes(t: &mut TtyState, codes: &[u8]) {
    for c in codes {
        feed_from_irq(t, *c);
    }
}

fn take_line(t: &mut TtyState) -> Vec<u8> {
    let mut buf = [0u8; 2048];
    let n = read_line(t, &mut buf).unwrap_or(0);
    buf[..n].to_vec()
}

#[test]
fn a_typed_line_is_read_back() {
    let mut t = TtyState::new();
    // h e l l o Enter
    type_codes(&mut t, &[0x23, 0x12, 0x26, 0x26, 0x18]);
    assert_eq!(take_line(&mut t), b"");
    type_codes(&mut t, &[0x1c]);
    assert_eq!(take_line(&mut t), b"hello\n");
    assert_eq!(take_line(&mut t), b"");
}

#[test]
fn shift_gives_the_upper_row() {
    let mut t = TtyState::new();
    // left shift down, a, 1, left shift up, a, right shift down, comma, [, right shift up
    type_codes(&mut t, &[0x2a, 0x1e, 0x02, 0xaa, 0x1e, 0x36, 0x33, 0x1a, 0xb6, 0x33, 0x1c]);
    assert_eq!(take_line(&mut t), b"A!a<[,\n");
    // Both held, one released: still shifted.
    type_codes(&mut t, &[0x2a, 0x36, 0xaa, 0x10, 0xb6, 0x10, 0x1c]);
    assert_eq!(take_line(&mut t), b"Qq\n");
    type_codes(&mut t, &[0x2a]);
    type_codes(&mut t, &[0x02, 0x03, 0x04, 0x05, 0x06, 0x07, 0x08, 0x09, 0x0a, 0x0b, 0x0c, 0x0d]);
    type_codes(&mut t, &[0x29, 0x2b, 0x33, 0x34, 0x35, 0x1c, 0xaa]);
    assert_eq!(take_line(&mut t), b"!@#$%^&*()_+~|<>?\n");
}

#[test]
fn backspace_edits_the_line() {
    let mut t = TtyState::new();
    type_codes(&mut t, &[0x0e, 0x1e, 0x30, 0x0e, 0x2e, 0x1c]);
    assert_eq!(take_line(&mut t), b"ac\n");
}

#[test]
fn extended_keys_and_releases_type_nothing() {
    let mut t = TtyState::new();
    // E0 swallows exactly one code, even another E0 or Enter.
    type_codes(&mut t, &[0xe0, 0x1e, 0x30, 0xe0, 0xe0, 0x2e, 0xe0, 0x1c, 0x9e, 0x3b, 0x1d, 0x1c]);
    assert_eq!(take_line(&mut t), b"bc\n");
}

#[test]
fn long_lines_are_cut() {
    let mut t = TtyState::new();
    type_codes(&mut t, &vec![0x1e; LINE_BUF + 10]);
    type_codes(&mut t, &[0x1c]);
    let line = take_line(&mut t);
    assert_eq!(line.len(), LINE_BUF + 1);
    assert_eq!(line[LINE_BUF], b'\n');
}

#[test]
fn too_many_lines_are_dropped() {
    let mut t = TtyState::new();
    for _ in 0..MAX_READY_LINES {
        type_codes(&mut t, &[0x1e, 0x1c]);
    }
    type_codes(&mut t, &[0x30, 0x1c]);
    let mut n = 0;
    while !take_line(&mut t).is_empty() {
        n += 1;
    }
    assert_eq!(n, MAX_READY_LINES);
    type_codes(&mut t, &[0x1c]);
    assert_eq!(take_line(&mut t), b"\n");
}

#[test]
fn short_reads_leave_the_rest_in_place() {
    let mut t = TtyState::new();
    type_codes(&mut t, &[0x1e, 0x30, 0x2e, 0x1c, 0x2c, 0x1c]);
    let mut two = [b'.'; 2];
    assert_eq!(read(&mut t, &mut two, true), Ok(LineRead::Done(2)));
    assert_eq!(&two, b"ab");
    let mut five = [b'.'; 5];
    assert_eq!(read(&mut t, &mut five, true), Ok(LineRead::Done(2)));
    assert_eq!(&five, b"c\n...");
    assert_eq!(read(&mut t, &mut five, true), Ok(LineRead::Done(2)));
    assert_eq!(&five, b"z\n...");
}

#[test]
fn reading_without_a_line() {
    let mut t = TtyState::new();
    let mut buf = [b'.'; 3];
    assert_eq!(read(&mut t, &mut buf, true), Err(-11));
    assert_eq!(read(&mut t, &mut buf, false), Ok(LineRead::Wait));
    assert_eq!(read_line(&mut t, &mut buf), None);
    assert_eq!(read(&mut t, &mut [], false), Ok(LineRead::Wait));
    assert_eq!(&buf, b"...");
    // Once a line exists the read goes through.
    type_codes(&mut t, &[0x1e, 0x1c]);
    assert_eq!(read(&mut t, &mut [], false), Ok(LineRead::Done(0)));
    assert_eq!(read(&mut t, &mut buf, false), Ok(LineRead::Done(2)));
    assert_eq!(&buf, b"a\n.");
    assert_eq!(read(&mut t, &mut buf, false), Ok(LineRead::Wait));
    type_codes(&mut t, &[0x1c]);
    assert_eq!(read_line(&mut t, &mut buf), Some(1));
}

#[test]
fn scan_codes_on_the_us_layout() {
    let row = |from: u8, text: &str| {
        for (i, c) in text.chars().enumerate() {
            assert_eq!(scancode_to_char(from + i as u8), Some(c));
        }
    };
    row(0x02, "1234567890-=");
    row(0x10, "qwertyuiop[]");
    row(0x1e, "asdfghjkl;'`");
    row(0x2b, "\\zxcvbnm,./");
    row(0x47, "789-456+1230.");
    assert_eq!(scancode_to_char(0x01), Some('\x1b'));
    assert_eq!(scancode_to_char(0x0e), Some('\x08'));
    assert_eq!(scancode_to_char(0x0f), Some('\t'));
    assert_eq!(scancode_to_char(0x1c), Some('\n'));
    assert_eq!(scancode_to_char(0x37), Some('*'));
    assert_eq!(scancode_to_char(0x39), Some(' '));
    for silent in [0x00, 0x1d, 0x2a, 0x36, 0x38, 0x3a, 0x3b, 0x44, 0x45, 0x46, 0x54, 0x57, 0x58] {
        assert_eq!(scancode_to_char(silent), None);
    }
    for break_code in 0x80..=0xffu8 {
        assert_eq!(scancode_to_char(break_code), None);
    }
    let printing = (0..=0xffu8).filter(|c| scancode_to_char(*c).is_some()).count();
    assert_eq!(printing, 66);
}

#[test]
fn the_queue_is_first_in_first_out() {
    let mut q = ScancodeQueue::new();
    assert_eq!(pop_scancode(&mut q), None);
    for round in 0..3u8 {
        for i in 0..200u8 {
            assert!(q.try_push(i ^ round));
        }
        for i in 0..200u8 {
            assert_eq!(q.try_pop(), Some(i ^ round));
        }
        assert_eq!(q.try_pop(), None);
    }
}

#[test]
fn the_queue_holds_255_codes() {
    let mut q = ScancodeQueue::new();
    for i in 0..255u8 {
        assert!(q.try_push(i));
    }
    assert!(!q.try_push(255));
    assert_eq!(q.try_pop(), Some(0));
    assert!(q.try_push(255));
    for i in 1..=255u8 {
        assert_eq!(q.try_pop(), Some(i));
    }
}

#[test]
fn mouse_bytes_are_dropped() {
    let mut q = ScancodeQueue::new();
    assert!(!output_full(0x1c));
    assert!(output_full(0x1d));
    assert_eq!(handle_keyboard_irq(&mut q, 0x21, 0x55), None);
    assert_eq!(pop_scancode(&mut q), None);
    assert_eq!(handle_keyboard_irq(&mut q, 0x01, 0x1e), Some(0x1e));
    assert_eq!(read_scancode(&mut q), ScancodeStep::Done(Some(0x1e)));
    assert_eq!(read_scancode(&mut q), ScancodeStep::ReadStatus);
    assert_eq!(poll_status(0x01), ScancodeStep::ReadData);
    assert_eq!(read_scancode_poll_port(0x01, 9), Some(9));
    assert_eq!(poll_status(0x21), ScancodeStep::ReadData);
    assert_eq!(read_scancode_poll_port(0x21, 9), None);
}

#[test]
fn an_empty_controller_gives_nothing() {
    let mut q = ScancodeQueue::new();
    let mut t = TtyState::new();
    for status in [0x00, 0x1c, 0x20] {
        assert_eq!(handle_keyboard_irq(&mut q, status, 0x1e), None);
        keyboard_interrupt_handler(&mut q, &mut t, status, 0x1c);
        assert_eq!(poll_status(status), ScancodeStep::Done(None));
        assert_eq!(read_scancode_poll_port(status, 0x1e), None);
    }
    assert_eq!(pop_scancode(&mut q), None);
    assert_eq!(take_line(&mut t), b"");
}

#[test]
fn keyboard_bytes_reach_queue_and_terminal() {
    let mut q = ScancodeQueue::new();
    let mut t = TtyState::new();
    for code in [0x1e, 0x1c] {
        keyboard_interrupt_handler(&mut q, &mut t, 0x01, code);
    }
    keyboard_interrupt_handler(&mut q, &mut t, 0x21, 0x30);
    assert_eq!(take_line(&mut t), b"a\n");
    assert_eq!(pop_scancode(&mut q), Some(0x1e));
    assert_eq!(pop_scancode(&mut q), Some(0x1c));
    assert_eq!(pop_scancode(&mut q), None);
    // A full queue still feeds the terminal.
    for _ in 0..300 {
        keyboard_interrupt_handler(&mut q, &mut t, 0x01, 0x1e);
    }
    keyboard_interrupt_handler(&mut q, &mut t, 0x01, 0x1c);
    assert_eq!(take_line(&mut t).len(), 301);
}

#[test]
fn unmasking_the_keyboard() {
    assert_eq!(unmask_keyboard_irq(0xff), 0xfd);
    assert_eq!(init_keyboard(0x03), 0x01);
}

#[test]
fn read_fills_the_user_buffer() {
    let mut t = TtyState::new();
    type_codes(&mut t, &[0x1e, 0x30, 0x1c]);
    let mut w = vec![b'.'; USER_WINDOW];
    let step = fs::sys_read(&mut t, &mut w, 0, 0x401ff0, 2);
    assert_eq!(step, ReadStep::Done(2));
    assert_eq!(&w[0x1fef..0x1ff3], b".ab.");
    assert_eq!(fs::sys_read(&mut t, &mut w, 0, 0x401000, 64), ReadStep::Done(1));
    assert_eq!(&w[0x1000..0x1002], b"\n.");
    assert_eq!(fs::sys_read(&mut t, &mut w, 0, 0x401000, 64), ReadStep::Wait);
}

#[test]
fn read_checks_its_arguments() {
    let mut t = TtyState::new();
    type_codes(&mut t, &[0x1e, 0x1c]);
    let mut w = vec![0u8; USER_WINDOW];
    assert_eq!(fs::sys_read(&mut t, &mut w, 1, 0x401000, 8), ReadStep::Done(0));
    assert_eq!(fs::sys_read(&mut t, &mut w, 0, 0x9, 0), ReadStep::Done(0));
    for (buf, len) in [(0x400000, 8), (0x400fff, 2), (0x401ff9, 8), (0x401000, 0x1001)] {
        assert_eq!(fs::sys_read(&mut t, &mut w, 0, buf, len), ReadStep::Done(EFAULT));
    }
    assert_eq!(
        fs::sys_read(&mut t, &mut w, 0, 0x401000, u64::MAX),
        ReadStep::Done(EFAULT)
    );
    assert_eq!(take_line(&mut t), b"a\n");
    assert!(w.iter().all(|b| *b == 0));
}

#[test]
fn only_stdout_and_stderr_take_bytes() {
    let mut port = SerialPort::new(COM1_BASE);
    assert_eq!(fs::write_fd_any(&mut port, 1, b"out"), 3);
    assert_eq!(fs::write_fd_any(&mut port, 2, b"!"), 1);
    assert_eq!(fs::write_fd_any(&mut port, 0, b"no"), EBADF);
    assert_eq!(fs::write_fd_any(&mut port, 3, b"no"), EBADF);
    assert_eq!(port.take(), b"out!");
    assert_eq!(fs::sys_open(0x400000, 0), ENOSYS);
    assert_eq!(fs::sys_close(0), ENOSYS);
}
