//! Minimal file-descriptor layer: **stdin** via [`crate::tty`], **stdout/stderr** on **COM1**.

use vstd::prelude::*;

use crate::errno::{EBADF, EFAULT, ENOSYS};
use crate::serial::{write_bytes, SerialPort};
use crate::tty::{
    after_read, fed_all, filled, is_line, is_text_key, law_typed_line_is_read_back, read_at, read_len,
    text_of, TtySpec, TtyState, ENTER, LINE_BUF,
};
use crate::user::{
    user_region_is_writable_range, window_index, writable, USER_TEXT_BASE, USER_WINDOW,
};

verus! {

pub const STDIN_FILENO: u64 = 0;

pub const STDOUT_FILENO: u64 = 1;

pub const STDERR_FILENO: u64 = 2;

/// How a read goes on.
#[derive(Clone, Copy, Debug, PartialEq, Eq, Structural)]
pub enum ReadStep {
    /// The result of the call.
    Done(u64),
    /// No line has been typed yet: wait for an interrupt and read again.
    Wait,
}

/// What a read does to the terminal and to user memory. Only stdin gives bytes; the buffer has to
/// be writable; a read without a line waits.
pub open spec fn reads(
    tty: TtySpec,
    window: Seq<u8>,
    fd: u64,
    buf: u64,
    len: u64,
    tty2: TtySpec,
    window2: Seq<u8>,
    step: ReadStep,
) -> bool {
    if fd != STDIN_FILENO || len == 0 {
        step == ReadStep::Done(0) && tty2 == tty && window2 == window
    } else if !writable(buf as int, len as int) {
        step == ReadStep::Done(EFAULT) && tty2 == tty && window2 == window
    } else if tty.ready.len() == 0 {
        step == ReadStep::Wait && tty2 == tty && window2 == window
    } else {
        let n = read_len(tty.ready[0], len as int);
        &&& step == ReadStep::Done(n as u64)
        &&& tty2 == (TtySpec { ready: after_read(tty.ready, n), ..tty })
        &&& window2 == filled(window, window_index(buf as int), tty.ready[0].take(n))
    }
}

/// `read`: a line from the terminal for stdin, nothing for any other descriptor.
pub fn sys_read(tty: &mut TtyState, window: &mut [u8], fd: u64, buf_addr: u64, len: u64) -> (step:
    ReadStep)
    requires
        old(window)@.len() == USER_WINDOW,
    ensures
        old(tty)@.wf() ==> final(tty)@.wf(),
        reads(old(tty)@, old(window)@, fd, buf_addr, len, final(tty)@, final(window)@, step),
        final(window)@.len() == USER_WINDOW,
{
    if fd != STDIN_FILENO {
        return ReadStep::Done(0);
    }
    if len == 0 {
        return ReadStep::Done(0);
    }
    if len > USER_WINDOW as u64 || !user_region_is_writable_range(buf_addr, len as usize) {
        return ReadStep::Done(EFAULT);
    }
    match read_at(tty, window, (buf_addr - USER_TEXT_BASE) as usize, len as usize) {
        Some(n) => ReadStep::Done(n as u64),
        None => ReadStep::Wait,
    }
}

/// Writing `bytes` to descriptor `fd`, with what was sent `before` and is sent `after`.
pub open spec fn fd_written(fd: u64, bytes: Seq<u8>, before: Seq<u8>, after: Seq<u8>, ret: u64) -> bool {
    if fd == STDOUT_FILENO || fd == STDERR_FILENO {
        ret == bytes.len() && after == before + bytes
    } else {
        ret == EBADF && after == before
    }
}

/// The answer of a call that does nothing yet.
pub open spec fn not_offered() -> u64 {
    ENOSYS
}

/// Writes to stdout and stderr go to the serial port; every other descriptor is bad.
pub fn write_fd_any(port: &mut SerialPort, fd: u64, slice: &[u8]) -> (ret: u64)
    ensures
        if fd == STDOUT_FILENO || fd == STDERR_FILENO {
            &&& ret == slice@.len()
            &&& final(port)@ == old(port)@ + slice@
        } else {
            &&& ret == EBADF
            &&& final(port)@ == old(port)@
        },
        final(port).data_port() == old(port).data_port(),
        fd_written(fd, slice@, old(port)@, final(port)@, ret),
{
    if fd == STDOUT_FILENO || fd == STDERR_FILENO {
        write_bytes(port, slice);
        slice.len() as u64
    } else {
        EBADF
    }
}

/// There is no file system to open anything in.
pub fn sys_open(_path: u64, _flags: u64) -> (ret: u64)
    ensures
        ret == ENOSYS,
        ret == not_offered(),
{
    ENOSYS
}

/// There is no file system to close anything in.
pub fn sys_close(_fd: u64) -> (ret: u64)
    ensures
        ret == ENOSYS,
        ret == not_offered(),
{
    ENOSYS
}

/// A read of stdin into a buffer with room never returns 0: it waits until there is a line, and then
/// gives at least one byte of it.
pub proof fn law_stdin_read_is_never_empty(
    tty: TtySpec,
    window: Seq<u8>,
    buf: u64,
    len: u64,
    tty2: TtySpec,
    window2: Seq<u8>,
    step: ReadStep,
)
    requires
        tty.wf(),
        len > 0,
        reads(tty, window, STDIN_FILENO, buf, len, tty2, window2, step),
    ensures
        step != ReadStep::Done(0),
        step == ReadStep::Wait ==> tty.ready.len() == 0,
{
    if tty.ready.len() > 0 {
        assert(is_line(tty.ready[0]));
    }
}

/// What is typed at the terminal, up to Enter, is what the next read of stdin puts into the user's
/// buffer: the text with a newline behind it, and nothing else changes.
pub proof fn law_typed_line_reaches_user(
    tty: TtySpec,
    codes: Seq<u8>,
    window: Seq<u8>,
    buf: u64,
    len: u64,
    tty2: TtySpec,
    window2: Seq<u8>,
    step: ReadStep,
)
    requires
        window.len() == USER_WINDOW,
        writable(buf as int, len as int),
        !tty.e0_prefix,
        tty.line.len() == 0,
        tty.ready.len() == 0,
        forall|i: int| 0 <= i < codes.len() ==> is_text_key(tty.shift(), #[trigger] codes[i]),
        codes.len() <= LINE_BUF,
        codes.len() < len,
        reads(
            fed_all(tty, codes).fed(ENTER),
            window,
            STDIN_FILENO,
            buf,
            len,
            tty2,
            window2,
            step,
        ),
    ensures
        step == ReadStep::Done((codes.len() + 1) as u64),
        window2 == filled(
            window,
            window_index(buf as int),
            text_of(tty.shift(), codes).push(0x0a),
        ),
        tty2 == tty,
{
    law_typed_line_is_read_back(tty, codes, len as int);
    let line = text_of(tty.shift(), codes).push(0x0a);
    assert(tty.ready.push(line).drop_first() =~= tty.ready);
    assert(line.take(line.len() as int) =~= line);
}

/// What a read of stdin does to memory: byte `i` of the oldest line goes to `buf + i`, as far as both
/// reach; no other byte changes. The result is how many bytes went.
pub proof fn law_read_puts_line_at_buffer(
    tty: TtySpec,
    window: Seq<u8>,
    buf: u64,
    len: u64,
    tty2: TtySpec,
    window2: Seq<u8>,
    n: u64,
    i: int,
)
    requires
        window.len() == 0x2000,
        0x401000 <= buf && buf + len <= 0x402000,
        0 < len,
        tty.ready.len() > 0,
        reads(tty, window, 0, buf, len, tty2, window2, ReadStep::Done(n)),
        0 <= i < 0x2000,
    ensures
        n <= len && n <= tty.ready[0].len(),
        n == len || n == tty.ready[0].len(),
        window2.len() == 0x2000,
        ({
            let at = buf - 0x400000;
            &&& at <= i < at + n ==> window2[i] == tty.ready[0][i - at]
            &&& i < at || at + n <= i ==> window2[i] == window[i]
        }),
        n == tty.ready[0].len() ==> tty2.ready == tty.ready.skip(1),
        n < tty.ready[0].len() ==> tty2.ready.len() == tty.ready.len() && tty2.ready[0]
            == tty.ready[0].skip(n as int),
        tty2.line == tty.line,
{
    crate::tty::law_read_takes_front(tty.ready, len as int);
    assert(tty.ready.drop_first() =~= tty.ready.skip(1));
}

/// When a read of stdin fails, waits or gives nothing: `-EFAULT` exactly where the buffer is not all in
/// the stack page; otherwise it waits exactly while no line is there. Other descriptors, and reads of
/// no bytes, give 0. Nothing changes in any of these cases.
pub proof fn law_read_refusals(
    tty: TtySpec,
    window: Seq<u8>,
    fd: u64,
    buf: u64,
    len: u64,
    tty2: TtySpec,
    window2: Seq<u8>,
    step: ReadStep,
)
    requires
        reads(tty, window, fd, buf, len, tty2, window2, step),
    ensures
        fd != 0 || len == 0 ==> step == ReadStep::Done(0) && tty2 == tty && window2 == window,
        fd == 0 && len > 0 && !(0x401000 <= buf && buf + len <= 0x402000) ==> step == ReadStep::Done(
            EFAULT,
        ) && tty2 == tty && window2 == window,
        fd == 0 && len > 0 && 0x401000 <= buf && buf + len <= 0x402000 && tty.ready.len() == 0 ==> step
            == ReadStep::Wait && tty2 == tty && window2 == window,
        fd == 0 && len > 0 && 0x401000 <= buf && buf + len <= 0x402000 && tty.ready.len() > 0 ==> step
            is Done,
{
}

/// Descriptors 1 and 2 send everything and answer with how much it was; on any other nothing is sent and
/// the answer is -9.
pub proof fn law_output_descriptors(
    fd: u64,
    bytes: Seq<u8>,
    before: Seq<u8>,
    after: Seq<u8>,
    ret: u64,
    i: int,
)
    requires
        fd_written(fd, bytes, before, after, ret),
    ensures
        fd == 1 || fd == 2 ==> {
            &&& ret == bytes.len() && after.len() == before.len() + ret
            &&& 0 <= i < bytes.len() ==> after[before.len() + i] == bytes[i]
            &&& 0 <= i < before.len() ==> after[i] == before[i]
        },
        fd != 1 && fd != 2 ==> after == before && ret + 9 == 0x1_0000_0000_0000_0000,
        not_offered() + 38 == 0x1_0000_0000_0000_0000,
{
}

} // verus!
