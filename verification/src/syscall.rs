//! Linux-compatible system calls with **per-task kernel stacks** and a scheduling tail.
//!
//! [`syscall_dispatch`] decides what a system call does. What only the machine can do (edit page
//! tables, copy memory, wait for an interrupt, return to ring 3) comes back as an [`Action`].

use vstd::prelude::*;
use vstd::slice::slice_subrange;
use vstd::utf8::encode_utf8;

use crate::bytes::{le32_bytes, le64, read_u64};
use crate::errno::{EAGAIN, EFAULT, ENOSPC, ENOSYS};
use crate::exec::{exec_decides, sys_execve, ExecRequest};
use crate::fork::{fork_decides, sys_fork, ForkStep};
use crate::fs::{reads, sys_close, sys_open, write_fd_any, ReadStep, STDERR_FILENO, STDOUT_FILENO};
use crate::interrupts::Clock;
use crate::pit::TIMER_HZ;
use crate::process::{
    current_pid, current_ppid, is_child, lemma_child_is_reaped, looked_past, mark_exited, reaps,
    user_bootstrap, wait_reap, ProcessSpec, Processes, ProcessesSpec,
};
use crate::scheduler::{
    after_exit, after_syscall, asleep_until, complete_syscall_and_schedule, note_yield,
    schedule_after_exec, schedule_after_exit, sleep_until_ticks, switches, Resume, Scheduler, SchedulerSpec,
};
use crate::serial::SerialPort;
use crate::task::{saved_in_frame, save_from_dispatch_rsp, CurrentKstack, FRAME_WORDS};
use crate::tty::{filled, TtySpec, TtyState};
use crate::user::{
    readable, user_region_is_readable_range, user_region_is_writable_range, window_index, writable,
    UserImage, USER_STACK_LO, USER_TEXT_BASE, USER_WINDOW,
};
use crate::vga::{print_line, screen_of, with_line, Screen, VgaWriter};
use crate::vm::{
    brk_decides, mmap_decides, munmap_decides, next_mmap_after, region_step, sys_brk, sys_mmap,
    sys_munmap, BrkStep, MmapStep, MunmapStep, RegionEvent,
};

verus! {

pub const SYS_READ: u64 = 0;

pub const SYS_WRITE: u64 = 1;

pub const SYS_OPEN: u64 = 2;

pub const SYS_CLOSE: u64 = 3;

pub const SYS_MMAP: u64 = 9;

pub const SYS_MUNMAP: u64 = 11;

pub const SYS_BRK: u64 = 12;

pub const SYS_SCHED_YIELD: u64 = 24;

pub const SYS_NANOSLEEP: u64 = 35;

pub const SYS_GETPID: u64 = 39;

pub const SYS_FORK: u64 = 57;

pub const SYS_EXECVE: u64 = 59;

pub const SYS_EXIT: u64 = 60;

pub const SYS_WAIT4: u64 = 61;

pub const SYS_GETPPID: u64 = 110;

pub const MAP_PRIVATE: u64 = 0x02;

pub const MAP_ANONYMOUS: u64 = 0x20;

/// Flags of every region: `MAP_PRIVATE | MAP_ANONYMOUS`.
pub const MAP_FLAGS: u64 = 0x22;

/// Most bytes that one write takes.
pub const MAX_WRITE: u64 = 8192;

// --- write ---

/// What a write sends, and its result. Writes that are too long, and buffers that cannot be read,
/// are refused before the descriptor is looked at.
pub open spec fn writes(
    sent: Seq<u8>,
    window: Seq<u8>,
    fd: u64,
    buf: u64,
    len: u64,
    sent2: Seq<u8>,
    ret: u64,
) -> bool {
    if len > MAX_WRITE {
        ret == ENOSPC && sent2 == sent
    } else if !readable(buf as int, len as int) {
        ret == EFAULT && sent2 == sent
    } else if fd == STDOUT_FILENO || fd == STDERR_FILENO {
        let at = window_index(buf as int);
        ret == len && sent2 == sent + window.subrange(at, at + len)
    } else {
        ret == crate::errno::EBADF && sent2 == sent
    }
}

/// `write`: bytes of user memory to a descriptor.
pub fn sys_write(port: &mut SerialPort, window: &[u8], fd: u64, buf_addr: u64, len: u64) -> (ret: u64)
    requires
        window@.len() == USER_WINDOW,
    ensures
        writes(old(port)@, window@, fd, buf_addr, len, final(port)@, ret),
        final(port).data_port() == old(port).data_port(),
{
    if len > MAX_WRITE {
        return ENOSPC;
    }
    if !user_region_is_readable_range(buf_addr, len as usize) {
        return EFAULT;
    }
    let at: usize = (buf_addr - USER_TEXT_BASE) as usize;
    let slice = slice_subrange(window, at, at + len as usize);
    write_fd_any(port, fd, slice)
}

/// `read`: see [`crate::fs::sys_read`].
pub fn sys_read(tty: &mut TtyState, window: &mut [u8], fd: u64, buf_addr: u64, len: u64) -> (step:
    ReadStep)
    requires
        old(window)@.len() == USER_WINDOW,
    ensures
        old(tty)@.wf() ==> final(tty)@.wf(),
        reads(old(tty)@, old(window)@, fd, buf_addr, len, final(tty)@, final(window)@, step),
        final(window)@.len() == USER_WINDOW,
{
    crate::fs::sys_read(tty, window, fd, buf_addr, len)
}

// --- wait4 ---

/// What waiting for a child does. A child that has exited is reaped first; only then is the address
/// for its status looked at.
pub open spec fn waits(
    ps: ProcessesSpec,
    window: Seq<u8>,
    pid: i64,
    wstatus: u64,
    ps2: ProcessesSpec,
    window2: Seq<u8>,
    ret: u64,
) -> bool {
    match reaps(ps, pid) {
        None => ret == EAGAIN && ps2 == ps && window2 == window,
        Some(slot) => {
            let p = ps.slots->0[slot]->0;
            &&& ps2 == ps.with_slot(slot, None)
            &&& if wstatus == 0 {
                ret == p.pid && window2 == window
            } else if writable(wstatus as int, 4) {
                &&& ret == p.pid
                &&& window2 == filled(
                    window,
                    window_index(wstatus as int),
                    le32_bytes(p.exit_code->0 as u32),
                )
            } else {
                ret == EFAULT && window2 == window
            }
        },
    }
}

/// `wait4`: reaps a child and stores its exit status. Without one the caller tries again.
pub fn sys_wait4(ps: &mut Processes, window: &mut [u8], pid: i64, wstatus: u64) -> (ret: u64)
    requires
        old(ps)@.wf(),
        old(ps)@.slot_in_range(),
        old(window)@.len() == USER_WINDOW,
    ensures
        final(ps)@.wf(),
        final(ps)@.slot_in_range(),
        waits(old(ps)@, old(window)@, pid, wstatus, final(ps)@, final(window)@, ret),
        final(window)@.len() == USER_WINDOW,
{
    match wait_reap(ps, pid) {
        None => EAGAIN,
        Some((child, st)) => {
            if wstatus != 0 {
                if !user_region_is_writable_range(wstatus, 4) {
                    return EFAULT;
                }
                let at: usize = (wstatus - USER_TEXT_BASE) as usize;
                let x: u32 = st as u32;
                window[at] = (x % 0x100) as u8;
                window[at + 1] = (x / 0x100 % 0x100) as u8;
                window[at + 2] = (x / 0x1_0000 % 0x100) as u8;
                window[at + 3] = (x / 0x100_0000 % 0x100) as u8;
                assert(window@ =~= filled(old(window)@, at as int, le32_bytes(x)));
            }
            child
        },
    }
}

// --- nanosleep ---

/// The signed number with the same 64 bits.
pub open spec fn signed64(x: int) -> int {
    if x < 0x8000_0000_0000_0000 {
        x
    } else {
        x - 0x1_0000_0000_0000_0000
    }
}

/// The nearest number that fits in 64 signed bits.
pub open spec fn saturated64(x: int) -> int {
    if x > i64::MAX {
        i64::MAX as int
    } else if x < i64::MIN {
        i64::MIN as int
    } else {
        x
    }
}

/// Division that rounds toward zero.
pub open spec fn div_to_zero(x: int, y: int) -> int {
    if x >= 0 {
        x / y
    } else {
        -(-x / y)
    }
}

/// Timer ticks in a time span: at least one.
pub open spec fn ticks_in(sec: int, nsec: int) -> int {
    let t = saturated64(
        saturated64(sec * TIMER_HZ) + div_to_zero(nsec * TIMER_HZ, 1_000_000_000),
    );
    if t < 1 {
        1
    } else {
        t
    }
}

/// How a request to sleep goes on.
#[derive(Clone, Copy, Debug, PartialEq, Eq, Structural)]
pub enum SleepStep {
    /// The request is refused with this value.
    Done(u64),
    /// Sleep until this tick.
    Until(u64),
    /// The nanoseconds overflow when they are turned into ticks: the kernel stops.
    Fault,
}

/// What `nanosleep` makes of the time span at `req`: seconds, then nanoseconds.
pub open spec fn sleep_decides(window: Seq<u8>, req: u64, now: u64) -> SleepStep {
    if req == 0 || !readable(req as int, 16) {
        SleepStep::Done(EFAULT)
    } else {
        let at = window_index(req as int);
        let sec = signed64(le64(window, at));
        let nsec = signed64(le64(window, at + 8));
        if nsec * TIMER_HZ > i64::MAX || nsec * TIMER_HZ < i64::MIN {
            SleepStep::Fault
        } else if now + ticks_in(sec, nsec) > u64::MAX {
            SleepStep::Until(u64::MAX)
        } else {
            SleepStep::Until((now + ticks_in(sec, nsec)) as u64)
        }
    }
}

fn to_signed(x: u64) -> (s: i128)
    ensures
        s == signed64(x as int),
{
    if x < 0x8000_0000_0000_0000 {
        x as i128
    } else {
        x as i128 - 0x1_0000_0000_0000_0000
    }
}

fn saturate(x: i128) -> (s: i128)
    ensures
        s == saturated64(x as int),
{
    if x > 0x7fff_ffff_ffff_ffff {
        0x7fff_ffff_ffff_ffff
    } else if x < -0x8000_0000_0000_0000 {
        -0x8000_0000_0000_0000
    } else {
        x
    }
}

/// `nanosleep`: until when the caller sleeps.
pub fn sys_nanosleep(window: &[u8], req: u64, now: u64) -> (step: SleepStep)
    requires
        window@.len() == USER_WINDOW,
    ensures
        step == sleep_decides(window@, req, now),
{
    if req == 0 {
        return SleepStep::Done(EFAULT);
    }
    if !user_region_is_readable_range(req, 16) {
        return SleepStep::Done(EFAULT);
    }
    let at: usize = (req - USER_TEXT_BASE) as usize;
    let sec: i128 = to_signed(read_u64(window, at));
    let nsec: i128 = to_signed(read_u64(window, at + 8));
    let hz: i128 = TIMER_HZ as i128;
    let scaled: i128 = nsec * hz;
    if scaled > 0x7fff_ffff_ffff_ffff || scaled < -0x8000_0000_0000_0000 {
        return SleepStep::Fault;
    }
    let part: i128 = if scaled >= 0 {
        scaled / 1_000_000_000
    } else {
        -(-scaled / 1_000_000_000)
    };
    let mut ticks: i128 = saturate(saturate(sec * hz) + part);
    if ticks < 1 {
        ticks = 1;
    }
    SleepStep::Until(now.saturating_add(ticks as u64))
}

// --- exit ---

/// The decimal digits of `n`, without leading zeros; 0 is one digit.
pub open spec fn decimal_digits(n: int) -> Seq<u8>
    decreases n,
{
    if n < 10 {
        seq![(0x30 + n) as u8]
    } else {
        decimal_digits(n / 10).push((0x30 + n % 10) as u8)
    }
}

/// `n` in decimal, with a minus sign where it is negative.
pub open spec fn decimal_text(n: i32) -> Seq<u8> {
    if n < 0 {
        seq![0x2du8] + decimal_digits(-n)
    } else {
        decimal_digits(n as int)
    }
}

fn push_decimal(v: &mut Vec<u8>, n: i32)
    ensures
        final(v)@ == old(v)@ + decimal_text(n),
{
    let mut left: u64 = if n < 0 {
        v.push(0x2d);
        (-(n as i64)) as u64
    } else {
        n as u64
    };
    let ghost start = v@;
    let ghost whole = left as int;
    let mut rev: Vec<u8> = Vec::new();
    while left >= 10
        invariant
            decimal_digits(whole) == decimal_digits(left as int) + rev@.reverse(),
        decreases left,
    {
        let ghost before = rev@;
        rev.push(0x30 + (left % 10) as u8);
        proof {
            assert(rev@.reverse() =~= seq![rev@.last()] + before.reverse());
            assert(decimal_digits((left / 10) as int).push(rev@.last()) + before.reverse()
                =~= decimal_digits((left / 10) as int) + rev@.reverse());
        }
        left = left / 10;
    }
    rev.push(0x30 + left as u8);
    assert(decimal_digits(whole) =~= rev@.reverse());
    let mut i: usize = rev.len();
    while i > 0
        invariant
            i <= rev@.len(),
            v@ == start + rev@.reverse().take(rev@.len() - i),
        decreases i,
    {
        i = i - 1;
        v.push(rev[i]);
        assert(v@ =~= start + rev@.reverse().take(rev@.len() - i));
    }
    assert(v@ =~= old(v)@ + decimal_text(n));
}

/// What the console shows when a task exits.
pub open spec fn exit_line(code: i32) -> Seq<u8> {
    encode_utf8("[syscall] exit("@) + decimal_text(code) + encode_utf8(")"@)
}

fn exit_message(code: i32) -> (line: Vec<u8>)
    ensures
        line@ == exit_line(code),
{
    let mut line: Vec<u8> = Vec::new();
    line.extend_from_slice("[syscall] exit(".as_bytes());
    push_decimal(&mut line, code);
    line.extend_from_slice(")".as_bytes());
    assert(line@ =~= exit_line(code));
    line
}

// --- dispatch ---

/// The state that system calls work on.
pub struct Kernel<'a> {
    pub ps: Processes,
    pub sched: Scheduler,
    pub kstack: CurrentKstack,
    pub user: UserImage,
    pub tty: TtyState,
    pub serial: SerialPort,
    pub clock: Clock,
    pub screen: Option<VgaWriter<'a>>,
}

/// The state in the abstract.
#[verifier::ext_equal]
pub struct KernelSpec {
    pub ps: ProcessesSpec,
    pub sched: SchedulerSpec,
    pub kstack_top: u64,
    pub user: UserImage,
    pub tty: TtySpec,
    pub sent: Seq<u8>,
    /// Where the serial port lies.
    pub port: u16,
    pub ticks: u64,
    pub screen: Option<Screen>,
}

impl<'a> View for Kernel<'a> {
    type V = KernelSpec;

    open spec fn view(&self) -> KernelSpec {
        KernelSpec {
            ps: self.ps@,
            sched: self.sched@,
            kstack_top: self.kstack.top,
            user: self.user,
            tty: self.tty@,
            sent: self.serial@,
            port: self.serial.data_port(),
            ticks: self.clock.ticks,
            screen: screen_of(self.screen),
        }
    }
}

impl KernelSpec {
    pub open spec fn wf(self) -> bool {
        &&& self.ps.wf()
        &&& self.ps.slot_in_range()
        &&& self.sched.wf()
        &&& self.tty.wf()
        &&& self.screen matches Some(s) ==> s.wf()
    }
}

/// What a system call needs next.
pub enum Action {
    /// The result of the call.
    Return(u64),
    Read(ReadStep),
    Brk(BrkStep),
    Mmap(MmapStep),
    Munmap(MunmapStep),
    Fork(ForkStep),
    Exec(Result<ExecRequest, u64>),
    /// The caller does not go on for now: another task runs, or none can.
    Switch(Option<Resume>),
    /// The kernel stops.
    Fault,
}

/// What exiting does: the status is noted, the console tells it, and another task runs.
pub open spec fn exits(
    k: KernelSpec,
    status: i32,
    ret_to: u64,
    k2: KernelSpec,
    resume: Option<Resume>,
) -> bool {
    &&& k2.sent == k.sent + exit_line(status) + seq![0x0du8, 0x0a]
    &&& k2.screen == with_line(k.screen, exit_line(status))
    &&& switches(
        after_exit(k.sched, k.ps.current_slot),
        k.ps.exited(status),
        k.kstack_top,
        ret_to,
        k2.sched,
        k2.ps,
        k2.kstack_top,
        resume,
    )
    &&& k2.user == k.user && k2.tty == k.tty && k2.port == k.port && k2.ticks == k.ticks
}

/// What `nanosleep` does.
pub open spec fn sleeps(
    k: KernelSpec,
    window: Seq<u8>,
    req: u64,
    frame: Seq<u64>,
    ret_to: u64,
    k2: KernelSpec,
    action: Action,
) -> bool {
    match sleep_decides(window, req, k.ticks) {
        SleepStep::Done(v) => action == Action::Return(v) && k2 == k,
        SleepStep::Fault => action is Fault && k2 == k,
        SleepStep::Until(target) => {
            &&& action matches Action::Switch(resume)
            &&& switches(
                asleep_until(k.sched, k.ps.current_slot, target),
                k.ps.saved(k.ps.current_slot as int, saved_in_frame(frame), 0),
                k.kstack_top,
                ret_to,
                k2.sched,
                k2.ps,
                k2.kstack_top,
                resume,
            )
            &&& k2 == (KernelSpec {
                sched: k2.sched,
                ps: k2.ps,
                kstack_top: k2.kstack_top,
                ..k
            })
        },
    }
}

/// What system call `n` does to the kernel and to user memory, and what it needs next.
pub open spec fn dispatches(
    k: KernelSpec,
    window: Seq<u8>,
    n: u64,
    arg0: u64,
    arg1: u64,
    arg2: u64,
    frame: Seq<u64>,
    ret_to: u64,
    k2: KernelSpec,
    window2: Seq<u8>,
    action: Action,
) -> bool {
    if n == SYS_READ {
        &&& action matches Action::Read(step)
        &&& reads(k.tty, window, arg0, arg1, arg2, k2.tty, window2, step)
        &&& k2 == (KernelSpec { tty: k2.tty, ..k })
    } else if n == SYS_WAIT4 {
        &&& action matches Action::Return(ret)
        &&& waits(k.ps, window, arg0 as i64, arg1, k2.ps, window2, ret)
        &&& k2 == (KernelSpec { ps: k2.ps, ..k })
    } else {
        &&& window2 == window
        &&& if n == SYS_WRITE {
            &&& action matches Action::Return(ret)
            &&& writes(k.sent, window, arg0, arg1, arg2, k2.sent, ret)
            &&& k2 == (KernelSpec { sent: k2.sent, ..k })
        } else if n == SYS_BRK {
            &&& action matches Action::Brk(step)
            &&& brk_decides(k.ps, arg0, step)
            &&& k2 == k
        } else if n == SYS_MMAP {
            &&& action matches Action::Mmap(step)
            &&& mmap_decides(k.ps.next_mmap, arg0, arg1, arg2, step)
            &&& k2 == (KernelSpec {
                ps: ProcessesSpec {
                    next_mmap: next_mmap_after(k.ps.next_mmap, arg0, arg1),
                    ..k.ps
                },
                ..k
            })
        } else if n == SYS_MUNMAP {
            &&& action matches Action::Munmap(step)
            &&& munmap_decides(k.ps, arg0, arg1, k2.ps, step)
            &&& k2 == (KernelSpec { ps: k2.ps, ..k })
        } else if n == SYS_FORK {
            &&& action matches Action::Fork(step)
            &&& fork_decides(k.ps, step)
            &&& k2 == k
        } else if n == SYS_EXECVE {
            &&& action matches Action::Exec(r)
            &&& exec_decides(window, arg0, arg1, arg2, r)
            &&& k2 == k
        } else if n == SYS_SCHED_YIELD {
            &&& action == Action::Return(0)
            &&& k2 == (KernelSpec {
                sched: SchedulerSpec { need_resched: true, ..k.sched },
                ..k
            })
        } else if n == SYS_NANOSLEEP {
            sleeps(k, window, arg0, frame, ret_to, k2, action)
        } else if n == SYS_GETPID {
            action == Action::Return(k.ps.pid()) && k2 == k
        } else if n == SYS_GETPPID {
            &&& action == Action::Return(
                match k.ps.current() {
                    Some(p) => match p.parent {
                        Some(parent) => parent,
                        None => 0,
                    },
                    None => 0,
                },
            )
            &&& k2 == k
        } else if n == SYS_EXIT {
            &&& action matches Action::Switch(resume)
            &&& exits(k, arg0 as i32, ret_to, k2, resume)
        } else {
            action == Action::Return(ENOSYS) && k2 == k
        }
    }
}

/// Runs system call `n`. `frame` is the register frame of the caller, and `ret_to` is where the
/// return path of a system call starts. Numbers without a call return `-ENOSYS`.
pub fn syscall_dispatch<'a>(
    k: &mut Kernel<'a>,
    window: &mut [u8],
    n: u64,
    arg0: u64,
    arg1: u64,
    arg2: u64,
    frame: &[u64; FRAME_WORDS],
    ret_to: u64,
) -> (action: Action)
    requires
        old(k)@.wf(),
        old(window)@.len() == USER_WINDOW,
    ensures
        final(k)@.wf(),
        final(window)@.len() == USER_WINDOW,
        dispatches(
            old(k)@,
            old(window)@,
            n,
            arg0,
            arg1,
            arg2,
            frame@,
            ret_to,
            final(k)@,
            final(window)@,
            action,
        ),
        old(k).screen matches Some(w) ==> (final(k).screen matches Some(f) && *final(f.buffer)
            == *final(w.buffer)),
{
    if n == SYS_READ {
        Action::Read(sys_read(&mut k.tty, window, arg0, arg1, arg2))
    } else if n == SYS_WRITE {
        Action::Return(sys_write(&mut k.serial, window, arg0, arg1, arg2))
    } else if n == SYS_OPEN {
        Action::Return(sys_open(arg0, arg1))
    } else if n == SYS_CLOSE {
        Action::Return(sys_close(arg0))
    } else if n == SYS_BRK {
        Action::Brk(sys_brk(&k.ps, arg0))
    } else if n == SYS_MMAP {
        Action::Mmap(sys_mmap(&mut k.ps, arg0, arg1, arg2, MAP_FLAGS))
    } else if n == SYS_MUNMAP {
        Action::Munmap(sys_munmap(&mut k.ps, arg0, arg1))
    } else if n == SYS_FORK {
        Action::Fork(sys_fork(&k.ps))
    } else if n == SYS_EXECVE {
        Action::Exec(sys_execve(window, arg0, arg1, arg2))
    } else if n == SYS_SCHED_YIELD {
        note_yield(&mut k.sched);
        Action::Return(0)
    } else if n == SYS_NANOSLEEP {
        match sys_nanosleep(window, arg0, k.clock.ticks) {
            SleepStep::Done(v) => Action::Return(v),
            SleepStep::Fault => Action::Fault,
            SleepStep::Until(target) => Action::Switch(
                sleep_until_ticks(
                    &mut k.sched,
                    &mut k.ps,
                    &mut k.kstack,
                    save_from_dispatch_rsp(frame),
                    target,
                    ret_to,
                ),
            ),
        }
    } else if n == SYS_WAIT4 {
        Action::Return(sys_wait4(&mut k.ps, window, arg0 as i64, arg1))
    } else if n == SYS_GETPID {
        Action::Return(current_pid(&k.ps))
    } else if n == SYS_GETPPID {
        Action::Return(
            match current_ppid(&k.ps) {
                Some(parent) => parent,
                None => 0,
            },
        )
    } else if n == SYS_EXIT {
        Action::Switch(exit_and_schedule(k, arg0 as i32, ret_to))
    } else {
        Action::Return(ENOSYS)
    }
}

/// `exit`: the running task is over.
pub fn exit_and_schedule<'a>(k: &mut Kernel<'a>, code: i32, ret_to: u64) -> (resume: Option<Resume>)
    requires
        old(k)@.wf(),
    ensures
        final(k)@.wf(),
        exits(old(k)@, code, ret_to, final(k)@, resume),
        old(k).screen matches Some(w) ==> (final(k).screen matches Some(f) && *final(f.buffer)
            == *final(w.buffer)),
{
    mark_exited(&mut k.ps, code);
    let line = exit_message(code);
    print_line(&mut k.screen, &mut k.serial, &line);
    schedule_after_exit(&mut k.sched, &mut k.ps, &mut k.kstack, ret_to)
}

/// The end of a system call: its result is noted, and the next task runs.
pub fn syscall_tail<'a>(
    k: &mut Kernel<'a>,
    ret_val: u64,
    frame: &[u64; FRAME_WORDS],
    ret_to: u64,
) -> (resume: Option<Resume>)
    requires
        old(k)@.wf(),
    ensures
        final(k)@.wf(),
        switches(
            after_syscall(old(k)@.sched, old(k)@.ticks),
            old(k)@.ps.saved(old(k)@.ps.current_slot as int, saved_in_frame(frame@), ret_val),
            old(k)@.kstack_top,
            ret_to,
            final(k)@.sched,
            final(k)@.ps,
            final(k)@.kstack_top,
            resume,
        ),
        final(k)@ == (KernelSpec {
            sched: final(k)@.sched,
            ps: final(k)@.ps,
            kstack_top: final(k)@.kstack_top,
            ..old(k)@
        }),
        old(k).screen matches Some(w) ==> (final(k).screen matches Some(f) && *final(f.buffer)
            == *final(w.buffer)),
{
    let now: u64 = k.clock.ticks;
    complete_syscall_and_schedule(
        &mut k.sched,
        &mut k.ps,
        &mut k.kstack,
        ret_val,
        frame,
        now,
        ret_to,
    )
}

/// The end of an `execve` that succeeded: the new program's registers stay as they were noted, and
/// the next task runs.
pub fn exec_tail<'a>(k: &mut Kernel<'a>, ret_to: u64) -> (resume: Option<Resume>)
    requires
        old(k)@.wf(),
    ensures
        final(k)@.wf(),
        switches(
            after_syscall(old(k)@.sched, old(k)@.ticks),
            old(k)@.ps,
            old(k)@.kstack_top,
            ret_to,
            final(k)@.sched,
            final(k)@.ps,
            final(k)@.kstack_top,
            resume,
        ),
        final(k)@ == (KernelSpec {
            sched: final(k)@.sched,
            ps: final(k)@.ps,
            kstack_top: final(k)@.kstack_top,
            ..old(k)@
        }),
        old(k).screen matches Some(w) ==> (final(k).screen matches Some(f) && *final(f.buffer)
            == *final(w.buffer)),
{
    let now: u64 = k.clock.ticks;
    schedule_after_exec(&mut k.sched, &mut k.ps, &mut k.kstack, now, ret_to)
}

// --- what holds of all calls ---

/// A successful `execve` starts the process over: whichever task runs next, the caller's noted
/// registers are those of the new program; and when it is the caller, it finds the new entry, the
/// new stack pointer and 0 as its result.
pub proof fn law_exec_starts_new_program(
    s: SchedulerSpec,
    ps: ProcessesSpec,
    top: u64,
    entry: u64,
    rsp: u64,
    ret_to: u64,
    s2: SchedulerSpec,
    ps2: ProcessesSpec,
    top2: u64,
    resume: Option<Resume>,
)
    requires
        ps.current() is Some,
        switches(
            s,
            ps.saved(ps.current_slot as int, user_bootstrap(entry, rsp), 0),
            top,
            ret_to,
            s2,
            ps2,
            top2,
            resume,
        ),
    ensures
        ps2.occupant(ps.current_slot as int) matches Some(p) && p.save == user_bootstrap(entry, rsp)
            && p.pending_rax == 0,
        resume matches Some(r) ==> r.slot == ps.current_slot ==> {
            &&& saved_in_frame(r.frame.words@) == user_bootstrap(entry, rsp)
            &&& saved_in_frame(r.frame.words@).user_rip == entry
            &&& saved_in_frame(r.frame.words@).user_rsp == rsp
            &&& r.rax == 0
        },
{
}

/// No system call writes to the text page of the program.
pub proof fn law_syscalls_keep_text(
    k: KernelSpec,
    window: Seq<u8>,
    n: u64,
    arg0: u64,
    arg1: u64,
    arg2: u64,
    frame: Seq<u64>,
    ret_to: u64,
    k2: KernelSpec,
    window2: Seq<u8>,
    action: Action,
    i: int,
)
    requires
        window.len() == USER_WINDOW,
        k.tty.wf(),
        dispatches(k, window, n, arg0, arg1, arg2, frame, ret_to, k2, window2, action),
        0 <= i < window_index(USER_STACK_LO as int),
    ensures
        window2[i] == window[i],
{
}

/// The system calls that do something.
pub open spec fn is_call(n: u64) -> bool {
    ||| n == SYS_READ || n == SYS_WRITE
    ||| n == SYS_MMAP || n == SYS_MUNMAP || n == SYS_BRK
    ||| n == SYS_FORK || n == SYS_EXECVE || n == SYS_EXIT || n == SYS_WAIT4
    ||| n == SYS_SCHED_YIELD || n == SYS_NANOSLEEP
    ||| n == SYS_GETPID || n == SYS_GETPPID
}

/// Any other system call, `open` and `close` among them, changes nothing and returns `-ENOSYS`.
pub proof fn law_other_calls_are_refused(
    k: KernelSpec,
    window: Seq<u8>,
    n: u64,
    arg0: u64,
    arg1: u64,
    arg2: u64,
    frame: Seq<u64>,
    ret_to: u64,
    k2: KernelSpec,
    window2: Seq<u8>,
    action: Action,
)
    requires
        dispatches(k, window, n, arg0, arg1, arg2, frame, ret_to, k2, window2, action),
        !is_call(n),
    ensures
        action == Action::Return(ENOSYS),
        k2 == k,
        window2 == window,
{
}

/// What a system call is to the regions.
pub open spec fn region_event(n: u64, arg0: u64, arg1: u64) -> RegionEvent {
    if n == SYS_MMAP {
        RegionEvent::Ask { addr: arg0, len: arg1 }
    } else {
        RegionEvent::Other
    }
}

/// Of the system calls only `mmap` moves the place of the next region, so every call is one step of
/// a run of region events.
pub proof fn law_calls_are_region_steps(
    k: KernelSpec,
    window: Seq<u8>,
    n: u64,
    arg0: u64,
    arg1: u64,
    arg2: u64,
    frame: Seq<u64>,
    ret_to: u64,
    k2: KernelSpec,
    window2: Seq<u8>,
    action: Action,
)
    requires
        dispatches(k, window, n, arg0, arg1, arg2, frame, ret_to, k2, window2, action),
    ensures
        region_step(k.ps, region_event(n, arg0, arg1), k2.ps),
{
}

/// Switching tasks touches neither the place nor the number of the next region.
pub proof fn law_switches_are_region_steps(
    s: SchedulerSpec,
    ps: ProcessesSpec,
    top: u64,
    frame: Seq<u64>,
    ret_val: u64,
    ret_to: u64,
    s2: SchedulerSpec,
    ps2: ProcessesSpec,
    top2: u64,
    resume: Option<Resume>,
)
    requires
        switches(
            s,
            ps.saved(ps.current_slot as int, saved_in_frame(frame), ret_val),
            top,
            ret_to,
            s2,
            ps2,
            top2,
            resume,
        ),
    ensures
        region_step(ps, RegionEvent::Other, ps2),
{
}

/// A task that has exited is not what runs next.
pub proof fn law_exited_task_is_not_resumed(
    k: KernelSpec,
    status: i32,
    ret_to: u64,
    k2: KernelSpec,
    r: Resume,
)
    requires
        k.ps.current() is Some,
        exits(k, status, ret_to, k2, Some(r)),
    ensures
        r.slot != k.ps.current_slot,
{
}

/// The exit status of a child reaches the parent that waits for it: the wait returns the child's
/// number and stores its status. The parent has no child in a lower slot that still runs; and where
/// it waits for any child, none in a lower slot that could be reaped in place of this one.
pub proof fn law_exit_status_reaches_parent(
    ps: ProcessesSpec,
    status: i32,
    parent: usize,
    pid: i64,
    window: Seq<u8>,
    wstatus: u64,
    ps2: ProcessesSpec,
    window2: Seq<u8>,
    ret: u64,
)
    requires
        ps.wf(),
        ps.current() is Some,
        ps.current_slot != parent,
        ps.occupant(parent as int) matches Some(p) && is_child(
            ps.slots->0,
            ps.current_slot as int,
            p.pid,
        ) && forall|i: int|
            0 <= i < ps.current_slot && #[trigger] is_child(ps.slots->0, i, p.pid)
                ==> ps.slots->0[i]->0.exit_code is Some && pid >= 0,
        pid < 0 || pid == ps.pid(),
        waits(
            ProcessesSpec { current_slot: parent, ..ps.exited(status) },
            window,
            pid,
            wstatus,
            ps2,
            window2,
            ret,
        ),
    ensures
        ps2.occupant(ps.current_slot as int) is None,
        wstatus == 0 ==> ret == ps.pid() && window2 == window,
        wstatus != 0 && writable(wstatus as int, 4) ==> ret == ps.pid() && window2 == filled(
            window,
            window_index(wstatus as int),
            le32_bytes(status as u32),
        ),
{
    let after = ProcessesSpec { current_slot: parent, ..ps.exited(status) };
    let slots = after.slots->0;
    let c = ps.current_slot as int;
    let me = ps.occupant(parent as int)->0.pid;
    assert(slots[c] == Some(ProcessSpec { exit_code: Some(status), ..ps.current()->0 }));
    assert(slots[parent as int] == ps.slots->0[parent as int]);
    assert(after.pid() == me);
    assert forall|i: int| 0 <= i < c implies looked_past(slots, i, me, pid) by {
        assert(slots[i] == ps.slots->0[i]);
        if is_child(slots, i, me) {
            assert(is_child(ps.slots->0, i, me));
        }
    }
    lemma_child_is_reaped(slots, me, pid, c);
    assert(reaps(after, pid) == Some(c));
}

/// A time span with whole and fractional seconds is slept for as many ticks as fit into it, and for
/// one at least.
pub proof fn law_sleep_length(sec: int, nsec: int)
    requires
        0 <= sec,
        0 <= nsec < 1_000_000_000,
        sec * TIMER_HZ + TIMER_HZ <= i64::MAX,
    ensures
        ticks_in(sec, nsec) == (if (sec * 1_000_000_000 + nsec) * TIMER_HZ < 1_000_000_000 {
            1
        } else {
            (sec * 1_000_000_000 + nsec) * TIMER_HZ / 1_000_000_000
        }),
{
}

/// Different numbers have different decimal texts, so the console tells exit codes apart.
pub proof fn law_decimal_is_injective(a: int, b: int)
    requires
        0 <= a,
        0 <= b,
        decimal_digits(a) == decimal_digits(b),
    ensures
        a == b,
    decreases a,
{
    lemma_decimal_len(a);
    lemma_decimal_len(b);
    if a >= 10 && b >= 10 {
        let x = decimal_digits(a / 10);
        let y = decimal_digits(b / 10);
        assert(x =~= decimal_digits(a).drop_last());
        assert(y =~= decimal_digits(b).drop_last());
        assert(decimal_digits(a).last() == (0x30 + a % 10) as u8);
        assert(decimal_digits(b).last() == (0x30 + b % 10) as u8);
        law_decimal_is_injective(a / 10, b / 10);
    } else if a < 10 && b < 10 {
        assert(decimal_digits(a)[0] == (0x30 + a) as u8);
        assert(decimal_digits(b)[0] == (0x30 + b) as u8);
    }
}

proof fn lemma_decimal_len(n: int)
    requires
        0 <= n,
    ensures
        decimal_digits(n).len() >= 1,
        n >= 10 ==> decimal_digits(n).len() >= 2,
        n < 10 ==> decimal_digits(n).len() == 1,
    decreases n,
{
    if n >= 10 {
        lemma_decimal_len(n / 10);
    }
}

/// A write to stdout or stderr that succeeds sends the bytes of user memory at `buf`, one by one and
/// in order: byte `i` that goes out is the byte at address `buf + i`, in the text page and in the stack
/// page alike. What was to be sent before still goes out first.
pub proof fn law_write_sends_user_bytes(
    sent: Seq<u8>,
    window: Seq<u8>,
    fd: u64,
    buf: u64,
    len: u64,
    sent2: Seq<u8>,
    ret: u64,
    i: int,
)
    requires
        window.len() == 0x2000,
        fd == 1 || fd == 2,
        (0x400000 <= buf && buf + len <= 0x401000) || (0x401000 <= buf && buf + len <= 0x402000),
        writes(sent, window, fd, buf, len, sent2, ret),
    ensures
        ret == len,
        sent2.len() == sent.len() + len,
        0 <= i < sent.len() ==> sent2[i] == sent[i],
        0 <= i < len ==> sent2[sent.len() + i] == window[buf + i - 0x400000],
{
}

/// When a write fails, and that nothing is sent then: `-ENOSPC` for more than 8192 bytes; `-EFAULT` for
/// a buffer that is not all in the text page or all in the stack page; `-EBADF` for a descriptor that
/// is neither stdout nor stderr.
pub proof fn law_write_refusals(
    sent: Seq<u8>,
    window: Seq<u8>,
    fd: u64,
    buf: u64,
    len: u64,
    sent2: Seq<u8>,
    ret: u64,
)
    requires
        writes(sent, window, fd, buf, len, sent2, ret),
    ensures
        ({
            let inside = (0x400000 <= buf && buf + len <= 0x401000) || (0x401000 <= buf && buf + len
                <= 0x402000);
            &&& len > 8192 ==> ret == ENOSPC && sent2 == sent
            &&& len <= 8192 && !inside ==> ret == EFAULT && sent2 == sent
            &&& len <= 8192 && inside && fd != 1 && fd != 2 ==> ret == crate::errno::EBADF && sent2
                == sent
            &&& len <= 8192 && inside && (fd == 1 || fd == 2) ==> ret == len
        }),
{
}

/// What a read puts at an address, a write of that address sends.
pub proof fn law_write_sends_what_read_stored(
    tty: TtySpec,
    window: Seq<u8>,
    buf: u64,
    len: u64,
    tty2: TtySpec,
    window2: Seq<u8>,
    n: u64,
    sent: Seq<u8>,
    fd: u64,
    sent2: Seq<u8>,
    ret: u64,
    i: int,
)
    requires
        window.len() == 0x2000,
        0x401000 <= buf && buf + len <= 0x402000,
        0 < len,
        tty.ready.len() > 0,
        reads(tty, window, 0, buf, len, tty2, window2, ReadStep::Done(n)),
        fd == 1 || fd == 2,
        writes(sent, window2, fd, buf, n, sent2, ret),
        0 <= i < n,
    ensures
        ret == n,
        sent2[sent.len() + i] == tty.ready[0][i],
{
    crate::fs::law_read_puts_line_at_buffer(
        tty,
        window,
        buf,
        len,
        tty2,
        window2,
        n,
        buf - 0x400000 + i,
    );
    law_write_sends_user_bytes(sent, window2, fd, buf, n, sent2, ret, i);
}

/// A time span of `sec` seconds and `nsec` nanoseconds, stored at a readable address in the text page or
/// in the stack page, is slept for as many ticks of 1/100 second as fit into it, and for one at least,
/// counted from now. Only an address that is null or not readable makes it `-EFAULT`.
pub proof fn law_nanosleep_sleeps_time_span(window: Seq<u8>, req: u64, now: u64, sec: int, nsec: int)
    requires
        0 <= sec,
        0 <= nsec < 1_000_000_000,
        now + sec * 100 + 100 <= i64::MAX,
    ensures
        ({
            let inside = (0x400000 <= req && req + 16 <= 0x401000) || (0x401000 <= req && req + 16
                <= 0x402000);
            let whole = (sec * 1_000_000_000 + nsec) * 100 / 1_000_000_000;
            let ticks = if whole < 1 {
                1
            } else {
                whole
            };
            &&& !inside <==> sleep_decides(window, req, now) == SleepStep::Done(EFAULT)
            &&& inside && le64(window, req - 0x400000) == sec && le64(window, req - 0x400000 + 8)
                == nsec ==> sleep_decides(window, req, now) == SleepStep::Until((now + ticks) as u64)
        }),
{
}

/// A sleep ends after it starts, whatever is asked for.
pub proof fn law_sleep_ends_later(window: Seq<u8>, req: u64, now: u64)
    requires
        now < u64::MAX,
    ensures
        sleep_decides(window, req, now) matches SleepStep::Until(t) ==> t > now,
{
}

/// A wait without a child to reap is `-EAGAIN` and changes nothing. Otherwise it frees that child's slot
/// and no other, returns the child's number, and, for an address in the stack page, stores the exit
/// status there in four bytes, lowest first, and touches no other byte. A bad address is `-EFAULT`.
pub proof fn law_wait_stores_status(
    ps: ProcessesSpec,
    window: Seq<u8>,
    pid: i64,
    wstatus: u64,
    ps2: ProcessesSpec,
    window2: Seq<u8>,
    ret: u64,
    i: int,
)
    requires
        window.len() == 0x2000,
        ps.slots is Some,
        waits(ps, window, pid, wstatus, ps2, window2, ret),
        0 <= i < 0x2000,
    ensures
        match reaps(ps, pid) {
            None => ret == EAGAIN && ps2 == ps && window2 == window,
            Some(slot) => {
                let p = ps.slots->0[slot]->0;
                let at = wstatus - 0x400000;
                let inside = 0x401000 <= wstatus && wstatus + 4 <= 0x402000;
                &&& 0 <= slot < ps.slots->0.len()
                &&& p.parent == Some(ps.pid()) && p.exit_code is Some
                &&& ps2.occupant(slot) is None
                &&& i != slot ==> ps2.occupant(i) == ps.occupant(i)
                &&& ps2.current_slot == ps.current_slot
                &&& wstatus == 0 || inside ==> ret == p.pid
                &&& wstatus != 0 && !inside ==> ret == EFAULT
                &&& !inside || !(at <= i < at + 4) ==> window2[i] == window[i]
                &&& inside ==> window2[at] + 0x100 * window2[at + 1] + 0x1_0000 * window2[at + 2]
                    + 0x100_0000 * window2[at + 3] == p.exit_code->0 as u32
            },
        },
{
    if reaps(ps, pid) is Some {
        let slot = reaps(ps, pid)->0;
        crate::process::law_wait_takes_lowest_slot(ps.slots->0, ps.pid(), pid, 0);
        let st = ps.slots->0[slot]->0.exit_code->0 as u32;
        crate::bytes::law_half_bytes_add_up(st);
        if 0x401000 <= wstatus && wstatus + 4 <= 0x402000 {
            let at = wstatus - 0x400000;
            let b = le32_bytes(st);
            assert(window2 == filled(window, at, b));
            assert(window2[at] == b[0] && window2[at + 1] == b[1]);
            assert(window2[at + 2] == b[2] && window2[at + 3] == b[3]);
        }
    }
}

/// The number that decimal digits spell.
pub open spec fn decimal_value(digits: Seq<u8>) -> int
    decreases digits.len(),
{
    if digits.len() == 0 {
        0
    } else {
        10 * decimal_value(digits.drop_last()) + (digits.last() - 0x30)
    }
}

/// The decimal text of a number spells it: digits without a leading zero, with a minus sign in front
/// exactly where it is negative.
pub proof fn law_decimal_spells_number(n: i32)
    ensures
        n >= 0 ==> decimal_value(decimal_text(n)) == n,
        n < 0 ==> decimal_text(n)[0] == 0x2d && decimal_value(decimal_text(n).skip(1)) == -n,
        n > 0 ==> decimal_text(n)[0] != 0x30 && decimal_text(n)[0] != 0x2d,
        n == 0 ==> decimal_text(n) == seq![0x30u8],
        n < 0 ==> decimal_text(n)[1] != 0x30,
{
    if n < 0 {
        lemma_decimal_value(-n);
        assert(decimal_text(n).skip(1) =~= decimal_digits(-n));
        assert(decimal_text(n)[1] == decimal_digits(-n)[0]);
    } else {
        lemma_decimal_value(n as int);
    }
}

proof fn lemma_decimal_value(n: int)
    requires
        0 <= n,
    ensures
        decimal_digits(n).len() >= 1,
        decimal_value(decimal_digits(n)) == n,
        n > 0 ==> 0x31 <= decimal_digits(n)[0] <= 0x39,
    decreases n,
{
    reveal_with_fuel(decimal_value, 2);
    let d = decimal_digits(n);
    if n < 10 {
        assert(d.drop_last() =~= Seq::empty());
        assert(d.last() == 0x30 + n);
    } else {
        lemma_decimal_value(n / 10);
        assert(d.drop_last() =~= decimal_digits(n / 10));
        assert(d.last() == 0x30 + n % 10);
    }
}

/// Every call number does its own work, by the Linux numbers: 0 reads, 1 writes, 9, 11 and 12 are for
/// memory, 24 yields, 35 sleeps, 39 and 110 tell the caller's and its parent's number, 57 forks, 59
/// starts a program, 60 exits, 61 waits; and a call only changes what it is about.
pub proof fn law_calls_by_number(
    k: KernelSpec,
    window: Seq<u8>,
    n: u64,
    arg0: u64,
    arg1: u64,
    arg2: u64,
    frame: Seq<u64>,
    ret_to: u64,
    k2: KernelSpec,
    window2: Seq<u8>,
    action: Action,
)
    requires
        dispatches(k, window, n, arg0, arg1, arg2, frame, ret_to, k2, window2, action),
    ensures
        n == 0 ==> (action matches Action::Read(step) && reads(
            k.tty,
            window,
            arg0,
            arg1,
            arg2,
            k2.tty,
            window2,
            step,
        )) && k2 == (KernelSpec { tty: k2.tty, ..k }),
        n == 1 ==> (action matches Action::Return(ret) && writes(
            k.sent,
            window,
            arg0,
            arg1,
            arg2,
            k2.sent,
            ret,
        )) && k2 == (KernelSpec { sent: k2.sent, ..k }) && window2 == window,
        n == 9 ==> (action matches Action::Mmap(step) && mmap_decides(
            k.ps.next_mmap,
            arg0,
            arg1,
            arg2,
            step,
        )) && window2 == window && k2.ps.slots == k.ps.slots,
        n == 11 ==> (action matches Action::Munmap(step) && munmap_decides(
            k.ps,
            arg0,
            arg1,
            k2.ps,
            step,
        )) && window2 == window,
        n == 12 ==> (action matches Action::Brk(step) && brk_decides(k.ps, arg0, step)) && k2 == k
            && window2 == window,
        n == 24 ==> action == Action::Return(0) && k2.sched.need_resched && k2.sched.queues
            == k.sched.queues && k2.sched.sleepers == k.sched.sleepers && k2.ps == k.ps && window2
            == window,
        n == 35 ==> (sleep_decides(window, arg0, k.ticks) matches SleepStep::Done(v) ==> action
            == Action::Return(v) && k2 == k) && (sleep_decides(
            window,
            arg0,
            k.ticks,
        ) matches SleepStep::Until(t) ==> action is Switch && k2.sched.sleepers.contains(
            crate::scheduler::Sleeper { until: t, slot: k.ps.current_slot },
        )) && window2 == window,
        n == 39 && k.ps.current() is Some ==> action == Action::Return(k.ps.current()->0.pid) && k2
            == k,
        n == 57 ==> (action matches Action::Fork(step) && fork_decides(k.ps, step)) && k2 == k,
        n == 59 ==> (action matches Action::Exec(r) && exec_decides(window, arg0, arg1, arg2, r)) && k2
            == k && window2 == window,
        n == 60 ==> action is Switch && window2 == window,
        n == 61 ==> (action matches Action::Return(ret) && waits(
            k.ps,
            window,
            arg0 as i64,
            arg1,
            k2.ps,
            window2,
            ret,
        )) && k2 == (KernelSpec { ps: k2.ps, ..k }),
        n == 110 && k.ps.current() is Some ==> (action matches Action::Return(ret) && (
        k.ps.current()->0.parent matches Some(q) ==> ret == q) && (k.ps.current()->0.parent is None
            ==> ret == 0)) && k2 == k,
{
    if n == 35 {
        if let SleepStep::Until(t) = sleep_decides(window, arg0, k.ticks) {
            let s = crate::scheduler::Sleeper { until: t, slot: k.ps.current_slot };
            let d = crate::scheduler::due(k.sched.sleepers, t);
            assert(k2.sched.sleepers[d.len() as int] == s);
        }
    }
}

/// Exiting notes the status for the parent, takes the caller out of the queue, wakes who waits, and says
/// so on the serial port: the line names the status in decimal and ends with carriage return and
/// newline. Nothing else of the kernel changes.
pub proof fn law_exit_is_announced(
    k: KernelSpec,
    status: i32,
    ret_to: u64,
    k2: KernelSpec,
    resume: Option<Resume>,
    x: usize,
)
    requires
        k.ps.current() is Some,
        k.sched.queues is Some,
        exits(k, status, ret_to, k2, resume),
    ensures
        ({
            let head = encode_utf8("[syscall] exit("@);
            let tail = encode_utf8(")"@) + seq![0x0du8, 0x0a];
            &&& k2.sent == k.sent + (head + decimal_text(status) + tail)
            &&& k2.ps.occupant(k.ps.current_slot as int) matches Some(p) && p.exit_code == Some(status)
                && p.pid == k.ps.current()->0.pid && p.parent == k.ps.current()->0.parent
            &&& k2.sched.queues is Some && k2.sched.need_resched
            &&& k2.sched.sleepers == k.sched.sleepers
            &&& k2.sched.queues->0.wait_blocked.len() == 0
            &&& k2.user == k.user && k2.tty == k.tty && k2.ticks == k.ticks && k2.port == k.port
            &&& k.screen is None ==> k2.screen is None
        }),
{
    let head = encode_utf8("[syscall] exit("@);
    let tail = encode_utf8(")"@) + seq![0x0du8, 0x0a];
    assert(k2.sent =~= k.sent + (head + decimal_text(status) + tail));
    crate::scheduler::law_exit_leaves_others_queued(k.sched, k.ps.current_slot, x);
    crate::process::law_exit_notes_status(k.ps, status, 0);
}

/// The span of a sleep is read as two signed numbers, seconds and nanoseconds. Its nanoseconds count for
/// `part` whole ticks, rounded toward zero; a sum below one tick is one tick; neither the span nor the
/// tick at which the sleep ends wraps around. Nanoseconds whose hundredfold overflows are a fault.
pub proof fn law_nanosleep_reads_signed_span(
    window: Seq<u8>,
    req: u64,
    now: u64,
    sec: i64,
    nsec: i64,
    part: int,
)
    requires
        (0x400000 <= req && req + 16 <= 0x401000) || (0x401000 <= req && req + 16 <= 0x402000),
        le64(window, req - 0x400000) == (if sec >= 0 {
            sec as int
        } else {
            sec + 0x1_0000_0000_0000_0000
        }),
        le64(window, req - 0x400000 + 8) == (if nsec >= 0 {
            nsec as int
        } else {
            nsec + 0x1_0000_0000_0000_0000
        }),
        nsec >= 0 ==> part * 1_000_000_000 <= nsec * 100 < (part + 1) * 1_000_000_000,
        nsec < 0 ==> (part - 1) * 1_000_000_000 < nsec * 100 <= part * 1_000_000_000,
    ensures
        sleep_decides(window, req, now) is Fault <==> nsec * 100 > i64::MAX || nsec * 100 < i64::MIN,
        !(sleep_decides(window, req, now) is Fault) ==> {
            let most: int = 0x7fff_ffff_ffff_ffff;
            let sum = sec * 100 + part;
            &&& sleep_decides(window, req, now) matches SleepStep::Until(end)
            &&& now < end || end == u64::MAX
            &&& sum < 1 && sec * 100 <= most ==> end == now + 1 || end == u64::MAX
            &&& 1 <= sum <= most && sec * 100 <= most && now + sum <= u64::MAX ==> end == now + sum
            &&& sec * 100 > most && part >= 0 && now + most <= u64::MAX ==> end == now + most
            &&& sec * 100 > most && part < 0 && now + most + part <= u64::MAX ==> end == now + most
                + part
            &&& now + sum > u64::MAX && sec * 100 <= most && sum <= most ==> end == u64::MAX
        },
{
}

} // verus!
