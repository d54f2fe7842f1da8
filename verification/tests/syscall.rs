use rockos::elf::{ElfError, ExecStart};
use rockos::errno::{EAGAIN, EBADF, EFAULT, ENOMEM, ENOSPC, ENOSYS};
use rockos::exec::finish_execve;
use rockos::fork::{finish_fork, next_free_slot, ForkStep};
use rockos::fs::ReadStep;
use rockos::interrupts::Clock;
use rockos::memory::{BitmapFrameAllocator, FrameRegion};
use rockos::paging::PageAction;
use rockos::process::{self, set_current_slot, Processes};
use rockos::scheduler::{self, Scheduler};
use rockos::serial::{SerialPort, COM1_BASE};
use rockos::syscall::{
    exec_tail, exit_and_schedule, sys_nanosleep, sys_wait4, sys_write, syscall_dispatch, syscall_tail, Action,
    Kernel, SleepStep, MAP_ANONYMOUS, MAP_FLAGS, MAP_PRIVATE, SYS_BRK, SYS_CLOSE, SYS_EXECVE,
    SYS_EXIT, SYS_FORK, SYS_GETPID, SYS_GETPPID, SYS_MMAP, SYS_MUNMAP, SYS_NANOSLEEP, SYS_OPEN,
    SYS_READ, SYS_SCHED_YIELD, SYS_WAIT4, SYS_WRITE,
};
use rockos::task::{
    restore_to_kstack, save_from_dispatch_rsp, CurrentKstack, SyscallSaved,
    FRAME_WORDS,
};
use rockos::tty::{feed_from_irq, TtyState};
use rockos::user::{
    clear_for_blob, first_program, map_and_load, stack_page_job, user_blob, user_region_is_readable_range,
    user_region_is_writable_range, UserImage, USER_WINDOW,
};
use rockos::vm::{finish_mmap, BrkStep, MmapStep, MunmapStep};

const RET: u64 = 0x1234;

fn kernel() -> Kernel<'static> {
    let mut k = Kernel {
        ps: Processes::new(),
        sched: Scheduler::new(),
        kstack: CurrentKstack { top: 0 },
        user: UserImage::new(),
        tty: TtyState::new(),
        serial: SerialPort::new(COM1_BASE),
        clock: Clock { ticks: 50 },
        screen: None,
    };
    process::init(&mut k.ps, &mut k.kstack, &k.user, 0x8000);
    scheduler::init(&mut k.sched, 1, 50);
    k
}

fn saved() -> SyscallSaved {
    SyscallSaved {
        rbp: 3,
        ..SyscallSaved::bootstrap_user(0x400020, 0x401f80, 0x202)
    }
}

fn words() -> [u64; FRAME_WORDS] {
    restore_to_kstack(0x9000, &saved(), 5).words
}

fn window() -> Vec<u8> {
    vec![0u8; USER_WINDOW]
}

fn put(w: &mut [u8], addr: u64, bytes: &[u8]) {
    let at = (addr - 0x400000) as usize;
    w[at..at + bytes.len()].copy_from_slice(bytes);
}

fn call(k: &mut Kernel<'static>, w: &mut [u8], n: u64, args: [u64; 3]) -> Action {
    syscall_dispatch(k, w, n, args[0], args[1], args[2], &words(), RET)
}

fn returned(a: Action) -> u64 {
    match a {
        Action::Return(v) => v,
        _ => panic!("the call did not return"),
    }
}

/// Forks the running process; the child's slot.
fn fork_child(k: &mut Kernel<'static>) -> usize {
    let slot = next_free_slot(&k.ps).unwrap();
    let pid = process::alloc_pid(&k.ps).unwrap();
    let kstack = 0x8000 + 0x1000 * slot as u64;
    finish_fork(&mut k.ps, &mut k.sched, &saved(), pid, Some(kstack));
    slot
}

#[test]
fn frames_round_trip() {
    let f = restore_to_kstack(0x9000, &saved(), 5);
    assert_eq!(f.base, 0x9000 - 88);
    assert_eq!((f.words[0], f.words[1]), (5, 0));
    assert_eq!(f.words[10], 0x401f80);
    assert_eq!(save_from_dispatch_rsp(&f.words), saved());
}

#[test]
fn other_numbers_are_refused() {
    let mut k = kernel();
    let mut w = window();
    for n in [SYS_OPEN, SYS_CLOSE, 4, 62, 200, u64::MAX] {
        assert_eq!(returned(call(&mut k, &mut w, n, [1, 2, 3])), ENOSYS);
    }
}

#[test]
fn process_numbers() {
    let mut k = kernel();
    let mut w = window();
    assert_eq!(returned(call(&mut k, &mut w, SYS_GETPID, [0; 3])), 1);
    assert_eq!(returned(call(&mut k, &mut w, SYS_GETPPID, [0; 3])), 0);
    let slot = fork_child(&mut k);
    set_current_slot(&mut k.ps, &mut k.kstack, slot);
    assert_eq!(returned(call(&mut k, &mut w, SYS_GETPID, [0; 3])), 2);
    assert_eq!(returned(call(&mut k, &mut w, SYS_GETPPID, [0; 3])), 1);
}

#[test]
fn write_sends_user_bytes() {
    let mut k = kernel();
    let mut w = window();
    put(&mut w, 0x400ffd, b"hi!");
    assert_eq!(returned(call(&mut k, &mut w, SYS_WRITE, [1, 0x400ffd, 3])), 3);
    assert_eq!(returned(call(&mut k, &mut w, SYS_WRITE, [2, 0x400ffd, 1])), 1);
    assert_eq!(returned(call(&mut k, &mut w, SYS_WRITE, [1, 0x400000, 0])), 0);
    assert_eq!(k.serial.take(), b"hi!h");
    let mut refused = |fd, buf, len| returned(call(&mut k, &mut w, SYS_WRITE, [fd, buf, len]));
    assert_eq!(refused(1, 0x400000, 8193), ENOSPC);
    assert_eq!(refused(9, 0x400000, 8193), ENOSPC);
    assert_eq!(refused(1, 0x400ffd, 4), EFAULT);
    assert_eq!(refused(9, 0x300000, 4), EFAULT);
    assert_eq!(refused(9, 0x400000, 4), EBADF);
    assert!(k.serial.take().is_empty());
    assert_eq!(sys_write(&mut k.serial, &w, 1, 0x401000, 4096), 4096);
    assert_eq!(k.serial.take().len(), 4096);
}

#[test]
fn read_through_the_dispatcher() {
    let mut k = kernel();
    let mut w = window();
    let read = |k: &mut Kernel<'static>, w: &mut [u8]| match call(k, w, SYS_READ, [0, 0x401000, 9]) {
        Action::Read(step) => step,
        _ => panic!("no read"),
    };
    assert_eq!(read(&mut k, &mut w), ReadStep::Wait);
    for code in [0x1e, 0x1c] {
        feed_from_irq(&mut k.tty, code);
    }
    assert_eq!(read(&mut k, &mut w), ReadStep::Done(2));
    assert_eq!(&w[0x1000..0x1002], b"a\n");
}

#[test]
fn memory_calls_through_the_dispatcher() {
    let mut k = kernel();
    let mut w = window();
    assert!(matches!(
        call(&mut k, &mut w, SYS_BRK, [0; 3]),
        Action::Brk(BrkStep::Done(0x404000))
    ));
    assert!(matches!(
        call(&mut k, &mut w, SYS_BRK, [0x405000, 0, 0]),
        Action::Brk(BrkStep::Grow {
            new_end: 0x405000,
            ..
        })
    ));
    let area = match call(&mut k, &mut w, SYS_MMAP, [0, 4096, 2]) {
        Action::Mmap(MmapStep::Place { area, .. }) => area,
        _ => panic!("no region"),
    };
    assert_eq!((area.virt_start, area.pages, area.writable), (0x410000, 1, true));
    assert_eq!(finish_mmap(&mut k.ps, area, true), 0x410000);
    assert!(matches!(
        call(&mut k, &mut w, SYS_MUNMAP, [0x410000, 4096, 0]),
        Action::Munmap(MunmapStep::Unmap(_))
    ));
    assert_eq!(MAP_FLAGS, MAP_PRIVATE | MAP_ANONYMOUS);
    assert!(matches!(
        call(&mut k, &mut w, SYS_FORK, [0; 3]),
        Action::Fork(ForkStep::MapStack { child_pid: 2, .. })
    ));
    put(&mut w, 0x400010, b"/init\0");
    assert!(matches!(
        call(&mut k, &mut w, SYS_EXECVE, [0x400010, 0, 0]),
        Action::Exec(Ok(_))
    ));
}

#[test]
fn yield_switches_at_the_end_of_the_call() {
    let mut k = kernel();
    let mut w = window();
    fork_child(&mut k);
    k.sched.need_resched = false;
    assert_eq!(returned(call(&mut k, &mut w, SYS_SCHED_YIELD, [0; 3])), 0);
    assert!(k.sched.need_resched);
    let r = syscall_tail(&mut k, 0, &words(), RET).unwrap();
    assert_eq!((r.slot, r.rax), (1, 0));
    assert_eq!(r.frame.words[10], 0x402f80);
    assert_eq!(k.kstack.top, 0xa000);
    let r = syscall_tail(&mut k, 7, &words(), RET).unwrap();
    assert_eq!((r.slot, r.rax), (1, 7));
}

#[test]
fn fork_returns_twice() {
    let mut k = kernel();
    let slot = next_free_slot(&k.ps).unwrap();
    let pid = finish_fork(&mut k.ps, &mut k.sched, &saved(), 2, Some(0x9000));
    let child = syscall_tail(&mut k, pid, &words(), RET).unwrap();
    assert_eq!((child.slot, child.rax), (slot, 0));
    k.sched.need_resched = true;
    let parent = syscall_tail(&mut k, 0, &words(), RET).unwrap();
    assert_eq!((parent.slot, parent.rax), (0, 2));
    assert_eq!(save_from_dispatch_rsp(&parent.frame.words), saved());
}

#[test]
fn exit_and_wait() {
    let mut k = kernel();
    let mut w = window();
    assert_eq!(returned(call(&mut k, &mut w, SYS_WAIT4, [u64::MAX, 0, 0])), EAGAIN);
    let slot = fork_child(&mut k);
    set_current_slot(&mut k.ps, &mut k.kstack, slot);
    let r = match call(&mut k, &mut w, SYS_EXIT, [0xffff_fffe, 0, 0]) {
        Action::Switch(Some(r)) => r,
        _ => panic!("no switch"),
    };
    assert_eq!(r.slot, 0);
    assert_eq!(k.serial.take(), b"[syscall] exit(-2)\r\n");
    put(&mut w, 0x401000, &[9; 8]);
    assert_eq!(
        returned(call(&mut k, &mut w, SYS_WAIT4, [u64::MAX, 0x401002, 0])),
        2
    );
    assert_eq!(&w[0x1000..0x1008], &[9, 9, 0xfe, 0xff, 0xff, 0xff, 9, 9]);
    assert_eq!(returned(call(&mut k, &mut w, SYS_WAIT4, [u64::MAX, 0, 0])), EAGAIN);
}

#[test]
fn a_bad_status_address_still_reaps() {
    let mut k = kernel();
    let mut w = window();
    let slot = fork_child(&mut k);
    set_current_slot(&mut k.ps, &mut k.kstack, slot);
    exit_and_schedule(&mut k, 0, RET);
    assert_eq!(sys_wait4(&mut k.ps, &mut w, 2, 0x400000), EFAULT);
    assert_eq!(sys_wait4(&mut k.ps, &mut w, 2, 0x401000), EAGAIN);
    assert!(w.iter().all(|b| *b == 0));
}

#[test]
fn exit_messages() {
    for code in [0, 7, 10, -1, 1234567890, i32::MAX, i32::MIN] {
        let mut k = kernel();
        assert!(exit_and_schedule(&mut k, code, RET).is_none());
        let text = format!("[syscall] exit({code})\r\n");
        assert_eq!(k.serial.take(), text.as_bytes());
    }
}

fn sleep_step(sec: i64, nsec: i64, now: u64) -> SleepStep {
    let mut w = window();
    put(&mut w, 0x401000, &sec.to_le_bytes());
    put(&mut w, 0x401008, &nsec.to_le_bytes());
    sys_nanosleep(&w, 0x401000, now)
}

#[test]
fn sleep_lengths() {
    assert_eq!(sleep_step(0, 0, 50), SleepStep::Until(51));
    assert_eq!(sleep_step(1, 0, 50), SleepStep::Until(150));
    assert_eq!(sleep_step(2, 500_000_000, 0), SleepStep::Until(250));
    assert_eq!(sleep_step(0, 19_999_999, 0), SleepStep::Until(1));
    assert_eq!(sleep_step(0, 20_000_000, 0), SleepStep::Until(2));
    assert_eq!(sleep_step(-5, 0, 7), SleepStep::Until(8));
    assert_eq!(sleep_step(1, -500_000_001, 0), SleepStep::Until(50));
    assert_eq!(
        sleep_step(i64::MAX, 0, 1),
        SleepStep::Until(i64::MAX as u64 + 1)
    );
    assert_eq!(sleep_step(i64::MAX, 0, u64::MAX), SleepStep::Until(u64::MAX));
    assert_eq!(sleep_step(i64::MIN, 0, 4), SleepStep::Until(5));
    assert_eq!(
        sleep_step(0, 92_233_720_368_547_758, 0),
        SleepStep::Until(9_223_372_036)
    );
    assert_eq!(sleep_step(0, 92_233_720_368_547_759, 0), SleepStep::Fault);
    assert_eq!(sleep_step(0, i64::MIN, 0), SleepStep::Fault);
}

#[test]
fn sleep_refuses_bad_addresses() {
    let w = window();
    for req in [0, 0x300000, 0x400ff1, 0x401ff1, u64::MAX] {
        assert_eq!(sys_nanosleep(&w, req, 0), SleepStep::Done(EFAULT));
    }
    assert_eq!(sys_nanosleep(&w, 0x401ff0, 0), SleepStep::Until(1));
}

#[test]
fn nanosleep_switches_away_and_back() {
    let mut k = kernel();
    let mut w = window();
    put(&mut w, 0x401000, &1i64.to_le_bytes());
    assert!(matches!(
        call(&mut k, &mut w, SYS_NANOSLEEP, [0x401000, 0, 0]),
        Action::Switch(None)
    ));
    assert_eq!(k.sched.sleepers[0].until, 150);
    scheduler::on_timer_tick(&mut k.sched, 150);
    let r =
        scheduler::pick_next_and_restore(&mut k.sched, &mut k.ps, &mut k.kstack, RET).unwrap();
    assert_eq!((r.slot, r.rax), (0, 0));
    assert_eq!(save_from_dispatch_rsp(&r.frame.words), saved());
    put(&mut w, 0x401008, &i64::MAX.to_le_bytes());
    assert!(matches!(
        call(&mut k, &mut w, SYS_NANOSLEEP, [0x401000, 0, 0]),
        Action::Fault
    ));
    assert_eq!(returned(call(&mut k, &mut w, SYS_NANOSLEEP, [0; 3])), EFAULT);
}

#[test]
fn user_ranges() {
    let r = user_region_is_readable_range;
    assert!(r(0x400000, 0x1000));
    assert!(r(0x401000, 0x1000));
    assert!(r(0x401000, 0));
    assert!(!r(0x400fff, 2));
    assert!(!r(0x3fffff, 1));
    assert!(!r(0x402000, 1));
    assert!(!r(u64::MAX, 1));
    let w = user_region_is_writable_range;
    assert!(w(0x401000, 0x1000));
    assert!(!w(0x400000, 1));
    assert!(!w(0x401001, 0x1000));
    assert!(!w(u64::MAX, 2));
}

#[test]
fn the_built_in_program() {
    let blob = user_blob();
    assert_eq!(&blob[26..36], b"userland!\n");
    // lea rsi, [rip + 15], with rip behind the instruction: the message.
    assert_eq!(&blob[4..11], &[0x48, 0x8d, 0x35, 0x0f, 0, 0, 0]);
    assert_eq!(11 + usize::from(blob[7]), 26);
    assert_eq!(blob[17], 12);
    // mov edi, eax: the descriptor is the number of `write`, 1.
    assert_eq!(&blob[18..20], &[0x89, 0xc7]);
    assert_eq!(&blob[21..23], &[0x0f, 0x05]);
}

#[test]
fn the_built_in_program_gets_two_pages() {
    let frames = |n: u64| {
        BitmapFrameAllocator::new(&[FrameRegion {
            start_frame: 7,
            end_frame: 7 + n,
            usable: true,
        }])
    };
    let mut fa = frames(3);
    let pages = map_and_load(&mut fa).unwrap();
    assert_eq!((pages.text.page, pages.text.frame), (0x400000, 0x7000));
    assert_eq!((pages.stack.page, pages.stack.frame), (0x401000, 0x8000));
    assert!(!pages.text.flags.writable && !pages.text.flags.no_execute);
    assert!(pages.stack.flags.writable && pages.stack.flags.no_execute);
    assert!(map_and_load(&mut frames(1)).is_none());
    assert!(map_and_load(&mut frames(0)).is_none());
    assert_eq!(
        stack_page_job().start(&mut fa),
        PageAction::Translate(0x401000)
    );
    assert_eq!(ENOMEM, (-12i64) as u64);
}

#[test]
fn a_successful_exec_starts_the_new_program() {
    let mut k = kernel();
    let start = ExecStart {
        entry: 0x400078,
        rsp: 0x401000,
        stack: Vec::new(),
    };
    assert_eq!(finish_execve(&mut k.ps, &mut k.user, &Ok(start)), 0);
    let r = exec_tail(&mut k, RET).unwrap();
    assert_eq!((r.slot, r.rax), (0, 0));
    let regs = save_from_dispatch_rsp(&r.frame.words);
    assert_eq!(regs, SyscallSaved::bootstrap_user(0x400078, 0x401000, 0x202));
    // An ordinary call goes on where the caller was.
    let r = syscall_tail(&mut k, 7, &words(), RET).unwrap();
    assert_eq!((r.slot, r.rax), (0, 7));
    assert_eq!(save_from_dispatch_rsp(&r.frame.words), saved());
}

#[test]
fn exec_lets_the_next_task_run_when_asked() {
    let mut k = kernel();
    let slot = fork_child(&mut k);
    let start = ExecStart {
        entry: 0x400078,
        rsp: 0x401000,
        stack: Vec::new(),
    };
    finish_execve(&mut k.ps, &mut k.user, &Ok(start));
    assert!(k.sched.need_resched);
    assert_eq!(exec_tail(&mut k, RET).unwrap().slot, slot);
    let noted = process::syscall_saved_for_slot(&k.ps, 0);
    assert_eq!((noted.user_rip, noted.user_rsp), (0x400078, 0x401000));
}

#[test]
fn the_bundled_init_comes_first() {
    let start = ExecStart {
        entry: 0x400078,
        rsp: 0x401000,
        stack: Vec::new(),
    };
    let p = first_program(&Ok(start));
    assert_eq!((p.entry, p.rsp, p.built_in), (0x400078, 0x401000, false));
    let p = first_program(&Err(ElfError::MapTo));
    assert_eq!((p.entry, p.rsp, p.built_in), (0x400000, 0x402000, true));
}

#[test]
fn the_built_in_program_gets_clear_pages() {
    let mut fa = BitmapFrameAllocator::new(&[]);
    let mut job = clear_for_blob();
    assert_eq!(job.start(), PageAction::Translate(0x400000));
    assert_eq!(job.on_translated(true), PageAction::Unmap(0x400000));
    assert_eq!(job.on_unmapped(&mut fa, None), PageAction::Translate(0x401000));
    assert_eq!(job.on_translated(false), PageAction::Finished);
}
