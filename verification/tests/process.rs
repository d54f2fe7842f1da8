use rockos::elf::{ElfError, ElfLoadedMeta, ExecArgs, ExecStart};
use rockos::errno::{EFAULT, EINVAL, ENOENT, ENOEXEC, ENOMEM};
use rockos::exec::{finish_execve, parse_user_ptrvec, read_user_cstring};
use rockos::exec_stack::build_exec_stack;
use rockos::fork::{child_stack_copy, finish_fork, next_free_slot, CopyAction, ForkStep};
use rockos::memory::{BitmapFrameAllocator, FrameRegion};
use rockos::paging::{MapJob, MapOutcome, PageAction, PageFlags, UnmapJob};
use rockos::process::{
    self, alloc_pid, covers_brk_heap, covers_mmap_read, covers_mmap_write, current_pid,
    current_ppid, current_slot, kstack_top_for_slot, mark_exited, pending_rax_for_slot,
    set_current_slot, set_syscall_saved, slot_is_alive_runnable, slot_runnable, sys_brk,
    sys_execve, sys_fork, sys_mmap, sys_munmap, syscall_saved_for_slot, take_pending_rax,
    wait_reap, Process, Processes, VmArea, PROT_EXEC, PROT_READ, PROT_WRITE, USER_BRK_BASE, USER_BRK_LIMIT,
    USER_MMAP_BASE, USER_MMAP_LIMIT,
};
use rockos::scheduler::{self, Scheduler};
use rockos::task::{CurrentKstack, SyscallSaved};
use rockos::user::{UserImage, USER_WINDOW};
use rockos::vm::{finish_brk, finish_mmap, finish_munmap, BrkStep, MmapStep, MunmapStep};

struct World {
    ps: Processes,
    k: CurrentKstack,
    s: Scheduler,
}

fn stack(slot: u64) -> u64 {
    0x9_0000 + slot * 4096
}

fn boot() -> World {
    let mut w = World {
        ps: Processes::new(),
        k: CurrentKstack { top: 0 },
        s: Scheduler::new(),
    };
    process::init(&mut w.ps, &mut w.k, &UserImage::new(), stack(0));
    scheduler::init(&mut w.s, 1, 0);
    w
}

fn saved(rsp: u64) -> SyscallSaved {
    SyscallSaved {
        rbx: 11,
        r15: 15,
        ..SyscallSaved::bootstrap_user(0x400010, rsp, 0x246)
    }
}

/// Forks the running process; the child's number.
fn fork(w: &mut World) -> u64 {
    let child_pid = match sys_fork(&w.ps) {
        ForkStep::MapStack { child_pid, .. } => child_pid,
        ForkStep::Done(v) => panic!("{v}"),
    };
    let slot = next_free_slot(&w.ps).unwrap();
    finish_fork(
        &mut w.ps,
        &mut w.s,
        &saved(0x401f00),
        child_pid,
        Some(stack(slot as u64)),
    )
}

fn exit_slot(w: &mut World, slot: usize, status: i32) {
    let now = current_slot(&w.ps);
    set_current_slot(&mut w.ps, &mut w.k, slot);
    mark_exited(&mut w.ps, status);
    set_current_slot(&mut w.ps, &mut w.k, now);
}

/// The pages that a mapping job asks for when nothing is mapped yet, and their flags.
fn pages_of(mut job: MapJob) -> (Vec<u64>, Option<PageFlags>) {
    let mut fa = BitmapFrameAllocator::new(&[FrameRegion {
        start_frame: 0x100,
        end_frame: 0x400,
        usable: true,
    }]);
    let mut pages = Vec::new();
    let mut flags = None;
    let mut action = job.start(&mut fa);
    loop {
        action = match action {
            PageAction::Translate(_) => job.on_translated(&mut fa, false),
            PageAction::Place(req) => {
                pages.push(req.page);
                flags = Some(req.flags);
                job.on_mapped(&mut fa, MapOutcome::Mapped)
            }
            _ => return (pages, flags),
        };
    }
}

fn unmapped(mut job: UnmapJob) -> Vec<u64> {
    let mut fa = BitmapFrameAllocator::new(&[]);
    let mut pages = Vec::new();
    let mut action = job.start();
    loop {
        action = match action {
            PageAction::Translate(_) => job.on_translated(true),
            PageAction::Unmap(p) => {
                pages.push(p);
                job.on_unmapped(&mut fa, None)
            }
            _ => return pages,
        };
    }
}

fn data() -> PageFlags {
    PageFlags {
        present: true,
        writable: true,
        user_accessible: true,
        no_execute: true,
    }
}

#[test]
fn boot_starts_process_one() {
    let w = boot();
    assert_eq!(current_slot(&w.ps), 0);
    assert_eq!(current_pid(&w.ps), 1);
    assert_eq!(current_ppid(&w.ps), None);
    assert_eq!(w.k.top, 0x9_1000);
    assert_eq!(kstack_top_for_slot(&w.ps, &w.k, 0), 0x9_1000);
    assert_eq!(
        syscall_saved_for_slot(&w.ps, 0),
        SyscallSaved::bootstrap_user(0x400000, 0x402000, 0x202)
    );
    assert_eq!(pending_rax_for_slot(&w.ps, 0), 0);
    assert!(slot_is_alive_runnable(&w.ps, 0));
    assert!(!slot_runnable(&w.ps, 1));
    assert!(!slot_runnable(&w.ps, 99));
}

#[test]
fn before_boot_there_is_only_the_default() {
    let ps = Processes::new();
    assert_eq!(current_pid(&ps), 1);
    assert_eq!(alloc_pid(&ps), None);
    assert_eq!(next_free_slot(&ps), None);
    assert!(matches!(sys_brk(&ps, 0), BrkStep::Done(ENOMEM)));
    assert!(matches!(sys_fork(&ps), ForkStep::Done(ENOMEM)));
    assert!(!covers_brk_heap(&ps, USER_BRK_BASE, USER_BRK_BASE));
    let k = CurrentKstack { top: 77 };
    assert_eq!(kstack_top_for_slot(&ps, &k, 0), 77);
}

#[test]
fn saved_state_and_pending_result() {
    let mut w = boot();
    set_syscall_saved(&mut w.ps, 0, saved(0x401000), 42);
    assert_eq!(syscall_saved_for_slot(&w.ps, 0), saved(0x401000));
    assert_eq!(pending_rax_for_slot(&w.ps, 0), 42);
    assert_eq!(take_pending_rax(&mut w.ps, 0), 42);
    assert_eq!(take_pending_rax(&mut w.ps, 0), 0);
    set_syscall_saved(&mut w.ps, 5, saved(0x401000), 9);
    assert_eq!(pending_rax_for_slot(&w.ps, 5), 0);
}

#[test]
fn switching_slots_switches_the_kernel_stack() {
    let mut w = boot();
    fork(&mut w);
    set_current_slot(&mut w.ps, &mut w.k, 1);
    assert_eq!(w.k.top, 0x9_2000);
    assert_eq!(current_pid(&w.ps), 2);
    assert_eq!(current_ppid(&w.ps), Some(1));
    set_current_slot(&mut w.ps, &mut w.k, 9);
    assert_eq!(w.k.top, 0x9_2000);
    assert_eq!(current_pid(&w.ps), 1);
}

#[test]
fn brk_tells_grows_and_shrinks() {
    let mut w = boot();
    assert!(matches!(sys_brk(&w.ps, 0), BrkStep::Done(USER_BRK_BASE)));
    assert!(matches!(
        sys_brk(&w.ps, USER_BRK_BASE),
        BrkStep::Done(USER_BRK_BASE)
    ));
    assert!(matches!(
        sys_brk(&w.ps, USER_BRK_BASE - 1),
        BrkStep::Done(ENOMEM)
    ));
    assert!(matches!(
        sys_brk(&w.ps, USER_BRK_LIMIT + 1),
        BrkStep::Done(ENOMEM)
    ));
    match sys_brk(&w.ps, USER_BRK_BASE + 0x1001) {
        BrkStep::Grow { map, new_end } => {
            assert_eq!(new_end, 0x405001);
            assert_eq!(pages_of(map), (vec![0x404000, 0x405000], Some(data())));
            assert_eq!(finish_brk(&mut w.ps, new_end, false), ENOMEM);
            assert!(matches!(sys_brk(&w.ps, 0), BrkStep::Done(USER_BRK_BASE)));
            assert_eq!(finish_brk(&mut w.ps, new_end, true), 0x405001);
        }
        _ => panic!(),
    }
    assert!(matches!(sys_brk(&w.ps, 0), BrkStep::Done(0x405001)));
    assert!(covers_brk_heap(&w.ps, 0x404000, 0x405001));
    assert!(!covers_brk_heap(&w.ps, 0x404000, 0x405002));
    assert!(!covers_brk_heap(&w.ps, 0x403fff, 0x404001));
    match sys_brk(&w.ps, USER_BRK_BASE) {
        BrkStep::Shrink { unmap, new_end } => {
            assert_eq!(new_end, USER_BRK_BASE);
            assert_eq!(unmapped(unmap), vec![0x404000, 0x405000]);
        }
        _ => panic!(),
    }
}

#[test]
fn brk_shrink_keeps_the_page_of_the_new_end() {
    let mut w = boot();
    finish_brk(&mut w.ps, 0x407000, true);
    match sys_brk(&w.ps, 0x405001) {
        BrkStep::Shrink { unmap, .. } => assert_eq!(unmapped(unmap), vec![0x406000]),
        _ => panic!(),
    }
    match sys_brk(&w.ps, 0x406001) {
        BrkStep::Shrink { unmap, .. } => assert!(unmapped(unmap).is_empty()),
        _ => panic!(),
    }
}

#[test]
fn mmap_places_regions_one_after_the_other() {
    let mut w = boot();
    let (job, area) = match sys_mmap(&mut w.ps, 0, 5000, PROT_READ | PROT_WRITE, 0x22) {
        MmapStep::Place { job, area } => (job, area),
        MmapStep::Done(v) => panic!("{v}"),
    };
    assert_eq!(pages_of(job), (vec![0x410000, 0x411000], Some(data())));
    assert_eq!(finish_mmap(&mut w.ps, area, true), USER_MMAP_BASE);
    assert!(covers_mmap_read(&w.ps, 0x410000, 0x412000));
    assert!(covers_mmap_write(&w.ps, 0x411fff, 0x412000));
    assert!(!covers_mmap_read(&w.ps, 0x410000, 0x412001));
    let (job, area) = match sys_mmap(&mut w.ps, 0, 1, PROT_READ | PROT_EXEC, 0x22) {
        MmapStep::Place { job, area } => (job, area),
        MmapStep::Done(v) => panic!("{v}"),
    };
    let text = PageFlags {
        present: true,
        writable: false,
        user_accessible: true,
        no_execute: false,
    };
    assert_eq!(pages_of(job), (vec![0x412000], Some(text)));
    assert_eq!(finish_mmap(&mut w.ps, area, true), 0x412000);
    assert!(covers_mmap_read(&w.ps, 0x412000, 0x412001));
    assert!(!covers_mmap_write(&w.ps, 0x412000, 0x412001));
    let areas = &w.ps.table.as_ref().unwrap().procs[0].as_ref().unwrap().vm_areas;
    assert_eq!(
        areas[0],
        VmArea {
            id: 1,
            virt_start: 0x410000,
            pages: 2,
            writable: true,
            executable: false
        }
    );
    assert_eq!((areas[1].id, areas[1].executable), (2, true));
}

#[test]
fn mmap_refuses_bad_requests() {
    let mut w = boot();
    let room = USER_MMAP_LIMIT - USER_MMAP_BASE;
    let mut refused = |addr, len| match sys_mmap(&mut w.ps, addr, len, 3, 0x22) {
        MmapStep::Done(v) => v,
        MmapStep::Place { .. } => 0,
    };
    assert_eq!(refused(0, 0), EINVAL);
    assert_eq!(refused(0, room + 1), EINVAL);
    assert_eq!(refused(0x410001, 1), EINVAL);
    assert_eq!(refused(0x40f000, 1), EINVAL);
    assert_eq!(refused(0x47f000, 0x1001), EINVAL);
    assert_eq!(refused(0x47f000, 0x1000), 0);
    // What is asked for without an address is used up, even where it does not fit.
    assert_eq!(refused(0, room - 4096), 0);
    assert_eq!(refused(0, 8192), ENOMEM);
    assert_eq!(refused(0, 1), ENOMEM);
    assert_eq!(w.ps.next_mmap, USER_MMAP_LIMIT + 8192);
}

#[test]
fn a_failed_mmap_leaves_no_region() {
    let mut w = boot();
    let area = match sys_mmap(&mut w.ps, 0, 1, 3, 0x22) {
        MmapStep::Place { area, .. } => area,
        MmapStep::Done(v) => panic!("{v}"),
    };
    assert_eq!(finish_mmap(&mut w.ps, area, false), ENOMEM);
    assert!(!covers_mmap_read(&w.ps, 0x410000, 0x410001));
    assert_eq!(w.ps.vm_area_next_id, 1);
    assert_eq!(w.ps.next_mmap, 0x411000);
}

#[test]
fn a_new_process_has_not_run() {
    let bootstrap = SyscallSaved::bootstrap_user(0x400000, 0x402000, 0x202);
    let p = Process::new(7, Some(1), bootstrap, 0x9_0000);
    assert_eq!((p.pid, p.parent), (7, Some(1)));
    assert_eq!(p.brk_end, USER_BRK_BASE);
    assert!(p.vm_areas.is_empty());
    assert_eq!((p.exit_code, p.pending_rax), (None, 0));
    assert_eq!(p.save, bootstrap);
    assert_eq!(p.kstack.base, 0x9_0000);
    assert_eq!(p.kstack.bytes, vec![0u8; 4096]);
}

#[test]
fn addresses_and_numbers_of_regions_are_never_reused() {
    let mut w = boot();
    let mut starts = Vec::new();
    let mut ids = Vec::new();
    for len in [1u64, 5000, 4096] {
        let area = match sys_mmap(&mut w.ps, 0, len, 3, 0x22) {
            MmapStep::Place { area, .. } => area,
            MmapStep::Done(v) => panic!("{v}"),
        };
        let start = finish_mmap(&mut w.ps, area, true);
        starts.push(start);
        let areas = &w.ps.table.as_ref().unwrap().procs[0].as_ref().unwrap().vm_areas;
        ids.push(areas.last().unwrap().id);
        let bytes = area.pages as u64 * 4096;
        assert!(matches!(sys_munmap(&mut w.ps, start, bytes), MunmapStep::Unmap(_)));
    }
    assert_eq!(starts, [0x410000, 0x411000, 0x413000]);
    assert_eq!(ids, [1, 2, 3]);
}

#[test]
fn munmap_undoes_mmap() {
    let mut w = boot();
    for len in [4096, 8192] {
        let area = match sys_mmap(&mut w.ps, 0, len, 3, 0x22) {
            MmapStep::Place { area, .. } => area,
            MmapStep::Done(v) => panic!("{v}"),
        };
        finish_mmap(&mut w.ps, area, true);
    }
    let mut refused = |addr, len| match sys_munmap(&mut w.ps, addr, len) {
        MunmapStep::Done(v) => v,
        MunmapStep::Unmap(_) => 0,
    };
    assert_eq!(refused(0x410001, 4096), EINVAL);
    assert_eq!(refused(0x410000, 0), EINVAL);
    assert_eq!(refused(0x411000, 4096), EINVAL);
    assert_eq!(refused(0x410000, 12288), EINVAL);
    assert_eq!(refused(0x410000, u64::MAX), EINVAL);
    match sys_munmap(&mut w.ps, 0x411000, 8192) {
        MunmapStep::Unmap(job) => assert_eq!(unmapped(job), vec![0x411000, 0x412000]),
        MunmapStep::Done(v) => panic!("{v}"),
    }
    assert!(!covers_mmap_read(&w.ps, 0x411000, 0x411001));
    assert!(covers_mmap_read(&w.ps, 0x410000, 0x411000));
    assert!(matches!(
        sys_munmap(&mut w.ps, 0x411000, 8192),
        MunmapStep::Done(EINVAL)
    ));
    assert_eq!(finish_munmap(true), 0);
    assert_eq!(finish_munmap(false), ENOMEM);
}

#[test]
fn fork_makes_a_child() {
    let mut w = boot();
    finish_brk(&mut w.ps, 0x406000, true);
    match sys_fork(&w.ps) {
        ForkStep::MapStack { job, child_pid } => {
            assert_eq!(child_pid, 2);
            assert_eq!(pages_of(job), (vec![0x402000], Some(data())));
        }
        ForkStep::Done(v) => panic!("{v}"),
    }
    assert_eq!(fork(&mut w), 2);
    let child = w.ps.table.as_ref().unwrap().procs[1].as_ref().unwrap();
    assert_eq!((child.pid, child.parent), (2, Some(1)));
    assert_eq!(child.brk_end, 0x406000);
    assert_eq!(child.exit_code, None);
    assert_eq!(child.pending_rax, 0);
    assert_eq!(
        child.save,
        SyscallSaved {
            user_rsp: 0x402f00,
            ..saved(0x401f00)
        }
    );
    assert_eq!(child.kstack_top(), 0x9_2000);
    assert_eq!(child.kstack.bytes, vec![0u8; 4096]);
    assert!(w.s.need_resched);
    assert!(w.s.sched.as_ref().unwrap().runnable.contains(&1));
    assert_eq!(fork(&mut w), 3);
}

#[test]
fn a_failed_fork_changes_nothing() {
    let mut w = boot();
    let ret = finish_fork(&mut w.ps, &mut w.s, &saved(0x401f00), 2, None);
    assert_eq!(ret, ENOMEM);
    assert!(!slot_runnable(&w.ps, 1));
    assert!(!w.s.need_resched);
}

#[test]
fn numbers_are_reused_lowest_first() {
    let mut w = boot();
    assert_eq!((fork(&mut w), fork(&mut w), fork(&mut w)), (2, 3, 4));
    exit_slot(&mut w, 1, 7);
    assert_eq!(wait_reap(&mut w.ps, -1), Some((2, 7)));
    assert_eq!(alloc_pid(&w.ps), Some(2));
    assert_eq!(next_free_slot(&w.ps), Some(1));
    assert_eq!(fork(&mut w), 2);
}

#[test]
fn the_table_holds_32_processes() {
    let mut w = boot();
    for pid in 2..33 {
        assert_eq!(fork(&mut w), pid);
    }
    assert_eq!(next_free_slot(&w.ps), None);
    assert_eq!(alloc_pid(&w.ps), Some(33));
}

#[test]
fn the_child_stack_mirrors_the_parent() {
    let mut copy = child_stack_copy(&saved(0x401ffe)).unwrap();
    assert_eq!(
        copy.start(),
        CopyAction::Byte {
            from: 0x401ffe,
            to: 0x402ffe
        }
    );
    assert_eq!(
        copy.on_byte(true),
        CopyAction::Byte {
            from: 0x401fff,
            to: 0x402fff
        }
    );
    assert_eq!(copy.on_byte(true), CopyAction::Finished);

    let mut copy = child_stack_copy(&saved(0x401ffe)).unwrap();
    assert_eq!(copy.on_byte(false), CopyAction::Failed);
    assert!(child_stack_copy(&saved(0x402000)).is_none());
    assert_eq!(
        child_stack_copy(&saved(0x400800)).unwrap().start(),
        CopyAction::Byte {
            from: 0x400800,
            to: 0x402000
        }
    );
}

#[test]
fn waiting_reaps_exited_children() {
    let mut w = boot();
    assert_eq!(wait_reap(&mut w.ps, -1), None);
    fork(&mut w);
    fork(&mut w);
    assert_eq!(wait_reap(&mut w.ps, -1), None);
    exit_slot(&mut w, 1, 3);
    exit_slot(&mut w, 2, -4);
    assert!(!slot_runnable(&w.ps, 2));
    assert_eq!(wait_reap(&mut w.ps, 99), None);
    assert_eq!(wait_reap(&mut w.ps, 3), Some((3, -4)));
    assert_eq!(wait_reap(&mut w.ps, 3), None);
    assert_eq!(wait_reap(&mut w.ps, -1), Some((2, 3)));
    assert_eq!(wait_reap(&mut w.ps, -1), None);
}

#[test]
fn a_running_child_hides_later_ones() {
    let mut w = boot();
    fork(&mut w);
    fork(&mut w);
    exit_slot(&mut w, 2, 5);
    assert_eq!(wait_reap(&mut w.ps, -1), None);
    assert_eq!(wait_reap(&mut w.ps, 3), None);
    exit_slot(&mut w, 1, 0);
    assert_eq!(wait_reap(&mut w.ps, 3), Some((3, 5)));
}

#[test]
fn only_the_parent_reaps() {
    let mut w = boot();
    fork(&mut w);
    set_current_slot(&mut w.ps, &mut w.k, 1);
    assert_eq!(fork(&mut w), 3);
    exit_slot(&mut w, 2, 1);
    set_current_slot(&mut w.ps, &mut w.k, 0);
    exit_slot(&mut w, 1, 2);
    assert_eq!(wait_reap(&mut w.ps, 3), None);
    assert_eq!(wait_reap(&mut w.ps, -1), Some((2, 2)));
}

fn window_with(parts: &[(u64, &[u8])]) -> Vec<u8> {
    let mut w = vec![0u8; USER_WINDOW];
    for (addr, bytes) in parts {
        let at = (*addr - 0x400000) as usize;
        w[at..at + bytes.len()].copy_from_slice(bytes);
    }
    w
}

#[test]
fn user_strings_are_read_up_to_the_zero() {
    let w = window_with(&[(0x400ffe, b"ab\0"), (0x401ffe, b"xy"), (0x400100, b"\xff\0")]);
    // Text and stack page are adjacent, so a string may run from one into the other.
    assert_eq!(read_user_cstring(&w, 0x400ffe, 256).unwrap(), "ab");
    assert_eq!(read_user_cstring(&w, 0x400ffe, 1).unwrap(), "a");
    assert_eq!(read_user_cstring(&w, 0x400ffe, 0).unwrap(), "");
    assert_eq!(read_user_cstring(&w, 0x400000, 256).unwrap(), "");
    assert_eq!(read_user_cstring(&w, 0x401ffe, 256), Err(EFAULT));
    assert_eq!(read_user_cstring(&w, 0x401ffe, 2).unwrap(), "xy");
    assert_eq!(read_user_cstring(&w, 0x100, 256), Err(EFAULT));
    assert_eq!(read_user_cstring(&w, u64::MAX, 256), Err(EFAULT));
    assert_eq!(read_user_cstring(&w, 0x400100, 256), Err(EINVAL));
    let utf8 = window_with(&[(0x400100, "h\u{e9}".as_bytes())]);
    assert_eq!(read_user_cstring(&utf8, 0x400100, 256).unwrap(), "h\u{e9}");
    assert_eq!(read_user_cstring(&utf8, 0x400100, 2), Err(EINVAL));
}

#[test]
fn pointer_tables_end_at_zero_or_at_the_limit() {
    let w = window_with(&[
        (0x400100, &0x400200u64.to_le_bytes()),
        (0x400108, &0x400210u64.to_le_bytes()),
        (0x400200, b"one\0"),
        (0x400210, b"two\0"),
        (0x400300, &0x400200u64.to_le_bytes()),
        (0x400308, &0x9u64.to_le_bytes()),
    ]);
    assert_eq!(parse_user_ptrvec(&w, 0x400100, 32, 256).unwrap(), ["one", "two"]);
    assert_eq!(parse_user_ptrvec(&w, 0x400100, 1, 256).unwrap(), ["one"]);
    assert_eq!(parse_user_ptrvec(&w, 0, 32, 256).unwrap(), Vec::<String>::new());
    assert_eq!(parse_user_ptrvec(&w, 0x400300, 32, 256), Err(EFAULT));
    assert_eq!(parse_user_ptrvec(&w, 0x400ffc, 32, 256), Err(EFAULT));
}

#[test]
fn execve_knows_only_init() {
    let w = window_with(&[
        (0x400010, b"/init\0"),
        (0x400020, b"/initx"),
        (0x400100, &0x400010u64.to_le_bytes()),
        (0x400200, &0x400300u64.to_le_bytes()),
        (0x400300, b"A=1\0"),
    ]);
    let req = sys_execve(&w, 0x400010, 0x400100, 0x400200).ok().unwrap();
    assert_eq!(req.argv, ["/init"]);
    assert_eq!(req.envp, ["A=1"]);
    let bare = sys_execve(&w, 0x400010, 0, 0).ok().unwrap();
    assert!(bare.argv.is_empty() && bare.envp.is_empty());
    assert_eq!(sys_execve(&w, 0x400020, 0, 0).err(), Some(ENOENT));
    assert_eq!(sys_execve(&w, 0x401ffb, 0, 0).err(), Some(EFAULT));
    assert_eq!(sys_execve(&w, 0x400ffd, 0, 0).err(), Some(EFAULT));
    assert_eq!(sys_execve(&w, 0x400010, 1, 0).err(), Some(EFAULT));
    assert_eq!(sys_execve(&w, 0x400010, 0, 1).err(), Some(EFAULT));
}

#[test]
fn execve_starts_over_or_reports_enoexec() {
    let mut w = boot();
    let mut user = UserImage::new();
    let bad = Err(ElfError::BadElf);
    assert_eq!(finish_execve(&mut w.ps, &mut user, &bad), ENOEXEC);
    assert_eq!(user.entry_rip, 0x400000);
    let good = Ok(ExecStart {
        entry: 0x400078,
        rsp: 0x401000,
        stack: Vec::new(),
    });
    set_syscall_saved(&mut w.ps, 0, saved(0x401f00), 5);
    assert_eq!(finish_execve(&mut w.ps, &mut user, &good), 0);
    assert_eq!(user.entry_rip, 0x400078);
    assert_eq!(
        syscall_saved_for_slot(&w.ps, 0),
        SyscallSaved::bootstrap_user(0x400078, 0x401000, 0x202)
    );
    assert_eq!(pending_rax_for_slot(&w.ps, 0), 0);
}

#[test]
fn execve_arguments_reach_the_new_stack() {
    let w = window_with(&[
        (0x400010, b"/init\0"),
        (0x400100, &0x400010u64.to_le_bytes()),
        (0x400108, &0x400020u64.to_le_bytes()),
        (0x400020, "caf\u{e9}\0".as_bytes()),
    ]);
    let req = sys_execve(&w, 0x400010, 0x400100, 0).ok().unwrap();
    let meta = ElfLoadedMeta {
        entry: 0x400078,
        phdr: 0x400040,
        phnum: 1,
        phent: 56,
        image_end: 0x400081,
        rw_min: 0x401000,
    };
    let args = ExecArgs {
        argv: &req.argv,
        envp: &req.envp,
    };
    let stack = build_exec_stack(&meta, &args).unwrap();
    let second = u64::from_le_bytes(stack[16..24].try_into().unwrap());
    let at = (second - 0x401000) as usize;
    assert_eq!(&stack[at..at + 6], &w[0x20..0x26]);
}
