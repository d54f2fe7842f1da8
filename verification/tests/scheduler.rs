use rockos::process::{
    self, mark_exited, set_current_slot, set_syscall_saved, Process, Processes,
};
use rockos::scheduler::{
    block_current_on_wait, complete_syscall_and_schedule, enqueue_new_task, init, note_yield,
    on_timer_tick, pick_next_and_restore, schedule_after_exit, sleep_until_ticks,
    try_unblock_waiting_parent, Resume, Scheduler, Sleeper, SLICE,
};
use rockos::task::{
    save_from_dispatch_rsp, CurrentKstack, SyscallSaved, FRAME_BYTES, FRAME_WORDS,
};
use rockos::user::UserImage;

const RET: u64 = 0xffff_8000_0000_1234;

struct Tasks {
    ps: Processes,
    k: CurrentKstack,
    s: Scheduler,
}

fn registers(n: u64) -> SyscallSaved {
    SyscallSaved {
        rbx: n,
        r12: n + 1,
        ..SyscallSaved::bootstrap_user(0x400000 + n, 0x401000 + n, 0x202)
    }
}

/// A machine with `n` runnable tasks in the slots from 0 on.
fn tasks(n: usize) -> Tasks {
    let mut t = Tasks {
        ps: Processes::new(),
        k: CurrentKstack { top: 0 },
        s: Scheduler::new(),
    };
    let kstack = |i: u64| 0x10_0000 + i * 4096;
    process::init(&mut t.ps, &mut t.k, &UserImage::new(), kstack(0));
    init(&mut t.s, 1, 0);
    for i in 1..n {
        let p = Process::new(1 + i as u64, Some(1), registers(i as u64), kstack(i as u64));
        t.ps.table.as_mut().unwrap().procs[i] = Some(Box::new(p));
        enqueue_new_task(&mut t.s, i);
    }
    t.s.need_resched = false;
    t
}

fn queue(t: &Tasks) -> Vec<usize> {
    t.s.sched.as_ref().unwrap().runnable.iter().copied().collect()
}

fn frame(n: u64) -> [u64; FRAME_WORDS] {
    let s = registers(n);
    [
        7,
        0,
        s.r15,
        s.r14,
        s.r13,
        s.r12,
        s.rbp,
        s.rbx,
        s.user_rflags,
        s.user_rip,
        s.user_rsp,
    ]
}

fn call(t: &mut Tasks, ret: u64, now: u64) -> Resume {
    let words = frame(100);
    complete_syscall_and_schedule(&mut t.s, &mut t.ps, &mut t.k, ret, &words, now, RET).unwrap()
}

#[test]
fn a_call_returns_to_its_caller() {
    let mut t = tasks(1);
    let r = call(&mut t, 42, 3);
    assert_eq!((r.slot, r.rax), (0, 42));
    assert_eq!(r.rsp, 0x10_1000 - FRAME_BYTES);
    assert_eq!(r.frame.base, r.rsp);
    assert_eq!(r.frame.words[0], RET);
    assert_eq!(save_from_dispatch_rsp(&r.frame.words), registers(100));
    assert_eq!(t.k.top, 0x10_1000);
}

#[test]
fn without_a_wish_to_switch_the_caller_goes_on() {
    let mut t = tasks(3);
    assert_eq!(call(&mut t, 1, 5).slot, 0);
    assert_eq!(queue(&t), [0, 1, 2]);
    assert_eq!(t.s.sched.as_ref().unwrap().last_started_tick, 0);
}

#[test]
fn yielding_goes_round_robin() {
    let mut t = tasks(3);
    let mut seen = Vec::new();
    for now in 1..5 {
        note_yield(&mut t.s);
        seen.push(call(&mut t, 9, now).slot);
    }
    assert_eq!(seen, [1, 2, 0, 1]);
    assert!(!t.s.need_resched);
    assert_eq!(t.s.sched.as_ref().unwrap().last_started_tick, 4);
}

#[test]
fn a_time_slice_is_fifteen_ticks() {
    let mut t = tasks(2);
    on_timer_tick(&mut t.s, SLICE - 1);
    assert!(!t.s.need_resched);
    on_timer_tick(&mut t.s, SLICE);
    assert!(t.s.need_resched);
    assert_eq!(call(&mut t, 0, SLICE).slot, 1);
    on_timer_tick(&mut t.s, SLICE + 14);
    assert!(!t.s.need_resched);
    on_timer_tick(&mut t.s, 3);
    assert!(!t.s.need_resched);
    on_timer_tick(&mut t.s, SLICE + 15);
    assert!(t.s.need_resched);
}

#[test]
fn sleepers_wake_in_the_order_of_their_deadlines() {
    let mut t = tasks(4);
    let mut sleep = |t: &mut Tasks, slot: usize, until: u64| {
        set_current_slot(&mut t.ps, &mut t.k, slot);
        let s = registers(slot as u64);
        sleep_until_ticks(&mut t.s, &mut t.ps, &mut t.k, s, until, RET)
    };
    assert_eq!(sleep(&mut t, 0, 20).unwrap().slot, 1);
    assert_eq!(sleep(&mut t, 1, 10).unwrap().slot, 2);
    assert_eq!(sleep(&mut t, 2, 20).unwrap().slot, 3);
    assert!(t.s.need_resched);
    let order: Vec<(u64, usize)> = t.s.sleepers.iter().map(|s| (s.until, s.slot)).collect();
    assert_eq!(order, [(10, 1), (20, 0), (20, 2)]);
    assert_eq!(queue(&t), [3]);
    on_timer_tick(&mut t.s, 9);
    assert_eq!(queue(&t), [3]);
    on_timer_tick(&mut t.s, 10);
    assert_eq!(queue(&t), [3, 1]);
    assert_eq!(
        t.s.sleepers,
        vec![
            Sleeper { until: 20, slot: 0 },
            Sleeper { until: 20, slot: 2 }
        ]
    );
    on_timer_tick(&mut t.s, 25);
    assert_eq!(queue(&t), [3, 1, 0, 2]);
    assert!(t.s.sleepers.is_empty());
}

#[test]
fn a_sleeper_resumes_after_its_call_with_zero() {
    let mut t = tasks(1);
    set_syscall_saved(&mut t.ps, 0, registers(1), 77);
    let asleep = sleep_until_ticks(&mut t.s, &mut t.ps, &mut t.k, registers(50), 8, RET);
    assert!(asleep.is_none());
    assert!(pick_next_and_restore(&mut t.s, &mut t.ps, &mut t.k, RET).is_none());
    on_timer_tick(&mut t.s, 8);
    let r = pick_next_and_restore(&mut t.s, &mut t.ps, &mut t.k, RET).unwrap();
    assert_eq!((r.slot, r.rax), (0, 0));
    assert_eq!(save_from_dispatch_rsp(&r.frame.words), registers(50));
}

#[test]
fn exit_takes_the_task_out_and_wakes_waiters() {
    let mut t = tasks(3);
    let r = block_current_on_wait(&mut t.s, &mut t.ps, &mut t.k, registers(5), RET).unwrap();
    assert_eq!(r.slot, 1);
    assert_eq!(queue(&t), [1, 2]);
    assert_eq!(t.s.sched.as_ref().unwrap().wait_blocked, [0]);
    // A blocked task is not queued.
    enqueue_new_task(&mut t.s, 0);
    assert_eq!(queue(&t), [1, 2]);
    mark_exited(&mut t.ps, 0);
    let r = schedule_after_exit(&mut t.s, &mut t.ps, &mut t.k, RET).unwrap();
    assert_eq!(r.slot, 2);
    assert_eq!(queue(&t), [2, 0]);
    assert!(t.s.sched.as_ref().unwrap().wait_blocked.is_empty());
    assert!(t.s.need_resched);
}

#[test]
fn tasks_that_cannot_run_leave_the_queue() {
    let mut t = tasks(3);
    mark_exited(&mut t.ps, 1);
    t.ps.table.as_mut().unwrap().procs[1] = None;
    set_syscall_saved(&mut t.ps, 2, registers(2), 6);
    let r = pick_next_and_restore(&mut t.s, &mut t.ps, &mut t.k, RET).unwrap();
    assert_eq!((r.slot, r.rax), (2, 6));
    assert_eq!(queue(&t), [2]);
    assert_eq!(process::current_slot(&t.ps), 2);
    assert_eq!(process::pending_rax_for_slot(&t.ps, 2), 0);
    mark_exited(&mut t.ps, 1);
    assert!(pick_next_and_restore(&mut t.s, &mut t.ps, &mut t.k, RET).is_none());
    assert!(queue(&t).is_empty());
    assert_eq!(process::current_slot(&t.ps), 2);
}

#[test]
fn nothing_is_queued_twice() {
    let mut t = tasks(2);
    enqueue_new_task(&mut t.s, 1);
    enqueue_new_task(&mut t.s, 0);
    assert_eq!(queue(&t), [0, 1]);
    try_unblock_waiting_parent(&mut t.s, 1);
    assert_eq!(queue(&t), [0, 1]);
}

#[test]
fn before_boot_nothing_runs() {
    let mut s = Scheduler::new();
    let mut ps = Processes::new();
    let mut k = CurrentKstack { top: 5 };
    on_timer_tick(&mut s, 1000);
    assert!(!s.need_resched);
    enqueue_new_task(&mut s, 0);
    assert!(s.need_resched);
    assert!(pick_next_and_restore(&mut s, &mut ps, &mut k, RET).is_none());
    assert_eq!(k.top, 5);
}
