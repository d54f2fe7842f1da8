//! Linux-ish **fork**: shared address space, a stack page of its own for the child.

use vstd::prelude::*;

use crate::errno::ENOMEM;
use crate::memory::PAGE_SIZE;
use crate::paging::{page_containing, MapJob, PageRange};
use crate::process::{
    alloc_pid, is_lowest_free, is_next_pid, next_slot, pid_used, slot_spec, slots_wf, Process,
    ProcessSpec, Processes, ProcessesSpec, Slots, MAX_SLOTS,
};
use crate::scheduler::{
    enqueue_new_task, note_yield, on_queues, Queues, Scheduler, SchedulerSpec,
};
use crate::task::{
    AlignedKstack, KstackSpec, SyscallSaved, CHILD_STACK_LO, USER_STACK_CHILD_TOP,
};
use crate::user::{USER_STACK_LO, USER_STACK_TOP};
use crate::vm::{data_flags, region_step, user_data_flags, RegionEvent};

verus! {

/// How a fork goes on.
pub enum ForkStep {
    /// The fork is refused with this value.
    Done(u64),
    /// The child gets this number once its stack page is mapped and filled.
    MapStack { job: MapJob, child_pid: u64 },
}

/// How a fork goes on.
pub open spec fn fork_decides(ps: ProcessesSpec, step: ForkStep) -> bool {
    match step {
        ForkStep::Done(v) => v == ENOMEM && ps.slots is None,
        ForkStep::MapStack { job, child_pid } => {
            &&& ps.slots matches Some(slots) && is_next_pid(slots, child_pid)
            &&& job.wf()
            &&& job.todo() == seq![CHILD_STACK_LO]
            &&& job.page_flags() == data_flags()
            &&& job.skips_mapped()
            &&& !job.zeroes()
        },
    }
}

/// Linux-ish `fork`: shared address space; **child** stack is **0x402000..0x403000**, **RSP**
/// mirrored. The stack page of the child may be mapped already.
pub fn sys_fork(ps: &Processes) -> (step: ForkStep)
    requires
        ps@.wf(),
    ensures
        fork_decides(ps@, step),
{
    match alloc_pid(ps) {
        None => ForkStep::Done(ENOMEM),
        Some(child_pid) => {
            let page: u64 = page_containing(CHILD_STACK_LO);
            let job = MapJob::new(PageRange::new(page, page), user_data_flags(), true, false);
            assert(job.todo() =~= seq![CHILD_STACK_LO]);
            ForkStep::MapStack { job, child_pid }
        },
    }
}

/// A copy of user memory, byte by byte.
pub struct UserCopy {
    src: u64,
    dst: u64,
    len: u64,
    done: u64,
}

/// What a copy needs next.
#[derive(Clone, Copy, Debug, PartialEq, Eq, Structural)]
pub enum CopyAction {
    /// Copy the byte at `from` to `to`.
    Byte { from: u64, to: u64 },
    Finished,
    /// Source or destination is not mapped.
    Failed,
}

/// How a copy goes on once its current byte was copied or not.
pub open spec fn copy_step(
    todo: Seq<(u64, u64)>,
    copied: bool,
    todo2: Seq<(u64, u64)>,
    action: CopyAction,
) -> bool {
    if !copied {
        todo2 == todo && action == CopyAction::Failed
    } else {
        &&& todo2 == todo.drop_first()
        &&& action == (if todo2.len() == 0 {
            CopyAction::Finished
        } else {
            CopyAction::Byte { from: todo2[0].0, to: todo2[0].1 }
        })
    }
}

impl UserCopy {
    pub closed spec fn wf(&self) -> bool {
        &&& self.done <= self.len
        &&& self.src + self.len <= USER_STACK_TOP
        &&& self.dst + self.len <= CHILD_STACK_LO + USER_STACK_TOP
    }

    /// The bytes still to be copied, as pairs of source and destination.
    pub closed spec fn todo(&self) -> Seq<(u64, u64)> {
        Seq::new(
            (self.len - self.done) as nat,
            |i: int| ((self.src + self.done + i) as u64, (self.dst + self.done + i) as u64),
        )
    }

    /// What the copy asks for when it stands on its current byte.
    pub open spec fn asks(&self) -> CopyAction {
        if self.todo().len() == 0 {
            CopyAction::Finished
        } else {
            CopyAction::Byte { from: self.todo()[0].0, to: self.todo()[0].1 }
        }
    }

    /// The first action.
    pub fn start(&self) -> (action: CopyAction)
        requires
            self.wf(),
        ensures
            action == self.asks(),
    {
        if self.done == self.len {
            CopyAction::Finished
        } else {
            CopyAction::Byte { from: self.src + self.done, to: self.dst + self.done }
        }
    }

    /// The current byte was copied, or one of its addresses is not mapped.
    pub fn on_byte(&mut self, copied: bool) -> (action: CopyAction)
        requires
            old(self).wf(),
            old(self).todo().len() > 0,
        ensures
            final(self).wf(),
            if copied {
                &&& final(self).todo() == old(self).todo().drop_first()
                &&& action == final(self).asks()
            } else {
                &&& final(self).todo() == old(self).todo()
                &&& action == CopyAction::Failed
            },
            copy_step(old(self).todo(), copied, final(self).todo(), action),
    {
        if !copied {
            return CopyAction::Failed;
        }
        self.done = self.done + 1;
        assert(self.todo() =~= old(self).todo().drop_first());
        self.start()
    }
}

/// Where the bytes of the child stack go that starts with the parent's bytes from `rsp` on.
pub open spec fn child_stack_start(rsp: u64) -> int {
    CHILD_STACK_LO + if rsp < USER_STACK_LO {
        0
    } else {
        rsp - USER_STACK_LO
    }
}

/// The bytes of the parent's live stack, each with the place that it goes to.
pub open spec fn stack_copy(rsp: u64) -> Seq<(u64, u64)> {
    Seq::new(
        if rsp < USER_STACK_TOP {
            (USER_STACK_TOP - rsp) as nat
        } else {
            0
        },
        |i: int| ((rsp + i) as u64, (child_stack_start(rsp) + i) as u64),
    )
}

/// The copy of the parent's live stack bytes to the child stack. There is none where the stack
/// pointer lies above the stack.
pub fn child_stack_copy(saved: &SyscallSaved) -> (copy: Option<UserCopy>)
    ensures
        match copy {
            Some(c) => {
                let rsp = saved.user_rsp;
                &&& rsp < USER_STACK_TOP
                &&& c.wf()
                &&& c.todo() == Seq::new(
                    (USER_STACK_TOP - rsp) as nat,
                    |i: int| ((rsp + i) as u64, (child_stack_start(rsp) + i) as u64),
                )
            },
            None => saved.user_rsp >= USER_STACK_TOP,
        },
        copy matches Some(c) ==> c.todo() == stack_copy(saved.user_rsp),
        copy is Some <==> stack_copy(saved.user_rsp).len() > 0,
{
    let src: u64 = saved.user_rsp;
    if src >= USER_STACK_TOP {
        return None;
    }
    let len: u64 = USER_STACK_TOP - src;
    let dst: u64 = CHILD_STACK_LO + src.saturating_sub(USER_STACK_LO);
    let c = UserCopy { src, dst, len, done: 0 };
    assert(c.todo() =~= stack_copy(src));
    assert(c.todo() =~= Seq::new(
        (USER_STACK_TOP - src) as nat,
        |i: int| ((src + i) as u64, (child_stack_start(src) + i) as u64),
    ));
    Some(c)
}

/// The stack pointer of the child: as far below its stack top as the parent's is below its own.
pub open spec fn child_rsp(rsp: u64) -> u64 {
    let depth = if rsp < USER_STACK_TOP {
        USER_STACK_TOP - rsp
    } else {
        0
    };
    if depth < USER_STACK_CHILD_TOP {
        (USER_STACK_CHILD_TOP - depth) as u64
    } else {
        0
    }
}

/// The child of `parent`: same registers on its own stack, same heap end, same regions, a fresh
/// kernel stack at `kstack`, and 0 as the result of its fork.
pub open spec fn child_of(
    parent: ProcessSpec,
    saved: SyscallSaved,
    pid: u64,
    kstack: u64,
) -> ProcessSpec {
    ProcessSpec {
        pid,
        parent: Some(parent.pid),
        brk_end: parent.brk_end,
        vm_areas: parent.vm_areas,
        exit_code: None,
        kstack: KstackSpec::fresh(kstack),
        save: SyscallSaved { user_rsp: child_rsp(saved.user_rsp), ..saved },
        pending_rax: 0,
    }
}

/// The slots once a process has moved into the slot that is next.
pub open spec fn with_new_process(slots: Slots, p: ProcessSpec) -> Slots {
    let i = next_slot(slots)->0;
    if i < slots.len() {
        slots.update(i, Some(p))
    } else {
        slots.push(Some(p))
    }
}

/// The slot that the next process gets, where there is room for one.
pub fn next_free_slot(ps: &Processes) -> (slot: Option<usize>)
    ensures
        match slot {
            Some(i) => ps@.slots matches Some(slots) && next_slot(slots) == Some(i as int),
            None => ps@.slots matches Some(slots) ==> next_slot(slots) is None,
        },
{
    match &ps.table {
        None => None,
        Some(t) => {
            let mut i: usize = 0;
            while i < t.procs.len()
                invariant
                    i <= t.procs@.len(),
                    t.procs@.len() == t@.len(),
                    ps@.slots == Some(t@),
                    forall|j: int| 0 <= j < i ==> t@[j] is Some,
                decreases t.procs@.len() - i,
            {
                assert(t@[i as int] == slot_spec(t.procs@[i as int]));
                if t.procs[i].is_none() {
                    proof {
                        assert(is_lowest_free(t@, i as int));
                        let k = choose|k: int| is_lowest_free(t@, k);
                        assert(k == i);
                    }
                    return Some(i);
                }
                i = i + 1;
            }
            assert(forall|k: int| !is_lowest_free(t@, k));
            if i < MAX_SLOTS {
                Some(i)
            } else {
                None
            }
        },
    }
}

/// What settling a fork does, and its result.
pub open spec fn fork_settles(
    ps: ProcessesSpec,
    s: SchedulerSpec,
    saved: SyscallSaved,
    child_pid: u64,
    kstack: Option<u64>,
    ps2: ProcessesSpec,
    s2: SchedulerSpec,
    ret: u64,
) -> bool {
    match kstack {
        Some(kstack) => {
            let slots = ps.slots->0;
            let child = child_of(ps.current()->0, saved, child_pid, kstack);
            &&& ret == child_pid
            &&& ps2 == (ProcessesSpec { slots: Some(with_new_process(slots, child)), ..ps })
            &&& s2 == (SchedulerSpec {
                need_resched: true,
                ..on_queues(s, |q: Queues| q.enqueued(next_slot(slots)->0 as usize))
            })
        },
        None => ret == ENOMEM && ps2 == ps && s2 == s,
    }
}

/// Settles a fork. With the child's stack in place and an address for its kernel stack, the child
/// moves into the table and joins the queue, and the parent gets its number; otherwise the call
/// returns `-ENOMEM`.
pub fn finish_fork(
    ps: &mut Processes,
    s: &mut Scheduler,
    saved: &SyscallSaved,
    child_pid: u64,
    kstack: Option<u64>,
) -> (ret: u64)
    requires
        old(ps)@.wf(),
        kstack matches Some(kstack) ==> {
            &&& kstack + PAGE_SIZE <= u64::MAX
            &&& old(ps)@.current() is Some
            &&& !pid_used(old(ps)@.slots->0, child_pid)
            &&& next_slot(old(ps)@.slots->0) is Some
        },
    ensures
        final(ps)@.wf(),
        old(ps)@.slot_in_range() ==> final(ps)@.slot_in_range(),
        old(s)@.wf() ==> final(s)@.wf(),
        match kstack {
            Some(kstack) => {
                let slots = old(ps)@.slots->0;
                &&& ret == child_pid
                &&& final(ps)@ == (ProcessesSpec {
                    slots: Some(
                        with_new_process(
                            slots,
                            child_of(old(ps)@.current()->0, *saved, child_pid, kstack),
                        ),
                    ),
                    ..old(ps)@
                })
                &&& final(s)@ == (SchedulerSpec {
                    need_resched: true,
                    ..on_queues(old(s)@, |q: Queues| q.enqueued(next_slot(slots)->0 as usize))
                })
            },
            None => {
                &&& ret == ENOMEM
                &&& final(ps)@ == old(ps)@
                &&& final(s)@ == old(s)@
            },
        },
        region_step(old(ps)@, RegionEvent::Other, final(ps)@),
        fork_settles(old(ps)@, old(s)@, *saved, child_pid, kstack, final(ps)@, final(s)@, ret),
{
    let kstack = match kstack {
        Some(k) => k,
        None => {
            return ENOMEM;
        },
    };
    let depth: u64 = USER_STACK_TOP.saturating_sub(saved.user_rsp);
    let save = SyscallSaved { user_rsp: USER_STACK_CHILD_TOP.saturating_sub(depth), ..*saved };
    let parent = ps.occupant(ps.current_slot).unwrap();
    let vm_areas = parent.vm_areas.clone();
    assert(vm_areas@ =~= parent.vm_areas@);
    let child = Process {
        pid: child_pid,
        parent: Some(parent.pid),
        brk_end: parent.brk_end,
        vm_areas,
        exit_code: None,
        kstack: AlignedKstack::new(kstack),
        save,
        pending_rax: 0,
    };
    let ghost slots = ps@.slots->0;
    let ghost c = child_of(ps@.current()->0, *saved, child_pid, kstack);
    assert(child@ == c);
    match &mut ps.table {
        None => {},
        Some(t) => {
            let slot: usize = t.alloc_slot().unwrap();
            let ghost room = t@;
            t.procs[slot] = Some(Box::new(child));
            proof {
                assert(t@ =~= room.update(slot as int, Some(c)));
                assert(room.update(slot as int, Some(c)) =~= with_new_process(slots, c));
                lemma_new_process_wf(slots, c);
            }
            enqueue_new_task(s, slot);
        },
    }
    note_yield(s);
    child_pid
}

/// A fresh number and a sound process keep the table sound.
proof fn lemma_new_process_wf(slots: Slots, p: ProcessSpec)
    requires
        slots_wf(slots),
        next_slot(slots) is Some,
        !pid_used(slots, p.pid),
        p.wf(),
    ensures
        slots_wf(with_new_process(slots, p)),
{
    let n = with_new_process(slots, p);
    let k = next_slot(slots)->0;
    if exists|i: int| is_lowest_free(slots, i) {
        assert(is_lowest_free(slots, k));
    }
    assert forall|i: int, j: int|
        0 <= i < j < n.len() && (#[trigger] n[i]) is Some && (#[trigger] n[j])
            is Some implies n[i]->0.pid != n[j]->0.pid by {
        if i != k {
            assert(n[i] == slots[i]);
        }
        if j != k {
            assert(n[j] == slots[j]);
        }
    }
}

/// The live part of the child's stack mirrors the parent's: the copy starts at the child's stack
/// pointer, ends at the child's stack top, and stays inside the child's stack page.
pub proof fn law_child_stack_mirrors_parent(rsp: u64)
    requires
        USER_STACK_LO <= rsp < USER_STACK_TOP,
    ensures
        child_stack_start(rsp) == child_rsp(rsp),
        CHILD_STACK_LO <= child_rsp(rsp) < USER_STACK_CHILD_TOP,
        child_stack_start(rsp) + (USER_STACK_TOP - rsp) == USER_STACK_CHILD_TOP,
{
}

/// Forking leaves every process as it was and adds one child of the running process.
pub proof fn law_fork_adds_one_child(slots: Slots, p: ProcessSpec)
    requires
        next_slot(slots) is Some,
    ensures
        ({
            let k = next_slot(slots)->0;
            let after = with_new_process(slots, p);
            &&& 0 <= k < after.len()
            &&& after[k] == Some(p)
            &&& k < slots.len() ==> slots[k] is None
            &&& forall|i: int| 0 <= i < slots.len() && i != k ==> after[i] == #[trigger] slots[i]
        }),
{
    if exists|i: int| is_lowest_free(slots, i) {
        assert(is_lowest_free(slots, next_slot(slots)->0));
    }
}

/// The child runs on its own stack page, one page above the parent's, at the same place in it; the
/// bytes from there to the top are copied there.
pub proof fn law_child_stack_is_one_page_up(rsp: u64)
    requires
        0x401000 <= rsp < 0x402000,
    ensures
        child_rsp(rsp) == rsp + 0x1000,
        child_stack_start(rsp) == rsp + 0x1000,
        0x402000 <= child_rsp(rsp) < 0x403000,
{
}

/// A child is its parent with a number and a stack of its own: it goes on where the parent called, with
/// the same registers but the stack pointer, finds 0 as the result, and has the parent's heap and
/// regions.
pub proof fn law_child_is_like_parent(parent: ProcessSpec, saved: SyscallSaved, pid: u64, kstack: u64)
    requires
        0x401000 <= saved.user_rsp < 0x402000,
    ensures
        ({
            let c = child_of(parent, saved, pid, kstack);
            &&& c.pid == pid
            &&& c.parent == Some(parent.pid)
            &&& c.pending_rax == 0
            &&& c.exit_code is None
            &&& c.brk_end == parent.brk_end
            &&& c.vm_areas == parent.vm_areas
            &&& c.kstack.base == kstack
            &&& c.save == (SyscallSaved { user_rsp: (saved.user_rsp + 0x1000) as u64, ..saved })
        }),
{
}

/// A fork maps the child's stack page, user-writable and not executable, and gives the child the least
/// number from 2 on that no process has.
pub proof fn law_fork_maps_child_stack(ps: ProcessesSpec, job: MapJob, child_pid: u64, i: int)
    requires
        fork_decides(ps, ForkStep::MapStack { job, child_pid }),
    ensures
        job.todo() == seq![0x402000u64],
        job.page_flags().present && job.page_flags().user_accessible,
        job.page_flags().writable && job.page_flags().no_execute,
        child_pid >= 2,
        ps.slots matches Some(slots) && (0 <= i < slots.len() && slots[i] is Some
            ==> slots[i]->0.pid != child_pid),
{
    crate::process::law_next_pid_is_least_free(ps.slots->0, child_pid, 2, i);
}

/// A copy asks for its bytes one by one, in order, and is finished exactly when none is left.
pub proof fn law_copy_goes_byte_by_byte(c: UserCopy)
    ensures
        c.todo().len() == 0 <==> c.asks() == CopyAction::Finished,
        c.todo().len() > 0 ==> c.asks() == (CopyAction::Byte {
            from: c.todo()[0].0,
            to: c.todo()[0].1,
        }),
        !(c.asks() is Failed),
{
}

/// The child's stack is a copy of the parent's: every byte from the stack pointer to the top goes one
/// page up, in order, and no other byte is touched.
pub proof fn law_live_stack_is_copied_one_page_up(rsp: u64, i: int)
    requires
        0x401000 <= rsp < 0x402000,
        0 <= i,
    ensures
        stack_copy(rsp).len() == 0x402000 - rsp,
        rsp + i < 0x402000 ==> stack_copy(rsp)[i].0 == rsp + i && stack_copy(rsp)[i].1 == rsp + i
            + 0x1000,
{
}

/// A copied byte is followed by the next one, or by the end; a byte that could not be copied ends the
/// copy.
pub proof fn law_copy_follows_its_list(
    todo: Seq<(u64, u64)>,
    copied: bool,
    todo2: Seq<(u64, u64)>,
    action: CopyAction,
)
    requires
        todo.len() > 0,
        copy_step(todo, copied, todo2, action),
    ensures
        !copied ==> action == CopyAction::Failed,
        copied && todo.len() == 1 ==> action == CopyAction::Finished,
        copied && todo.len() > 1 ==> action == (CopyAction::Byte { from: todo[1].0, to: todo[1].1 }),
        copied ==> todo2 == todo.skip(1),
{
    assert(todo.drop_first() =~= todo.skip(1));
}

/// A fork that goes through adds one process, the child, in the lowest free slot, and queues it; the
/// parent gets the child's number and goes on as it was, and so does everybody else. One that does not
/// go through is `-ENOMEM` and changes nothing.
pub proof fn law_fork_returns_twice(
    ps: ProcessesSpec,
    s: SchedulerSpec,
    saved: SyscallSaved,
    child_pid: u64,
    kstack: Option<u64>,
    ps2: ProcessesSpec,
    s2: SchedulerSpec,
    ret: u64,
    i: int,
)
    requires
        ps.wf(),
        ps.current() is Some,
        next_slot(ps.slots->0) is Some,
        s.queues is Some,
        0x401000 <= saved.user_rsp < 0x402000,
        fork_settles(ps, s, saved, child_pid, kstack, ps2, s2, ret),
    ensures
        kstack is None ==> ret == ENOMEM && ps2 == ps && s2 == s,
        kstack is Some ==> {
            let k = next_slot(ps.slots->0)->0;
            let c = ps2.occupant(k)->0;
            let q = s.queues->0;
            let q2 = s2.queues->0;
            &&& ret == child_pid
            &&& ps.occupant(k) is None && ps2.occupant(k) is Some
            &&& c.pid == child_pid && c.parent == Some(ps.current()->0.pid)
            &&& c.pending_rax == 0 && c.exit_code is None
            &&& c.save == (SyscallSaved { user_rsp: (saved.user_rsp + 0x1000) as u64, ..saved })
            &&& c.brk_end == ps.current()->0.brk_end && c.vm_areas == ps.current()->0.vm_areas
            &&& i != k ==> ps2.occupant(i) == ps.occupant(i)
            &&& ps2.current_slot == ps.current_slot
            &&& s2.need_resched && s2.sleepers == s.sleepers
            &&& q2.wait_blocked == q.wait_blocked
            &&& !q.runnable.contains(k as usize) && !q.wait_blocked.contains(k as usize)
                ==> q2.runnable == q.runnable + seq![k as usize]
        },
{
    let slots = ps.slots->0;
    if kstack is Some {
        let k = next_slot(slots)->0;
        crate::process::law_next_slot_is_lowest_free(slots, 0);
        law_child_is_like_parent(ps.current()->0, saved, child_pid, kstack->0);
        crate::scheduler::law_enqueued_task_stands_last(s.queues->0, k as usize);
        let child = child_of(ps.current()->0, saved, child_pid, kstack->0);
        law_fork_adds_one_child(slots, child);
        if i != k && 0 <= i < slots.len() {
            assert(with_new_process(slots, child)[i] == slots[i]);
        }
    }
}

/// A stack pointer below the stack page has the bytes from there up to the end of the stack page copied,
/// the first of them to the start of the child's stack page; one at or above the end has none copied.
pub proof fn law_stack_pointer_outside_its_page(rsp: u64, i: int)
    ensures
        rsp >= 0x402000 ==> stack_copy(rsp).len() == 0,
        rsp < 0x401000 ==> stack_copy(rsp).len() == 0x402000 - rsp,
        rsp < 0x401000 && 0 <= i < 0x402000 - rsp ==> stack_copy(rsp)[i].0 == rsp + i
            && stack_copy(rsp)[i].1 == 0x402000 + i,
{
}

/// Whatever the parent's stack pointer is, the child's is as far below the end of its own stack page; one
/// above the end counts as the end.
pub proof fn law_child_stack_is_as_deep(rsp: u64)
    ensures
        rsp < 0x402000 ==> 0x403000 - child_rsp(rsp) == 0x402000 - rsp,
        rsp >= 0x402000 ==> child_rsp(rsp) == 0x403000,
{
}

/// A fork goes on to map the child's stack wherever there is a process table; without one it is refused
/// with -12.
pub proof fn law_fork_needs_process_table(ps: ProcessesSpec, step: ForkStep)
    requires
        fork_decides(ps, step),
    ensures
        step is MapStack <==> ps.slots is Some,
        step matches ForkStep::Done(v) ==> v + 12 == 0x1_0000_0000_0000_0000,
        step matches ForkStep::MapStack { job, child_pid } ==> job.skips_mapped() && !job.zeroes(),
{
}

} // verus!
