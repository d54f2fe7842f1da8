//! Processes: the process table, **PID**s, waiting for children, syscall **saved** state.
//!
//! The calls that work on a process live next door: [`crate::vm`] has **brk** / **mmap** /
//! **munmap**, [`crate::fork`] and [`crate::exec`] the rest.

use vstd::prelude::*;

use crate::memory::PAGE_SIZE;
use crate::task::{
    set_current_kstack_top, AlignedKstack, CurrentKstack, KstackSpec, SyscallSaved,
};
use crate::user::{UserImage, USER_RFLAGS, USER_STACK_TOP};

pub use crate::exec::sys_execve;
pub use crate::fork::sys_fork;
pub use crate::vm::{
    covers_brk_heap, covers_mmap_read, covers_mmap_write, sys_brk, sys_mmap, sys_munmap, PROT_EXEC,
    PROT_READ, PROT_WRITE,
};

verus! {

pub const USER_BRK_BASE: u64 = 0x404000;

pub const USER_BRK_LIMIT: u64 = 0x410000;

pub const USER_MMAP_BASE: u64 = 0x410000;

pub const USER_MMAP_LIMIT: u64 = 0x480000;

/// Most slots that a process table grows to.
pub const MAX_SLOTS: usize = 32;

/// A mapped region of a process.
#[derive(Clone, Copy, Debug, PartialEq, Eq, Structural)]
pub struct VmArea {
    pub id: u64,
    pub virt_start: u64,
    pub pages: usize,
    pub writable: bool,
    pub executable: bool,
}

impl VmArea {
    /// One past the last byte.
    pub open spec fn end(self) -> int {
        self.virt_start + self.pages * PAGE_SIZE
    }

    /// The region starts on a page and ends below the limit of mapped regions.
    pub open spec fn wf(self) -> bool {
        self.virt_start % PAGE_SIZE == 0 && self.end() <= USER_MMAP_LIMIT
    }

    /// `[addr, end)` lies inside the region.
    pub open spec fn covers(self, addr: u64, end: u64) -> bool {
        self.virt_start <= addr && end <= self.end()
    }

    pub(crate) fn end_addr(&self) -> (end: u64)
        requires
            self.wf(),
        ensures
            end == self.end(),
    {
        assert(self.pages * PAGE_SIZE <= USER_MMAP_LIMIT);
        self.virt_start + self.pages as u64 * PAGE_SIZE
    }
}

/// A process.
pub struct Process {
    pub pid: u64,
    pub parent: Option<u64>,
    pub brk_end: u64,
    pub vm_areas: Vec<VmArea>,
    pub exit_code: Option<i32>,
    pub kstack: AlignedKstack,
    pub save: SyscallSaved,
    pub pending_rax: u64,
}

/// A process in the abstract.
#[verifier::ext_equal]
pub struct ProcessSpec {
    pub pid: u64,
    pub parent: Option<u64>,
    pub brk_end: u64,
    pub vm_areas: Seq<VmArea>,
    pub exit_code: Option<i32>,
    pub kstack: KstackSpec,
    pub save: SyscallSaved,
    pub pending_rax: u64,
}

impl ProcessSpec {
    /// The heap end stays in the heap window, every region is sound and the kernel stack is real.
    pub open spec fn wf(self) -> bool {
        &&& USER_BRK_BASE <= self.brk_end <= USER_BRK_LIMIT
        &&& forall|i: int| 0 <= i < self.vm_areas.len() ==> (#[trigger] self.vm_areas[i]).wf()
        &&& self.kstack.wf()
    }

    /// A process that has not run yet: an empty heap, no regions, and a kernel stack of zero bytes
    /// at `kstack`.
    pub open spec fn fresh(
        pid: u64,
        parent: Option<u64>,
        bootstrap: SyscallSaved,
        kstack: u64,
    ) -> ProcessSpec {
        ProcessSpec {
            pid,
            parent,
            brk_end: USER_BRK_BASE,
            vm_areas: Seq::empty(),
            exit_code: None,
            kstack: KstackSpec::fresh(kstack),
            save: bootstrap,
            pending_rax: 0,
        }
    }
}

impl View for Process {
    type V = ProcessSpec;

    open spec fn view(&self) -> ProcessSpec {
        ProcessSpec {
            pid: self.pid,
            parent: self.parent,
            brk_end: self.brk_end,
            vm_areas: self.vm_areas@,
            exit_code: self.exit_code,
            kstack: self.kstack@,
            save: self.save,
            pending_rax: self.pending_rax,
        }
    }
}

impl Process {
    /// A process that has not run yet. Its kernel stack lies at `kstack`.
    pub fn new(
        pid: u64,
        parent: Option<u64>,
        bootstrap: SyscallSaved,
        kstack: u64,
    ) -> (p: Process)
        ensures
            p@ == ProcessSpec::fresh(pid, parent, bootstrap, kstack),
    {
        Process {
            pid,
            parent,
            brk_end: USER_BRK_BASE,
            vm_areas: Vec::new(),
            exit_code: None,
            kstack: AlignedKstack::new(kstack),
            save: bootstrap,
            pending_rax: 0,
        }
    }

    pub fn kstack_top(&self) -> (top: u64)
        requires
            self@.kstack.wf(),
        ensures
            top == self@.kstack.top(),
    {
        self.kstack.top_ptr()
    }
}

/// The slots of a process table.
pub type Slots = Seq<Option<ProcessSpec>>;

pub open spec fn slot_spec(slot: Option<Box<Process>>) -> Option<ProcessSpec> {
    match slot {
        Some(p) => Some(p@),
        None => None,
    }
}

/// Process slots; a free slot is `None`.
pub struct ProcessTable {
    pub procs: Vec<Option<Box<Process>>>,
}

impl View for ProcessTable {
    type V = Slots;

    open spec fn view(&self) -> Slots {
        self.procs@.map_values(|s: Option<Box<Process>>| slot_spec(s))
    }
}

/// The slot that the next process gets: the lowest free one, else a new one while there is room.
pub open spec fn next_slot(slots: Slots) -> Option<int> {
    if exists|i: int| is_lowest_free(slots, i) {
        Some(choose|i: int| is_lowest_free(slots, i))
    } else if slots.len() < MAX_SLOTS {
        Some(slots.len() as int)
    } else {
        None
    }
}

pub open spec fn is_lowest_free(slots: Slots, i: int) -> bool {
    &&& 0 <= i < slots.len()
    &&& slots[i] is None
    &&& forall|j: int| 0 <= j < i ==> slots[j] is Some
}

impl ProcessTable {
    /// Finds the slot for the next process, growing the table by one free slot where needed.
    pub fn alloc_slot(&mut self) -> (slot: Option<usize>)
        ensures
            match slot {
                Some(i) => {
                    &&& next_slot(old(self)@) == Some(i as int)
                    &&& i < final(self)@.len()
                    &&& final(self)@[i as int] is None
                    &&& final(self)@ == (if i < old(self)@.len() {
                        old(self)@
                    } else {
                        old(self)@.push(None)
                    })
                },
                None => next_slot(old(self)@) is None && final(self)@ == old(self)@,
            },
    {
        let mut i: usize = 0;
        while i < self.procs.len()
            invariant
                i <= self.procs@.len(),
                self@ == old(self)@,
                self.procs@.len() == self@.len(),
                forall|j: int| 0 <= j < i ==> self@[j] is Some,
            decreases self.procs@.len() - i,
        {
            assert(self@[i as int] == slot_spec(self.procs@[i as int]));
            if self.procs[i].is_none() {
                proof {
                    assert(is_lowest_free(self@, i as int));
                    let k = choose|k: int| is_lowest_free(self@, k);
                    assert(k == i);
                }
                return Some(i);
            }
            i = i + 1;
        }
        assert(forall|k: int| !is_lowest_free(self@, k));
        if self.procs.len() < MAX_SLOTS {
            self.procs.push(None);
            assert(self@ =~= old(self)@.push(None));
            Some(self.procs.len() - 1)
        } else {
            None
        }
    }
}

/// Every process of the machine and the one that runs.
pub struct Processes {
    /// Nothing before boot.
    pub table: Option<ProcessTable>,
    pub current_slot: usize,
    /// Number of the next mapped region.
    pub vm_area_next_id: u64,
    /// Where the next region without a wished address goes.
    pub next_mmap: u64,
}

/// The processes in the abstract.
#[verifier::ext_equal]
pub struct ProcessesSpec {
    pub slots: Option<Slots>,
    pub current_slot: usize,
    pub vm_area_next_id: u64,
    pub next_mmap: u64,
}

/// Some process has this number.
pub open spec fn pid_used(slots: Slots, pid: u64) -> bool {
    exists|i: int| 0 <= i < slots.len() && (#[trigger] slots[i] matches Some(p) && p.pid == pid)
}

/// No two processes share a number.
pub open spec fn pids_unique(slots: Slots) -> bool {
    forall|i: int, j: int|
        0 <= i < j < slots.len() && (#[trigger] slots[i]) is Some && (#[trigger] slots[j]) is Some
            ==> slots[i]->0.pid != slots[j]->0.pid
}

pub open spec fn slots_wf(slots: Slots) -> bool {
    &&& slots.len() <= MAX_SLOTS
    &&& forall|i: int|
        0 <= i < slots.len() ==> (#[trigger] slots[i] matches Some(p) ==> p.wf())
    &&& pids_unique(slots)
}

impl ProcessesSpec {
    /// The process in a slot.
    pub open spec fn occupant(self, slot: int) -> Option<ProcessSpec> {
        match self.slots {
            Some(s) => if 0 <= slot < s.len() {
                s[slot]
            } else {
                None
            },
            None => None,
        }
    }

    /// The process that runs.
    pub open spec fn current(self) -> Option<ProcessSpec> {
        self.occupant(self.current_slot as int)
    }

    /// The same processes with another one in a slot.
    pub open spec fn with_slot(self, slot: int, p: Option<ProcessSpec>) -> ProcessesSpec {
        ProcessesSpec { slots: Some(self.slots->0.update(slot, p)), ..self }
    }

    /// The current slot is a slot of the table.
    pub open spec fn slot_in_range(self) -> bool {
        self.slots matches Some(s) ==> self.current_slot < s.len()
    }

    /// The table is small, every process is sound, no two share a number, and the next region
    /// starts on a page.
    pub open spec fn wf(self) -> bool {
        &&& self.slots matches Some(s) ==> slots_wf(s)
        &&& self.next_mmap % PAGE_SIZE == 0
    }

    /// Number of the running process; 1 where there is none.
    pub open spec fn pid(self) -> u64 {
        match self.current() {
            Some(p) => p.pid,
            None => 1,
        }
    }
}

impl View for Processes {
    type V = ProcessesSpec;

    open spec fn view(&self) -> ProcessesSpec {
        ProcessesSpec {
            slots: match self.table {
                Some(t) => Some(t@),
                None => None,
            },
            current_slot: self.current_slot,
            vm_area_next_id: self.vm_area_next_id,
            next_mmap: self.next_mmap,
        }
    }
}

/// The slots right after boot: process 1 in slot 0.
pub open spec fn boot_slots(user: UserImage, kstack: u64) -> Slots {
    Seq::new(
        MAX_SLOTS as nat,
        |i: int|
            if i == 0 {
                Some(ProcessSpec::fresh(1, None, user_bootstrap(user.entry_rip, USER_STACK_TOP), kstack))
            } else {
                None
            },
    )
}

/// State of a user task that starts at `entry`.
pub open spec fn user_bootstrap(entry: u64, rsp: u64) -> SyscallSaved {
    SyscallSaved {
        user_rsp: rsp,
        user_rip: entry,
        user_rflags: USER_RFLAGS,
        rbx: 0,
        rbp: 0,
        r12: 0,
        r13: 0,
        r14: 0,
        r15: 0,
    }
}

impl Processes {
    /// Before boot.
    pub fn new() -> (ps: Processes)
        ensures
            ps@ == (ProcessesSpec {
                slots: None,
                current_slot: 0,
                vm_area_next_id: 1,
                next_mmap: USER_MMAP_BASE,
            }),
            ps@.wf(),
    {
        Processes { table: None, current_slot: 0, vm_area_next_id: 1, next_mmap: USER_MMAP_BASE }
    }

    /// The process in a slot.
    pub(crate) fn occupant(&self, slot: usize) -> (p: Option<&Process>)
        ensures
            match p {
                Some(p) => self@.occupant(slot as int) == Some(p@),
                None => self@.occupant(slot as int) is None,
            },
    {
        match &self.table {
            None => None,
            Some(t) => if slot < t.procs.len() {
                assert(t@[slot as int] == slot_spec(t.procs@[slot as int]));
                match &t.procs[slot] {
                    Some(p) => Some(p),
                    None => None,
                }
            } else {
                None
            },
        }
    }
}

impl Processes {
    /// The process in a slot, to be changed.
    pub(crate) fn occupant_mut(&mut self, slot: usize) -> (p: Option<&mut Process>)
        ensures
            match p {
                Some(p) => {
                    &&& old(self)@.occupant(slot as int) == Some(p@)
                    &&& final(self)@ == old(self)@.with_slot(slot as int, Some(final(p)@))
                },
                None => {
                    &&& old(self)@.occupant(slot as int) is None
                    &&& final(self)@ == old(self)@
                },
            },
    {
        match &mut self.table {
            None => None,
            Some(t) => if slot < t.procs.len() {
                match &mut t.procs[slot] {
                    Some(p) => Some(&mut *p),
                    None => None,
                }
            } else {
                None
            },
        }
    }
}

/// Boots the process table with process 1 in slot 0, its kernel stack at `kstack`.
pub fn init(ps: &mut Processes, k: &mut CurrentKstack, user: &UserImage, kstack: u64)
    requires
        kstack + PAGE_SIZE <= u64::MAX,
        old(ps)@.wf(),
    ensures
        final(ps)@ == (ProcessesSpec {
            slots: Some(boot_slots(*user, kstack)),
            current_slot: 0,
            ..old(ps)@
        }),
        final(ps)@.wf(),
        final(k).top == kstack + PAGE_SIZE,
{
    let bootstrap = SyscallSaved::bootstrap_user(user.entry_rip, USER_STACK_TOP, USER_RFLAGS);
    let p = Process::new(1, None, bootstrap, kstack);
    let top = p.kstack_top();
    let mut procs: Vec<Option<Box<Process>>> = Vec::new();
    procs.push(Some(Box::new(p)));
    while procs.len() < MAX_SLOTS
        invariant
            1 <= procs@.len() <= MAX_SLOTS,
            procs@[0] == Some(Box::new(p)),
            forall|i: int| 1 <= i < procs@.len() ==> procs@[i] is None,
        decreases MAX_SLOTS - procs@.len(),
    {
        procs.push(None);
    }
    let t = ProcessTable { procs };
    assert(t@ =~= boot_slots(*user, kstack));
    ps.table = Some(t);
    ps.current_slot = 0;
    set_current_kstack_top(k, top);
}

pub fn current_slot(ps: &Processes) -> (slot: usize)
    ensures
        slot == ps@.current_slot,
{
    ps.current_slot
}

/// Makes `s` the current slot and, where a process lives there, its kernel stack the current one.
pub fn set_current_slot(ps: &mut Processes, k: &mut CurrentKstack, s: usize)
    requires
        old(ps)@.wf(),
    ensures
        final(ps)@ == (ProcessesSpec { current_slot: s, ..old(ps)@ }),
        final(k).top == (match old(ps)@.occupant(s as int) {
            Some(p) => p.kstack.top(),
            None => old(k).top as int,
        }),
{
    ps.current_slot = s;
    match ps.occupant(s) {
        Some(p) => {
            set_current_kstack_top(k, p.kstack_top());
        },
        None => {},
    }
}

pub fn current_pid(ps: &Processes) -> (pid: u64)
    requires
        ps@.slot_in_range(),
    ensures
        pid == ps@.pid(),
{
    match ps.occupant(ps.current_slot) {
        Some(p) => p.pid,
        None => 1,
    }
}

pub fn current_ppid(ps: &Processes) -> (ppid: Option<u64>)
    requires
        ps@.slot_in_range(),
    ensures
        ppid == (match ps@.current() {
            Some(p) => p.parent,
            None => None,
        }),
{
    match ps.occupant(ps.current_slot) {
        Some(p) => p.parent,
        None => None,
    }
}

/// Kernel stack of the process in a slot; the current one where the slot is free.
pub fn kstack_top_for_slot(ps: &Processes, k: &CurrentKstack, slot: usize) -> (top: u64)
    requires
        ps@.wf(),
    ensures
        top == (match ps@.occupant(slot as int) {
            Some(p) => p.kstack.top(),
            None => k.top as int,
        }),
{
    match ps.occupant(slot) {
        Some(p) => p.kstack_top(),
        None => crate::task::current_kstack_top(k),
    }
}

pub fn syscall_saved_for_slot(ps: &Processes, slot: usize) -> (save: SyscallSaved)
    requires
        ps@.occupant(slot as int) is Some,
    ensures
        save == ps@.occupant(slot as int)->0.save,
{
    ps.occupant(slot).unwrap().save
}

impl ProcessesSpec {
    /// The same processes with other registers and another pending result for the one in a slot.
    pub open spec fn saved(self, slot: int, save: SyscallSaved, pending_rax: u64) -> ProcessesSpec {
        match self.occupant(slot) {
            Some(p) => self.with_slot(slot, Some(ProcessSpec { save, pending_rax, ..p })),
            None => self,
        }
    }
}

/// Notes the registers and the pending result of the process in a slot, if there is one.
pub fn set_syscall_saved(ps: &mut Processes, slot: usize, save: SyscallSaved, pending_rax: u64)
    ensures
        final(ps)@ == old(ps)@.saved(slot as int, save, pending_rax),
        old(ps)@.wf() ==> final(ps)@.wf(),
{
    match ps.occupant_mut(slot) {
        Some(p) => {
            p.save = save;
            p.pending_rax = pending_rax;
        },
        None => {},
    }
}

/// The result that waits for the process in a slot; 0 where there is none.
pub fn pending_rax_for_slot(ps: &Processes, slot: usize) -> (rax: u64)
    ensures
        rax == (match ps@.occupant(slot as int) {
            Some(p) => p.pending_rax,
            None => 0,
        }),
{
    match ps.occupant(slot) {
        Some(p) => p.pending_rax,
        None => 0,
    }
}

/// Hands out the result that waits for the process in a slot, and leaves 0 behind.
pub fn take_pending_rax(ps: &mut Processes, slot: usize) -> (rax: u64)
    ensures
        match old(ps)@.occupant(slot as int) {
            Some(p) => {
                &&& rax == p.pending_rax
                &&& final(ps)@ == old(ps)@.with_slot(
                    slot as int,
                    Some(ProcessSpec { pending_rax: 0, ..p }),
                )
            },
            None => rax == 0 && final(ps)@ == old(ps)@,
        },
        old(ps)@.wf() ==> final(ps)@.wf(),
{
    match ps.occupant_mut(slot) {
        Some(p) => {
            let rax: u64 = p.pending_rax;
            p.pending_rax = 0;
            rax
        },
        None => 0,
    }
}

impl ProcessesSpec {
    /// A process lives in the slot and has not exited.
    pub open spec fn runnable(self, slot: int) -> bool {
        self.occupant(slot) matches Some(p) && p.exit_code is None
    }
}

/// Returns true if a process lives in the slot and has not exited.
pub fn slot_is_alive_runnable(ps: &Processes, slot: usize) -> (ok: bool)
    ensures
        ok == ps@.runnable(slot as int),
{
    match ps.occupant(slot) {
        Some(p) => p.exit_code.is_none(),
        None => false,
    }
}

/// Returns true if the scheduler may pick the slot.
pub fn slot_runnable(ps: &Processes, slot: usize) -> (ok: bool)
    ensures
        ok == ps@.runnable(slot as int),
{
    slot_is_alive_runnable(ps, slot)
}

/// Leaves the processes as they are: `mark_exited` has already noted the exit code.
pub fn mark_zombie_current(ps: &mut Processes)
    ensures
        final(ps)@ == old(ps)@,
{
}

impl ProcessesSpec {
    /// The same processes with the running one exited.
    pub open spec fn exited(self, status: i32) -> ProcessesSpec {
        match self.current() {
            Some(p) => self.with_slot(
                self.current_slot as int,
                Some(ProcessSpec { exit_code: Some(status), ..p }),
            ),
            None => self,
        }
    }
}

/// Notes the exit status of the running process.
pub fn mark_exited(ps: &mut Processes, status: i32)
    ensures
        final(ps)@ == old(ps)@.exited(status),
        old(ps)@.wf() ==> final(ps)@.wf(),
{
    let i: usize = ps.current_slot;
    match ps.occupant_mut(i) {
        Some(p) => {
            p.exit_code = Some(status);
        },
        None => {},
    }
}

/// First number that a forked process can get.
pub const FIRST_FORK_PID: u64 = 2;

/// One past the last number that a forked process can get.
pub const PID_LIMIT: u64 = 1024;

/// The least number from [`FIRST_FORK_PID`] on that no process has.
pub open spec fn is_next_pid(slots: Slots, pid: u64) -> bool {
    &&& FIRST_FORK_PID <= pid
    &&& !pid_used(slots, pid)
    &&& forall|q: u64| FIRST_FORK_PID <= q < pid ==> pid_used(slots, q)
}

/// A table of `n` slots cannot use up more than `n` numbers.
proof fn lemma_pids_run_out(slots: Slots, n: nat)
    requires
        forall|q: u64| FIRST_FORK_PID <= q < FIRST_FORK_PID + n ==> pid_used(slots, q),
        FIRST_FORK_PID + n <= u64::MAX,
    ensures
        n <= slots.len(),
{
    let pids = slots.map_values(
        |s: Option<ProcessSpec>|
            match s {
                Some(p) => p.pid as int,
                None => 0int,
            },
    );
    let range = vstd::set_lib::set_int_range(FIRST_FORK_PID as int, FIRST_FORK_PID + n);
    vstd::set_lib::lemma_int_range(FIRST_FORK_PID as int, FIRST_FORK_PID + n);
    assert forall|q: int| range.contains(q) implies pids.to_set().contains(q) by {
        assert(pid_used(slots, q as u64));
        let i = choose|i: int|
            0 <= i < slots.len() && (#[trigger] slots[i] matches Some(p) && p.pid == q as u64);
        assert(pids[i] == q);
    }
    pids.lemma_cardinality_of_set();
    vstd::seq_lib::seq_to_set_is_finite(pids);
    vstd::set_lib::lemma_len_subset(range, pids.to_set());
}

/// The number for the next process: the least free one. A table always has one to give.
pub fn alloc_pid(ps: &Processes) -> (pid: Option<u64>)
    requires
        ps@.wf(),
    ensures
        match pid {
            Some(pid) => ps@.slots matches Some(slots) && is_next_pid(slots, pid) && pid < PID_LIMIT,
            None => ps@.slots is None,
        },
{
    match &ps.table {
        None => None,
        Some(t) => {
            let mut cand: u64 = FIRST_FORK_PID;
            while cand < PID_LIMIT
                invariant
                    FIRST_FORK_PID <= cand <= PID_LIMIT,
                    ps@.slots == Some(t@),
                    t@.len() <= MAX_SLOTS,
                    forall|q: u64| FIRST_FORK_PID <= q < cand ==> pid_used(t@, q),
                decreases PID_LIMIT - cand,
            {
                if !has_pid(t, cand) {
                    return Some(cand);
                }
                cand = cand + 1;
            }
            proof {
                lemma_pids_run_out(t@, (PID_LIMIT - FIRST_FORK_PID) as nat);
            }
            None
        },
    }
}

fn has_pid(t: &ProcessTable, pid: u64) -> (used: bool)
    ensures
        used == pid_used(t@, pid),
{
    let mut i: usize = 0;
    while i < t.procs.len()
        invariant
            i <= t.procs@.len(),
            forall|j: int| 0 <= j < i ==> !(#[trigger] t@[j] matches Some(p) && p.pid == pid),
        decreases t.procs@.len() - i,
    {
        assert(t@[i as int] == slot_spec(t.procs@[i as int]));
        if let Some(p) = &t.procs[i] {
            if p.pid == pid {
                return true;
            }
        }
        i = i + 1;
    }
    false
}

/// The slot that waiting for a child empties. Slots are looked at in order. The first child that
/// still runs ends the search, before `target` is looked at; a child that has exited fits if
/// `target` is negative or its number.
pub open spec fn reapable(slots: Slots, me: u64, target: i64, from: int) -> Option<int>
    decreases slots.len() - from,
{
    if from < 0 || from >= slots.len() {
        None
    } else {
        match slots[from] {
            Some(p) => if p.parent != Some(me) {
                reapable(slots, me, target, from + 1)
            } else if p.exit_code is None {
                None
            } else if target >= 0 && p.pid != target {
                reapable(slots, me, target, from + 1)
            } else {
                Some(from)
            },
            None => reapable(slots, me, target, from + 1),
        }
    }
}

/// The slot that a wait of the running process for `target` empties.
pub open spec fn reaps(ps: ProcessesSpec, target: i64) -> Option<int> {
    match ps.slots {
        Some(slots) => reapable(slots, ps.pid(), target, 0),
        None => None,
    }
}

/// Frees the slot of a child that has exited and returns its number and status.
pub fn wait_reap(ps: &mut Processes, target: i64) -> (r: Option<(u64, i32)>)
    requires
        old(ps)@.wf(),
        old(ps)@.slot_in_range(),
    ensures
        final(ps)@.wf(),
        final(ps)@.slot_in_range(),
        match reaps(old(ps)@, target) {
            Some(slot) => {
                let p = old(ps)@.slots->0[slot]->0;
                &&& r == Some((p.pid, p.exit_code->0))
                &&& final(ps)@ == old(ps)@.with_slot(slot, None)
            },
            None => r is None && final(ps)@ == old(ps)@,
        },
{
    let me: u64 = current_pid(ps);
    match &mut ps.table {
        None => None,
        Some(t) => {
            let ghost slots = t@;
            match find_reapable(t, me, target) {
                None => None,
                Some((slot, pid, code)) => {
                    t.procs[slot] = None;
                    assert(t@ =~= slots.update(slot as int, None));
                    Some((pid, code))
                },
            }
        },
    }
}

fn find_reapable(t: &ProcessTable, me: u64, target: i64) -> (r: Option<(usize, u64, i32)>)
    ensures
        match r {
            Some((slot, pid, code)) => {
                &&& reapable(t@, me, target, 0) == Some(slot as int)
                &&& slot < t@.len()
                &&& t@[slot as int] matches Some(p) && p.pid == pid && p.exit_code == Some(code)
            },
            None => reapable(t@, me, target, 0) is None,
        },
{
    let mut slot: usize = 0;
    while slot < t.procs.len()
        invariant
            slot <= t.procs@.len(),
            reapable(t@, me, target, slot as int) == reapable(t@, me, target, 0),
        decreases t.procs@.len() - slot,
    {
        assert(t@[slot as int] == slot_spec(t.procs@[slot as int]));
        if let Some(p) = &t.procs[slot] {
            let mine = match p.parent {
                Some(parent) => parent == me,
                None => false,
            };
            if mine {
                match p.exit_code {
                    None => {
                        return None;
                    },
                    Some(code) => {
                        if target < 0 || p.pid == target as u64 {
                            return Some((slot, p.pid, code));
                        }
                    },
                }
            }
        }
        slot = slot + 1;
    }
    None
}

/// Once a child has been reaped its number is free, so no later wait returns it.
pub proof fn law_reaped_child_is_gone(ps: ProcessesSpec, target: i64)
    requires
        ps.wf(),
        reaps(ps, target) is Some,
    ensures
        ({
            let slot = reaps(ps, target)->0;
            let p = ps.slots->0[slot]->0;
            &&& 0 <= slot < ps.slots->0.len()
            &&& p.parent == Some(ps.pid())
            &&& p.exit_code is Some
            &&& target >= 0 ==> p.pid == target
            &&& !pid_used(ps.with_slot(slot, None).slots->0, p.pid)
        }),
{
    let slots = ps.slots->0;
    lemma_reapable(slots, ps.pid(), target, 0);
    let slot = reaps(ps, target)->0;
    let p = slots[slot]->0;
    let after = slots.update(slot, None);
    if pid_used(after, p.pid) {
        let i = choose|i: int|
            0 <= i < after.len() && (#[trigger] after[i] matches Some(q) && q.pid == p.pid);
        assert(after[i] == slots[i]);
    }
}

proof fn lemma_reapable(slots: Slots, me: u64, target: i64, from: int)
    requires
        0 <= from,
    ensures
        reapable(slots, me, target, from) matches Some(k) ==> {
            &&& from <= k < slots.len()
            &&& slots[k] matches Some(p) && p.parent == Some(me) && p.exit_code is Some && (target
                >= 0 ==> p.pid == target)
        },
    decreases slots.len() - from,
{
    if from < slots.len() {
        lemma_reapable(slots, me, target, from + 1);
    }
}

/// The slot holds a child of `me`.
pub open spec fn is_child(slots: Slots, i: int, me: u64) -> bool {
    0 <= i < slots.len() && (slots[i] matches Some(p) && p.parent == Some(me))
}

/// Where all children have exited, waiting for any child, or for one that exists, finds one.
pub proof fn law_wait_finds_exited_child(slots: Slots, me: u64, target: i64, child: int)
    requires
        is_child(slots, child, me),
        target < 0 || slots[child]->0.pid == target,
        forall|i: int| #[trigger] is_child(slots, i, me) ==> slots[i]->0.exit_code is Some,
    ensures
        reapable(slots, me, target, 0) is Some,
{
    lemma_wait_finds(slots, me, target, child, 0);
}

proof fn lemma_wait_finds(slots: Slots, me: u64, target: i64, child: int, from: int)
    requires
        is_child(slots, child, me),
        target < 0 || slots[child]->0.pid == target,
        forall|i: int| #[trigger] is_child(slots, i, me) ==> slots[i]->0.exit_code is Some,
        0 <= from <= child,
    ensures
        reapable(slots, me, target, from) is Some,
    decreases child - from,
{
    assert(is_child(slots, from, me) ==> slots[from]->0.exit_code is Some);
    if from < child {
        lemma_wait_finds(slots, me, target, child, from + 1);
    }
}

/// A wait looks past a child that has exited and has another number than the one asked for.
pub open spec fn looked_past(slots: Slots, i: int, me: u64, target: i64) -> bool {
    is_child(slots, i, me) ==> slots[i]->0.exit_code is Some && target >= 0 && slots[i]->0.pid
        != target
}

/// A child that has exited is reaped where the wait looks past all children in lower slots.
pub proof fn lemma_child_is_reaped(slots: Slots, me: u64, target: i64, child: int)
    requires
        is_child(slots, child, me),
        slots[child]->0.exit_code is Some,
        target < 0 || slots[child]->0.pid == target,
        forall|i: int| 0 <= i < child ==> looked_past(slots, i, me, target),
    ensures
        reapable(slots, me, target, 0) == Some(child),
{
    lemma_child_is_reaped_from(slots, me, target, child, 0);
}

proof fn lemma_child_is_reaped_from(slots: Slots, me: u64, target: i64, child: int, from: int)
    requires
        is_child(slots, child, me),
        slots[child]->0.exit_code is Some,
        target < 0 || slots[child]->0.pid == target,
        forall|i: int| 0 <= i < child ==> looked_past(slots, i, me, target),
        0 <= from <= child,
    ensures
        reapable(slots, me, target, from) == Some(child),
    decreases child - from,
{
    if from < child {
        assert(looked_past(slots, from, me, target));
        lemma_child_is_reaped_from(slots, me, target, child, from + 1);
    }
}

/// A child that still runs hides the exited children behind it from every wait.
pub proof fn law_running_child_hides_later_ones(slots: Slots, me: u64, target: i64, child: int)
    requires
        is_child(slots, child, me),
        slots[child]->0.exit_code is None,
        forall|i: int| 0 <= i < child ==> !is_child(slots, i, me),
    ensures
        reapable(slots, me, target, 0) is None,
{
    lemma_running_hides(slots, me, target, child, 0);
}

proof fn lemma_running_hides(slots: Slots, me: u64, target: i64, child: int, from: int)
    requires
        is_child(slots, child, me),
        slots[child]->0.exit_code is None,
        forall|i: int| 0 <= i < child ==> !is_child(slots, i, me),
        0 <= from <= child,
    ensures
        reapable(slots, me, target, from) is None,
    decreases child - from,
{
    if from < child {
        assert(!is_child(slots, from, me));
        lemma_running_hides(slots, me, target, child, from + 1);
    }
}

/// At boot the one process is number 1, without a parent, in slot 0: it starts at the program's entry
/// with an empty stack, an empty heap and no regions.
pub proof fn law_boot_has_one_process(user: UserImage, kstack: u64, i: int)
    requires
        0 <= i < 32,
    ensures
        ({
            let slots = boot_slots(user, kstack);
            &&& slots.len() == 32
            &&& i > 0 ==> slots[i] is None
            &&& slots[0] matches Some(p) && p.pid == 1 && p.parent is None && p.brk_end == 0x404000
                && p.vm_areas.len() == 0 && p.exit_code is None && p.pending_rax == 0
                && p.kstack.base == kstack && p.save.user_rip == user.entry_rip && p.save.user_rsp
                == 0x402000
        }),
{
}

/// A new process moves into the lowest free slot; a new slot is opened only where none is free, and
/// only up to 32.
pub proof fn law_next_slot_is_lowest_free(slots: Slots, i: int)
    ensures
        match next_slot(slots) {
            Some(k) => {
                &&& 0 <= k <= slots.len()
                &&& k < slots.len() ==> slots[k] is None
                &&& k == slots.len() ==> slots.len() < 32
                &&& 0 <= i < k ==> slots[i] is Some
            },
            None => {
                &&& slots.len() >= 32
                &&& 0 <= i < slots.len() ==> slots[i] is Some
            },
        },
{
    if exists|k: int| is_lowest_free(slots, k) {
        let k = choose|k: int| is_lowest_free(slots, k);
        assert(is_lowest_free(slots, k));
    } else {
        lemma_no_lowest_free(slots, slots.len() as int);
    }
}

proof fn lemma_no_lowest_free(slots: Slots, n: int)
    requires
        0 <= n <= slots.len(),
        forall|k: int| !is_lowest_free(slots, k),
    ensures
        forall|i: int| 0 <= i < n ==> slots[i] is Some,
    decreases n,
{
    if n > 0 {
        lemma_no_lowest_free(slots, n - 1);
        assert(!is_lowest_free(slots, n - 1));
    }
}

/// A new process gets the least number from 2 on that no process has.
pub proof fn law_next_pid_is_least_free(slots: Slots, pid: u64, q: u64, i: int)
    requires
        is_next_pid(slots, pid),
    ensures
        pid >= 2,
        0 <= i < slots.len() && slots[i] is Some ==> slots[i]->0.pid != pid,
        2 <= q < pid ==> exists|k: int|
            0 <= k < slots.len() && (#[trigger] slots[k]) is Some && slots[k]->0.pid == q,
{
    if 0 <= i < slots.len() && slots[i] is Some && slots[i]->0.pid == pid {
        assert(slots[i] matches Some(p) && p.pid == pid);
    }
    if 2 <= q < pid {
        assert(pid_used(slots, q));
        let k = choose|k: int|
            0 <= k < slots.len() && (#[trigger] slots[k] matches Some(p) && p.pid == q);
        assert(slots[k] is Some);
    }
}

/// Exiting notes the status of the running process, which keeps everything else, and touches no other
/// process; a process that has exited does not run.
pub proof fn law_exit_notes_status(ps: ProcessesSpec, status: i32, i: int)
    requires
        ps.current() is Some,
    ensures
        ({
            let a = ps.exited(status);
            let p = ps.current()->0;
            &&& a.occupant(ps.current_slot as int) == Some(
                ProcessSpec { exit_code: Some(status), ..p },
            )
            &&& i != ps.current_slot ==> a.occupant(i) == ps.occupant(i)
            &&& a.current_slot == ps.current_slot
            &&& a.vm_area_next_id == ps.vm_area_next_id && a.next_mmap == ps.next_mmap
            &&& !a.runnable(ps.current_slot as int)
        }),
{
}

/// Noting registers and a result changes those of one process, and nothing else.
pub proof fn law_noting_registers(
    ps: ProcessesSpec,
    slot: int,
    save: SyscallSaved,
    rax: u64,
    i: int,
)
    requires
        ps.occupant(slot) is Some,
    ensures
        ({
            let a = ps.saved(slot, save, rax);
            &&& a.occupant(slot) == Some(
                ProcessSpec { save, pending_rax: rax, ..ps.occupant(slot)->0 },
            )
            &&& i != slot ==> a.occupant(i) == ps.occupant(i)
            &&& a.current_slot == ps.current_slot
            &&& a.vm_area_next_id == ps.vm_area_next_id && a.next_mmap == ps.next_mmap
        }),
{
}

/// A wait takes the child of the lowest slot that it can: any child in a lower slot has exited and is
/// not the one asked for. Where it takes none, some child still runs, or no child that has exited is
/// the one asked for.
pub proof fn law_wait_takes_lowest_slot(slots: Slots, me: u64, target: i64, i: int)
    ensures
        match reapable(slots, me, target, 0) {
            Some(k) => {
                &&& 0 <= k < slots.len()
                &&& slots[k] matches Some(p) && p.parent == Some(me) && p.exit_code is Some
                &&& target >= 0 ==> slots[k]->0.pid == target
                &&& 0 <= i < k && is_child(slots, i, me) ==> slots[i]->0.exit_code is Some && target
                    >= 0 && slots[i]->0.pid != target
            },
            None => is_child(slots, i, me) && slots[i]->0.exit_code is Some && (target < 0
                || slots[i]->0.pid == target) ==> exists|j: int|
                0 <= j < i && #[trigger] is_child(slots, j, me) && slots[j]->0.exit_code is None,
        },
{
    lemma_reapable(slots, me, target, 0);
    lemma_reapable_scan(slots, me, target, 0, i);
}

proof fn lemma_reapable_scan(slots: Slots, me: u64, target: i64, from: int, i: int)
    requires
        0 <= from,
    ensures
        match reapable(slots, me, target, from) {
            Some(k) => from <= i < k && is_child(slots, i, me) ==> slots[i]->0.exit_code is Some
                && target >= 0 && slots[i]->0.pid != target,
            None => from <= i && is_child(slots, i, me) && slots[i]->0.exit_code is Some && (target
                < 0 || slots[i]->0.pid == target) ==> exists|j: int|
                from <= j < i && #[trigger] is_child(slots, j, me) && slots[j]->0.exit_code is None,
        },
    decreases slots.len() - from,
{
    if from < slots.len() {
        if is_child(slots, from, me) && slots[from]->0.exit_code is None {
            assert(is_child(slots, from, me));
        } else {
            lemma_reapable_scan(slots, me, target, from + 1, i);
        }
    }
}

/// A process that starts has its entry and its stack pointer, interrupts let through, and zero in the
/// other registers.
pub proof fn law_process_starts_clean(entry: u64, rsp: u64)
    ensures
        user_bootstrap(entry, rsp) == crate::task::fresh_registers(entry, rsp, 0x202),
{
}

/// The number asked for is that of the process in the current slot; with none there it is 1.
pub proof fn law_current_number(ps: ProcessesSpec, slots: Slots, p: ProcessSpec)
    ensures
        ps.slots == Some(slots) && ps.current_slot < slots.len() && slots[ps.current_slot as int]
            == Some(p) ==> ps.pid() == p.pid,
        ps.slots is None ==> ps.pid() == 1,
        ps.slots == Some(slots) && ps.current_slot < slots.len() && slots[ps.current_slot as int] is None
            ==> ps.pid() == 1,
{
}

} // verus!
