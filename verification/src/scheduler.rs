//! Round-robin runnable **queue**, blocking **`wait4`**, **sleep** deadlines, syscall **tail**
//! scheduling. Time-slice **hint** via [`on_timer_tick`] (`need_resched`, checked on syscall exit).

use std::collections::VecDeque;

use vstd::prelude::*;

use crate::process::{
    current_ppid, current_slot, kstack_top_for_slot, mark_zombie_current, set_current_slot,
    set_syscall_saved, slot_runnable, syscall_saved_for_slot, take_pending_rax, Processes,
    ProcessSpec, ProcessesSpec,
};
use crate::task::{
    frame_for, restore_to_kstack, save_from_dispatch_rsp, saved_in_frame, CurrentKstack,
    KstackFrame, SyscallSaved, FRAME_BYTES, FRAME_WORDS,
};

verus! {

/// Timer ticks in a time slice.
pub const SLICE: u64 = 15;

/// The queues of the scheduler.
pub struct SchedState {
    pub runnable: VecDeque<usize>,
    /// Slot indices blocked in `wait4`.
    pub wait_blocked: Vec<usize>,
    pub time_slice_ticks: u64,
    pub last_started_tick: u64,
}

/// A slot that sleeps until a tick.
#[derive(Clone, Copy, Debug, PartialEq, Eq, Structural)]
pub struct Sleeper {
    pub until: u64,
    pub slot: usize,
}

/// The queues, the sleepers in the order in which they wake, and the wish to switch.
pub struct Scheduler {
    /// Nothing before boot.
    pub sched: Option<SchedState>,
    pub need_resched: bool,
    pub sleepers: Vec<Sleeper>,
}

/// The queues in the abstract.
#[verifier::ext_equal]
pub struct Queues {
    pub runnable: Seq<usize>,
    pub wait_blocked: Seq<usize>,
    pub time_slice_ticks: u64,
    pub last_started_tick: u64,
}

/// The scheduler in the abstract.
#[verifier::ext_equal]
pub struct SchedulerSpec {
    pub queues: Option<Queues>,
    pub need_resched: bool,
    pub sleepers: Seq<Sleeper>,
}

impl View for SchedState {
    type V = Queues;

    open spec fn view(&self) -> Queues {
        Queues {
            runnable: self.runnable@,
            wait_blocked: self.wait_blocked@,
            time_slice_ticks: self.time_slice_ticks,
            last_started_tick: self.last_started_tick,
        }
    }
}

impl View for Scheduler {
    type V = SchedulerSpec;

    open spec fn view(&self) -> SchedulerSpec {
        SchedulerSpec {
            queues: match self.sched {
                Some(q) => Some(q@),
                None => None,
            },
            need_resched: self.need_resched,
            sleepers: self.sleepers@,
        }
    }
}

/// The queue without a slot.
pub open spec fn without(queue: Seq<usize>, slot: usize) -> Seq<usize> {
    queue.filter(|x: usize| x != slot)
}

impl Queues {
    /// No slot is queued twice, and none is both runnable and blocked.
    pub open spec fn wf(self) -> bool {
        &&& self.runnable.no_duplicates()
        &&& self.wait_blocked.no_duplicates()
        &&& forall|x: usize| self.runnable.contains(x) ==> !self.wait_blocked.contains(x)
    }

    /// A slot joins the end of the queue, unless it is queued or blocked already.
    pub open spec fn enqueued(self, slot: usize) -> Queues {
        if self.runnable.contains(slot) || self.wait_blocked.contains(slot) {
            self
        } else {
            Queues { runnable: self.runnable.push(slot), ..self }
        }
    }

    /// Several slots join, in order.
    pub open spec fn enqueued_all(self, slots: Seq<usize>) -> Queues
        decreases slots.len(),
    {
        if slots.len() == 0 {
            self
        } else {
            self.enqueued_all(slots.drop_last()).enqueued(slots.last())
        }
    }

    /// The front slot goes to the end, and its time slice starts.
    pub open spec fn rotated(self, now: u64) -> Queues {
        Queues { runnable: rotate(self.runnable), last_started_tick: now, ..self }
    }

    /// A slot leaves the queue of runnable slots.
    pub open spec fn parked(self, slot: usize) -> Queues {
        Queues { runnable: without(self.runnable, slot), ..self }
    }

    /// A slot leaves the queue of runnable slots and blocks.
    pub open spec fn blocked(self, slot: usize) -> Queues {
        Queues {
            runnable: without(self.runnable, slot),
            wait_blocked: if self.wait_blocked.contains(slot) {
                self.wait_blocked
            } else {
                self.wait_blocked.push(slot)
            },
            ..self
        }
    }

    /// Every blocked slot becomes runnable.
    pub open spec fn unblocked(self) -> Queues {
        Queues { wait_blocked: Seq::empty(), ..self }.enqueued_all(self.wait_blocked)
    }
}

/// The queue with its front at the end.
pub open spec fn rotate(queue: Seq<usize>) -> Seq<usize> {
    if queue.len() == 0 {
        queue
    } else {
        queue.drop_first().push(queue[0])
    }
}

/// The sleepers whose time has come at `now`.
pub open spec fn due(sleepers: Seq<Sleeper>, now: u64) -> Seq<Sleeper> {
    sleepers.filter(|s: Sleeper| s.until <= now)
}

/// The sleepers whose time is still to come at `now`.
pub open spec fn later(sleepers: Seq<Sleeper>, now: u64) -> Seq<Sleeper> {
    sleepers.filter(|s: Sleeper| s.until > now)
}

pub open spec fn slots_of(sleepers: Seq<Sleeper>) -> Seq<usize> {
    sleepers.map_values(|s: Sleeper| s.slot)
}

/// A sleeper joins: behind all that wake no later, before all that wake later.
pub open spec fn with_sleeper(sleepers: Seq<Sleeper>, s: Sleeper) -> Seq<Sleeper> {
    due(sleepers, s.until).push(s) + later(sleepers, s.until)
}

/// Deadlines never decrease along the list.
pub open spec fn by_deadline(sleepers: Seq<Sleeper>) -> bool {
    forall|i: int, j: int|
        0 <= i <= j < sleepers.len() ==> (#[trigger] sleepers[i]).until <= (
        #[trigger] sleepers[j]).until
}

impl SchedulerSpec {
    /// The queues are sound, and the sleepers stand in the order in which they wake.
    pub open spec fn wf(self) -> bool {
        &&& self.queues matches Some(q) ==> q.wf()
        &&& by_deadline(self.sleepers)
    }
}

proof fn lemma_filter_by_deadline(sleepers: Seq<Sleeper>, pred: spec_fn(Sleeper) -> bool)
    requires
        by_deadline(sleepers),
    ensures
        by_deadline(sleepers.filter(pred)),
        forall|i: int|
            0 <= i < sleepers.filter(pred).len() ==> pred(#[trigger] sleepers.filter(pred)[i]),
        sleepers.len() > 0 ==> forall|i: int|
            0 <= i < sleepers.filter(pred).len() ==> (#[trigger] sleepers.filter(pred)[i]).until
                <= sleepers.last().until,
    decreases sleepers.len(),
{
    reveal(Seq::filter);
    if sleepers.len() > 0 {
        let front = sleepers.drop_last();
        assert(by_deadline(front));
        lemma_filter_by_deadline(front, pred);
        if front.len() > 0 {
            assert(front.last().until <= sleepers.last().until);
        }
    }
}

proof fn lemma_with_sleeper_by_deadline(sleepers: Seq<Sleeper>, s: Sleeper)
    requires
        by_deadline(sleepers),
    ensures
        by_deadline(with_sleeper(sleepers, s)),
{
    lemma_filter_by_deadline(sleepers, |x: Sleeper| x.until <= s.until);
    lemma_filter_by_deadline(sleepers, |x: Sleeper| x.until > s.until);
}

/// Changes the queues, if there are any.
pub open spec fn on_queues(s: SchedulerSpec, f: spec_fn(Queues) -> Queues) -> SchedulerSpec {
    SchedulerSpec {
        queues: match s.queues {
            Some(q) => Some(f(q)),
            None => None,
        },
        ..s
    }
}

proof fn lemma_enqueued_wf(q: Queues, slot: usize)
    requires
        q.wf(),
    ensures
        q.enqueued(slot).wf(),
{
    let r = q.runnable;
    if !r.contains(slot) && !q.wait_blocked.contains(slot) {
        assert forall|x: usize| r.push(slot).contains(x) implies !q.wait_blocked.contains(x) by {
            let i = choose|i: int| 0 <= i < r.push(slot).len() && r.push(slot)[i] == x;
            if i < r.len() {
                assert(r.contains(r[i]));
            }
        }
        assert forall|i: int, j: int|
            0 <= i < r.len() + 1 && 0 <= j < r.len() + 1 && i != j implies r.push(slot)[i] != r.push(
            slot,
        )[j] by {
            if i == r.len() {
                assert(r.contains(r[j]));
            } else if j == r.len() {
                assert(r.contains(r[i]));
            }
        }
    }
}

proof fn lemma_enqueued_all_wf(q: Queues, slots: Seq<usize>)
    requires
        q.wf(),
    ensures
        q.enqueued_all(slots).wf(),
    decreases slots.len(),
{
    if slots.len() > 0 {
        lemma_enqueued_all_wf(q, slots.drop_last());
        lemma_enqueued_wf(q.enqueued_all(slots.drop_last()), slots.last());
    }
}

/// Leaving a slot out of a queue keeps the others, in order.
proof fn lemma_without(queue: Seq<usize>, slot: usize)
    ensures
        !without(queue, slot).contains(slot),
        forall|x: usize| x != slot ==> (without(queue, slot).contains(x) <==> queue.contains(x)),
        queue.no_duplicates() ==> without(queue, slot).no_duplicates(),
    decreases queue.len(),
{
    reveal(Seq::filter);
    let w = without(queue, slot);
    if queue.len() > 0 {
        let front = queue.drop_last();
        let wf = without(front, slot);
        lemma_without(front, slot);
        assert forall|x: usize| queue.contains(x) <==> front.contains(x) || x == queue.last() by {
            if queue.contains(x) {
                let i = choose|i: int| 0 <= i < queue.len() && queue[i] == x;
                if i < front.len() {
                    assert(front[i] == x);
                }
            }
            if front.contains(x) {
                let i = choose|i: int| 0 <= i < front.len() && front[i] == x;
                assert(queue[i] == x);
            }
            assert(queue[queue.len() - 1] == queue.last());
        }
        if queue.last() != slot {
            assert(w == wf.push(queue.last()));
            assert forall|x: usize| w.contains(x) <==> wf.contains(x) || x == queue.last() by {
                if w.contains(x) {
                    let i = choose|i: int| 0 <= i < w.len() && w[i] == x;
                    if i < wf.len() {
                        assert(wf[i] == x);
                    }
                }
                if wf.contains(x) {
                    let i = choose|i: int| 0 <= i < wf.len() && wf[i] == x;
                    assert(w[i] == x);
                }
                assert(w[w.len() - 1] == queue.last());
            }
            if queue.no_duplicates() {
                assert(front.no_duplicates());
                assert(!front.contains(queue.last())) by {
                    if front.contains(queue.last()) {
                        let i = choose|i: int| 0 <= i < front.len() && front[i] == queue.last();
                        assert(queue[i] == queue[queue.len() - 1]);
                    }
                }
                assert(!wf.contains(queue.last()));
            }
        } else if queue.no_duplicates() {
            assert(front.no_duplicates());
        }
    }
}

proof fn lemma_parked_wf(q: Queues, slot: usize)
    requires
        q.wf(),
    ensures
        q.parked(slot).wf(),
{
    lemma_without(q.runnable, slot);
}

proof fn lemma_blocked_wf(q: Queues, slot: usize)
    requires
        q.wf(),
    ensures
        q.blocked(slot).wf(),
{
    lemma_without(q.runnable, slot);
    let w = q.wait_blocked;
    if !w.contains(slot) {
        assert forall|x: usize| w.push(slot).contains(x) implies x == slot || w.contains(x) by {
            let i = choose|i: int| 0 <= i < w.push(slot).len() && w.push(slot)[i] == x;
            if i < w.len() {
                assert(w[i] == x);
            }
        }
        assert forall|i: int, j: int|
            0 <= i < w.len() + 1 && 0 <= j < w.len() + 1 && i != j implies w.push(slot)[i] != w.push(
            slot,
        )[j] by {
            if i == w.len() {
                assert(w.contains(w[j]));
            } else if j == w.len() {
                assert(w.contains(w[i]));
            }
        }
        assert forall|x: usize| without(q.runnable, slot).contains(x) implies !w.push(
            slot,
        ).contains(x) by {
            assert(x != slot);
            assert(q.runnable.contains(x));
        }
    }
}

proof fn lemma_unblocked_wf(q: Queues)
    requires
        q.wf(),
    ensures
        q.unblocked().wf(),
{
    lemma_enqueued_all_wf(Queues { wait_blocked: Seq::empty(), ..q }, q.wait_blocked);
}

proof fn lemma_rotated_wf(q: Queues, now: u64)
    requires
        q.wf(),
    ensures
        q.rotated(now).wf(),
{
    let r = q.runnable;
    let t = rotate(r);
    if r.len() > 0 {
        assert forall|x: usize| t.contains(x) implies r.contains(x) by {
            let i = choose|i: int| 0 <= i < t.len() && t[i] == x;
            if i < r.len() - 1 {
                assert(r[i + 1] == x);
            } else {
                assert(r[0] == x);
            }
        }
    }
}

fn contains_slot(v: &Vec<usize>, slot: usize) -> (found: bool)
    ensures
        found == v@.contains(slot),
{
    let mut i: usize = 0;
    while i < v.len()
        invariant
            i <= v@.len(),
            forall|j: int| 0 <= j < i ==> v@[j] != slot,
        decreases v@.len() - i,
    {
        if v[i] == slot {
            return true;
        }
        i = i + 1;
    }
    false
}

impl SchedState {
    fn is_runnable(&self, slot: usize) -> (found: bool)
        ensures
            found == self@.runnable.contains(slot),
    {
        let mut i: usize = 0;
        while i < self.runnable.len()
            invariant
                i <= self.runnable@.len(),
                forall|j: int| 0 <= j < i ==> self.runnable@[j] != slot,
            decreases self.runnable@.len() - i,
        {
            if self.runnable[i] == slot {
                return true;
            }
            i = i + 1;
        }
        false
    }

    fn enqueue(&mut self, slot: usize)
        ensures
            final(self)@ == old(self)@.enqueued(slot),
            old(self)@.wf() ==> final(self)@.wf(),
    {
        proof {
            if self@.wf() {
                lemma_enqueued_wf(self@, slot);
            }
        }
        if !self.is_runnable(slot) && !contains_slot(&self.wait_blocked, slot) {
            self.runnable.push_back(slot);
        }
    }

    fn enqueue_all(&mut self, slots: &Vec<usize>)
        ensures
            final(self)@ == old(self)@.enqueued_all(slots@),
            old(self)@.wf() ==> final(self)@.wf(),
    {
        proof {
            if self@.wf() {
                lemma_enqueued_all_wf(self@, slots@);
            }
        }
        let mut i: usize = 0;
        assert(slots@.take(0) =~= Seq::empty());
        while i < slots.len()
            invariant
                i <= slots@.len(),
                self@ == old(self)@.enqueued_all(slots@.take(i as int)),
            decreases slots@.len() - i,
        {
            proof {
                assert(slots@.take(i + 1).drop_last() =~= slots@.take(i as int));
            }
            self.enqueue(slots[i]);
            i = i + 1;
        }
        assert(slots@.take(i as int) =~= slots@);
    }

    fn park(&mut self, slot: usize)
        ensures
            final(self)@ == old(self)@.parked(slot),
            old(self)@.wf() ==> final(self)@.wf(),
    {
        let mut kept: VecDeque<usize> = VecDeque::new();
        let mut i: usize = 0;
        proof {
            if self@.wf() {
                lemma_parked_wf(self@, slot);
            }
            reveal(Seq::filter);
            assert(without(self.runnable@.take(0), slot) =~= Seq::empty());
        }
        while i < self.runnable.len()
            invariant
                i <= self.runnable@.len(),
                *self == *old(self),
                kept@ == without(self.runnable@.take(i as int), slot),
            decreases self.runnable@.len() - i,
        {
            let x: usize = self.runnable[i];
            proof {
                reveal(Seq::filter);
                let t = self.runnable@.take(i + 1);
                assert(t.drop_last() =~= self.runnable@.take(i as int));
                assert(t.last() == x);
            }
            if x != slot {
                kept.push_back(x);
            }
            i = i + 1;
        }
        assert(self.runnable@.take(i as int) =~= self.runnable@);
        self.runnable = kept;
    }

    fn block(&mut self, slot: usize)
        ensures
            final(self)@ == old(self)@.blocked(slot),
            old(self)@.wf() ==> final(self)@.wf(),
    {
        proof {
            if self@.wf() {
                lemma_blocked_wf(self@, slot);
            }
        }
        self.park(slot);
        if !contains_slot(&self.wait_blocked, slot) {
            self.wait_blocked.push(slot);
        }
    }

    fn rotate(&mut self, now: u64)
        ensures
            final(self)@ == old(self)@.rotated(now),
            old(self)@.wf() ==> final(self)@.wf(),
    {
        proof {
            if self@.wf() {
                lemma_rotated_wf(self@, now);
            }
        }
        if let Some(front) = self.runnable.pop_front() {
            self.runnable.push_back(front);
        }
        self.last_started_tick = now;
    }

    fn unblock(&mut self)
        ensures
            final(self)@ == old(self)@.unblocked(),
            old(self)@.wf() ==> final(self)@.wf(),
    {
        proof {
            if self@.wf() {
                lemma_unblocked_wf(self@);
            }
        }
        let mut waiters: Vec<usize> = Vec::new();
        std::mem::swap(&mut waiters, &mut self.wait_blocked);
        self.enqueue_all(&waiters);
    }
}

impl Scheduler {
    /// Before boot.
    pub fn new() -> (s: Scheduler)
        ensures
            s@ == (SchedulerSpec { queues: None, need_resched: false, sleepers: Seq::empty() }),
            s@.wf(),
    {
        Scheduler { sched: None, need_resched: false, sleepers: Vec::new() }
    }
}

/// The queues at boot.
pub open spec fn queues_at_boot(now: u64) -> Queues {
    Queues {
        runnable: seq![0usize],
        wait_blocked: Seq::empty(),
        time_slice_ticks: SLICE,
        last_started_tick: now,
    }
}

/// Starts scheduling with slot 0 runnable.
pub fn init(s: &mut Scheduler, _pid: u64, now: u64)
    ensures
        final(s)@ == (SchedulerSpec {
            queues: Some(
                Queues {
                    runnable: seq![0usize],
                    wait_blocked: Seq::empty(),
                    time_slice_ticks: SLICE,
                    last_started_tick: now,
                },
            ),
            need_resched: false,
            sleepers: old(s)@.sleepers,
        }),
        old(s)@.wf() ==> final(s)@.wf(),
        final(s)@.queues == Some(queues_at_boot(now)),
{
    let mut runnable: VecDeque<usize> = VecDeque::new();
    runnable.push_back(0);
    assert(runnable@ =~= seq![0usize]);
    s.sched = Some(
        SchedState {
            runnable,
            wait_blocked: Vec::new(),
            time_slice_ticks: SLICE,
            last_started_tick: now,
        },
    );
    s.need_resched = false;
}

/// The time slice of the front slot is over at `now`.
pub open spec fn slice_is_over(q: Queues, now: u64) -> bool {
    now - q.last_started_tick >= q.time_slice_ticks || q.time_slice_ticks == 0
}

/// Splits the sleepers at a tick, keeping the order on both sides.
fn split_sleepers(sleepers: &Vec<Sleeper>, now: u64) -> (r: (Vec<Sleeper>, Vec<Sleeper>))
    ensures
        r.0@ == due(sleepers@, now),
        r.1@ == later(sleepers@, now),
{
    let mut awake: Vec<Sleeper> = Vec::new();
    let mut asleep: Vec<Sleeper> = Vec::new();
    let mut i: usize = 0;
    proof {
        reveal(Seq::filter);
        assert(due(sleepers@.take(0), now) =~= Seq::empty());
        assert(later(sleepers@.take(0), now) =~= Seq::empty());
    }
    while i < sleepers.len()
        invariant
            i <= sleepers@.len(),
            awake@ == due(sleepers@.take(i as int), now),
            asleep@ == later(sleepers@.take(i as int), now),
        decreases sleepers@.len() - i,
    {
        let x = sleepers[i];
        proof {
            reveal(Seq::filter);
            let t = sleepers@.take(i + 1);
            assert(t.drop_last() =~= sleepers@.take(i as int));
            assert(t.last() == x);
        }
        if x.until <= now {
            awake.push(x);
        } else {
            asleep.push(x);
        }
        i = i + 1;
    }
    assert(sleepers@.take(i as int) =~= sleepers@);
    (awake, asleep)
}

fn slots_of_sleepers(sleepers: &Vec<Sleeper>) -> (slots: Vec<usize>)
    ensures
        slots@ == slots_of(sleepers@),
{
    let mut slots: Vec<usize> = Vec::new();
    let mut i: usize = 0;
    while i < sleepers.len()
        invariant
            i <= sleepers@.len(),
            slots@.len() == i,
            forall|j: int| 0 <= j < i ==> slots@[j] == sleepers@[j].slot,
        decreases sleepers@.len() - i,
    {
        slots.push(sleepers[i].slot);
        i = i + 1;
    }
    assert(slots@ =~= slots_of(sleepers@));
    slots
}

/// What a timer tick does: a time slice that is over asks for a switch, and the sleepers whose time
/// has come join the queue in the order of their deadlines.
pub open spec fn after_tick(s: SchedulerSpec, now: u64) -> SchedulerSpec {
    SchedulerSpec {
        queues: match s.queues {
            Some(q) => Some(q.enqueued_all(slots_of(due(s.sleepers, now)))),
            None => None,
        },
        need_resched: s.need_resched || (s.queues matches Some(q) && slice_is_over(q, now)),
        sleepers: later(s.sleepers, now),
    }
}

/// Notes a timer tick.
pub fn on_timer_tick(s: &mut Scheduler, now: u64)
    ensures
        final(s)@ == after_tick(old(s)@, now),
        old(s)@.wf() ==> final(s)@.wf(),
        old(s)@.wf() ==> by_deadline(due(old(s)@.sleepers, now)),
{
    proof {
        if s@.wf() {
            law_sleepers_stay_in_order(s@, 0, now, now);
        }
    }
    let (awake, asleep) = split_sleepers(&s.sleepers, now);
    let wake = slots_of_sleepers(&awake);
    s.sleepers = asleep;
    match &mut s.sched {
        Some(q) => {
            if now.saturating_sub(q.last_started_tick) >= q.time_slice_ticks {
                s.need_resched = true;
            }
            q.enqueue_all(&wake);
        },
        None => {},
    }
}

/// Asks for a switch at the end of the system call.
pub fn note_yield(s: &mut Scheduler)
    ensures
        final(s)@ == (SchedulerSpec { need_resched: true, ..old(s)@ }),
        old(s)@.wf() ==> final(s)@.wf(),
{
    s.need_resched = true;
}

fn enqueue_slot(s: &mut Scheduler, slot: usize)
    ensures
        final(s)@ == on_queues(old(s)@, |q: Queues| q.enqueued(slot)),
        old(s)@.wf() ==> final(s)@.wf(),
{
    match &mut s.sched {
        Some(q) => {
            q.enqueue(slot);
        },
        None => {},
    }
}

/// A new task joins the queue and a switch is asked for.
pub fn enqueue_new_task(s: &mut Scheduler, slot: usize)
    ensures
        final(s)@ == (SchedulerSpec {
            need_resched: true,
            ..on_queues(old(s)@, |q: Queues| q.enqueued(slot))
        }),
        old(s)@.wf() ==> final(s)@.wf(),
{
    enqueue_slot(s, slot);
    s.need_resched = true;
}

/// Makes every slot that is blocked in `wait4` runnable. Wakeup is coarse: `wait_reap` filters.
pub fn try_unblock_waiting_parent(s: &mut Scheduler, _parent: u64)
    ensures
        final(s)@ == on_queues(old(s)@, |q: Queues| q.unblocked()),
        old(s)@.wf() ==> final(s)@.wf(),
{
    match &mut s.sched {
        Some(q) => {
            q.unblock();
        },
        None => {},
    }
}

fn rotate_runnable(s: &mut Scheduler, now: u64)
    ensures
        final(s)@ == on_queues(old(s)@, |q: Queues| q.rotated(now)),
        old(s)@.wf() ==> final(s)@.wf(),
{
    match &mut s.sched {
        Some(q) => {
            q.rotate(now);
        },
        None => {},
    }
}

/// What resumes the next task: `frame` goes to its kernel stack, `rsp` points at it, and `rax`
/// holds the result of its last system call.
pub struct Resume {
    pub slot: usize,
    pub rsp: u64,
    pub rax: u64,
    pub frame: KstackFrame,
}

/// How many slots at the front of the queue cannot run.
pub open spec fn stale(queue: Seq<usize>, ps: ProcessesSpec) -> nat
    decreases queue.len(),
{
    if queue.len() == 0 || ps.runnable(queue[0] as int) {
        0
    } else {
        1 + stale(queue.drop_first(), ps)
    }
}

/// The queue from the first slot on that can run.
pub open spec fn live(queue: Seq<usize>, ps: ProcessesSpec) -> Seq<usize> {
    queue.skip(stale(queue, ps) as int)
}

proof fn lemma_stale(queue: Seq<usize>, ps: ProcessesSpec)
    ensures
        stale(queue, ps) <= queue.len(),
        forall|i: int| 0 <= i < stale(queue, ps) ==> !ps.runnable(queue[i] as int),
        stale(queue, ps) < queue.len() ==> ps.runnable(queue[stale(queue, ps) as int] as int),
    decreases queue.len(),
{
    if queue.len() > 0 && !ps.runnable(queue[0] as int) {
        let rest = queue.drop_first();
        lemma_stale(rest, ps);
        assert forall|i: int| 0 <= i < stale(queue, ps) implies !ps.runnable(queue[i] as int) by {
            if i > 0 {
                assert(rest[i - 1] == queue[i]);
            }
        }
        if stale(rest, ps) < rest.len() {
            assert(rest[stale(rest, ps) as int] == queue[stale(queue, ps) as int]);
        }
    }
}

/// The front slot of the queue from the first runnable slot on, where there is one.
pub open spec fn next_slot_to_run(s: SchedulerSpec, ps: ProcessesSpec) -> Option<usize> {
    match s.queues {
        Some(q) => if live(q.runnable, ps).len() > 0 {
            Some(live(q.runnable, ps)[0])
        } else {
            None
        },
        None => None,
    }
}

/// Switching to the next task: slots that cannot run leave the queue; the first that can stays at
/// the front and becomes the current one, and its pending result is handed out.
pub open spec fn switches(
    s: SchedulerSpec,
    ps: ProcessesSpec,
    top: u64,
    ret_to: u64,
    s2: SchedulerSpec,
    ps2: ProcessesSpec,
    top2: u64,
    resume: Option<Resume>,
) -> bool {
    &&& s2 == on_queues(s, |q: Queues| Queues { runnable: live(q.runnable, ps), ..q })
    &&& match resume {
        Some(r) => {
            let p = ps.occupant(r.slot as int)->0;
            &&& next_slot_to_run(s, ps) == Some(r.slot)
            &&& ps.runnable(r.slot as int)
            &&& ps2 == (ProcessesSpec {
                current_slot: r.slot,
                ..ps.with_slot(r.slot as int, Some(ProcessSpec { pending_rax: 0, ..p }))
            })
            &&& top2 == p.kstack.top()
            &&& r.rax == p.pending_rax
            &&& r.rsp == p.kstack.top() - FRAME_BYTES
            &&& r.frame.base == r.rsp
            &&& r.frame.words@ == frame_for(p.save, ret_to)
        },
        None => {
            &&& next_slot_to_run(s, ps) is None
            &&& ps2 == ps
            &&& top2 == top
        },
    }
}

proof fn lemma_live_wf(q: Queues, ps: ProcessesSpec)
    requires
        q.wf(),
    ensures
        (Queues { runnable: live(q.runnable, ps), ..q }).wf(),
{
    lemma_stale(q.runnable, ps);
    let l = live(q.runnable, ps);
    let n = stale(q.runnable, ps) as int;
    assert forall|x: usize| l.contains(x) implies q.runnable.contains(x) by {
        let i = choose|i: int| 0 <= i < l.len() && l[i] == x;
        assert(q.runnable[n + i] == x);
    }
}

impl SchedState {
    /// Drops slots that cannot run from the front of the queue and tells the first that can.
    fn front_runnable(&mut self, ps: &Processes) -> (slot: Option<usize>)
        ensures
            final(self)@ == (Queues { runnable: live(old(self)@.runnable, ps@), ..old(self)@ }),
            old(self)@.wf() ==> final(self)@.wf(),
            match slot {
                Some(slot) => {
                    &&& final(self)@.runnable.len() > 0
                    &&& slot == final(self)@.runnable[0]
                    &&& ps@.runnable(slot as int)
                },
                None => final(self)@.runnable.len() == 0,
            },
    {
        let ghost all = self.runnable@;
        proof {
            lemma_stale(all, ps@);
            if self@.wf() {
                lemma_live_wf(self@, ps@);
            }
            assert(all.skip(0) =~= all);
        }
        let ghost mut n: int = 0;
        while self.runnable.len() > 0
            invariant
                0 <= n <= stale(all, ps@) <= all.len(),
                self.runnable@ == all.skip(n),
                self@ == (Queues { runnable: all.skip(n), ..old(self)@ }),
                forall|i: int| 0 <= i < stale(all, ps@) ==> !ps@.runnable(all[i] as int),
                stale(all, ps@) < all.len() ==> ps@.runnable(all[stale(all, ps@) as int] as int),
                old(self)@.runnable == all,
                old(self)@.wf() ==> (Queues { runnable: live(all, ps@), ..old(self)@ }).wf(),
            decreases self.runnable@.len(),
        {
            let cand: usize = self.runnable[0];
            assert(cand == all[n]);
            if slot_runnable(ps, cand) {
                assert(n == stale(all, ps@));
                return Some(cand);
            }
            let _ = self.runnable.pop_front();
            proof {
                n = n + 1;
                assert(self.runnable@ =~= all.skip(n));
            }
        }
        assert(n == stale(all, ps@));
        None
    }
}

/// Switches to the next task that can run. Without one nothing is switched, and the caller waits
/// for an interrupt and tries again. `ret_to` is where the return path of a system call starts.
pub fn pick_next_and_restore(
    s: &mut Scheduler,
    ps: &mut Processes,
    k: &mut CurrentKstack,
    ret_to: u64,
) -> (resume: Option<Resume>)
    requires
        old(ps)@.wf(),
    ensures
        final(ps)@.wf(),
        old(ps)@.slot_in_range() ==> final(ps)@.slot_in_range(),
        old(s)@.wf() ==> final(s)@.wf(),
        switches(old(s)@, old(ps)@, old(k).top, ret_to, final(s)@, final(ps)@, final(k).top, resume),
{
    let front: Option<usize> = match &mut s.sched {
        Some(q) => q.front_runnable(ps),
        None => None,
    };
    match front {
        None => None,
        Some(slot) => {
            let rax: u64 = take_pending_rax(ps, slot);
            set_current_slot(ps, k, slot);
            let top: u64 = kstack_top_for_slot(ps, k, slot);
            let saved = syscall_saved_for_slot(ps, slot);
            let frame = restore_to_kstack(top, &saved, ret_to);
            Some(Resume { slot, rsp: top - FRAME_BYTES, rax, frame })
        },
    }
}

/// Switches away from a task that cannot go on: its registers are noted, with a pending result of
/// 0, before the next task is picked.
fn pick_next_and_restore_from_idle(
    s: &mut Scheduler,
    ps: &mut Processes,
    k: &mut CurrentKstack,
    saved: SyscallSaved,
    ret_to: u64,
) -> (resume: Option<Resume>)
    requires
        old(ps)@.wf(),
    ensures
        final(ps)@.wf(),
        old(ps)@.slot_in_range() ==> final(ps)@.slot_in_range(),
        old(s)@.wf() ==> final(s)@.wf(),
        switches(
            old(s)@,
            old(ps)@.saved(old(ps)@.current_slot as int, saved, 0),
            old(k).top,
            ret_to,
            final(s)@,
            final(ps)@,
            final(k).top,
            resume,
        ),
{
    let slot: usize = current_slot(ps);
    set_syscall_saved(ps, slot, saved, 0);
    pick_next_and_restore(s, ps, k, ret_to)
}

/// The scheduler once the running slot sleeps until `target`.
pub open spec fn asleep_until(s: SchedulerSpec, slot: usize, target: u64) -> SchedulerSpec {
    SchedulerSpec {
        need_resched: true,
        sleepers: with_sleeper(s.sleepers, Sleeper { until: target, slot }),
        ..on_queues(s, |q: Queues| q.parked(slot))
    }
}

/// Going to sleep until `target`, as a whole: the caller's registers are noted, it sleeps, and the next
/// task runs.
pub open spec fn sleeps_until(
    s: SchedulerSpec,
    ps: ProcessesSpec,
    top: u64,
    saved: SyscallSaved,
    target: u64,
    ret_to: u64,
    s2: SchedulerSpec,
    ps2: ProcessesSpec,
    top2: u64,
    resume: Option<Resume>,
) -> bool {
    switches(
        asleep_until(s, ps.current_slot, target),
        ps.saved(ps.current_slot as int, saved, 0),
        top,
        ret_to,
        s2,
        ps2,
        top2,
        resume,
    )
}

/// Waiting for a child, as a whole: the caller's registers are noted, it blocks, and the next task runs.
pub open spec fn waits_blocked(
    s: SchedulerSpec,
    ps: ProcessesSpec,
    top: u64,
    saved: SyscallSaved,
    ret_to: u64,
    s2: SchedulerSpec,
    ps2: ProcessesSpec,
    top2: u64,
    resume: Option<Resume>,
) -> bool {
    switches(
        blocked_on_wait(s, ps.current_slot),
        ps.saved(ps.current_slot as int, saved, 0),
        top,
        ret_to,
        s2,
        ps2,
        top2,
        resume,
    )
}

/// The end of a system call, as a whole: the caller's registers and its result are noted, the queue
/// rotates if a switch was asked for, and the next task runs.
pub open spec fn call_ends(
    s: SchedulerSpec,
    ps: ProcessesSpec,
    top: u64,
    ret_val: u64,
    frame: Seq<u64>,
    now: u64,
    ret_to: u64,
    s2: SchedulerSpec,
    ps2: ProcessesSpec,
    top2: u64,
    resume: Option<Resume>,
) -> bool {
    switches(
        after_syscall(s, now),
        ps.saved(ps.current_slot as int, saved_in_frame(frame), ret_val),
        top,
        ret_to,
        s2,
        ps2,
        top2,
        resume,
    )
}

/// The exit of the running task, as a whole.
pub open spec fn task_exits(
    s: SchedulerSpec,
    ps: ProcessesSpec,
    top: u64,
    ret_to: u64,
    s2: SchedulerSpec,
    ps2: ProcessesSpec,
    top2: u64,
    resume: Option<Resume>,
) -> bool {
    switches(after_exit(s, ps.current_slot), ps, top, ret_to, s2, ps2, top2, resume)
}

/// Puts the running task to sleep until the tick `target` and switches to the next one.
pub fn sleep_until_ticks(
    s: &mut Scheduler,
    ps: &mut Processes,
    k: &mut CurrentKstack,
    saved: SyscallSaved,
    target: u64,
    ret_to: u64,
) -> (resume: Option<Resume>)
    requires
        old(ps)@.wf(),
    ensures
        final(ps)@.wf(),
        old(ps)@.slot_in_range() ==> final(ps)@.slot_in_range(),
        old(s)@.wf() ==> final(s)@.wf(),
        switches(
            asleep_until(old(s)@, old(ps)@.current_slot, target),
            old(ps)@.saved(old(ps)@.current_slot as int, saved, 0),
            old(k).top,
            ret_to,
            final(s)@,
            final(ps)@,
            final(k).top,
            resume,
        ),
        sleeps_until(
            old(s)@,
            old(ps)@,
            old(k).top,
            saved,
            target,
            ret_to,
            final(s)@,
            final(ps)@,
            final(k).top,
            resume,
        ),
{
    let slot: usize = current_slot(ps);
    proof {
        if s@.wf() {
            lemma_with_sleeper_by_deadline(s.sleepers@, Sleeper { until: target, slot });
        }
    }
    let (mut before, mut after) = split_sleepers(&s.sleepers, target);
    before.push(Sleeper { until: target, slot });
    before.append(&mut after);
    s.sleepers = before;
    match &mut s.sched {
        Some(q) => {
            q.park(slot);
        },
        None => {},
    }
    s.need_resched = true;
    pick_next_and_restore_from_idle(s, ps, k, saved, ret_to)
}

/// The scheduler once the running slot waits for a child.
pub open spec fn blocked_on_wait(s: SchedulerSpec, slot: usize) -> SchedulerSpec {
    SchedulerSpec { need_resched: true, ..on_queues(s, |q: Queues| q.blocked(slot)) }
}

/// Blocks the running task until a child exits and switches to the next one.
pub fn block_current_on_wait(
    s: &mut Scheduler,
    ps: &mut Processes,
    k: &mut CurrentKstack,
    saved: SyscallSaved,
    ret_to: u64,
) -> (resume: Option<Resume>)
    requires
        old(ps)@.wf(),
    ensures
        final(ps)@.wf(),
        old(ps)@.slot_in_range() ==> final(ps)@.slot_in_range(),
        old(s)@.wf() ==> final(s)@.wf(),
        switches(
            blocked_on_wait(old(s)@, old(ps)@.current_slot),
            old(ps)@.saved(old(ps)@.current_slot as int, saved, 0),
            old(k).top,
            ret_to,
            final(s)@,
            final(ps)@,
            final(k).top,
            resume,
        ),
        waits_blocked(
            old(s)@,
            old(ps)@,
            old(k).top,
            saved,
            ret_to,
            final(s)@,
            final(ps)@,
            final(k).top,
            resume,
        ),
{
    let slot: usize = current_slot(ps);
    match &mut s.sched {
        Some(q) => {
            q.block(slot);
        },
        None => {},
    }
    s.need_resched = true;
    pick_next_and_restore_from_idle(s, ps, k, saved, ret_to)
}

/// The scheduler at the end of a system call: a switch that was asked for rotates the queue.
pub open spec fn after_syscall(s: SchedulerSpec, now: u64) -> SchedulerSpec {
    if s.need_resched {
        on_queues(SchedulerSpec { need_resched: false, ..s }, |q: Queues| q.rotated(now))
    } else {
        s
    }
}

/// After syscall: save the frame, note `ret_val`, maybe rotate the queue, switch to the next task.
pub fn complete_syscall_and_schedule(
    s: &mut Scheduler,
    ps: &mut Processes,
    k: &mut CurrentKstack,
    ret_val: u64,
    frame: &[u64; FRAME_WORDS],
    now: u64,
    ret_to: u64,
) -> (resume: Option<Resume>)
    requires
        old(ps)@.wf(),
    ensures
        final(ps)@.wf(),
        old(ps)@.slot_in_range() ==> final(ps)@.slot_in_range(),
        old(s)@.wf() ==> final(s)@.wf(),
        switches(
            after_syscall(old(s)@, now),
            old(ps)@.saved(old(ps)@.current_slot as int, saved_in_frame(frame@), ret_val),
            old(k).top,
            ret_to,
            final(s)@,
            final(ps)@,
            final(k).top,
            resume,
        ),
        call_ends(
            old(s)@,
            old(ps)@,
            old(k).top,
            ret_val,
            frame@,
            now,
            ret_to,
            final(s)@,
            final(ps)@,
            final(k).top,
            resume,
        ),
{
    let slot: usize = current_slot(ps);
    let saved = save_from_dispatch_rsp(frame);
    set_syscall_saved(ps, slot, saved, ret_val);
    if s.need_resched {
        s.need_resched = false;
        rotate_runnable(s, now);
    }
    pick_next_and_restore(s, ps, k, ret_to)
}

/// After a call that gave the running task a new program: its registers have been noted already, so
/// no frame is saved over them. Maybe rotates the queue, then switches to the next task.
pub fn schedule_after_exec(
    s: &mut Scheduler,
    ps: &mut Processes,
    k: &mut CurrentKstack,
    now: u64,
    ret_to: u64,
) -> (resume: Option<Resume>)
    requires
        old(ps)@.wf(),
    ensures
        final(ps)@.wf(),
        old(ps)@.slot_in_range() ==> final(ps)@.slot_in_range(),
        old(s)@.wf() ==> final(s)@.wf(),
        switches(
            after_syscall(old(s)@, now),
            old(ps)@,
            old(k).top,
            ret_to,
            final(s)@,
            final(ps)@,
            final(k).top,
            resume,
        ),
{
    if s.need_resched {
        s.need_resched = false;
        rotate_runnable(s, now);
    }
    pick_next_and_restore(s, ps, k, ret_to)
}

/// The scheduler once the task in a slot has exited.
pub open spec fn after_exit(s: SchedulerSpec, slot: usize) -> SchedulerSpec {
    SchedulerSpec { need_resched: true, ..on_queues(s, |q: Queues| q.parked(slot).unblocked()) }
}

/// Child exited: unblock parents that might be waiting and switch to the next task.
pub fn schedule_after_exit(
    s: &mut Scheduler,
    ps: &mut Processes,
    k: &mut CurrentKstack,
    ret_to: u64,
) -> (resume: Option<Resume>)
    requires
        old(ps)@.wf(),
        old(ps)@.slot_in_range(),
    ensures
        final(ps)@.wf(),
        old(ps)@.slot_in_range() ==> final(ps)@.slot_in_range(),
        old(s)@.wf() ==> final(s)@.wf(),
        switches(
            after_exit(old(s)@, old(ps)@.current_slot),
            old(ps)@,
            old(k).top,
            ret_to,
            final(s)@,
            final(ps)@,
            final(k).top,
            resume,
        ),
        task_exits(
            old(s)@,
            old(ps)@,
            old(k).top,
            ret_to,
            final(s)@,
            final(ps)@,
            final(k).top,
            resume,
        ),
{
    let parent: u64 = match current_ppid(ps) {
        Some(pid) => pid,
        None => 0,
    };
    mark_zombie_current(ps);
    let my_slot: usize = current_slot(ps);
    match &mut s.sched {
        Some(q) => {
            q.park(my_slot);
        },
        None => {},
    }
    try_unblock_waiting_parent(s, parent);
    s.need_resched = true;
    pick_next_and_restore(s, ps, k, ret_to)
}

/// The queue after a number of rotations.
pub open spec fn rotate_times(queue: Seq<usize>, n: nat) -> Seq<usize>
    decreases n,
{
    if n == 0 {
        queue
    } else {
        rotate(rotate_times(queue, (n - 1) as nat))
    }
}

/// Rotation is round-robin: every slot of the queue comes to the front in turn, and after a full
/// round the queue is as it was.
pub proof fn law_rotation_is_round_robin(queue: Seq<usize>)
    ensures
        forall|i: int| 0 <= i < queue.len() ==> rotate_times(queue, i as nat)[0] == #[trigger] queue[i],
        rotate_times(queue, queue.len()) == queue,
{
    assert forall|i: int| 0 <= i < queue.len() implies rotate_times(queue, i as nat)[0]
        == #[trigger] queue[i] by {
        lemma_rotate_times(queue, i as nat);
    }
    lemma_rotate_times(queue, queue.len());
    assert(rotate_times(queue, queue.len()) =~= queue);
}

proof fn lemma_rotate_times(queue: Seq<usize>, n: nat)
    requires
        n <= queue.len(),
    ensures
        rotate_times(queue, n) == queue.skip(n as int) + queue.take(n as int),
    decreases n,
{
    if n > 0 {
        lemma_rotate_times(queue, (n - 1) as nat);
    }
    assert(rotate_times(queue, n) =~= queue.skip(n as int) + queue.take(n as int));
}

/// The slot is queued or blocked.
pub open spec fn known(q: Queues, slot: usize) -> bool {
    q.runnable.contains(slot) || q.wait_blocked.contains(slot)
}

proof fn lemma_enqueued_all_known(q: Queues, slots: Seq<usize>, slot: usize)
    requires
        slots.contains(slot) || known(q, slot),
    ensures
        known(q.enqueued_all(slots), slot),
    decreases slots.len(),
{
    if slots.len() > 0 {
        let front = slots.drop_last();
        let mid = q.enqueued_all(front);
        if slot != slots.last() {
            if slots.contains(slot) {
                let i = choose|i: int| 0 <= i < slots.len() && slots[i] == slot;
                assert(front[i] == slot);
            }
            lemma_enqueued_all_known(q, front, slot);
            if mid.runnable.contains(slot) {
                let i = choose|i: int| 0 <= i < mid.runnable.len() && mid.runnable[i] == slot;
                assert(mid.enqueued(slots.last()).runnable[i] == slot);
            }
        } else if !known(mid, slot) {
            assert(mid.runnable.push(slot)[mid.runnable.len() as int] == slot);
        }
    }
}

proof fn lemma_filter_keeps(sleepers: Seq<Sleeper>, pred: spec_fn(Sleeper) -> bool, i: int)
    requires
        0 <= i < sleepers.len(),
        pred(sleepers[i]),
    ensures
        sleepers.filter(pred).contains(sleepers[i]),
    decreases sleepers.len(),
{
    reveal(Seq::filter);
    let front = sleepers.drop_last();
    let f = sleepers.filter(pred);
    if i < front.len() {
        lemma_filter_keeps(front, pred, i);
        let j = choose|j: int| 0 <= j < front.filter(pred).len() && front.filter(pred)[j] == front[i];
        assert(f[j] == sleepers[i]);
    } else {
        assert(f[f.len() - 1] == sleepers[i]);
    }
}

/// No sleeper is lost: at a tick each one either joins the queue, because its time has come, or
/// goes on sleeping with the same deadline.
pub proof fn law_tick_wakes_exactly_the_due(s: SchedulerSpec, now: u64, i: int)
    requires
        s.queues is Some,
        0 <= i < s.sleepers.len(),
    ensures
        s.sleepers[i].until <= now ==> known(after_tick(s, now).queues->0, s.sleepers[i].slot),
        s.sleepers[i].until > now ==> after_tick(s, now).sleepers.contains(s.sleepers[i]),
{
    let x = s.sleepers[i];
    if x.until <= now {
        lemma_filter_keeps(s.sleepers, |s: Sleeper| s.until <= now, i);
        let d = due(s.sleepers, now);
        let j = choose|j: int| 0 <= j < d.len() && d[j] == x;
        assert(slots_of(d)[j] == x.slot);
        lemma_enqueued_all_known(s.queues->0, slots_of(d), x.slot);
    } else {
        lemma_filter_keeps(s.sleepers, |s: Sleeper| s.until > now, i);
    }
}

/// The sleepers stay in the order in which they wake, through new sleepers and through ticks. A tick
/// wakes them earliest deadline first, and all that sleep on after it have their deadline ahead.
pub proof fn law_sleepers_stay_in_order(s: SchedulerSpec, slot: usize, target: u64, now: u64)
    requires
        s.wf(),
    ensures
        by_deadline(asleep_until(s, slot, target).sleepers),
        by_deadline(after_tick(s, now).sleepers),
        by_deadline(due(s.sleepers, now)),
        forall|i: int|
            0 <= i < after_tick(s, now).sleepers.len() ==> now < (#[trigger] after_tick(
                s,
                now,
            ).sleepers[i]).until,
{
    lemma_with_sleeper_by_deadline(s.sleepers, Sleeper { until: target, slot });
    lemma_filter_by_deadline(s.sleepers, |x: Sleeper| x.until > now);
    lemma_filter_by_deadline(s.sleepers, |x: Sleeper| x.until <= now);
}

/// A task that went to sleep is on the list of sleepers and off the queue.
pub proof fn law_sleeper_leaves_the_queue(s: SchedulerSpec, slot: usize, target: u64)
    requires
        s.queues is Some,
    ensures
        !asleep_until(s, slot, target).queues->0.runnable.contains(slot),
        asleep_until(s, slot, target).sleepers.contains(Sleeper { until: target, slot }),
{
    lemma_without(s.queues->0.runnable, slot);
    let d = due(s.sleepers, target);
    assert(asleep_until(s, slot, target).sleepers[d.len() as int] == Sleeper {
        until: target,
        slot,
    });
}

/// When a task exits, every task that was blocked in a wait is queued again.
pub proof fn law_exit_wakes_waiters(s: SchedulerSpec, slot: usize, waiter: usize)
    requires
        s.queues is Some,
        s.queues->0.wait_blocked.contains(waiter),
    ensures
        after_exit(s, slot).queues->0.runnable.contains(waiter),
        after_exit(s, slot).queues->0.wait_blocked.len() == 0,
{
    let q = s.queues->0.parked(slot);
    let q0 = Queues { wait_blocked: Seq::empty(), ..q };
    lemma_enqueued_all_known(q0, q.wait_blocked, waiter);
    lemma_enqueued_all_blocked(q0, q.wait_blocked);
}

proof fn lemma_enqueued_all_blocked(q: Queues, slots: Seq<usize>)
    ensures
        q.enqueued_all(slots).wait_blocked == q.wait_blocked,
    decreases slots.len(),
{
    if slots.len() > 0 {
        lemma_enqueued_all_blocked(q, slots.drop_last());
    }
}

/// A task that is resumed finds the registers that were noted for it, and the result that waited.
pub proof fn law_resume_restores_task(
    s: SchedulerSpec,
    ps: ProcessesSpec,
    top: u64,
    ret_to: u64,
    s2: SchedulerSpec,
    ps2: ProcessesSpec,
    top2: u64,
    r: Resume,
)
    requires
        switches(s, ps, top, ret_to, s2, ps2, top2, Some(r)),
    ensures
        saved_in_frame(r.frame.words@) == ps.occupant(r.slot as int)->0.save,
        r.rax == ps.occupant(r.slot as int)->0.pending_rax,
        r.frame.words@[0] == ret_to,
        r.rsp + FRAME_BYTES == top2,
{
}

/// A system call of a task that goes on running returns to it: with its own registers and with the
/// result of the call.
pub proof fn law_syscall_returns_to_caller(
    s: SchedulerSpec,
    ps: ProcessesSpec,
    top: u64,
    frame: Seq<u64>,
    ret_val: u64,
    ret_to: u64,
    s2: SchedulerSpec,
    ps2: ProcessesSpec,
    top2: u64,
    r: Resume,
)
    requires
        ps.current() is Some,
        switches(
            s,
            ps.saved(ps.current_slot as int, saved_in_frame(frame), ret_val),
            top,
            ret_to,
            s2,
            ps2,
            top2,
            Some(r),
        ),
        r.slot == ps.current_slot,
    ensures
        r.rax == ret_val,
        saved_in_frame(r.frame.words@) == saved_in_frame(frame),
{
}

/// While the switch that a time slice asks for has not happened, the running task stays at the
/// front; once it happens the task goes to the end of the queue.
pub proof fn law_slice_end_rotates(s: SchedulerSpec, now: u64)
    requires
        s.queues matches Some(q) && q.runnable.len() > 0,
    ensures
        !s.need_resched ==> after_syscall(s, now) == s,
        s.need_resched ==> after_syscall(s, now).queues->0.runnable.last() == s.queues->0.runnable[0],
        s.need_resched ==> !after_syscall(s, now).need_resched,
        s.need_resched ==> after_syscall(s, now).queues->0.last_started_tick == now,
{
}

/// A tick at which the running task has used up its slice asks for a switch, whoever sleeps and
/// whatever is queued; a tick inside the slice, or before there are queues, leaves the wish to switch
/// as it was.
pub proof fn law_slice_end_asks_for_switch(s: SchedulerSpec, now: u64)
    ensures
        s.queues matches Some(q) ==> now - q.last_started_tick >= q.time_slice_ticks ==> after_tick(
            s,
            now,
        ).need_resched,
        s.queues matches Some(q) ==> now - q.last_started_tick < q.time_slice_ticks && 0
            < q.time_slice_ticks ==> after_tick(s, now).need_resched == s.need_resched,
        s.queues is None ==> after_tick(s, now).need_resched == s.need_resched,
        s.need_resched ==> after_tick(s, now).need_resched,
{
}

/// From one switch on, a task that is not interrupted by anything else is switched away from at the
/// first system call after 15 ticks, and at no call before, unless it yields.
pub proof fn law_slice_lasts_fifteen_ticks(s: SchedulerSpec, start: u64, now: u64)
    requires
        s.need_resched,
        s.queues matches Some(q) && q.time_slice_ticks == 15 && q.runnable.len() > 0,
        start <= now,
    ensures
        ({
            let running = after_syscall(s, start);
            let later = after_syscall(after_tick(running, now), now);
            let queue = running.queues->0.runnable;
            &&& now - start >= 15 ==> later.queues->0.last_started_tick == now
                && !later.need_resched
            &&& now - start < 15 && due(s.sleepers, now).len() == 0 ==> later.queues->0.runnable
                == queue && later.queues->0.last_started_tick == start
        }),
{
    let running = after_syscall(s, start);
    assert(slots_of(due(running.sleepers, now)).len() == due(running.sleepers, now).len());
}

/// Slots that join a queue stand behind those that are there, which keep their places; the blocked
/// slots and the slice stay as they are.
proof fn lemma_enqueued_all_appends(q: Queues, slots: Seq<usize>)
    ensures
        ({
            let r = q.enqueued_all(slots);
            &&& r.runnable.len() >= q.runnable.len()
            &&& forall|i: int| 0 <= i < q.runnable.len() ==> r.runnable[i] == q.runnable[i]
            &&& forall|i: int|
                q.runnable.len() <= i < r.runnable.len() ==> slots.contains(#[trigger] r.runnable[i])
            &&& r.wait_blocked == q.wait_blocked
            &&& r.time_slice_ticks == q.time_slice_ticks
            &&& r.last_started_tick == q.last_started_tick
        }),
    decreases slots.len(),
{
    if slots.len() > 0 {
        let front = slots.drop_last();
        lemma_enqueued_all_appends(q, front);
        let r = q.enqueued_all(slots);
        assert forall|i: int| q.runnable.len() <= i < r.runnable.len() implies slots.contains(
            #[trigger] r.runnable[i],
        ) by {
            let mid = q.enqueued_all(front);
            if i < mid.runnable.len() {
                assert(front.contains(mid.runnable[i]));
                let k = choose|k: int| 0 <= k < front.len() && front[k] == mid.runnable[i];
                assert(slots[k] == mid.runnable[i]);
            } else {
                assert(slots[slots.len() - 1] == r.runnable[i]);
            }
        }
    }
}

/// Everything that a filter leaves was there before and passes.
proof fn lemma_filter_from(sleepers: Seq<Sleeper>, pred: spec_fn(Sleeper) -> bool, k: int)
    requires
        0 <= k < sleepers.filter(pred).len(),
    ensures
        sleepers.contains(sleepers.filter(pred)[k]),
        pred(sleepers.filter(pred)[k]),
    decreases sleepers.len(),
{
    reveal(Seq::filter);
    if sleepers.len() > 0 {
        let front = sleepers.drop_last();
        let f = sleepers.filter(pred);
        if k < front.filter(pred).len() {
            lemma_filter_from(front, pred, k);
            let i = choose|i: int| 0 <= i < front.len() && front[i] == f[k];
            assert(sleepers[i] == f[k]);
        } else {
            assert(sleepers[sleepers.len() - 1] == f[k]);
        }
    }
}

/// A tick wakes nobody early and disturbs nobody: what was queued stays where it was, whatever joins
/// behind it is a sleeper whose deadline has come, and whoever sleeps on was asleep before.
pub proof fn law_tick_wakes_nobody_early(s: SchedulerSpec, now: u64, i: int)
    requires
        s.queues is Some,
    ensures
        ({
            let q = s.queues->0;
            let a = after_tick(s, now);
            let r = a.queues->0.runnable;
            &&& a.queues is Some
            &&& q.runnable.len() <= r.len()
            &&& 0 <= i < q.runnable.len() ==> r[i] == q.runnable[i]
            &&& q.runnable.len() <= i < r.len() ==> exists|k: int|
                0 <= k < s.sleepers.len() && (#[trigger] s.sleepers[k]).slot == r[i]
                    && s.sleepers[k].until <= now
            &&& 0 <= i < a.sleepers.len() ==> s.sleepers.contains(a.sleepers[i])
                && a.sleepers[i].until > now
            &&& a.queues->0.wait_blocked == q.wait_blocked
            &&& a.queues->0.last_started_tick == q.last_started_tick
            &&& a.queues->0.time_slice_ticks == q.time_slice_ticks
        }),
{
    let q = s.queues->0;
    let d = due(s.sleepers, now);
    let r = after_tick(s, now).queues->0.runnable;
    lemma_enqueued_all_appends(q, slots_of(d));
    if q.runnable.len() <= i < r.len() {
        assert(slots_of(d).contains(r[i]));
        let k = choose|k: int| 0 <= k < slots_of(d).len() && slots_of(d)[k] == r[i];
        lemma_filter_from(s.sleepers, |x: Sleeper| x.until <= now, k);
        let m = choose|m: int| 0 <= m < s.sleepers.len() && s.sleepers[m] == d[k];
        assert(s.sleepers[m].slot == r[i]);
    }
    if 0 <= i < after_tick(s, now).sleepers.len() {
        lemma_filter_from(s.sleepers, |x: Sleeper| x.until > now, i);
    }
}

/// A task that goes to sleep joins the sleepers and leaves the queue, where the others keep their
/// order; it loses its turn, and nobody else is woken, blocked or forgotten.
pub proof fn law_going_to_sleep(s: SchedulerSpec, slot: usize, target: u64, x: usize, i: int, j: int)
    requires
        s.wf(),
        s.queues is Some,
    ensures
        ({
            let a = asleep_until(s, slot, target);
            &&& a.need_resched
            &&& a.sleepers.len() == s.sleepers.len() + 1
            &&& a.sleepers.contains(Sleeper { until: target, slot })
            &&& 0 <= i < s.sleepers.len() ==> a.sleepers.contains(s.sleepers[i])
            &&& 0 <= i <= j < a.sleepers.len() ==> a.sleepers[i].until <= a.sleepers[j].until
            &&& a.queues->0.runnable.contains(x) <==> s.queues->0.runnable.contains(x) && x != slot
            &&& a.queues->0.wait_blocked == s.queues->0.wait_blocked
            &&& a.queues->0.last_started_tick == s.queues->0.last_started_tick
            &&& a.queues->0.time_slice_ticks == s.queues->0.time_slice_ticks
        }),
{
    law_sleepers_stay_in_order(s, slot, target, target);
    law_sleeper_leaves_the_queue(s, slot, target);
    lemma_without(s.queues->0.runnable, slot);
    lemma_filter_splits(s.sleepers, target);
    let d = due(s.sleepers, target);
    let l = later(s.sleepers, target);
    let a = asleep_until(s, slot, target);
    if 0 <= i < s.sleepers.len() {
        let x = s.sleepers[i];
        if x.until <= target {
            lemma_filter_keeps(s.sleepers, |s: Sleeper| s.until <= target, i);
            let k = choose|k: int| 0 <= k < d.len() && d[k] == x;
            assert(a.sleepers[k] == x);
        } else {
            lemma_filter_keeps(s.sleepers, |s: Sleeper| s.until > target, i);
            let k = choose|k: int| 0 <= k < l.len() && l[k] == x;
            assert(a.sleepers[d.len() + 1 + k] == x);
        }
    }
}

proof fn lemma_filter_splits(sleepers: Seq<Sleeper>, now: u64)
    ensures
        due(sleepers, now).len() + later(sleepers, now).len() == sleepers.len(),
    decreases sleepers.len(),
{
    reveal(Seq::filter);
    if sleepers.len() > 0 {
        lemma_filter_splits(sleepers.drop_last(), now);
    }
}

/// A switch at the end of a system call moves the caller from the front of the queue to its end and
/// everybody else one place up; without a wish to switch nothing moves.
pub proof fn law_switch_moves_queue_up(s: SchedulerSpec, now: u64, i: int)
    requires
        s.queues matches Some(q) && q.runnable.len() > 0,
    ensures
        ({
            let q = s.queues->0;
            let a = after_syscall(s, now);
            let r = a.queues->0.runnable;
            &&& !s.need_resched ==> a == s
            &&& s.need_resched ==> {
                &&& r.len() == q.runnable.len()
                &&& r[r.len() - 1] == q.runnable[0]
                &&& 0 < i < r.len() ==> r[i - 1] == q.runnable[i]
                &&& !a.need_resched
                &&& a.queues->0.last_started_tick == now
                &&& a.queues->0.wait_blocked == q.wait_blocked
                &&& a.queues->0.time_slice_ticks == q.time_slice_ticks
                &&& a.sleepers == s.sleepers
            }
        }),
{
}

/// The next task is the first in the queue whose process lives and has not exited: those before it
/// leave the queue, it stays at the front, and those behind it keep their places. It finds its own
/// registers and its pending result, which is used up; no other process changes. Only where no
/// queued process can run does nothing happen.
pub proof fn law_next_task_is_first_that_can_run(
    s: SchedulerSpec,
    ps: ProcessesSpec,
    top: u64,
    ret_to: u64,
    s2: SchedulerSpec,
    ps2: ProcessesSpec,
    top2: u64,
    resume: Option<Resume>,
    i: int,
)
    requires
        switches(s, ps, top, ret_to, s2, ps2, top2, resume),
        s.queues is Some,
    ensures
        ({
            let old = s.queues->0.runnable;
            let new = s2.queues->0.runnable;
            let n = old.len() - new.len();
            &&& s2.queues is Some
            &&& 0 <= n
            &&& 0 <= i < n ==> !(ps.occupant(old[i] as int) matches Some(p) && p.exit_code is None)
            &&& n <= i < old.len() ==> new[i - n] == old[i]
            &&& s2.sleepers == s.sleepers && s2.need_resched == s.need_resched
            &&& s2.queues->0.wait_blocked == s.queues->0.wait_blocked
            &&& match resume {
                Some(r) => {
                    &&& new.len() > 0 && new[0] == r.slot
                    &&& ps.occupant(r.slot as int) matches Some(p) && p.exit_code is None && r.rax
                        == p.pending_rax && r.frame.words@[9] == p.save.user_rip
                        && r.frame.words@[10] == p.save.user_rsp
                    &&& ps2.current_slot == r.slot
                    &&& ps2.slots is Some && ps2.slots->0.len() == ps.slots->0.len()
                    &&& i != r.slot ==> ps2.occupant(i) == ps.occupant(i)
                    &&& ps2.occupant(r.slot as int) matches Some(p2) && p2.pending_rax == 0
                        && p2.exit_code is None && p2.pid == ps.occupant(r.slot as int)->0.pid
                },
                None => new.len() == 0 && ps2 == ps && top2 == top,
            }
        }),
{
    lemma_stale(s.queues->0.runnable, ps);
}

/// A task that waits for a child leaves the queue and blocks; the others stay as they are.
pub proof fn law_waiting_blocks_only_the_waiter(s: SchedulerSpec, slot: usize, x: usize)
    requires
        s.queues is Some,
    ensures
        ({
            let q = s.queues->0;
            let b = blocked_on_wait(s, slot).queues->0;
            &&& b.runnable.contains(x) <==> q.runnable.contains(x) && x != slot
            &&& b.wait_blocked.contains(x) <==> q.wait_blocked.contains(x) || x == slot
            &&& blocked_on_wait(s, slot).need_resched
            &&& blocked_on_wait(s, slot).sleepers == s.sleepers
        }),
{
    let q = s.queues->0;
    lemma_without(q.runnable, slot);
    if !q.wait_blocked.contains(slot) {
        let w = q.wait_blocked.push(slot);
        assert(w[w.len() - 1] == slot);
        if q.wait_blocked.contains(x) {
            let i = choose|i: int| 0 <= i < q.wait_blocked.len() && q.wait_blocked[i] == x;
            assert(w[i] == x);
        }
        if w.contains(x) {
            let i = choose|i: int| 0 <= i < w.len() && w[i] == x;
            if i < q.wait_blocked.len() {
                assert(q.wait_blocked[i] == x);
            }
        }
    }
}

/// When a task exits, it leaves the queue, the tasks that waited join it, and every other queued task
/// stays queued; nobody stays blocked and no sleeper wakes.
pub proof fn law_exit_leaves_others_queued(s: SchedulerSpec, slot: usize, x: usize)
    requires
        s.queues is Some,
    ensures
        ({
            let q = s.queues->0;
            let a = after_exit(s, slot);
            let r = a.queues->0.runnable;
            &&& r.contains(x) <==> (q.runnable.contains(x) && x != slot) || q.wait_blocked.contains(x)
            &&& a.queues->0.wait_blocked.len() == 0
            &&& a.need_resched
            &&& a.sleepers == s.sleepers
        }),
{
    let q = s.queues->0;
    let p = q.parked(slot);
    let q0 = Queues { wait_blocked: Seq::empty(), ..p };
    let r = after_exit(s, slot).queues->0.runnable;
    lemma_without(q.runnable, slot);
    lemma_enqueued_all_appends(q0, p.wait_blocked);
    lemma_enqueued_all_blocked(q0, p.wait_blocked);
    if q0.runnable.contains(x) || p.wait_blocked.contains(x) {
        lemma_enqueued_all_known(q0, p.wait_blocked, x);
    }
    if r.contains(x) {
        let i = choose|i: int| 0 <= i < r.len() && r[i] == x;
        if i < q0.runnable.len() {
            assert(q0.runnable[i] == x);
        } else {
            assert(p.wait_blocked.contains(r[i]));
        }
    }
}

/// A task that is enqueued stands at the end of the queue, once; one that is queued or blocked
/// already stays where it is.
pub proof fn law_enqueued_task_stands_last(q: Queues, slot: usize)
    ensures
        !q.runnable.contains(slot) && !q.wait_blocked.contains(slot) ==> q.enqueued(slot) == (Queues {
            runnable: q.runnable + seq![slot],
            ..q
        }),
        q.runnable.contains(slot) || q.wait_blocked.contains(slot) ==> q.enqueued(slot) == q,
{
    assert(q.runnable + seq![slot] =~= q.runnable.push(slot));
}

/// Sleepers that wake at the same tick are queued in the order in which they slept, earliest deadline
/// first: where the due slots are distinct and none is queued or blocked, each sleeper stands before
/// every one behind it in the list.
pub proof fn law_wake_order(s: SchedulerSpec, now: u64, i: int, j: int)
    requires
        s.queues is Some,
        0 <= i < j < s.sleepers.len(),
        s.sleepers[i].until <= now,
        s.sleepers[j].until <= now,
        forall|a: int, b: int|
            0 <= a < b < s.sleepers.len() ==> (#[trigger] s.sleepers[a]).slot != (
            #[trigger] s.sleepers[b]).slot,
        forall|a: int|
            0 <= a < s.sleepers.len() ==> !known(s.queues->0, (#[trigger] s.sleepers[a]).slot),
    ensures
        ({
            let r = after_tick(s, now).queues->0.runnable;
            exists|a: int, b: int|
                s.queues->0.runnable.len() <= a < b < r.len() && #[trigger] r[a] == s.sleepers[i].slot
                    && #[trigger] r[b] == s.sleepers[j].slot
        }),
{
    let q = s.queues->0;
    let d = due(s.sleepers, now);
    let n = q.runnable.len() as int;
    let (a, b) = lemma_filter_order(s.sleepers, |x: Sleeper| x.until <= now, i, j);
    assert forall|x: int, y: int| 0 <= x < y < d.len() implies slots_of(d)[x] != slots_of(d)[y] by {
        lemma_filter_positions(s.sleepers, |x: Sleeper| x.until <= now, x, y);
    }
    assert forall|x: int| 0 <= x < d.len() implies !known(q, #[trigger] slots_of(d)[x]) by {
        lemma_filter_from(s.sleepers, |x: Sleeper| x.until <= now, x);
    }
    lemma_enqueued_all_fresh(q, slots_of(d));
    let r = after_tick(s, now).queues->0.runnable;
    assert(r[n + a] == slots_of(d)[a]);
    assert(r[n + b] == slots_of(d)[b]);
}

proof fn lemma_enqueued_all_fresh(q: Queues, slots: Seq<usize>)
    requires
        forall|x: int, y: int| 0 <= x < y < slots.len() ==> slots[x] != slots[y],
        forall|x: int| 0 <= x < slots.len() ==> !known(q, #[trigger] slots[x]),
    ensures
        q.enqueued_all(slots).runnable == q.runnable + slots,
        q.enqueued_all(slots).wait_blocked == q.wait_blocked,
    decreases slots.len(),
{
    if slots.len() == 0 {
        assert(q.runnable + slots =~= q.runnable);
    } else {
        let front = slots.drop_last();
        let last = slots.last();
        lemma_enqueued_all_fresh(q, front);
        let mid = q.enqueued_all(front);
        assert(!known(q, slots[slots.len() - 1]));
        assert(!mid.runnable.contains(last)) by {
            if mid.runnable.contains(last) {
                let i = choose|i: int| 0 <= i < mid.runnable.len() && mid.runnable[i] == last;
                if i < q.runnable.len() {
                    assert(q.runnable[i] == last);
                } else {
                    assert(slots[i - q.runnable.len()] == last);
                }
            }
        }
        assert(mid.runnable.push(last) =~= q.runnable + slots);
    }
}

/// Two entries that pass a filter keep their order.
proof fn lemma_filter_order(sleepers: Seq<Sleeper>, pred: spec_fn(Sleeper) -> bool, i: int, j: int) -> (r:
    (int, int))
    requires
        0 <= i < j < sleepers.len(),
        pred(sleepers[i]),
        pred(sleepers[j]),
    ensures
        0 <= r.0 < r.1 < sleepers.filter(pred).len(),
        sleepers.filter(pred)[r.0] == sleepers[i],
        sleepers.filter(pred)[r.1] == sleepers[j],
    decreases sleepers.len(),
{
    reveal(Seq::filter);
    let front = sleepers.drop_last();
    let f = sleepers.filter(pred);
    if j < front.len() {
        lemma_filter_order(front, pred, i, j)
    } else {
        lemma_filter_keeps(front, pred, i);
        let a = choose|a: int| 0 <= a < front.filter(pred).len() && front.filter(pred)[a] == front[i];
        assert(f[a] == sleepers[i]);
        (a, f.len() - 1)
    }
}

/// Two entries of a filtered list stand at two places of the list, in the same order.
proof fn lemma_filter_positions(
    sleepers: Seq<Sleeper>,
    pred: spec_fn(Sleeper) -> bool,
    x: int,
    y: int,
) -> (r: (int, int))
    requires
        0 <= x < y < sleepers.filter(pred).len(),
    ensures
        0 <= r.0 < r.1 < sleepers.len(),
        sleepers[r.0] == sleepers.filter(pred)[x],
        sleepers[r.1] == sleepers.filter(pred)[y],
    decreases sleepers.len(),
{
    reveal(Seq::filter);
    let front = sleepers.drop_last();
    let f = sleepers.filter(pred);
    if y < front.filter(pred).len() {
        lemma_filter_positions(front, pred, x, y)
    } else {
        lemma_filter_from(front, pred, x);
        let a = choose|a: int| 0 <= a < front.len() && front[a] == front.filter(pred)[x];
        assert(sleepers[a] == f[x]);
        (a, sleepers.len() - 1)
    }
}

/// Scheduling starts with the first task alone, at the start of a slice of 15 ticks.
pub proof fn law_first_task_runs_alone(now: u64)
    ensures
        queues_at_boot(now).runnable == seq![0usize],
        queues_at_boot(now).wait_blocked.len() == 0,
        queues_at_boot(now).last_started_tick == now,
        queues_at_boot(now).time_slice_ticks == 15,
{
}

/// A task that goes to sleep is woken with the registers of its call and 0 as the result; it sleeps until
/// its deadline, is not what runs next, and nobody else's registers change.
pub proof fn law_sleeper_keeps_its_place(
    s: SchedulerSpec,
    ps: ProcessesSpec,
    top: u64,
    saved: SyscallSaved,
    target: u64,
    ret_to: u64,
    s2: SchedulerSpec,
    ps2: ProcessesSpec,
    top2: u64,
    resume: Option<Resume>,
    i: int,
)
    requires
        s.wf(),
        s.queues is Some,
        ps.current() is Some,
        sleeps_until(s, ps, top, saved, target, ret_to, s2, ps2, top2, resume),
    ensures
        ps2.occupant(ps.current_slot as int) matches Some(p) && p.save == saved && p.pending_rax == 0
            && p.pid == ps.current()->0.pid,
        s2.sleepers.contains(Sleeper { until: target, slot: ps.current_slot }),
        resume matches Some(r) ==> r.slot != ps.current_slot,
        i != ps.current_slot && ps.occupant(i) is Some ==> ps2.occupant(i) is Some && ps2.occupant(
            i,
        )->0.save == ps.occupant(i)->0.save,
{
    let slot = ps.current_slot;
    let a = asleep_until(s, slot, target);
    law_going_to_sleep(s, slot, target, slot, 0, 0);
    law_next_task_is_first_that_can_run(
        a,
        ps.saved(slot as int, saved, 0),
        top,
        ret_to,
        s2,
        ps2,
        top2,
        resume,
        0,
    );
    if let Some(r) = resume {
        let q = a.queues->0.runnable;
        lemma_stale(q, ps.saved(slot as int, saved, 0));
        let n = stale(q, ps.saved(slot as int, saved, 0)) as int;
        assert(q[n] == r.slot);
        assert(q.contains(r.slot));
    }
}

/// A task that waits for a child blocks with the registers of its call noted, and is not what runs next.
pub proof fn law_waiter_keeps_its_place(
    s: SchedulerSpec,
    ps: ProcessesSpec,
    top: u64,
    saved: SyscallSaved,
    ret_to: u64,
    s2: SchedulerSpec,
    ps2: ProcessesSpec,
    top2: u64,
    resume: Option<Resume>,
)
    requires
        s.queues is Some,
        ps.current() is Some,
        waits_blocked(s, ps, top, saved, ret_to, s2, ps2, top2, resume),
    ensures
        ps2.occupant(ps.current_slot as int) matches Some(p) && p.save == saved && p.pending_rax == 0,
        s2.queues->0.wait_blocked.contains(ps.current_slot),
        s2.need_resched,
        resume matches Some(r) ==> r.slot != ps.current_slot,
{
    let slot = ps.current_slot;
    let b = blocked_on_wait(s, slot);
    law_waiting_blocks_only_the_waiter(s, slot, slot);
    if let Some(r) = resume {
        let q = b.queues->0.runnable;
        lemma_stale(q, ps.saved(slot as int, saved, 0));
        let n = stale(q, ps.saved(slot as int, saved, 0)) as int;
        assert(q[n] == r.slot);
        assert(q.contains(r.slot));
    }
}

/// A system call ends for its caller with its own registers and the call's result, whenever it runs
/// again. Without a wish to switch it is the caller that goes on, if it stands at the front of the queue;
/// with one it is the next in the queue, if that can run.
pub proof fn law_call_ends_for_caller(
    s: SchedulerSpec,
    ps: ProcessesSpec,
    top: u64,
    ret_val: u64,
    frame: Seq<u64>,
    now: u64,
    ret_to: u64,
    s2: SchedulerSpec,
    ps2: ProcessesSpec,
    top2: u64,
    resume: Option<Resume>,
)
    requires
        s.queues matches Some(q) && q.runnable.len() > 0 && q.runnable[0] == ps.current_slot,
        frame.len() == 11,
        ps.runnable(ps.current_slot as int),
        call_ends(s, ps, top, ret_val, frame, now, ret_to, s2, ps2, top2, resume),
    ensures
        ({
            let slot = ps.current_slot;
            let old = s.queues->0.runnable;
            &&& resume is Some
            &&& !s.need_resched ==> {
                &&& resume->0.slot == slot
                &&& resume->0.rax == ret_val
                &&& resume->0.frame.words@[9] == frame[9]
                &&& resume->0.frame.words@[10] == frame[10]
                &&& s2.queues->0.runnable == old
            }
            &&& s.need_resched && old.len() > 1 && ps.runnable(old[1] as int) && old[1] != slot ==> {
                &&& resume->0.slot == old[1]
                &&& ps2.occupant(slot as int) matches Some(p) && p.pending_rax == ret_val
                    && p.save.user_rip == frame[9] && p.save.user_rsp == frame[10]
                &&& s2.queues->0.runnable.last() == slot
                &&& s2.queues->0.last_started_tick == now
                &&& !s2.need_resched
            }
        }),
{
    let slot = ps.current_slot;
    let noted = ps.saved(slot as int, saved_in_frame(frame), ret_val);
    let a = after_syscall(s, now);
    let q = a.queues->0.runnable;
    let old = s.queues->0.runnable;
    lemma_stale(q, noted);
    assert(noted.runnable(slot as int));
    if !s.need_resched {
        assert(stale(q, noted) == 0);
        assert(live(q, noted) =~= q);
    } else {
        let n = stale(q, noted) as int;
        assert(q[q.len() - 1] == slot);
        assert(n < q.len());
        if old.len() > 1 && ps.runnable(old[1] as int) && old[1] != slot {
            assert(q[0] == old[1]);
            assert(n == 0);
            assert(live(q, noted) =~= q);
        }
    }
}

/// A task that exits is not what runs next, and is queued no more; whoever waited can run.
pub proof fn law_exiting_task_leaves(
    s: SchedulerSpec,
    ps: ProcessesSpec,
    top: u64,
    ret_to: u64,
    s2: SchedulerSpec,
    ps2: ProcessesSpec,
    top2: u64,
    resume: Option<Resume>,
)
    requires
        s.wf(),
        s.queues matches Some(q) && !q.wait_blocked.contains(ps.current_slot),
        task_exits(s, ps, top, ret_to, s2, ps2, top2, resume),
    ensures
        resume matches Some(r) ==> r.slot != ps.current_slot,
        !s2.queues->0.runnable.contains(ps.current_slot),
        s2.queues->0.wait_blocked.len() == 0,
        s2.need_resched,
{
    let slot = ps.current_slot;
    let a = after_exit(s, slot);
    let q = a.queues->0.runnable;
    law_exit_leaves_others_queued(s, slot, slot);
    lemma_stale(q, ps);
    let n = stale(q, ps) as int;
    assert forall|i: int| 0 <= i < live(q, ps).len() implies live(q, ps)[i] != slot by {
        assert(q[n + i] == live(q, ps)[i]);
        assert(q.contains(q[n + i]));
    }
}

proof fn lemma_without_absent(queue: Seq<usize>, slot: usize)
    requires
        !queue.contains(slot),
    ensures
        without(queue, slot) == queue,
    decreases queue.len(),
{
    reveal(Seq::filter);
    if queue.len() > 0 {
        let front = queue.drop_last();
        assert(queue[queue.len() - 1] != slot);
        assert forall|i: int| 0 <= i < front.len() implies front[i] != slot by {
            assert(queue[i] != slot);
        }
        lemma_without_absent(front, slot);
        assert(without(queue, slot) =~= without(front, slot).push(queue.last()));
        assert(queue =~= front.push(queue.last()));
    }
}

proof fn lemma_without_one(front: Seq<usize>, slot: usize, back: Seq<usize>)
    requires
        !front.contains(slot),
        !back.contains(slot),
    ensures
        without(front.push(slot) + back, slot) == front + back,
    decreases back.len(),
{
    reveal(Seq::filter);
    let queue = front.push(slot) + back;
    if back.len() == 0 {
        lemma_without_absent(front, slot);
        assert(queue.drop_last() =~= front);
        assert(queue.last() == slot);
        assert(front + back =~= front);
    } else {
        let b = back.drop_last();
        assert(back[back.len() - 1] != slot);
        assert forall|i: int| 0 <= i < b.len() implies b[i] != slot by {
            assert(back[i] != slot);
        }
        lemma_without_one(front, slot, b);
        assert(queue.drop_last() =~= front.push(slot) + b);
        assert(queue.last() == back.last());
        assert((front + b).push(back.last()) =~= front + back);
    }
}

proof fn lemma_filter_all(sleepers: Seq<Sleeper>, pred: spec_fn(Sleeper) -> bool)
    requires
        forall|i: int| 0 <= i < sleepers.len() ==> pred(#[trigger] sleepers[i]),
    ensures
        sleepers.filter(pred) == sleepers,
    decreases sleepers.len(),
{
    reveal(Seq::filter);
    if sleepers.len() > 0 {
        lemma_filter_all(sleepers.drop_last(), pred);
        assert(sleepers.drop_last().push(sleepers.last()) =~= sleepers);
    }
}

proof fn lemma_filter_none(sleepers: Seq<Sleeper>, pred: spec_fn(Sleeper) -> bool)
    requires
        forall|i: int| 0 <= i < sleepers.len() ==> !pred(#[trigger] sleepers[i]),
    ensures
        sleepers.filter(pred) == Seq::<Sleeper>::empty(),
    decreases sleepers.len(),
{
    reveal(Seq::filter);
    if sleepers.len() > 0 {
        lemma_filter_none(sleepers.drop_last(), pred);
    }
}

/// A task that goes to sleep, waits or exits leaves its place in the queue, and the others close up in the
/// order in which they stood; the waiters that an exit wakes come behind them, first come first.
pub proof fn law_others_close_up(
    s: SchedulerSpec,
    front: Seq<usize>,
    slot: usize,
    back: Seq<usize>,
    target: u64,
)
    requires
        s.wf(),
        s.queues matches Some(q) && q.runnable == front.push(slot) + back,
    ensures
        asleep_until(s, slot, target).queues->0.runnable == front + back,
        blocked_on_wait(s, slot).queues->0.runnable == front + back,
        blocked_on_wait(s, slot).queues->0.wait_blocked == s.queues->0.wait_blocked.push(slot),
        after_exit(s, slot).queues->0.runnable == front + back + s.queues->0.wait_blocked,
{
    let q = s.queues->0;
    let r = q.runnable;
    assert(r[front.len() as int] == slot);
    assert forall|i: int| 0 <= i < front.len() implies front[i] != slot by {
        assert(r[i] == front[i]);
    }
    assert forall|i: int| 0 <= i < back.len() implies back[i] != slot by {
        assert(r[front.len() + 1 + i] == back[i]);
    }
    lemma_without_one(front, slot, back);
    assert(r.contains(slot));
    let parked = Queues { wait_blocked: Seq::empty(), ..q.parked(slot) };
    lemma_without(r, slot);
    assert forall|k: int| 0 <= k < q.wait_blocked.len() implies !known(
        parked,
        #[trigger] q.wait_blocked[k],
    ) by {
        assert(q.wait_blocked.contains(q.wait_blocked[k]));
    }
    lemma_enqueued_all_fresh(parked, q.wait_blocked);
}

/// A new sleeper comes behind all that wake before it or with it, and before all that wake later. A tick
/// lets those go whose time has come, and keeps the others as they were.
pub proof fn law_sleepers_keep_their_order(
    s: SchedulerSpec,
    front: Seq<Sleeper>,
    back: Seq<Sleeper>,
    slot: usize,
    at: u64,
)
    requires
        s.sleepers == front + back,
        forall|i: int| 0 <= i < front.len() ==> (#[trigger] front[i]).until <= at,
        forall|i: int| 0 <= i < back.len() ==> (#[trigger] back[i]).until > at,
    ensures
        asleep_until(s, slot, at).sleepers == front.push(Sleeper { until: at, slot }) + back,
        after_tick(s, at).sleepers == back,
{
    let soon = |x: Sleeper| x.until <= at;
    let late = |x: Sleeper| x.until > at;
    Seq::filter_distributes_over_add(front, back, soon);
    Seq::filter_distributes_over_add(front, back, late);
    lemma_filter_all(front, soon);
    lemma_filter_none(back, soon);
    lemma_filter_none(front, late);
    lemma_filter_all(back, late);
    assert(due(s.sleepers, at) =~= front);
    assert(later(s.sleepers, at) =~= back);
}

/// Waiting and exiting leave the running slice's start and length alone; without queues none are made,
/// but the wish to switch is noted all the same.
pub proof fn law_slice_is_kept(s: SchedulerSpec, slot: usize, now: u64)
    ensures
        s.queues matches Some(q) ==> blocked_on_wait(s, slot).queues->0.last_started_tick
            == q.last_started_tick && blocked_on_wait(s, slot).queues->0.time_slice_ticks
            == q.time_slice_ticks,
        s.queues matches Some(q) ==> after_exit(s, slot).queues->0.last_started_tick
            == q.last_started_tick && after_exit(s, slot).queues->0.time_slice_ticks
            == q.time_slice_ticks,
        s.queues is None ==> {
            &&& blocked_on_wait(s, slot) == (SchedulerSpec { need_resched: true, ..s })
            &&& after_exit(s, slot) == (SchedulerSpec { need_resched: true, ..s })
            &&& after_syscall(s, now) == (SchedulerSpec { need_resched: false, ..s })
            &&& after_tick(s, now).queues is None
            &&& asleep_until(s, slot, now).queues is None && asleep_until(s, slot, now).need_resched
        },
        s.queues matches Some(q) && q.runnable.len() == 0 ==> after_syscall(s, now).queues->0.runnable.len()
            == 0 && !after_syscall(s, now).need_resched,
{
    if let Some(q) = s.queues {
        let parked = Queues { wait_blocked: Seq::empty(), ..q.parked(slot) };
        lemma_enqueued_all_appends(parked, q.wait_blocked);
    }
}

} // verus!
