//! The memory of a process: **brk**, **mmap** and **munmap**.
//!
//! A call that edits the page tables comes in two halves: the first checks the arguments and hands
//! out a page job, the second is told how the job went and settles the process table.

use vstd::prelude::*;

use crate::errno::{EINVAL, ENOMEM};
use crate::memory::PAGE_SIZE;
use crate::paging::{
    page_containing, page_of, page_steps, pages_between, MapJob, PageFlags, PageRange, UnmapJob,
};
use crate::process::{
    Process, ProcessSpec, Processes, ProcessesSpec, VmArea, USER_BRK_BASE, USER_BRK_LIMIT,
    USER_MMAP_BASE, USER_MMAP_LIMIT,
};
use crate::task::{CHILD_STACK_LO, USER_STACK_CHILD_TOP};
use crate::user::{USER_STACK_LO, USER_STACK_TOP, USER_TEXT_BASE};

verus! {

pub const PROT_READ: u64 = 1;

pub const PROT_WRITE: u64 = 2;

pub const PROT_EXEC: u64 = 4;

/// `[addr, end)` lies in the heap of the process.
pub open spec fn heap_covers(p: ProcessSpec, addr: u64, end: u64) -> bool {
    USER_BRK_BASE <= addr && end <= p.brk_end && end <= USER_BRK_LIMIT
}

/// Returns true if `[addr, end)` lies in the heap of the running process.
pub fn covers_brk_heap(ps: &Processes, addr: u64, end: u64) -> (ok: bool)
    requires
        ps@.slot_in_range(),
    ensures
        ok <==> (ps@.current() matches Some(p) && USER_BRK_BASE <= addr && end <= p.brk_end && end
            <= USER_BRK_LIMIT),
        ok <==> (ps@.current() matches Some(p) && heap_covers(p, addr, end)),
{
    match ps.occupant(ps.current_slot) {
        Some(p) => addr >= USER_BRK_BASE && end <= p.brk_end && end <= USER_BRK_LIMIT,
        None => false,
    }
}

/// Some region covers `[addr, end)`; with `write`, one that can be written.
pub open spec fn area_covers(areas: Seq<VmArea>, addr: u64, end: u64, write: bool) -> bool {
    exists|i: int|
        0 <= i < areas.len() && (#[trigger] areas[i]).covers(addr, end) && (write
            ==> areas[i].writable)
}

fn covers_mmap(ps: &Processes, addr: u64, end: u64, write: bool) -> (ok: bool)
    requires
        ps@.wf(),
        ps@.slot_in_range(),
    ensures
        ok <==> (ps@.current() matches Some(p) && area_covers(p.vm_areas, addr, end, write)),
{
    match ps.occupant(ps.current_slot) {
        None => false,
        Some(p) => {
            let mut i: usize = 0;
            while i < p.vm_areas.len()
                invariant
                    i <= p.vm_areas@.len(),
                    ps@.current() == Some(p@),
                    p@.wf(),
                    forall|j: int|
                        0 <= j < i ==> !((#[trigger] p.vm_areas@[j]).covers(addr, end) && (write
                            ==> p.vm_areas@[j].writable)),
                decreases p.vm_areas@.len() - i,
            {
                let a = p.vm_areas[i];
                assert(p@.vm_areas[i as int].wf());
                if (!write || a.writable) && addr >= a.virt_start && end <= a.end_addr() {
                    assert(p@.vm_areas[i as int].covers(addr, end));
                    return true;
                }
                i = i + 1;
            }
            false
        },
    }
}

/// Returns true if one mapped region of the running process covers `[addr, end)`.
pub fn covers_mmap_read(ps: &Processes, addr: u64, end: u64) -> (ok: bool)
    requires
        ps@.wf(),
        ps@.slot_in_range(),
    ensures
        ok <==> (ps@.current() matches Some(p) && area_covers(p.vm_areas, addr, end, false)),
{
    covers_mmap(ps, addr, end, false)
}

/// Returns true if one writable mapped region of the running process covers `[addr, end)`.
pub fn covers_mmap_write(ps: &Processes, addr: u64, end: u64) -> (ok: bool)
    requires
        ps@.wf(),
        ps@.slot_in_range(),
    ensures
        ok <==> (ps@.current() matches Some(p) && area_covers(p.vm_areas, addr, end, true)),
{
    covers_mmap(ps, addr, end, true)
}

/// Flags of heap, stack and other data pages of a process.
pub open spec fn data_flags() -> PageFlags {
    PageFlags { present: true, writable: true, user_accessible: true, no_execute: true }
}

pub(crate) fn user_data_flags() -> (f: PageFlags)
    ensures
        f == data_flags(),
{
    PageFlags { present: true, writable: true, user_accessible: true, no_execute: true }
}

/// How a change of the heap end goes on.
pub enum BrkStep {
    /// Nothing is to be mapped: the result of the call.
    Done(u64),
    Grow { map: MapJob, new_end: u64 },
    Shrink { unmap: UnmapJob, new_end: u64 },
}

/// The least multiple of `a` that is not below `x`.
fn align_up(x: u64, a: u64) -> (r: u64)
    requires
        a > 0,
        x + a - 1 <= u64::MAX,
    ensures
        r % a == 0,
        x <= r < x + a,
{
    let y: u64 = x + (a - 1);
    proof {
        vstd::arithmetic::div_mod::lemma_fundamental_div_mod(y as int, a as int);
        vstd::arithmetic::div_mod::lemma_mod_multiples_basic(y as int / a as int, a as int);
        vstd::arithmetic::mul::lemma_mul_is_commutative(y as int / a as int, a as int);
    }
    y - y % a
}

/// The first page start that is not below `x`.
pub open spec fn page_up(x: int) -> int {
    (x + PAGE_SIZE - 1) / PAGE_SIZE as int * PAGE_SIZE
}

/// The job that gives back the pages between two heap ends. The page that the new end lies in
/// stays.
fn map_brk_shrink(new_end: u64, old_end: u64) -> (job: UnmapJob)
    requires
        new_end <= USER_BRK_LIMIT,
        old_end <= USER_BRK_LIMIT,
    ensures
        job.wf(),
        job.checks_mapped(),
        job.todo() == page_steps(page_up(new_end as int) as u64, old_end),
{
    let first: u64 = align_up(new_end, PAGE_SIZE);
    assert(first == page_up(new_end as int));
    UnmapJob::new(first, old_end, true)
}

/// The job that maps the pages between two heap ends.
fn map_brk_grow(old_end: u64, new_end: u64, flags: PageFlags) -> (job: MapJob)
    requires
        old_end < new_end <= USER_BRK_LIMIT,
    ensures
        job.wf(),
        job.todo() == pages_between(page_of(old_end), page_of((new_end - 1) as u64)),
        job.page_flags() == flags,
        job.skips_mapped(),
        !job.zeroes(),
{
    let first: u64 = page_containing(old_end);
    let last: u64 = page_containing(new_end - 1);
    MapJob::new(PageRange::new(first, last), flags, true, false)
}

/// What a change of the heap end to `addr` returns at once, if no page is to be mapped or unmapped.
pub open spec fn brk_answer(p: Option<ProcessSpec>, addr: u64) -> Option<u64> {
    match p {
        None => Some(ENOMEM),
        Some(p) => if addr == 0 {
            Some(p.brk_end)
        } else if addr < USER_BRK_BASE || addr > USER_BRK_LIMIT {
            Some(ENOMEM)
        } else if addr == p.brk_end {
            Some(addr)
        } else {
            None
        },
    }
}

/// How a change of the heap end to `addr` goes on.
pub open spec fn brk_decides(ps: ProcessesSpec, addr: u64, step: BrkStep) -> bool {
    let old_end = ps.current()->0.brk_end;
    match step {
        BrkStep::Done(v) => brk_answer(ps.current(), addr) == Some(v),
        BrkStep::Grow { map, new_end } => {
            &&& brk_answer(ps.current(), addr) is None
            &&& old_end < addr
            &&& new_end == addr
            &&& map.wf()
            &&& map.todo() == pages_between(page_of(old_end), page_of((addr - 1) as u64))
            &&& map.page_flags() == data_flags()
            &&& map.skips_mapped()
            &&& !map.zeroes()
        },
        BrkStep::Shrink { unmap, new_end } => {
            &&& brk_answer(ps.current(), addr) is None
            &&& addr < old_end
            &&& new_end == addr
            &&& unmap.wf()
            &&& unmap.checks_mapped()
            &&& unmap.todo() == page_steps(page_up(addr as int) as u64, old_end)
        },
    }
}

/// Sets the heap end of the running process, or tells it for `addr == 0`. Ends outside the heap
/// window are refused with `-ENOMEM`.
pub fn sys_brk(ps: &Processes, addr: u64) -> (step: BrkStep)
    requires
        ps@.wf(),
        ps@.slot_in_range(),
    ensures
        brk_decides(ps@, addr, step),
{
    match ps.occupant(ps.current_slot) {
        None => BrkStep::Done(ENOMEM),
        Some(p) => {
            if addr == 0 {
                return BrkStep::Done(p.brk_end);
            }
            if addr < USER_BRK_BASE || addr > USER_BRK_LIMIT {
                return BrkStep::Done(ENOMEM);
            }
            let old_end: u64 = p.brk_end;
            if addr < old_end {
                return BrkStep::Shrink { unmap: map_brk_shrink(addr, old_end), new_end: addr };
            }
            if addr == old_end {
                return BrkStep::Done(addr);
            }
            BrkStep::Grow { map: map_brk_grow(old_end, addr, user_data_flags()), new_end: addr }
        },
    }
}

/// What settling a change of the heap end does, and its result.
pub open spec fn brk_settles(
    ps: ProcessesSpec,
    new_end: u64,
    done: bool,
    ps2: ProcessesSpec,
    ret: u64,
) -> bool {
    if done {
        &&& ret == new_end
        &&& ps2 == ps.with_slot(
            ps.current_slot as int,
            Some(ProcessSpec { brk_end: new_end, ..ps.current()->0 }),
        )
    } else {
        ret == ENOMEM && ps2 == ps
    }
}

/// Settles a change of the heap end. With `done` the new end holds; otherwise the old one stays and
/// the call returns `-ENOMEM`.
pub fn finish_brk(ps: &mut Processes, new_end: u64, done: bool) -> (ret: u64)
    requires
        old(ps)@.wf(),
        old(ps)@.current() is Some,
        USER_BRK_BASE <= new_end <= USER_BRK_LIMIT,
    ensures
        final(ps)@.wf(),
        final(ps)@ == (if done {
            old(ps)@.with_slot(
                old(ps)@.current_slot as int,
                Some(ProcessSpec { brk_end: new_end, ..old(ps)@.current()->0 }),
            )
        } else {
            old(ps)@
        }),
        ret == (if done {
            new_end
        } else {
            ENOMEM
        }),
        region_step(old(ps)@, RegionEvent::Other, final(ps)@),
        brk_settles(old(ps)@, new_end, done, final(ps)@, ret),
{
    if !done {
        return ENOMEM;
    }
    let i: usize = ps.current_slot;
    match ps.occupant_mut(i) {
        Some(p) => {
            p.brk_end = new_end;
        },
        None => {},
    }
    new_end
}

/// Asking for the heap end tells the last one that was set.
pub proof fn law_brk_tells_last_end(p: ProcessSpec, new_end: u64)
    requires
        USER_BRK_BASE <= new_end <= USER_BRK_LIMIT,
    ensures
        brk_answer(Some(ProcessSpec { brk_end: new_end, ..p }), 0) == Some(new_end),
        brk_answer(Some(ProcessSpec { brk_end: new_end, ..p }), new_end) == Some(new_end),
{
}

/// Shrinking the heap back gives up exactly the pages that growing it took: all that were mapped,
/// less the first where the old end lay inside it.
pub proof fn law_brk_shrink_undoes_growth(old_end: u64, new_end: u64)
    requires
        USER_BRK_BASE <= old_end < new_end <= USER_BRK_LIMIT,
    ensures
        ({
            let grown = pages_between(page_of(old_end), page_of((new_end - 1) as u64));
            page_steps(page_up(old_end as int) as u64, new_end) == (if old_end % PAGE_SIZE == 0 {
                grown
            } else {
                grown.drop_first()
            })
        }),
{
    let grown = pages_between(page_of(old_end), page_of((new_end - 1) as u64));
    let freed = page_steps(page_up(old_end as int) as u64, new_end);
    if old_end % PAGE_SIZE == 0 {
        assert(freed =~= grown);
    } else {
        assert(freed =~= grown.drop_first());
    }
}

/// A region that is being mapped.
#[derive(Clone, Copy, Debug, PartialEq, Eq, Structural)]
pub struct NewArea {
    pub virt_start: u64,
    pub pages: usize,
    pub writable: bool,
    pub executable: bool,
}

impl NewArea {
    /// The region once it has its number.
    pub open spec fn numbered(self, id: u64) -> VmArea {
        VmArea {
            id,
            virt_start: self.virt_start,
            pages: self.pages,
            writable: self.writable,
            executable: self.executable,
        }
    }
}

/// How a request for a region goes on.
pub enum MmapStep {
    /// The request is refused with this value.
    Done(u64),
    Place { job: MapJob, area: NewArea },
}

/// Pages that `len` bytes need.
pub open spec fn pages_for(len: u64) -> int {
    (len + PAGE_SIZE - 1) / PAGE_SIZE as int
}

/// The refusal that a request for a region meets, if any.
pub open spec fn mmap_refusal(next_mmap: u64, addr: u64, len: u64) -> Option<u64> {
    if len == 0 || len > USER_MMAP_LIMIT - USER_MMAP_BASE {
        Some(EINVAL)
    } else if addr == 0 {
        if next_mmap + pages_for(len) * PAGE_SIZE > USER_MMAP_LIMIT {
            Some(ENOMEM)
        } else {
            None
        }
    } else if addr % PAGE_SIZE != 0 || addr < USER_MMAP_BASE || addr + len > USER_MMAP_LIMIT {
        Some(EINVAL)
    } else {
        None
    }
}

/// Where the next region without a wished address goes after a request. A request without an
/// address uses up its room even where that room lies past the limit.
pub open spec fn next_mmap_after(next_mmap: u64, addr: u64, len: u64) -> u64 {
    if addr == 0 && 0 < len <= USER_MMAP_LIMIT - USER_MMAP_BASE {
        let end = next_mmap + pages_for(len) * PAGE_SIZE;
        if end > u64::MAX {
            (end - 0x1_0000_0000_0000_0000) as u64
        } else {
            end as u64
        }
    } else {
        next_mmap
    }
}

/// The region that a granted request asks for.
pub open spec fn mmap_area(next_mmap: u64, addr: u64, len: u64, prot: u64) -> NewArea {
    NewArea {
        virt_start: if addr == 0 {
            next_mmap
        } else {
            addr
        },
        pages: pages_for(len) as usize,
        writable: prot & PROT_WRITE != 0,
        executable: prot & PROT_EXEC != 0,
    }
}

/// Page flags for a protection.
pub open spec fn mmap_flags(prot: u64) -> PageFlags {
    PageFlags {
        present: true,
        writable: prot & PROT_WRITE != 0,
        user_accessible: true,
        no_execute: prot & PROT_EXEC == 0,
    }
}

/// The job that gives `page_count` pages from `start` on a frame each.
fn map_user_anon_pages(start: u64, page_count: usize, flags: PageFlags) -> (job: MapJob)
    requires
        start % PAGE_SIZE == 0,
        0 < page_count,
        start + page_count * PAGE_SIZE <= USER_MMAP_LIMIT,
    ensures
        job.wf(),
        job.todo() == page_steps(start, (start + page_count * PAGE_SIZE) as u64),
        job.page_flags() == flags,
        !job.skips_mapped(),
        !job.zeroes(),
{
    assert(page_count * PAGE_SIZE <= USER_MMAP_LIMIT);
    let last: u64 = start + (page_count as u64 - 1) * PAGE_SIZE;
    let job = MapJob::new(
        PageRange::new(page_containing(start), page_containing(last)),
        flags,
        false,
        false,
    );
    assert(job.todo() =~= page_steps(start, (start + page_count * PAGE_SIZE) as u64));
    job
}

/// How a request for a region goes on.
pub open spec fn mmap_decides(
    next_mmap: u64,
    addr: u64,
    len: u64,
    prot: u64,
    step: MmapStep,
) -> bool {
    match step {
        MmapStep::Done(v) => mmap_refusal(next_mmap, addr, len) == Some(v),
        MmapStep::Place { job, area } => {
            &&& mmap_refusal(next_mmap, addr, len) is None
            &&& area == mmap_area(next_mmap, addr, len, prot)
            &&& area.numbered(0).wf()
            &&& job.wf()
            &&& job.todo() == page_steps(area.virt_start, area.numbered(0).end() as u64)
            &&& job.page_flags() == mmap_flags(prot)
            &&& !job.skips_mapped()
            &&& !job.zeroes()
        },
    }
}

/// Asks for a region of fresh pages, at `addr` or, for `addr == 0`, at the next place.
pub fn sys_mmap(ps: &mut Processes, addr: u64, len: u64, prot: u64, _flags: u64) -> (step: MmapStep)
    requires
        old(ps)@.wf(),
    ensures
        final(ps)@.wf(),
        final(ps)@ == (ProcessesSpec {
            next_mmap: next_mmap_after(old(ps)@.next_mmap, addr, len),
            ..old(ps)@
        }),
        region_step(old(ps)@, RegionEvent::Ask { addr, len }, final(ps)@),
        mmap_decides(old(ps)@.next_mmap, addr, len, prot, step),
{
    if len == 0 || len > USER_MMAP_LIMIT - USER_MMAP_BASE {
        return MmapStep::Done(EINVAL);
    }
    let n_pages: u64 = (len + (PAGE_SIZE - 1)) / PAGE_SIZE;
    let writable = prot & PROT_WRITE != 0;
    let executable = prot & PROT_EXEC != 0;
    let flags = PageFlags {
        present: true,
        writable,
        user_accessible: true,
        no_execute: !executable,
    };
    let start: u64;
    if addr == 0 {
        let base: u64 = ps.next_mmap;
        ps.next_mmap = base.wrapping_add(n_pages * PAGE_SIZE);
        if base.saturating_add(n_pages * PAGE_SIZE) > USER_MMAP_LIMIT {
            return MmapStep::Done(ENOMEM);
        }
        start = base;
    } else {
        if addr % PAGE_SIZE != 0 {
            return MmapStep::Done(EINVAL);
        }
        if addr < USER_MMAP_BASE || addr.saturating_add(len) > USER_MMAP_LIMIT {
            return MmapStep::Done(EINVAL);
        }
        start = addr;
    }
    let area = NewArea { virt_start: start, pages: n_pages as usize, writable, executable };
    MmapStep::Place { job: map_user_anon_pages(start, n_pages as usize, flags), area }
}

impl ProcessesSpec {
    /// The running process owns one more region, which has the next number.
    pub open spec fn owning(self, area: NewArea) -> ProcessesSpec {
        let id = self.vm_area_next_id;
        let counted = ProcessesSpec {
            vm_area_next_id: if id == u64::MAX {
                0
            } else {
                (id + 1) as u64
            },
            ..self
        };
        match self.current() {
            Some(p) => counted.with_slot(
                self.current_slot as int,
                Some(ProcessSpec { vm_areas: p.vm_areas.push(area.numbered(id)), ..p }),
            ),
            None => counted,
        }
    }
}

/// What happens to the regions of the processes.
pub enum RegionEvent {
    /// A region is asked for; the request is granted or refused.
    Ask { addr: u64, len: u64 },
    /// A region that was granted is in place, and the running process owns it.
    Own { area: NewArea },
    /// Anything else.
    Other,
}

/// How an event changes the place and the number that the next region gets: asking moves the place,
/// owning uses up the number, and nothing else touches either.
pub open spec fn region_step(ps: ProcessesSpec, event: RegionEvent, ps2: ProcessesSpec) -> bool {
    match event {
        RegionEvent::Ask { addr, len } => ps2 == (ProcessesSpec {
            next_mmap: next_mmap_after(ps.next_mmap, addr, len),
            ..ps
        }),
        RegionEvent::Own { area } => ps2 == ps.owning(area),
        RegionEvent::Other => {
            &&& ps2.next_mmap == ps.next_mmap
            &&& ps2.vm_area_next_id == ps.vm_area_next_id
        },
    }
}

/// What settling a request for a region does, and its result.
pub open spec fn mmap_settles(
    ps: ProcessesSpec,
    area: NewArea,
    placed: bool,
    ps2: ProcessesSpec,
    ret: u64,
) -> bool {
    if placed {
        ret == area.virt_start && ps2 == ps.owning(area)
    } else {
        ret == ENOMEM && ps2 == ps
    }
}

/// Settles a request for a region. With `placed` the running process owns the region and the call
/// returns its address; otherwise it returns `-ENOMEM`.
pub fn finish_mmap(ps: &mut Processes, area: NewArea, placed: bool) -> (ret: u64)
    requires
        old(ps)@.wf(),
        old(ps)@.slot_in_range(),
        area.numbered(0).wf(),
    ensures
        final(ps)@.wf(),
        ret == (if placed {
            area.virt_start
        } else {
            ENOMEM
        }),
        final(ps)@ == (if placed {
            old(ps)@.owning(area)
        } else {
            old(ps)@
        }),
        mmap_settles(old(ps)@, area, placed, final(ps)@, ret),
        placed ==> region_step(old(ps)@, RegionEvent::Own { area }, final(ps)@),
        !placed ==> region_step(old(ps)@, RegionEvent::Other, final(ps)@),
{
    if !placed {
        return ENOMEM;
    }
    let id: u64 = ps.vm_area_next_id;
    ps.vm_area_next_id = id.wrapping_add(1);
    let idx: usize = ps.current_slot;
    match ps.occupant_mut(idx) {
        Some(p) => {
            p.vm_areas.push(
                VmArea {
                    id,
                    virt_start: area.virt_start,
                    pages: area.pages,
                    writable: area.writable,
                    executable: area.executable,
                },
            );
        },
        None => {},
    }
    area.virt_start
}

/// How giving back a region goes on.
pub enum MunmapStep {
    /// The request is refused with this value.
    Done(u64),
    Unmap(UnmapJob),
}

impl VmArea {
    /// The region is exactly `len` bytes from `addr` on.
    pub open spec fn is_exactly(self, addr: u64, len: u64) -> bool {
        self.virt_start == addr && self.end() == addr + len
    }
}

/// The regions other than the one of exactly `len` bytes from `addr` on.
pub open spec fn areas_without(areas: Seq<VmArea>, addr: u64, len: u64) -> Seq<VmArea> {
    areas.filter(|a: VmArea| !a.is_exactly(addr, len))
}

/// The running process has a region of exactly `len` bytes from `addr` on.
pub open spec fn owns_area(p: Option<ProcessSpec>, addr: u64, len: u64) -> bool {
    p matches Some(p) && exists|i: int|
        0 <= i < p.vm_areas.len() && (#[trigger] p.vm_areas[i]).is_exactly(addr, len)
}

/// The job that takes `page_count` pages from `start` on out of the page tables.
fn unmap_user_range(start: u64, page_count: usize) -> (job: UnmapJob)
    requires
        start + page_count * PAGE_SIZE <= USER_MMAP_LIMIT,
    ensures
        job.wf(),
        !job.checks_mapped(),
        job.todo() == page_steps(start, (start + page_count * PAGE_SIZE) as u64),
{
    assert(page_count * PAGE_SIZE <= USER_MMAP_LIMIT);
    UnmapJob::new(start, start + page_count as u64 * PAGE_SIZE, false)
}

/// How giving back a region goes on, and the processes that follow.
pub open spec fn munmap_decides(
    ps: ProcessesSpec,
    addr: u64,
    len: u64,
    ps2: ProcessesSpec,
    step: MunmapStep,
) -> bool {
    let granted = addr % PAGE_SIZE == 0 && len != 0 && owns_area(ps.current(), addr, len);
    match step {
        MunmapStep::Done(v) => !granted && v == EINVAL && ps2 == ps,
        MunmapStep::Unmap(job) => {
            let p = ps.current()->0;
            &&& granted
            &&& ps2 == ps.with_slot(
                ps.current_slot as int,
                Some(ProcessSpec { vm_areas: areas_without(p.vm_areas, addr, len), ..p }),
            )
            &&& job.wf()
            &&& !job.checks_mapped()
            &&& job.todo() == page_steps(addr, (addr + len) as u64)
        },
    }
}

/// Gives back a whole region of the running process. Anything that is not exactly a region is
/// refused with `-EINVAL`.
pub fn sys_munmap(ps: &mut Processes, addr: u64, len: u64) -> (step: MunmapStep)
    requires
        old(ps)@.wf(),
        old(ps)@.slot_in_range(),
    ensures
        final(ps)@.wf(),
        munmap_decides(old(ps)@, addr, len, final(ps)@, step),
        region_step(old(ps)@, RegionEvent::Other, final(ps)@),
{
    if addr % PAGE_SIZE != 0 || len == 0 {
        return MunmapStep::Done(EINVAL);
    }
    let end: u64 = addr.saturating_add(len);
    let idx: usize = ps.current_slot;
    let mut kept: Vec<VmArea> = Vec::new();
    let mut hit = false;
    let mut n_pages: usize = 0;
    match ps.occupant(idx) {
        None => {},
        Some(p) => {
            let mut i: usize = 0;
            proof {
                reveal(Seq::filter);
                assert(areas_without(p.vm_areas@.take(0), addr, len) =~= Seq::empty());
            }
            while i < p.vm_areas.len()
                invariant
                    i <= p.vm_areas@.len(),
                    ps@.current() == Some(p@),
                    p@.wf(),
                    end == (if addr + len <= u64::MAX {
                        addr + len
                    } else {
                        u64::MAX as int
                    }),
                    kept@ == areas_without(p.vm_areas@.take(i as int), addr, len),
                    forall|j: int| 0 <= j < kept@.len() ==> (#[trigger] kept@[j]).wf(),
                    hit <==> exists|j: int|
                        0 <= j < i && (#[trigger] p.vm_areas@[j]).is_exactly(addr, len),
                    hit ==> addr + n_pages * PAGE_SIZE == addr + len && addr + len
                        <= USER_MMAP_LIMIT,
                decreases p.vm_areas@.len() - i,
            {
                let a = p.vm_areas[i];
                assert(p@.vm_areas[i as int].wf());
                proof {
                    reveal(Seq::filter);
                    assert(p.vm_areas@.take(i + 1).drop_last() =~= p.vm_areas@.take(i as int));
                    assert(p.vm_areas@.take(i + 1).last() == a);
                }
                if a.virt_start == addr && a.end_addr() == end {
                    assert(p.vm_areas@[i as int].is_exactly(addr, len));
                    hit = true;
                    n_pages = a.pages;
                } else {
                    kept.push(a);
                }
                i = i + 1;
            }
            assert(p.vm_areas@.take(i as int) =~= p.vm_areas@);
        },
    }
    if !hit {
        return MunmapStep::Done(EINVAL);
    }
    match ps.occupant_mut(idx) {
        Some(p) => {
            p.vm_areas = kept;
        },
        None => {},
    }
    MunmapStep::Unmap(unmap_user_range(addr, n_pages))
}

/// The answer of `munmap` once its job is over.
pub open spec fn munmap_answer(done: bool) -> u64 {
    if done {
        0
    } else {
        ENOMEM
    }
}

/// Settles giving back a region: the result of the call.
pub fn finish_munmap(done: bool) -> (ret: u64)
    ensures
        ret == (if done {
            0
        } else {
            ENOMEM
        }),
        ret == munmap_answer(done),
{
    if done {
        0
    } else {
        ENOMEM
    }
}

/// Mapping a region and giving it back takes the same pages, and leaves the other regions as they
/// were.
pub proof fn law_munmap_undoes_mmap(
    areas: Seq<VmArea>,
    next_mmap: u64,
    addr: u64,
    len: u64,
    prot: u64,
    id: u64,
)
    requires
        next_mmap % PAGE_SIZE == 0,
        mmap_refusal(next_mmap, addr, len) is None,
    ensures
        ({
            let area = mmap_area(next_mmap, addr, len, prot).numbered(id);
            let bytes = (area.pages * PAGE_SIZE) as u64;
            let with = areas.push(area);
            &&& with[areas.len() as int].is_exactly(area.virt_start, bytes)
            &&& areas_without(with, area.virt_start, bytes) == areas_without(
                areas,
                area.virt_start,
                bytes,
            )
            &&& page_steps(area.virt_start, (area.virt_start + bytes) as u64) == page_steps(
                area.virt_start,
                area.end() as u64,
            )
        }),
{
    reveal(Seq::filter);
    let area = mmap_area(next_mmap, addr, len, prot).numbered(id);
    let with = areas.push(area);
    assert(with.drop_last() =~= areas);
}

/// A region that was granted covers every byte that was asked for, and can be written exactly if
/// that was asked for.
pub proof fn law_mmap_covers_request(
    areas: Seq<VmArea>,
    next_mmap: u64,
    addr: u64,
    len: u64,
    prot: u64,
    id: u64,
)
    requires
        next_mmap % PAGE_SIZE == 0,
        mmap_refusal(next_mmap, addr, len) is None,
    ensures
        ({
            let area = mmap_area(next_mmap, addr, len, prot).numbered(id);
            let end = (area.virt_start + len) as u64;
            &&& area.wf()
            &&& area.covers(area.virt_start, end)
            &&& area_covers(areas.push(area), area.virt_start, end, false)
            &&& prot & PROT_WRITE != 0 ==> area_covers(
                areas.push(area),
                area.virt_start,
                end,
                true,
            )
        }),
{
    let area = mmap_area(next_mmap, addr, len, prot).numbered(id);
    assert(areas.push(area)[areas.len() as int] == area);
}

/// A run of events: `states[i]` turns into `states[i + 1]` by `events[i]`.
pub open spec fn is_region_run(states: Seq<ProcessesSpec>, events: Seq<RegionEvent>) -> bool {
    &&& states.len() == events.len() + 1
    &&& forall|i: int| 0 <= i < events.len() ==> #[trigger] run_step(states, events, i)
}

pub open spec fn run_step(states: Seq<ProcessesSpec>, events: Seq<RegionEvent>, i: int) -> bool {
    region_step(states[i], events[i], states[i + 1])
}

/// The event does not make the next place, or the next number, wrap around.
pub open spec fn no_wrap(ps: ProcessesSpec, event: RegionEvent) -> bool {
    match event {
        RegionEvent::Ask { addr, len } => addr == 0 && 0 < len <= USER_MMAP_LIMIT - USER_MMAP_BASE
            ==> ps.next_mmap + pages_for(len) * PAGE_SIZE <= u64::MAX,
        RegionEvent::Own { area } => ps.vm_area_next_id < u64::MAX,
        RegionEvent::Other => true,
    }
}

/// Nothing wraps around in a run.
pub open spec fn never_wraps(states: Seq<ProcessesSpec>, events: Seq<RegionEvent>) -> bool {
    forall|i: int| 0 <= i < events.len() ==> #[trigger] no_wrap(states[i], events[i])
}

proof fn lemma_counters_grow(
    states: Seq<ProcessesSpec>,
    events: Seq<RegionEvent>,
    from: int,
    to: int,
)
    requires
        is_region_run(states, events),
        never_wraps(states, events),
        0 <= from <= to <= events.len(),
    ensures
        states[from].next_mmap <= states[to].next_mmap,
        states[from].vm_area_next_id <= states[to].vm_area_next_id,
    decreases to - from,
{
    if from < to {
        assert(run_step(states, events, to - 1));
        assert(no_wrap(states[to - 1], events[to - 1]));
        lemma_counters_grow(states, events, from, to - 1);
    }
}

/// Addresses that the kernel picks only grow and are never handed out again. Of two requests
/// without a wished address that were granted in a run, whatever happened in between (the first
/// region given back among it), the later region starts where the earlier one ended, or above; so
/// the two have no page in common. The run may be any in which the next place and the next number do
/// not wrap around.
pub proof fn law_mmap_regions_do_not_overlap(
    states: Seq<ProcessesSpec>,
    events: Seq<RegionEvent>,
    i: int,
    j: int,
    len: u64,
    prot: u64,
    later_len: u64,
    later_prot: u64,
)
    requires
        is_region_run(states, events),
        never_wraps(states, events),
        0 <= i < j < events.len(),
        events[i] == (RegionEvent::Ask { addr: 0, len }),
        mmap_refusal(states[i].next_mmap, 0, len) is None,
        events[j] == (RegionEvent::Ask { addr: 0, len: later_len }),
        mmap_refusal(states[j].next_mmap, 0, later_len) is None,
    ensures
        ({
            let first = mmap_area(states[i].next_mmap, 0, len, prot);
            let later = mmap_area(states[j].next_mmap, 0, later_len, later_prot);
            &&& later.virt_start >= first.virt_start + PAGE_SIZE * pages_for(len)
            &&& first.numbered(0).end() <= later.virt_start
            &&& USER_MMAP_BASE <= states[0].next_mmap ==> USER_MMAP_BASE <= first.virt_start
        }),
{
    assert(run_step(states, events, i));
    assert(no_wrap(states[i], events[i]));
    lemma_counters_grow(states, events, 0, i);
    lemma_counters_grow(states, events, i + 1, j);
}

/// No two regions of a run get the same number, as long as the number does not wrap around: each
/// joins the regions of its process under a number above all earlier ones.
pub proof fn law_mmap_numbers_differ(
    states: Seq<ProcessesSpec>,
    events: Seq<RegionEvent>,
    i: int,
    j: int,
    first: NewArea,
    later: NewArea,
)
    requires
        is_region_run(states, events),
        never_wraps(states, events),
        0 <= i < j < events.len(),
        events[i] == (RegionEvent::Own { area: first }),
        events[j] == (RegionEvent::Own { area: later }),
        states[i].current() is Some,
        states[j].current() is Some,
    ensures
        ({
            let a = first.numbered(states[i].vm_area_next_id);
            let b = later.numbered(states[j].vm_area_next_id);
            &&& states[i + 1].current()->0.vm_areas == states[i].current()->0.vm_areas.push(a)
            &&& states[j + 1].current()->0.vm_areas == states[j].current()->0.vm_areas.push(b)
            &&& a.id < b.id
        }),
{
    assert(run_step(states, events, i));
    assert(run_step(states, events, j));
    assert(no_wrap(states[i], events[i]));
    lemma_counters_grow(states, events, i + 1, j);
}

/// The parts of the user address space follow one another without overlap: text, stack, child
/// stack, heap window, region window.
pub proof fn law_user_layout()
    ensures
        USER_TEXT_BASE + PAGE_SIZE <= USER_STACK_LO,
        USER_STACK_LO + PAGE_SIZE == USER_STACK_TOP,
        USER_STACK_TOP <= CHILD_STACK_LO,
        CHILD_STACK_LO + PAGE_SIZE == USER_STACK_CHILD_TOP,
        USER_STACK_CHILD_TOP <= USER_BRK_BASE < USER_BRK_LIMIT,
        USER_BRK_LIMIT <= USER_MMAP_BASE < USER_MMAP_LIMIT,
{
}

/// As long as the next place lies in the region window, every granted region does, and the next
/// place does too.
pub proof fn law_mmap_stays_in_window(next_mmap: u64, addr: u64, len: u64, prot: u64)
    requires
        next_mmap % PAGE_SIZE == 0,
        USER_MMAP_BASE <= next_mmap,
        mmap_refusal(next_mmap, addr, len) is None,
    ensures
        USER_MMAP_BASE <= mmap_area(next_mmap, addr, len, prot).virt_start,
        mmap_area(next_mmap, addr, len, prot).numbered(0).end() <= USER_MMAP_LIMIT,
        next_mmap <= next_mmap_after(next_mmap, addr, len),
{
}

/// What `brk` answers without touching a page: the heap end for 0; `-ENOMEM` outside
/// `0x404000..=0x410000`; and the address itself where the heap ends there already.
pub proof fn law_brk_answers(ps: ProcessesSpec, addr: u64, step: BrkStep)
    requires
        ps.current() is Some,
        brk_decides(ps, addr, step),
    ensures
        ({
            let end = ps.current()->0.brk_end;
            &&& addr == 0 ==> step == BrkStep::Done(end)
            &&& 0 < addr < 0x404000 || 0x410000 < addr ==> step == BrkStep::Done(ENOMEM)
            &&& 0x404000 <= addr <= 0x410000 && addr == end ==> step == BrkStep::Done(end)
            &&& 0x404000 <= addr <= 0x410000 && addr > end ==> step is Grow
            &&& 0x404000 <= addr <= 0x410000 && addr < end ==> step is Shrink
        }),
{
}

/// Growing the heap maps, user-writable and not executable, exactly the pages that hold a byte between
/// the old and the new end.
pub proof fn law_brk_growth_maps_new_bytes(
    ps: ProcessesSpec,
    addr: u64,
    map: MapJob,
    new_end: u64,
    page: u64,
)
    requires
        ps.current() is Some,
        brk_decides(ps, addr, BrkStep::Grow { map, new_end }),
    ensures
        new_end == addr,
        map.todo().contains(page) <==> page % 4096 == 0 && page < addr && ps.current()->0.brk_end
            < page + 4096,
        map.page_flags().present && map.page_flags().user_accessible,
        map.page_flags().writable && map.page_flags().no_execute,
        map.skips_mapped(),
{
    let old_end = ps.current()->0.brk_end;
    crate::paging::law_range_membership(page_of(old_end), page_of((addr - 1) as u64), page);
}

/// Shrinking the heap gives up exactly the pages that start at or above the new end and below the old
/// one: a page that still holds a byte of the heap stays.
pub proof fn law_brk_shrink_keeps_used_pages(
    ps: ProcessesSpec,
    addr: u64,
    unmap: UnmapJob,
    new_end: u64,
    page: u64,
)
    requires
        ps.current() is Some,
        brk_decides(ps, addr, BrkStep::Shrink { unmap, new_end }),
    ensures
        new_end == addr,
        unmap.todo().contains(page) <==> page % 4096 == 0 && addr <= page
            < ps.current()->0.brk_end,
        unmap.checks_mapped(),
{
    crate::paging::law_walk_membership(
        page_up(addr as int) as u64,
        ps.current()->0.brk_end,
        page,
        0,
        0,
    );
}

/// When `mmap` refuses: `-EINVAL` for no bytes, for more than the window from `0x410000` to `0x480000`
/// holds, and for a wished address that is not a page start or leaves the window; `-ENOMEM` where the
/// room behind the last region is too small. Any other request is granted.
pub proof fn law_mmap_refusals(next_mmap: u64, addr: u64, len: u64, prot: u64, step: MmapStep)
    requires
        mmap_decides(next_mmap, addr, len, prot, step),
    ensures
        len == 0 || len > 0x70000 ==> step == MmapStep::Done(EINVAL),
        0 < len <= 0x70000 && addr > 0 && (addr % 4096 != 0 || addr < 0x410000 || addr + len
            > 0x480000) ==> step == MmapStep::Done(EINVAL),
        0 < len <= 0x70000 && addr > 0 && addr % 4096 == 0 && 0x410000 <= addr && addr + len
            <= 0x480000 ==> step is Place,
        0 < len <= 0x70000 && addr == 0 && next_mmap % 4096 == 0 && next_mmap + len > 0x480000
            ==> step == MmapStep::Done(ENOMEM),
        0 < len <= 0x70000 && addr == 0 && next_mmap % 4096 == 0 && next_mmap + len <= 0x480000
            ==> step is Place,
{
}

/// A granted region starts where it was wished, or behind the last one; it is the least number of whole
/// pages that hold the bytes; it can be written exactly if bit 1 of the protection asks for it, and
/// run exactly if bit 2 does; and its pages are mapped exactly so, each with a frame of its own.
pub proof fn law_mmap_grants_what_was_asked(
    next_mmap: u64,
    addr: u64,
    len: u64,
    prot: u64,
    job: MapJob,
    area: NewArea,
    page: u64,
)
    requires
        mmap_decides(next_mmap, addr, len, prot, MmapStep::Place { job, area }),
    ensures
        addr != 0 ==> area.virt_start == addr,
        addr == 0 ==> area.virt_start == next_mmap,
        area.pages * 4096 >= len,
        (area.pages - 1) * 4096 < len,
        area.writable <==> prot & 2 != 0,
        area.executable <==> prot & 4 != 0,
        job.todo().contains(page) <==> area.virt_start <= page < area.virt_start + len && (page
            - area.virt_start) % 4096 == 0,
        job.page_flags().present && job.page_flags().user_accessible,
        job.page_flags().writable == area.writable,
        job.page_flags().no_execute == !area.executable,
        !job.skips_mapped(),
{
    crate::paging::law_walk_membership(
        area.virt_start,
        area.numbered(0).end() as u64,
        page,
        0,
        0,
    );
}

/// Asking for a region without a wished address moves the next place up by whole pages that hold the
/// bytes; any other request leaves it.
pub proof fn law_next_place_moves_up(next_mmap: u64, addr: u64, len: u64)
    requires
        next_mmap + 0x80000 <= u64::MAX,
    ensures
        ({
            let next = next_mmap_after(next_mmap, addr, len);
            &&& addr != 0 || len == 0 || len > 0x70000 ==> next == next_mmap
            &&& addr == 0 && 0 < len <= 0x70000 ==> next_mmap + len <= next < next_mmap + len + 4096
                && (next - next_mmap) % 4096 == 0
        }),
{
}

/// A region that is in place is the last of the running process's regions, with the bounds and the
/// protection that were granted; no other process gets it.
pub proof fn law_region_goes_to_caller(ps: ProcessesSpec, area: NewArea, i: int)
    requires
        ps.current() is Some,
    ensures
        ({
            let a = ps.owning(area);
            let areas = ps.current()->0.vm_areas;
            let now = a.current()->0.vm_areas;
            &&& a.current() == Some(ProcessSpec { vm_areas: now, ..ps.current()->0 })
            &&& now.len() == areas.len() + 1
            &&& 0 <= i < areas.len() ==> now[i] == areas[i]
            &&& now.last().virt_start == area.virt_start && now.last().pages == area.pages
            &&& now.last().writable == area.writable && now.last().executable == area.executable
            &&& now.last().id == ps.vm_area_next_id
            &&& i != ps.current_slot ==> a.occupant(i) == ps.occupant(i)
            &&& a.next_mmap == ps.next_mmap && a.current_slot == ps.current_slot
        }),
{
}

proof fn lemma_areas_without(areas: Seq<VmArea>, addr: u64, len: u64, x: VmArea)
    ensures
        areas_without(areas, addr, len).contains(x) <==> areas.contains(x) && !(x.virt_start == addr
            && x.virt_start + x.pages * 4096 == addr + len),
        areas_without(areas, addr, len).len() <= areas.len(),
    decreases areas.len(),
{
    reveal(Seq::filter);
    if areas.len() > 0 {
        let front = areas.drop_last();
        let f = areas_without(front, addr, len);
        let w = areas_without(areas, addr, len);
        lemma_areas_without(front, addr, len, x);
        if areas.contains(x) {
            let i = choose|i: int| 0 <= i < areas.len() && areas[i] == x;
            if i < front.len() {
                assert(front[i] == x);
            }
        }
        if front.contains(x) {
            let i = choose|i: int| 0 <= i < front.len() && front[i] == x;
            assert(areas[i] == x);
        }
        assert(areas[areas.len() - 1] == areas.last());
        if !areas.last().is_exactly(addr, len) {
            assert(w == f.push(areas.last()));
            assert(w[w.len() - 1] == areas.last());
            if f.contains(x) {
                let i = choose|i: int| 0 <= i < f.len() && f[i] == x;
                assert(w[i] == x);
            }
            if w.contains(x) {
                let i = choose|i: int| 0 <= i < w.len() && w[i] == x;
                if i < f.len() {
                    assert(f[i] == x);
                }
            }
        } else {
            assert(w == f);
        }
    }
}

/// `munmap` is granted exactly for a whole region of the running process: that region goes, with all
/// its pages, and every other region of it and of other processes stays. Anything else is `-EINVAL`
/// and changes nothing.
pub proof fn law_munmap_takes_whole_region(
    ps: ProcessesSpec,
    addr: u64,
    len: u64,
    ps2: ProcessesSpec,
    step: MunmapStep,
    x: VmArea,
    page: u64,
    i: int,
)
    requires
        ps.current() is Some,
        munmap_decides(ps, addr, len, ps2, step),
    ensures
        ({
            let areas = ps.current()->0.vm_areas;
            let whole = addr % 4096 == 0 && len > 0 && exists|k: int|
                0 <= k < areas.len() && (#[trigger] areas[k]).virt_start == addr
                    && areas[k].virt_start + areas[k].pages * 4096 == addr + len;
            match step {
                MunmapStep::Done(v) => !whole && v == EINVAL && ps2 == ps,
                MunmapStep::Unmap(job) => {
                    &&& whole
                    &&& ps2.current() is Some
                    &&& ps2.current()->0.vm_areas.contains(x) <==> areas.contains(x) && !(
                    x.virt_start == addr && x.virt_start + x.pages * 4096 == addr + len)
                    &&& ps2.current() == Some(
                        ProcessSpec {
                            vm_areas: ps2.current()->0.vm_areas,
                            ..ps.current()->0
                        },
                    )
                    &&& i != ps.current_slot ==> ps2.occupant(i) == ps.occupant(i)
                    &&& addr + len <= u64::MAX ==> (job.todo().contains(page) <==> addr <= page < addr
                        + len && page % 4096 == 0)
                    &&& !job.checks_mapped()
                },
            }
        }),
{
    let areas = ps.current()->0.vm_areas;
    lemma_areas_without(areas, addr, len, x);
    crate::paging::law_walk_membership(addr, (addr + len) as u64, page, 0, 0);
    if owns_area(ps.current(), addr, len) {
        let k = choose|k: int|
            0 <= k < areas.len() && (#[trigger] areas[k]).is_exactly(addr, len);
        assert(areas[k].virt_start == addr);
    }
    if exists|k: int|
        0 <= k < areas.len() && (#[trigger] areas[k]).virt_start == addr && areas[k].virt_start
            + areas[k].pages * 4096 == addr + len {
        let k = choose|k: int|
            0 <= k < areas.len() && (#[trigger] areas[k]).virt_start == addr && areas[k].virt_start
                + areas[k].pages * 4096 == addr + len;
        assert(areas[k].is_exactly(addr, len));
    }
}

/// A range is covered exactly if one region holds all of it, and, for writing, can be written; so every
/// part of a covered range is covered.
pub proof fn law_covering_regions(areas: Seq<VmArea>, addr: u64, end: u64, write: bool, from: u64, to: u64)
    requires
        addr <= from,
        to <= end,
    ensures
        area_covers(areas, addr, end, write) <==> exists|k: int|
            0 <= k < areas.len() && (#[trigger] areas[k]).virt_start <= addr && end
                <= areas[k].virt_start + areas[k].pages * 4096 && (write ==> areas[k].writable),
        area_covers(areas, addr, end, write) ==> area_covers(areas, from, to, write),
        area_covers(areas, addr, end, true) ==> area_covers(areas, addr, end, false),
{
    if area_covers(areas, addr, end, write) {
        let k = choose|k: int|
            0 <= k < areas.len() && (#[trigger] areas[k]).covers(addr, end) && (write
                ==> areas[k].writable);
        assert(areas[k].covers(from, to));
        assert(areas[k].virt_start <= addr);
    }
    if area_covers(areas, addr, end, true) {
        let k = choose|k: int|
            0 <= k < areas.len() && (#[trigger] areas[k]).covers(addr, end) && areas[k].writable;
        assert(areas[k].covers(addr, end));
    }
    if exists|k: int|
        0 <= k < areas.len() && (#[trigger] areas[k]).virt_start <= addr && end
            <= areas[k].virt_start + areas[k].pages * 4096 && (write ==> areas[k].writable) {
        let k = choose|k: int|
            0 <= k < areas.len() && (#[trigger] areas[k]).virt_start <= addr && end
                <= areas[k].virt_start + areas[k].pages * 4096 && (write ==> areas[k].writable);
        assert(areas[k].covers(addr, end));
    }
}

/// A change of the heap end that went through holds: the call returns the new end, asking for the end
/// tells it, and nothing else of the process, and no other process, changes. One that did not go through
/// is `-ENOMEM` and leaves everything.
pub proof fn law_settled_brk_holds(
    ps: ProcessesSpec,
    new_end: u64,
    done: bool,
    ps2: ProcessesSpec,
    ret: u64,
    step: BrkStep,
    i: int,
)
    requires
        ps.current() is Some,
        brk_settles(ps, new_end, done, ps2, ret),
        brk_decides(ps2, 0, step),
    ensures
        done ==> ret == new_end && step == BrkStep::Done(new_end),
        !done ==> ret == ENOMEM && step == BrkStep::Done(ps.current()->0.brk_end) && ps2 == ps,
        ps2.current() == Some(
            ProcessSpec { brk_end: ps2.current()->0.brk_end, ..ps.current()->0 },
        ),
        i != ps.current_slot ==> ps2.occupant(i) == ps.occupant(i),
{
}

/// A region that was placed is returned by its address, and belongs to the caller from then on: reading
/// it is covered from its first to its last byte, and writing exactly if it was asked for. A request that
/// could not be placed is `-ENOMEM` and leaves everything.
pub proof fn law_settled_mmap_is_covered(
    ps: ProcessesSpec,
    area: NewArea,
    placed: bool,
    ps2: ProcessesSpec,
    ret: u64,
)
    requires
        ps.current() is Some,
        area.virt_start + area.pages * 4096 <= u64::MAX,
        mmap_settles(ps, area, placed, ps2, ret),
    ensures
        !placed ==> ret == ENOMEM && ps2 == ps,
        placed ==> {
            let end = (area.virt_start + area.pages * 4096) as u64;
            let areas = ps2.current()->0.vm_areas;
            &&& ret == area.virt_start
            &&& area_covers(areas, ret, end, false)
            &&& area.writable ==> area_covers(areas, ret, end, true)
        },
{
    if placed {
        let areas = ps2.current()->0.vm_areas;
        let n = ps.current()->0.vm_areas.len() as int;
        let end = (area.virt_start + area.pages * 4096) as u64;
        assert(areas[n].covers(area.virt_start, end));
    }
}

/// The heap covers a range exactly if the range lies between `0x404000` and the heap end.
pub proof fn law_heap_covers_up_to_end(p: ProcessSpec, addr: u64, end: u64)
    requires
        0x404000 <= p.brk_end <= 0x410000,
    ensures
        heap_covers(p, addr, end) <==> 0x404000 <= addr && end <= p.brk_end,
{
}

/// `munmap` answers 0 where its job went through, and -12 where it did not.
pub proof fn law_munmap_answers(done: bool)
    ensures
        munmap_answer(done) == 0 <==> done,
        !done ==> munmap_answer(done) + 12 == 0x1_0000_0000_0000_0000,
{
}

proof fn lemma_areas_kept(areas: Seq<VmArea>, addr: u64, len: u64)
    requires
        forall|i: int| 0 <= i < areas.len() ==> !(#[trigger] areas[i]).is_exactly(addr, len),
    ensures
        areas_without(areas, addr, len) == areas,
    decreases areas.len(),
{
    reveal(Seq::filter);
    if areas.len() > 0 {
        lemma_areas_kept(areas.drop_last(), addr, len);
        assert(areas.drop_last().push(areas.last()) =~= areas);
    }
}

/// Taking out a region closes the list up: the regions before and behind it stay, in order.
pub proof fn law_regions_close_up(
    front: Seq<VmArea>,
    area: VmArea,
    back: Seq<VmArea>,
    addr: u64,
    len: u64,
)
    requires
        area.virt_start == addr,
        area.virt_start + area.pages * 4096 == addr + len,
        forall|i: int|
            0 <= i < front.len() ==> (#[trigger] front[i]).virt_start != addr,
        forall|i: int| 0 <= i < back.len() ==> (#[trigger] back[i]).virt_start != addr,
    ensures
        areas_without(front + seq![area] + back, addr, len) == front + back,
{
    let keep = |a: VmArea| !a.is_exactly(addr, len);
    Seq::filter_distributes_over_add(front + seq![area], back, keep);
    Seq::filter_distributes_over_add(front, seq![area], keep);
    lemma_areas_kept(front, addr, len);
    lemma_areas_kept(back, addr, len);
    assert(seq![area].filter(keep) =~= Seq::<VmArea>::empty()) by {
        reveal(Seq::filter);
        let none = Seq::<VmArea>::empty();
        assert(seq![area].drop_last() =~= none);
        assert(none.filter(keep) =~= none);
        assert(area.is_exactly(addr, len));
        assert(!keep(seq![area].last()));
    }
    assert(front + Seq::<VmArea>::empty() + back =~= front + back);
}

/// With no process in the current slot there is no heap to move and no region to take out, and noting an
/// exit or registers changes nothing.
pub proof fn law_calls_without_process(
    ps: ProcessesSpec,
    addr: u64,
    len: u64,
    brk: BrkStep,
    ps2: ProcessesSpec,
    munmap: MunmapStep,
    status: i32,
)
    requires
        ps.current() is None,
        brk_decides(ps, addr, brk),
        munmap_decides(ps, addr, len, ps2, munmap),
    ensures
        brk matches BrkStep::Done(v) && v + 12 == 0x1_0000_0000_0000_0000,
        munmap matches MunmapStep::Done(v) && v + 22 == 0x1_0000_0000_0000_0000,
        ps2 == ps,
        ps.exited(status) == ps,
{
}

} // verus!
