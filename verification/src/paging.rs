//! Page-table edits as jobs.
//!
//! The page tables live in memory that only the machine-facing code can touch. What to edit is
//! decided here: a [`MapJob`] or an [`UnmapJob`] walks its pages, says which action comes next and
//! is told how it went. Frames come from and go back to the bitmap allocator in the same step.
//!
//! The **VGA text buffer** at physical `0xB8000` is memory-mapped. [`init`] asks for a 4 KiB
//! mapping of it in the offset window; that it is already there is fine.

use vstd::prelude::*;
use x86_64::structures::paging::{Page, Size4KiB};
use x86_64::VirtAddr;

use crate::memory::{after_release, takes_lowest, BitmapFrameAllocator, PhysicalMemory, PAGE_SIZE};

verus! {

/// First address of the upper half: bit 47 and everything above it set.
pub const UPPER_HALF: u64 = 0xffff_8000_0000_0000;

/// One past the last address of the lower half.
pub const LOWER_HALF_END: u64 = 0x8000_0000_0000;

/// Bits 48 to 63 copy bit 47.
pub open spec fn is_canonical(addr: u64) -> bool {
    addr < LOWER_HALF_END || UPPER_HALF <= addr
}

/// The canonical address that `addr` stands for. Bit 47 is extended when nothing is set above it;
/// any other bits above bit 47 make the address invalid.
pub open spec fn virt_addr_of(addr: u64) -> Option<u64> {
    if is_canonical(addr) {
        Some(addr)
    } else if addr < 0x1_0000_0000_0000 {
        Some((addr + 0xffff_0000_0000_0000) as u64)
    } else {
        None
    }
}

/// Start of the page that holds `addr`.
pub open spec fn page_of(addr: u64) -> u64 {
    (addr - addr % PAGE_SIZE) as u64
}

/// Start of the next page; the last page of the lower half is followed by the upper half.
pub open spec fn page_after_of(page: u64) -> u64 {
    if page + PAGE_SIZE == LOWER_HALF_END {
        UPPER_HALF
    } else {
        (page + PAGE_SIZE) as u64
    }
}

/// `x86_64::VirtAddr::try_new`: the canonical address for `addr`, or `None` where bits above
/// bit 47 hold data.
#[verifier::external_body]
pub(crate) fn virt_addr(addr: u64) -> (r: Option<u64>)
    ensures
        r == virt_addr_of(addr),
{
    match VirtAddr::try_new(addr) {
        Ok(v) => Some(v.as_u64()),
        Err(_) => None,
    }
}

/// `x86_64::structures::paging::Page::<Size4KiB>::containing_address`: the start of the 4 KiB page
/// that holds a canonical address.
#[verifier::external_body]
pub(crate) fn page_containing(addr: u64) -> (page: u64)
    requires
        is_canonical(addr),
    ensures
        page == page_of(addr),
{
    Page::<Size4KiB>::containing_address(VirtAddr::new(addr)).start_address().as_u64()
}

/// `Page::<Size4KiB> + 1` of the `x86_64` crate: the page after a canonical page, which crosses
/// from the lower to the upper half. The very last page has none.
#[verifier::external_body]
pub(crate) fn page_after(page: u64) -> (next: u64)
    requires
        is_canonical(page),
        page % PAGE_SIZE == 0,
        page < 0xffff_ffff_ffff_f000,
    ensures
        next == page_after_of(page),
{
    (Page::<Size4KiB>::containing_address(VirtAddr::new(page)) + 1).start_address().as_u64()
}

/// The protection bits that the kernel sets on a page.
#[derive(Clone, Copy, Debug, PartialEq, Eq, Structural)]
pub struct PageFlags {
    pub present: bool,
    pub writable: bool,
    pub user_accessible: bool,
    pub no_execute: bool,
}

/// Map `frame` at `page`, after filling the frame with zero bytes where `zeroed` says so.
#[derive(Clone, Copy, Debug, PartialEq, Eq, Structural)]
pub struct MapRequest {
    pub page: u64,
    pub frame: u64,
    pub flags: PageFlags,
    pub zeroed: bool,
}

/// How the page tables took a [`MapRequest`].
#[derive(Clone, Copy, Debug, PartialEq, Eq, Structural)]
pub enum MapOutcome {
    Mapped,
    AlreadyMapped,
    Failed,
}

/// Why a job stopped early.
#[derive(Clone, Copy, Debug, PartialEq, Eq, Structural)]
pub enum PageFailure {
    /// No frame was free.
    NoFrame,
    /// The page tables refused the mapping.
    MapTo,
}

/// What a job needs next.
#[derive(Clone, Copy, Debug, PartialEq, Eq, Structural)]
pub enum PageAction {
    /// Look up whether this address is mapped.
    Translate(u64),
    Place(MapRequest),
    /// Remove the mapping of this page and report the frame that backed it.
    Unmap(u64),
    Finished,
    Failed(PageFailure),
}

/// Number of the page in address order, counted across the gap between the halves.
pub open spec fn page_rank(page: u64) -> int {
    if page < LOWER_HALF_END {
        page as int / 4096
    } else {
        (page - 0xffff_0000_0000_0000) / 4096
    }
}

/// The page with the given number.
pub open spec fn page_at(rank: int) -> u64 {
    if rank < 0x8_0000_0000 {
        (rank * 4096) as u64
    } else {
        (rank * 4096 + 0xffff_0000_0000_0000) as u64
    }
}

pub open spec fn is_page(page: u64) -> bool {
    is_canonical(page) && page % PAGE_SIZE == 0
}

/// The pages from `first` to `last`, both included, in address order.
pub open spec fn pages_between(first: u64, last: u64) -> Seq<u64> {
    if first <= last {
        Seq::new(
            (page_rank(last) - page_rank(first) + 1) as nat,
            |i: int| page_at(page_rank(first) + i),
        )
    } else {
        Seq::empty()
    }
}

/// A walk over consecutive pages.
#[derive(Clone, Copy, Debug)]
pub struct PageRange {
    next: Option<u64>,
    last: u64,
}

impl PageRange {
    pub closed spec fn wf(&self) -> bool {
        &&& is_page(self.last)
        &&& self.next matches Some(p) ==> is_page(p) && p <= self.last
    }

    /// The pages still to come.
    pub closed spec fn todo(&self) -> Seq<u64> {
        match self.next {
            Some(p) => pages_between(p, self.last),
            None => Seq::empty(),
        }
    }

    /// All pages from `first` to `last`, both included.
    pub fn new(first: u64, last: u64) -> (r: PageRange)
        requires
            is_page(first),
            is_page(last),
        ensures
            r.wf(),
            r.todo() == pages_between(first, last),
    {
        if first <= last {
            PageRange { next: Some(first), last }
        } else {
            PageRange { next: None, last }
        }
    }

    /// The page the walk stands on.
    pub fn current(&self) -> (page: Option<u64>)
        requires
            self.wf(),
        ensures
            page == (if self.todo().len() > 0 {
                Some(self.todo()[0])
            } else {
                None
            }),
    {
        self.next
    }

    /// Steps to the next page.
    pub fn advance(&mut self)
        requires
            old(self).wf(),
            old(self).todo().len() > 0,
        ensures
            final(self).wf(),
            final(self).todo() == old(self).todo().drop_first(),
    {
        if let Some(p) = self.next {
            if p == self.last {
                self.next = None;
                assert(self.todo() =~= old(self).todo().drop_first());
            } else {
                let n = page_after(p);
                proof {
                    assert(page_rank(n) == page_rank(p) + 1);
                }
                self.next = Some(n);
                assert(self.todo() =~= old(self).todo().drop_first());
            }
        }
    }
}

/// Gives a page its own frame for every page of a range.
#[derive(Clone, Copy, Debug)]
pub struct MapJob {
    range: PageRange,
    flags: PageFlags,
    skip_mapped: bool,
    zeroed: bool,
}

/// Asking for a frame for `page`: the lowest free frame goes out with the request, and without one
/// the job fails and nothing changes.
pub open spec fn places(
    page: u64,
    flags: PageFlags,
    zeroed: bool,
    before: Set<int>,
    action: PageAction,
    after: Set<int>,
) -> bool {
    match action {
        PageAction::Place(req) => {
            &&& req.page == page
            &&& req.flags == flags
            &&& req.zeroed == zeroed
            &&& req.frame % PAGE_SIZE == 0
            &&& takes_lowest(before, req.frame as int / PAGE_SIZE as int, after)
        },
        PageAction::Failed(f) => {
            &&& f == PageFailure::NoFrame
            &&& before == Set::<int>::empty()
            &&& after == before
        },
        _ => false,
    }
}

impl MapJob {
    pub closed spec fn wf(&self) -> bool {
        self.range.wf()
    }

    /// The pages still to be mapped, the current one first.
    pub closed spec fn todo(&self) -> Seq<u64> {
        self.range.todo()
    }

    pub closed spec fn page_flags(&self) -> PageFlags {
        self.flags
    }

    /// Pages that are already mapped are left alone.
    pub closed spec fn skips_mapped(&self) -> bool {
        self.skip_mapped
    }

    /// Frames are zeroed before they are mapped.
    pub closed spec fn zeroes(&self) -> bool {
        self.zeroed
    }

    /// Everything but the pages still to come is as in `other`.
    pub open spec fn same_settings(&self, other: MapJob) -> bool {
        &&& self.page_flags() == other.page_flags()
        &&& self.skips_mapped() == other.skips_mapped()
        &&& self.zeroes() == other.zeroes()
    }

    /// What the job asks for when it stands on its current page.
    pub open spec fn asks(&self, before: Set<int>, action: PageAction, after: Set<int>) -> bool {
        if self.todo().len() == 0 {
            action == PageAction::Finished && after == before
        } else if self.skips_mapped() {
            action == PageAction::Translate(self.todo()[0]) && after == before
        } else {
            places(self.todo()[0], self.page_flags(), self.zeroes(), before, action, after)
        }
    }

    /// The current page was looked up: the job, the next action and the free frames that follow.
    pub open spec fn after_translated(
        &self,
        mapped: bool,
        before: Set<int>,
        next: MapJob,
        action: PageAction,
        after: Set<int>,
    ) -> bool {
        &&& next.same_settings(*self)
        &&& if mapped {
            &&& next.todo() == self.todo().drop_first()
            &&& next.asks(before, action, after)
        } else {
            &&& next.todo() == self.todo()
            &&& places(self.todo()[0], self.page_flags(), self.zeroes(), before, action, after)
        }
    }

    /// The page tables answered: the job, the next action and the free frames that follow.
    pub open spec fn after_mapped(
        &self,
        outcome: MapOutcome,
        before: Set<int>,
        next: MapJob,
        action: PageAction,
        after: Set<int>,
    ) -> bool {
        &&& next.same_settings(*self)
        &&& if outcome == MapOutcome::Mapped {
            &&& next.todo() == self.todo().drop_first()
            &&& next.asks(before, action, after)
        } else {
            &&& next.todo() == self.todo()
            &&& action == PageAction::Failed(PageFailure::MapTo)
            &&& after == before
        }
    }

    pub fn new(range: PageRange, flags: PageFlags, skip_mapped: bool, zeroed: bool) -> (job: MapJob)
        requires
            range.wf(),
        ensures
            job.wf(),
            job.todo() == range.todo(),
            job.page_flags() == flags,
            job.skips_mapped() == skip_mapped,
            job.zeroes() == zeroed,
    {
        MapJob { range, flags, skip_mapped, zeroed }
    }

    fn place(&self, fa: &mut BitmapFrameAllocator, page: u64) -> (action: PageAction)
        requires
            old(fa).wf(),
        ensures
            final(fa).wf(),
            final(fa).usable() == old(fa).usable(),
            places(page, self.page_flags(), self.zeroes(), old(fa)@, action, final(fa)@),
    {
        match fa.allocate_frame() {
            Some(frame) => PageAction::Place(
                MapRequest { page, frame, flags: self.flags, zeroed: self.zeroed },
            ),
            None => PageAction::Failed(PageFailure::NoFrame),
        }
    }

    /// The first action.
    pub fn start(&self, fa: &mut BitmapFrameAllocator) -> (action: PageAction)
        requires
            self.wf(),
            old(fa).wf(),
        ensures
            final(fa).wf(),
            final(fa).usable() == old(fa).usable(),
            self.asks(old(fa)@, action, final(fa)@),
    {
        match self.range.current() {
            None => PageAction::Finished,
            Some(page) => if self.skip_mapped {
                PageAction::Translate(page)
            } else {
                self.place(fa, page)
            },
        }
    }

    /// The current page was looked up.
    pub fn on_translated(&mut self, fa: &mut BitmapFrameAllocator, mapped: bool) -> (action:
        PageAction)
        requires
            old(self).wf(),
            old(self).todo().len() > 0,
            old(fa).wf(),
        ensures
            final(self).wf(),
            final(fa).wf(),
            final(fa).usable() == old(fa).usable(),
            old(self).after_translated(mapped, old(fa)@, *final(self), action, final(fa)@),
    {
        if mapped {
            self.range.advance();
            self.start(fa)
        } else {
            match self.range.current() {
                Some(page) => self.place(fa, page),
                None => PageAction::Finished,
            }
        }
    }

    /// The page tables answered the last [`MapRequest`].
    pub fn on_mapped(&mut self, fa: &mut BitmapFrameAllocator, outcome: MapOutcome) -> (action:
        PageAction)
        requires
            old(self).wf(),
            old(self).todo().len() > 0,
            old(fa).wf(),
        ensures
            final(self).wf(),
            final(fa).wf(),
            final(fa).usable() == old(fa).usable(),
            old(self).after_mapped(outcome, old(fa)@, *final(self), action, final(fa)@),
    {
        match outcome {
            MapOutcome::Mapped => {
                self.range.advance();
                self.start(fa)
            },
            _ => PageAction::Failed(PageFailure::MapTo),
        }
    }
}

/// Takes pages out of the page tables and gives their frames back.
#[derive(Clone, Copy, Debug)]
pub struct UnmapJob {
    next: u64,
    end: u64,
    check_mapped: bool,
}

/// The addresses `start`, `start + 4096`, ... below `end`.
pub open spec fn page_steps(start: u64, end: u64) -> Seq<u64> {
    if start < end {
        Seq::new(((end - start + 4095) / 4096) as nat, |i: int| (start + i * 4096) as u64)
    } else {
        Seq::empty()
    }
}

impl UnmapJob {
    pub closed spec fn wf(&self) -> bool {
        self.end <= 0x1_0000_0000_0000
    }

    /// The pages still to be unmapped, the current one first.
    pub closed spec fn todo(&self) -> Seq<u64> {
        page_steps(self.next, self.end)
    }

    /// Pages are looked up first, and only mapped ones are unmapped.
    pub closed spec fn checks_mapped(&self) -> bool {
        self.check_mapped
    }

    /// What the job asks for when it stands on its current page.
    pub open spec fn asks(&self) -> PageAction {
        if self.todo().len() == 0 {
            PageAction::Finished
        } else if self.checks_mapped() {
            PageAction::Translate(self.todo()[0])
        } else {
            PageAction::Unmap(self.todo()[0])
        }
    }

    /// A job for `start`, `start + 4096`, ... below `end`.
    pub fn new(start: u64, end: u64, check_mapped: bool) -> (job: UnmapJob)
        requires
            end <= 0x1_0000_0000_0000,
        ensures
            job.wf(),
            job.todo() == page_steps(start, end),
            job.checks_mapped() == check_mapped,
    {
        UnmapJob { next: start, end, check_mapped }
    }

    /// The first action.
    pub fn start(&self) -> (action: PageAction)
        requires
            self.wf(),
        ensures
            action == self.asks(),
    {
        if self.next >= self.end {
            PageAction::Finished
        } else if self.check_mapped {
            assert(self.todo()[0] == self.next);
            PageAction::Translate(self.next)
        } else {
            assert(self.todo()[0] == self.next);
            PageAction::Unmap(self.next)
        }
    }

    fn advance(&mut self)
        requires
            old(self).wf(),
            old(self).todo().len() > 0,
        ensures
            final(self).wf(),
            final(self).checks_mapped() == old(self).checks_mapped(),
            final(self).todo() == old(self).todo().drop_first(),
    {
        self.next = self.next + PAGE_SIZE;
        assert(self.todo() =~= old(self).todo().drop_first());
    }

    /// The current page was looked up.
    pub fn on_translated(&mut self, mapped: bool) -> (action: PageAction)
        requires
            old(self).wf(),
            old(self).todo().len() > 0,
        ensures
            final(self).wf(),
            final(self).checks_mapped() == old(self).checks_mapped(),
            if mapped {
                &&& final(self).todo() == old(self).todo()
                &&& action == PageAction::Unmap(old(self).todo()[0])
            } else {
                &&& final(self).todo() == old(self).todo().drop_first()
                &&& action == final(self).asks()
            },
            old(self).checks_mapped() ==> unmap_looked_up(
                old(self).todo(),
                mapped,
                final(self).todo(),
                action,
            ),
    {
        if mapped {
            assert(self.todo()[0] == self.next);
            PageAction::Unmap(self.next)
        } else {
            self.advance();
            self.start()
        }
    }

    /// The page tables gave up the current page; `freed` is the frame that backed it, or `None`
    /// where there was nothing to unmap. Either way the walk goes on.
    pub fn on_unmapped(&mut self, fa: &mut BitmapFrameAllocator, freed: Option<u64>) -> (action:
        PageAction)
        requires
            old(self).wf(),
            old(self).todo().len() > 0,
            old(fa).wf(),
        ensures
            final(self).wf(),
            final(self).checks_mapped() == old(self).checks_mapped(),
            final(self).todo() == old(self).todo().drop_first(),
            action == final(self).asks(),
            final(fa).wf(),
            final(fa).usable() == old(fa).usable(),
            final(fa)@ == frames_after_unmap(old(fa)@, freed),
            unmap_done(old(self).todo(), old(self).checks_mapped(), final(self).todo(), action),
    {
        unmap_4k_and_free_bitmap(fa, freed);
        self.advance();
        self.start()
    }
}

/// How an unmapping job goes on once its current page was looked up.
pub open spec fn unmap_looked_up(
    todo: Seq<u64>,
    mapped: bool,
    todo2: Seq<u64>,
    action: PageAction,
) -> bool {
    if mapped {
        todo2 == todo && action == PageAction::Unmap(todo[0])
    } else {
        &&& todo2 == todo.drop_first()
        &&& action == (if todo2.len() == 0 {
            PageAction::Finished
        } else {
            PageAction::Translate(todo2[0])
        })
    }
}

/// How an unmapping job goes on once its current page was unmapped.
pub open spec fn unmap_done(
    todo: Seq<u64>,
    checks: bool,
    todo2: Seq<u64>,
    action: PageAction,
) -> bool {
    &&& todo2 == todo.drop_first()
    &&& action == (if todo2.len() == 0 {
        PageAction::Finished
    } else if checks {
        PageAction::Translate(todo2[0])
    } else {
        PageAction::Unmap(todo2[0])
    })
}

/// The free frames once the frame of an unmapped page went back.
pub open spec fn frames_after_unmap(before: Set<int>, freed: Option<u64>) -> Set<int> {
    match freed {
        Some(frame) => after_release(before, frame as int / PAGE_SIZE as int),
        None => before,
    }
}

/// Returns the backing frame of an unmapped page to the bitmap allocator; a failed unmap frees
/// nothing.
pub fn unmap_4k_and_free_bitmap(bitmap: &mut BitmapFrameAllocator, freed: Option<u64>)
    requires
        old(bitmap).wf(),
    ensures
        final(bitmap).wf(),
        final(bitmap).usable() == old(bitmap).usable(),
        final(bitmap)@ == frames_after_unmap(old(bitmap)@, freed),
{
    if let Some(frame) = freed {
        bitmap.deallocate_frame(frame);
    }
}

/// The request that maps the page holding `virt` to the frame holding `phys`.
pub fn map_to_phys_4k(virt: u64, phys: u64, flags: PageFlags) -> (req: MapRequest)
    requires
        is_canonical(virt),
    ensures
        req == (MapRequest { page: page_of(virt), frame: page_of(phys), flags, zeroed: false }),
{
    MapRequest { page: page_containing(virt), frame: phys - phys % PAGE_SIZE, flags, zeroed: false }
}

/// Physical address of the VGA text buffer.
pub const VGA_TEXT_BUFFER: u64 = 0xb8000;

/// The mapping of the VGA text buffer in the offset window.
pub open spec fn vga_request(offset: u64) -> MapRequest {
    MapRequest {
        page: page_of(virt_addr_of((offset + VGA_TEXT_BUFFER) as u64)->0),
        frame: VGA_TEXT_BUFFER,
        flags: PageFlags {
            present: true,
            writable: true,
            user_accessible: false,
            no_execute: true,
        },
        zeroed: false,
    }
}

/// Asks for the VGA text buffer in the offset window.
pub fn init(m: &PhysicalMemory) -> (req: MapRequest)
    requires
        m.allocator is Some,
        m.offset + VGA_TEXT_BUFFER <= u64::MAX,
        virt_addr_of((m.offset + VGA_TEXT_BUFFER) as u64) is Some,
    ensures
        req == vga_request(m.offset),
{
    let flags = PageFlags {
        present: true,
        writable: true,
        user_accessible: false,
        no_execute: true,
    };
    let virt = virt_addr(crate::memory::phys_to_virt(m, VGA_TEXT_BUFFER)).unwrap();
    map_to_phys_4k(virt, VGA_TEXT_BUFFER, flags)
}

/// The text buffer can be written to: its page was mapped just now, or before.
pub open spec fn buffer_is_there(outcome: MapOutcome) -> bool {
    outcome != MapOutcome::Failed
}

/// Whether the VGA text buffer can be used after [`init`]'s request: it can when it was mapped now
/// or before.
pub fn vga_text_buffer_mapped(outcome: MapOutcome) -> (ok: bool)
    ensures
        ok <==> outcome != MapOutcome::Failed,
        ok <==> buffer_is_there(outcome),
{
    match outcome {
        MapOutcome::Failed => false,
        _ => true,
    }
}

/// A mapping job at the moment it asked for `action`.
pub struct MapMoment {
    pub job: MapJob,
    pub action: PageAction,
}

/// `b` can come right after `a`, whatever the page tables answered and whatever else took frames
/// in between.
pub open spec fn follows(a: MapMoment, b: MapMoment) -> bool {
    match a.action {
        PageAction::Translate(_) => exists|mapped: bool, before: Set<int>, after: Set<int>|
            a.job.after_translated(mapped, before, b.job, b.action, after),
        PageAction::Place(_) => exists|outcome: MapOutcome, before: Set<int>, after: Set<int>|
            a.job.after_mapped(outcome, before, b.job, b.action, after),
        _ => false,
    }
}

/// Moment `i + 1` of a run can come right after moment `i`.
pub open spec fn is_step(run: Seq<MapMoment>, i: int) -> bool {
    follows(run[i], run[i + 1])
}

/// `run` is what a job can go through from its start on.
pub open spec fn is_run(job: MapJob, run: Seq<MapMoment>) -> bool {
    &&& run.len() > 0
    &&& run[0].job == job
    &&& exists|before: Set<int>, after: Set<int>| job.asks(before, run[0].action, after)
    &&& forall|i: int| 0 <= i < run.len() - 1 ==> #[trigger] is_step(run, i)
}

/// The moment is about the job's current page.
spec fn on_page(m: MapMoment) -> bool {
    match m.action {
        PageAction::Translate(p) => m.job.skips_mapped() && m.job.todo().len() > 0 && p
            == m.job.todo()[0],
        PageAction::Place(req) => m.job.todo().len() > 0 && req.page == m.job.todo()[0] && req.flags
            == m.job.page_flags() && req.zeroed == m.job.zeroes(),
        PageAction::Unmap(_) => false,
        PageAction::Finished => m.job.todo().len() == 0,
        PageAction::Failed(_) => true,
    }
}

proof fn lemma_follows(a: MapMoment, b: MapMoment)
    requires
        follows(a, b),
        on_page(a),
    ensures
        on_page(b),
        b.job.same_settings(a.job),
        a.job.todo().len() > 0,
        b.job.todo() == a.job.todo() || b.job.todo() == a.job.todo().drop_first(),
        !a.job.skips_mapped() && !(b.action is Failed) ==> b.job.todo()
            == a.job.todo().drop_first(),
        b.job.skips_mapped() && b.action is Place ==> a.action is Translate && b.job.todo()
            == a.job.todo(),
        a.job.skips_mapped() && a.action is Place && !(b.action is Failed) ==> b.job.todo()
            == a.job.todo().drop_first(),
{
}

/// The pages left at every moment of a run are the pages from some number `n` on.
proof fn lemma_run(job: MapJob, run: Seq<MapMoment>, i: int) -> (n: int)
    requires
        is_run(job, run),
        0 <= i < run.len(),
    ensures
        0 <= n <= job.todo().len(),
        run[i].job.todo() == job.todo().skip(n),
        run[i].job.same_settings(job),
        on_page(run[i]),
        !job.skips_mapped() && !(run[i].action is Failed) ==> n == i,
    decreases i,
{
    if i == 0 {
        assert(job.todo().skip(0) =~= job.todo());
        0
    } else {
        let m = lemma_run(job, run, i - 1);
        let a = run[i - 1];
        let b = run[i];
        assert(is_step(run, i - 1));
        lemma_follows(a, b);
        assert(a.job.todo().drop_first() =~= job.todo().skip(m + 1));
        if !job.skips_mapped() && a.action is Failed {
            assert(false);
        }
        if b.job.todo() == a.job.todo() {
            m
        } else {
            m + 1
        }
    }
}

/// `page` was looked up before moment `i`.
spec fn looked_up(run: Seq<MapMoment>, i: int, page: u64) -> bool {
    exists|j: int| 0 <= j < i && (#[trigger] run[j]).action == PageAction::Translate(page)
}

/// Every page that the job has left behind, or asks to map, was looked up.
proof fn lemma_looked_up(job: MapJob, run: Seq<MapMoment>, i: int) -> (n: int)
    requires
        is_run(job, run),
        job.skips_mapped(),
        0 <= i < run.len(),
    ensures
        0 <= n <= job.todo().len(),
        run[i].job.todo() == job.todo().skip(n),
        forall|k: int| 0 <= k < n ==> looked_up(run, i, #[trigger] job.todo()[k]),
        run[i].action is Place ==> n < job.todo().len() && looked_up(run, i, job.todo()[n]),
    decreases i,
{
    if i == 0 {
        lemma_run(job, run, 0)
    } else {
        let m = lemma_looked_up(job, run, i - 1);
        let a = run[i - 1];
        let b = run[i];
        let n0 = lemma_run(job, run, i - 1);
        assert(is_step(run, i - 1));
        lemma_follows(a, b);
        assert(a.job.todo().drop_first() =~= job.todo().skip(m + 1));
        assert(a.job.todo()[0] == job.todo()[m]);
        assert forall|k: int| 0 <= k < m implies looked_up(run, i, #[trigger] job.todo()[k]) by {
            assert(looked_up(run, i - 1, job.todo()[k]));
        }
        if a.action is Translate {
            assert(run[i - 1].action == PageAction::Translate(job.todo()[m]));
        }
        assert(looked_up(run, i, job.todo()[m]));
        if b.job.todo() == a.job.todo() {
            m
        } else {
            m + 1
        }
    }
}

/// A job that maps every page and finishes has asked for exactly one mapping per page of its
/// range, in address order.
pub proof fn law_map_job_places_every_page(job: MapJob, run: Seq<MapMoment>)
    requires
        is_run(job, run),
        !job.skips_mapped(),
        run.last().action == PageAction::Finished,
    ensures
        run.len() == job.todo().len() + 1,
        forall|i: int|
            0 <= i < job.todo().len() ==> (#[trigger] run[i].action matches PageAction::Place(req)
                && req.page == job.todo()[i] && req.flags == job.page_flags() && req.zeroed
                == job.zeroes()),
{
    let last = lemma_run(job, run, run.len() - 1);
    assert forall|i: int| 0 <= i < job.todo().len() implies (
    #[trigger] run[i].action matches PageAction::Place(req) && req.page == job.todo()[i] && req.flags
        == job.page_flags() && req.zeroed == job.zeroes()) by {
        let n = lemma_run(job, run, i);
        assert(is_step(run, i));
        assert(n == i);
    }
}

/// A job that leaves mapped pages alone and finishes has looked up every page of its range.
pub proof fn law_map_job_visits_every_page(job: MapJob, run: Seq<MapMoment>, k: int)
    requires
        is_run(job, run),
        job.skips_mapped(),
        run.last().action == PageAction::Finished,
        0 <= k < job.todo().len(),
    ensures
        exists|j: int|
            0 <= j < run.len() && #[trigger] run[j].action == PageAction::Translate(job.todo()[k]),
{
    lemma_run(job, run, run.len() - 1);
    let n = lemma_looked_up(job, run, run.len() - 1);
    assert(job.todo().skip(n).len() == 0);
    assert(looked_up(run, run.len() - 1, job.todo()[k]));
}

/// Whatever the page tables answer, a job only ever asks to map pages of its range, with the flags
/// it was made with; and one that leaves mapped pages alone has looked the page up before.
pub proof fn law_map_job_stays_in_range(job: MapJob, run: Seq<MapMoment>, i: int, req: MapRequest)
    requires
        is_run(job, run),
        0 <= i < run.len(),
        run[i].action == PageAction::Place(req),
    ensures
        job.todo().contains(req.page),
        req.flags == job.page_flags(),
        job.skips_mapped() ==> exists|j: int|
            0 <= j < i && #[trigger] run[j].action == PageAction::Translate(req.page),
{
    let n = lemma_run(job, run, i);
    assert(job.todo().skip(n)[0] == job.todo()[n]);
    if job.skips_mapped() {
        let m = lemma_looked_up(job, run, i);
        assert(job.todo().skip(m)[0] == job.todo()[m]);
    }
}

/// The page of an address starts at a multiple of 4096, at or below the address, and ends above it.
pub proof fn law_page_holds_address(addr: u64)
    ensures
        page_of(addr) % 4096 == 0,
        page_of(addr) <= addr < page_of(addr) + 4096,
{
}

/// An address stands for the canonical one with the same low 48 bits; a canonical one stands for
/// itself; and only addresses with other bits above bit 47 stand for none.
pub proof fn law_canonical_address(addr: u64)
    ensures
        addr < 0x8000_0000_0000 || 0xffff_8000_0000_0000 <= addr ==> virt_addr_of(addr) == Some(addr),
        virt_addr_of(addr) matches Some(v) ==> (v < 0x8000_0000_0000 || 0xffff_8000_0000_0000 <= v)
            && (v as int - addr as int) % 0x1_0000_0000_0000 == 0,
        virt_addr_of(addr) is None <==> 0x1_0000_0000_0000 <= addr < 0xffff_8000_0000_0000,
{
}

/// The pages of a range are exactly those of the addresses from its first to its last page, in
/// ascending order.
pub proof fn law_range_holds_its_pages(first: u64, last: u64, i: int, j: int)
    requires
        is_canonical(first) && first % 4096 == 0,
        is_canonical(last) && last % 4096 == 0,
        first <= last,
        0 <= i < j < pages_between(first, last).len(),
    ensures
        pages_between(first, last)[0] == first,
        pages_between(first, last).last() == last,
        pages_between(first, last)[i] < pages_between(first, last)[j],
        pages_between(first, last)[i] % 4096 == 0,
        j == i + 1 && pages_between(first, last)[i] != 0x7fff_ffff_f000 ==> pages_between(
            first,
            last,
        )[j] == pages_between(first, last)[i] + 4096,
        j == i + 1 && pages_between(first, last)[i] == 0x7fff_ffff_f000 ==> pages_between(
            first,
            last,
        )[j] == 0xffff_8000_0000_0000,
{
}

/// A page below the gap is in a range exactly if it lies between the ends.
pub proof fn law_range_membership(first: u64, last: u64, page: u64)
    requires
        first % 4096 == 0,
        last % 4096 == 0,
        last < 0x8000_0000_0000,
    ensures
        pages_between(first, last).contains(page) <==> page % 4096 == 0 && first <= page <= last,
{
    let pages = pages_between(first, last);
    if page % 4096 == 0 && first <= page <= last {
        let i = (page - first) / 4096;
        assert(pages[i] == page);
    }
    if pages.contains(page) {
        let i = choose|i: int| 0 <= i < pages.len() && pages[i] == page;
        assert(page == first + 4096 * i);
    }
}

/// The steps of a walk are exactly the addresses from `start` on, below `end`, that are whole pages
/// away from `start`; in ascending order.
pub proof fn law_walk_membership(start: u64, end: u64, addr: u64, i: int, j: int)
    ensures
        page_steps(start, end).contains(addr) <==> start <= addr < end && (addr - start) % 4096 == 0,
        0 <= i < j < page_steps(start, end).len() ==> page_steps(start, end)[j] == page_steps(
            start,
            end,
        )[i] + 4096 * (j - i),
{
    let steps = page_steps(start, end);
    if start <= addr < end && (addr - start) % 4096 == 0 {
        let k = (addr - start) / 4096;
        assert(steps[k] == addr);
    }
    if steps.contains(addr) {
        let k = choose|k: int| 0 <= k < steps.len() && steps[k] == addr;
        assert(addr == start + 4096 * k);
    }
}

/// A request for a frame takes the least free frame, for the page it was made for; only without a
/// free frame does it fail.
pub proof fn law_request_takes_least_frame(
    page: u64,
    flags: PageFlags,
    zeroed: bool,
    before: Set<int>,
    action: PageAction,
    after: Set<int>,
    j: int,
)
    requires
        places(page, flags, zeroed, before, action, after),
    ensures
        match action {
            PageAction::Place(req) => {
                &&& req.page == page && req.flags == flags && req.zeroed == zeroed
                &&& req.frame % 4096 == 0
                &&& before.contains(req.frame as int / 4096)
                &&& before.contains(j) ==> req.frame as int / 4096 <= j
                &&& after.contains(j) <==> before.contains(j) && j != req.frame as int / 4096
            },
            _ => {
                &&& action == PageAction::Failed(PageFailure::NoFrame)
                &&& !before.contains(j) && !after.contains(j)
            },
        },
{
}

/// A mapping that the page tables refuse, because the page is mapped already or for any other reason,
/// stops the job: nothing more is asked for and no frame changes hands.
pub proof fn law_refused_mapping_stops_job(
    job: MapJob,
    outcome: MapOutcome,
    before: Set<int>,
    next: MapJob,
    action: PageAction,
    after: Set<int>,
)
    requires
        job.todo().len() > 0,
        job.after_mapped(outcome, before, next, action, after),
    ensures
        outcome is AlreadyMapped || outcome is Failed ==> action == PageAction::Failed(
            PageFailure::MapTo,
        ) && after == before,
        outcome is Mapped ==> next.todo().len() == job.todo().len() - 1 && !(action
            == PageAction::Failed(PageFailure::MapTo)),
        outcome is Mapped && job.todo().len() == 1 ==> action == PageAction::Finished,
{
}

/// A page that is mapped already is passed over by a job that leaves such pages alone, and no frame
/// is taken for it; one that is not mapped gets a frame.
pub proof fn law_mapped_page_is_passed_over(
    job: MapJob,
    mapped: bool,
    before: Set<int>,
    next: MapJob,
    action: PageAction,
    after: Set<int>,
)
    requires
        job.skips_mapped(),
        job.todo().len() > 0,
        job.after_translated(mapped, before, next, action, after),
    ensures
        mapped ==> after == before && next.todo() == job.todo().skip(1),
        mapped && job.todo().len() > 1 ==> action == PageAction::Translate(job.todo()[1]),
        mapped && job.todo().len() == 1 ==> action == PageAction::Finished,
        !mapped && (exists|j: int| before.contains(j)) ==> (action matches PageAction::Place(req)
            && req.page == job.todo()[0] && req.flags == job.page_flags()),
{
    assert(job.todo().drop_first() =~= job.todo().skip(1));
}

/// An unmapped page gives back the frame that backed it, and no other.
pub proof fn law_unmapping_frees_backing_frame(before: Set<int>, frame: u64, j: int)
    ensures
        frames_after_unmap(before, None) == before,
        frames_after_unmap(before, Some(frame)).contains(j) <==> before.contains(j) || (j
            == frame as int / 4096 && 4096 <= frame && frame < 0x1000_0000),
{
}

/// The VGA text buffer lands at its own offset in the window: kernel-only, writable, not executable.
pub proof fn law_vga_buffer_in_window(offset: u64)
    requires
        offset % 4096 == 0,
        offset + 0xb8000 < 0x8000_0000_0000,
    ensures
        vga_request(offset).page == offset + 0xb8000,
        vga_request(offset).frame == 0xb8000,
        vga_request(offset).flags.present && vga_request(offset).flags.writable,
        !vga_request(offset).flags.user_accessible && vga_request(offset).flags.no_execute,
        !vga_request(offset).zeroed,
{
}

/// An unmapping job goes through its pages one by one: a page that is looked up and mapped is unmapped
/// next; one that is not mapped is passed over; after each page comes the next, and after the last the
/// end.
pub proof fn law_unmap_job_goes_page_by_page(
    todo: Seq<u64>,
    mapped: bool,
    checks: bool,
    todo2: Seq<u64>,
    action: PageAction,
)
    requires
        todo.len() > 0,
    ensures
        unmap_looked_up(todo, mapped, todo2, action) && mapped ==> action == PageAction::Unmap(todo[0])
            && todo2.len() == todo.len(),
        unmap_looked_up(todo, mapped, todo2, action) && !mapped && todo.len() > 1 ==> action
            == PageAction::Translate(todo[1]),
        unmap_done(todo, checks, todo2, action) && todo.len() > 1 ==> action == (if checks {
            PageAction::Translate(todo[1])
        } else {
            PageAction::Unmap(todo[1])
        }),
        (unmap_done(todo, checks, todo2, action) || (unmap_looked_up(todo, mapped, todo2, action)
            && !mapped)) ==> todo2 == todo.skip(1) && (todo.len() == 1 ==> action
            == PageAction::Finished),
{
    assert(todo.drop_first() =~= todo.skip(1));
}

/// A page that was mapped already serves the text buffer as well as one that is mapped now.
pub proof fn law_mapped_buffer_serves(outcome: MapOutcome)
    ensures
        outcome == MapOutcome::Mapped || outcome == MapOutcome::AlreadyMapped ==> buffer_is_there(
            outcome,
        ),
        outcome == MapOutcome::Failed ==> !buffer_is_there(outcome),
{
}

/// The next page starts 4096 bytes further on, but for the last page of the lower half, which the first
/// of the upper half follows: it is canonical, and no canonical page lies between.
pub proof fn law_next_page(page: u64, other: u64)
    requires
        is_page(page),
        page < 0xffff_ffff_ffff_f000,
    ensures
        page % 4096 == 0,
        page < 0x8000_0000_0000 || page >= 0xffff_8000_0000_0000,
        page_after_of(page) % 4096 == 0,
        page_after_of(page) < 0x8000_0000_0000 || page_after_of(page) >= 0xffff_8000_0000_0000,
        page < page_after_of(page),
        page < other < page_after_of(page) ==> !is_page(other),
{
}

/// An unmapping job starts with its first page: looked up, where the job checks, else unmapped at once.
/// With no page it is over.
pub proof fn law_unmap_job_starts_at_its_first_page(job: UnmapJob)
    ensures
        job.todo().len() == 0 ==> job.asks() == PageAction::Finished,
        job.todo().len() > 0 && job.checks_mapped() ==> job.asks() == PageAction::Translate(job.todo()[0]),
        job.todo().len() > 0 && !job.checks_mapped() ==> job.asks() == PageAction::Unmap(job.todo()[0]),
{
}

} // verus!
