//! Kernel heap: high virtual range backed by frames from [`crate::memory`].
//!
//! Virtual base [`HEAP_START`] must not collide with the bootloader kernel mapping or the
//! physical-memory offset window layout.

use vstd::prelude::*;

use crate::memory::PAGE_SIZE;
use crate::paging::{page_containing, page_steps, MapJob, PageFlags, PageRange};

verus! {

/// Distinct high window.
pub const HEAP_START: u64 = 0x4444_4444_0000;

pub const HEAP_PAGES: usize = 64;

/// Bytes in the heap.
pub const HEAP_SIZE: usize = 0x4_0000;

/// The job maps the heap.
pub open spec fn maps_heap(job: MapJob) -> bool {
    &&& job.todo() == page_steps(HEAP_START, (HEAP_START + HEAP_PAGES * PAGE_SIZE) as u64)
    &&& job.page_flags() == (PageFlags {
        present: true,
        writable: true,
        user_accessible: false,
        no_execute: true,
    })
    &&& !job.skips_mapped()
}

/// The job that maps [`HEAP_PAGES`] pages of 4 KiB at [`HEAP_START`].
pub fn init() -> (job: MapJob)
    ensures
        job.wf(),
        job.todo() == page_steps(HEAP_START, (HEAP_START + HEAP_PAGES * PAGE_SIZE) as u64),
        job.page_flags() == (PageFlags {
            present: true,
            writable: true,
            user_accessible: false,
            no_execute: true,
        }),
        !job.skips_mapped(),
        !job.zeroes(),
        maps_heap(job),
{
    let flags = PageFlags {
        present: true,
        writable: true,
        user_accessible: false,
        no_execute: true,
    };
    let first: u64 = page_containing(HEAP_START);
    let last: u64 = page_containing(HEAP_START + (HEAP_PAGES as u64 - 1) * PAGE_SIZE);
    let job = MapJob::new(PageRange::new(first, last), flags, false, false);
    assert(job.todo() =~= page_steps(
        HEAP_START,
        (HEAP_START + HEAP_PAGES * PAGE_SIZE) as u64,
    ));
    job
}

/// The heap is exactly its pages.
pub proof fn law_heap_size()
    ensures
        HEAP_SIZE == HEAP_PAGES * PAGE_SIZE,
        page_steps(HEAP_START, (HEAP_START + HEAP_SIZE) as u64).len() == HEAP_PAGES,
{
}

/// Every byte of the heap gets a page of its own frame, out of reach of ring 3, to be written and not
/// run; and no page beyond the heap is mapped.
pub proof fn law_heap_is_mapped(job: MapJob, page: u64)
    requires
        maps_heap(job),
    ensures
        job.todo().contains(page) <==> page % 4096 == 0 && 0x4444_4444_0000 <= page < 0x4444_4444_0000
            + HEAP_SIZE,
        job.todo().len() == 64,
        job.page_flags().present && job.page_flags().writable,
        !job.page_flags().user_accessible && job.page_flags().no_execute,
        !job.skips_mapped(),
{
    crate::paging::law_walk_membership(
        HEAP_START,
        (HEAP_START + HEAP_PAGES * PAGE_SIZE) as u64,
        page,
        0,
        0,
    );
}

} // verus!
