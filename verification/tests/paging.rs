use rockos::heap;
use rockos::memory::{init, BitmapFrameAllocator, FrameRegion};
use rockos::paging::{
    self, map_to_phys_4k, unmap_4k_and_free_bitmap, vga_text_buffer_mapped, MapJob, MapOutcome,
    PageAction, PageFailure, PageFlags, PageRange, UnmapJob,
};

fn frames(start_frame: u64, end_frame: u64) -> BitmapFrameAllocator {
    BitmapFrameAllocator::new(&[FrameRegion {
        start_frame,
        end_frame,
        usable: true,
    }])
}

fn flags() -> PageFlags {
    PageFlags {
        present: true,
        writable: true,
        user_accessible: false,
        no_execute: true,
    }
}

fn walk(first: u64, last: u64) -> Vec<u64> {
    let mut r = PageRange::new(first, last);
    let mut pages = Vec::new();
    while let Some(p) = r.current() {
        pages.push(p);
        r.advance();
    }
    pages
}

#[test]
fn ranges_walk_page_by_page() {
    assert_eq!(walk(0x1000, 0x3000), vec![0x1000, 0x2000, 0x3000]);
    assert_eq!(walk(0x3000, 0x3000), vec![0x3000]);
    assert_eq!(walk(0x3000, 0x1000), Vec::<u64>::new());
}

#[test]
fn ranges_cross_to_the_upper_half() {
    assert_eq!(
        walk(0x7fff_ffff_f000, 0xffff_8000_0000_0000),
        vec![0x7fff_ffff_f000, 0xffff_8000_0000_0000]
    );
    assert_eq!(
        walk(0xffff_ffff_ffff_f000, 0xffff_ffff_ffff_f000),
        vec![0xffff_ffff_ffff_f000]
    );
}

#[test]
fn a_job_maps_every_page_in_order() {
    let mut fa = frames(5, 9);
    let mut job = MapJob::new(PageRange::new(0x1000, 0x2000), flags(), false, true);
    let mut action = job.start(&mut fa);
    let mut seen = Vec::new();
    while let PageAction::Place(req) = action {
        assert_eq!(req.flags, flags());
        assert!(req.zeroed);
        seen.push((req.page, req.frame));
        action = job.on_mapped(&mut fa, MapOutcome::Mapped);
    }
    assert_eq!(action, PageAction::Finished);
    assert_eq!(seen, vec![(0x1000, 0x5000), (0x2000, 0x6000)]);
    assert_eq!(fa.free_frames(), 2);
}

#[test]
fn a_job_leaves_mapped_pages_alone() {
    let mut fa = frames(5, 9);
    let mut job = MapJob::new(PageRange::new(0x1000, 0x2000), flags(), true, false);
    assert_eq!(job.start(&mut fa), PageAction::Translate(0x1000));
    assert_eq!(job.on_translated(&mut fa, true), PageAction::Translate(0x2000));
    match job.on_translated(&mut fa, false) {
        PageAction::Place(req) => {
            assert_eq!((req.page, req.frame), (0x2000, 0x5000));
            assert!(!req.zeroed);
        }
        other => panic!("{other:?}"),
    }
    assert_eq!(job.on_mapped(&mut fa, MapOutcome::Mapped), PageAction::Finished);
}

#[test]
fn a_job_fails_without_frames_or_page_tables() {
    let mut none = frames(5, 5);
    let job = MapJob::new(PageRange::new(0x1000, 0x2000), flags(), false, false);
    assert_eq!(
        job.start(&mut none),
        PageAction::Failed(PageFailure::NoFrame)
    );

    let mut fa = frames(5, 9);
    for outcome in [MapOutcome::AlreadyMapped, MapOutcome::Failed] {
        let mut job = MapJob::new(PageRange::new(0x1000, 0x2000), flags(), false, false);
        let free = fa.free_frames();
        job.start(&mut fa);
        assert_eq!(
            job.on_mapped(&mut fa, outcome),
            PageAction::Failed(PageFailure::MapTo)
        );
        // The frame that was asked for is not given back.
        assert_eq!(fa.free_frames(), free - 1);
    }
}

#[test]
fn an_empty_job_is_finished() {
    let mut fa = frames(5, 9);
    let job = MapJob::new(PageRange::new(0x2000, 0x1000), flags(), false, false);
    assert_eq!(job.start(&mut fa), PageAction::Finished);
    assert_eq!(UnmapJob::new(0x2000, 0x2000, false).start(), PageAction::Finished);
}

#[test]
fn unmapping_gives_frames_back() {
    let mut fa = frames(5, 7);
    let a = fa.allocate_frame().unwrap();
    let mut job = UnmapJob::new(0x1000, 0x3001, false);
    assert_eq!(job.start(), PageAction::Unmap(0x1000));
    assert_eq!(job.on_unmapped(&mut fa, Some(a)), PageAction::Unmap(0x2000));
    assert_eq!(fa.free_frames(), 2);
    assert_eq!(job.on_unmapped(&mut fa, None), PageAction::Unmap(0x3000));
    assert_eq!(fa.free_frames(), 2);
    assert_eq!(job.on_unmapped(&mut fa, None), PageAction::Finished);
}

#[test]
fn unmapping_can_look_first() {
    let mut fa = frames(5, 7);
    let mut job = UnmapJob::new(0x1000, 0x3000, true);
    assert_eq!(job.start(), PageAction::Translate(0x1000));
    assert_eq!(job.on_translated(false), PageAction::Translate(0x2000));
    assert_eq!(job.on_translated(true), PageAction::Unmap(0x2000));
    assert_eq!(job.on_unmapped(&mut fa, Some(0x6000)), PageAction::Finished);
}

#[test]
fn a_failed_unmap_frees_nothing() {
    let mut fa = frames(5, 7);
    let a = fa.allocate_frame().unwrap();
    unmap_4k_and_free_bitmap(&mut fa, None);
    assert_eq!(fa.free_frames(), 1);
    unmap_4k_and_free_bitmap(&mut fa, Some(a));
    assert_eq!(fa.free_frames(), 2);
}

#[test]
fn requests_are_page_aligned() {
    let req = map_to_phys_4k(0x401fff, 0x7abc, flags());
    assert_eq!((req.page, req.frame), (0x401000, 0x7000));
}

#[test]
fn vga_buffer_is_mapped_in_the_offset_window() {
    let region = FrameRegion {
        start_frame: 1,
        end_frame: 2,
        usable: true,
    };
    let m = init(&[region], 0x1_0000_0000);
    let req = paging::init(&m);
    assert_eq!((req.page, req.frame), (0x1_000b_8000, 0xb8000));
    assert_eq!(req.flags, flags());
    // An offset with bit 47 set has its address extended into the upper half.
    let high = init(&[region], 0x8000_0000_0000);
    assert_eq!(paging::init(&high).page, 0xffff_8000_000b_8000);
    assert!(vga_text_buffer_mapped(MapOutcome::Mapped));
    assert!(vga_text_buffer_mapped(MapOutcome::AlreadyMapped));
    assert!(!vga_text_buffer_mapped(MapOutcome::Failed));
}

#[test]
fn heap_job_covers_the_heap() {
    let mut fa = frames(0x100, 0x200);
    let mut job = heap::init();
    let mut action = job.start(&mut fa);
    let mut pages = Vec::new();
    while let PageAction::Place(req) = action {
        assert_eq!(req.flags, flags());
        pages.push(req.page);
        action = job.on_mapped(&mut fa, MapOutcome::Mapped);
    }
    assert_eq!(pages.len(), heap::HEAP_PAGES);
    assert_eq!(pages[0], heap::HEAP_START);
    assert_eq!(pages[63], 0x4444_4444_0000 + 63 * 4096);
    assert_eq!(heap::HEAP_SIZE, heap::HEAP_PAGES * 4096);
}
