use rockos::boot::{frame_alloc_test, keyboard_is_echoed, keyboard_until};
use rockos::memory::{
    allocate_frame, deallocate_frame, free_frames, init, phys_to_virt, physical_memory_offset,
    total_usable_frames, BitmapFrameAllocator, FrameRegion, PhysicalMemory, FRAME_BITMAP_BITS,
};

fn region(start_frame: u64, end_frame: u64, usable: bool) -> FrameRegion {
    FrameRegion {
        start_frame,
        end_frame,
        usable,
    }
}

#[test]
fn frames_come_from_usable_regions_lowest_first() {
    let map = [region(0, 4, false), region(4, 6, true), region(9, 10, true)];
    let mut fa = BitmapFrameAllocator::new(&map);
    assert_eq!(fa.total_usable_frames(), 3);
    assert_eq!(fa.free_frames(), 3);
    assert_eq!(fa.allocate_frame(), Some(4 * 4096));
    assert_eq!(fa.allocate_frame(), Some(5 * 4096));
    assert_eq!(fa.allocate_frame(), Some(9 * 4096));
    assert_eq!(fa.allocate_frame(), None);
    assert_eq!(fa.free_frames(), 0);
}

#[test]
fn page_zero_and_video_window_are_never_handed_out() {
    let mut fa = BitmapFrameAllocator::new(&[region(0, 0xc2, true)]);
    assert_eq!(fa.total_usable_frames(), 0xc2);
    assert_eq!(fa.free_frames(), 0xc2 - 1 - 0x20);
    let mut handed = Vec::new();
    while let Some(f) = fa.allocate_frame() {
        handed.push(f / 4096);
    }
    assert!(!handed.contains(&0));
    assert!(handed.iter().all(|f| *f < 0xa0 || *f >= 0xc0));
    assert_eq!(handed.len(), 0xc2 - 1 - 0x20);
    assert_eq!(handed.last(), Some(&0xc1));
}

#[test]
fn frames_past_the_bitmap_are_not_counted() {
    let bits = FRAME_BITMAP_BITS as u64;
    let mut fa = BitmapFrameAllocator::new(&[region(bits - 1, bits + 5, true)]);
    assert_eq!(fa.total_usable_frames(), 1);
    assert_eq!(fa.allocate_frame(), Some((bits - 1) * 4096));
    assert_eq!(fa.allocate_frame(), None);
}

#[test]
fn overlapping_regions_count_twice_but_free_once() {
    let fa = BitmapFrameAllocator::new(&[region(10, 12, true), region(11, 13, true)]);
    assert_eq!(fa.total_usable_frames(), 4);
    assert_eq!(fa.free_frames(), 3);
}

#[test]
fn a_released_frame_comes_back_once() {
    let mut fa = BitmapFrameAllocator::new(&[region(8, 10, true)]);
    let a = fa.allocate_frame().unwrap();
    let b = fa.allocate_frame().unwrap();
    assert_ne!(a, b);
    fa.deallocate_frame(a);
    fa.deallocate_frame(a);
    assert_eq!(fa.free_frames(), 1);
    assert_eq!(fa.allocate_frame(), Some(a));
    fa.deallocate_frame(0);
    assert_eq!(fa.free_frames(), 0);
    fa.deallocate_frame((FRAME_BITMAP_BITS as u64) * 4096);
    assert_eq!(fa.free_frames(), 0);
}

#[test]
fn release_undoes_allocation() {
    let mut fa = BitmapFrameAllocator::new(&[region(20, 30, true)]);
    let before = fa.free_frames();
    let f = fa.allocate_frame().unwrap();
    assert_eq!(fa.free_frames(), before - 1);
    fa.deallocate_frame(f);
    assert_eq!(fa.free_frames(), before);
    assert_eq!(fa.allocate_frame(), Some(f));
}

#[test]
fn physical_memory_before_and_after_boot() {
    let mut early = PhysicalMemory {
        offset: 0,
        allocator: None,
    };
    assert_eq!(allocate_frame(&mut early), None);
    assert_eq!(free_frames(&early), 0);
    assert_eq!(total_usable_frames(&early), 0);
    deallocate_frame(&mut early, 0x5000);
    assert_eq!(free_frames(&early), 0);

    let mut m = init(&[region(16, 18, true)], 0x1000_0000);
    assert_eq!(physical_memory_offset(&m), 0x1000_0000);
    assert_eq!(phys_to_virt(&m, 0xb8000), 0x100b_8000);
    assert_eq!(allocate_frame(&mut m), Some(0x10000));
    assert_eq!(free_frames(&m), 1);
    deallocate_frame(&mut m, 0x10000);
    assert_eq!(free_frames(&m), 2);
    assert_eq!(total_usable_frames(&m), 2);
}

#[test]
fn frame_test_restores_the_allocator() {
    let mut m = init(&[region(3, 9, true)], 0);
    let t = frame_alloc_test(&mut m).unwrap();
    assert_eq!((t.first, t.second), (0x3000, 0x4000));
    assert_eq!((t.free_before, t.free_during, t.free_after), (6, 4, 6));
    assert_eq!(free_frames(&m), 6);
    assert_eq!(frame_alloc_test(&mut m), Some(t));

    let mut one = init(&[region(3, 4, true)], 0);
    assert_eq!(frame_alloc_test(&mut one), None);
    assert_eq!(free_frames(&one), 0);
}

#[test]
fn keyboard_window_is_five_seconds() {
    assert_eq!(keyboard_until(7), 507);
    assert!(keyboard_is_echoed(9, 10));
    assert!(!keyboard_is_echoed(10, 10));
}
