use rockos::bytes::{push_u64, push_zeros, read_u16, read_u32, read_u64};
use rockos::errno::{
    EAGAIN, EBADF, EFAULT, EINVAL, ENOENT, ENOEXEC, ENOMEM, ENOSPC, ENOSYS,
};
use rockos::process::{USER_BRK_BASE, USER_BRK_LIMIT, USER_MMAP_BASE, USER_MMAP_LIMIT};
use rockos::task::{
    current_kstack_top, set_current_kstack_top, AlignedKstack, CurrentKstack, CHILD_STACK_LO,
    USER_STACK_CHILD_TOP,
};
use rockos::user::{
    set_user_entry, set_user_image_end, set_user_rw_image_start, user_region_is_readable_range,
    user_region_is_writable_range, UserImage, USER_STACK_TOP, USER_TEXT_BASE,
};

#[test]
fn numbers_are_little_endian() {
    let s = [0xff, 0x01, 0x02, 0x03, 0x04, 0x05, 0x06, 0x07, 0x08];
    assert_eq!(read_u16(&s, 1), 0x0201);
    assert_eq!(read_u32(&s, 1), 0x0403_0201);
    assert_eq!(read_u64(&s, 1), 0x0807_0605_0403_0201);
    assert_eq!(read_u16(&s, 0), 0x01ff);
}

#[test]
fn pushed_numbers_are_read_back() {
    for x in [0, 1, 0xff, 0x0123_4567_89ab_cdef, u64::MAX] {
        let mut v = vec![9, 9, 9];
        push_u64(&mut v, x);
        push_zeros(&mut v, 2);
        assert_eq!(v.len(), 13);
        assert_eq!(read_u64(&v, 3), x);
        assert_eq!(&v[3..11], &x.to_le_bytes());
        assert_eq!(&v[11..], &[0, 0]);
    }
}

#[test]
fn error_numbers() {
    let list = [
        (ENOENT, 2),
        (ENOEXEC, 8),
        (EBADF, 9),
        (EAGAIN, 11),
        (ENOMEM, 12),
        (EFAULT, 14),
        (EINVAL, 22),
        (ENOSPC, 28),
        (ENOSYS, 38),
    ];
    for (e, n) in list {
        assert_eq!(e, (-n as i64) as u64);
    }
}

#[test]
fn user_layout() {
    let edges = [
        USER_TEXT_BASE,
        USER_TEXT_BASE + 0x1000,
        USER_STACK_TOP,
        CHILD_STACK_LO + 0x1000,
        USER_BRK_BASE,
        USER_BRK_LIMIT,
        USER_MMAP_LIMIT,
    ];
    assert!(edges.windows(2).all(|w| w[0] < w[1]));
    assert_eq!(USER_STACK_CHILD_TOP, CHILD_STACK_LO + 0x1000);
    assert_eq!(USER_BRK_LIMIT, USER_MMAP_BASE);
}

#[test]
fn kernel_stack_tops() {
    let stack = AlignedKstack::new(0x7000);
    assert_eq!(stack.base, 0x7000);
    assert_eq!(stack.bytes, vec![0u8; 4096]);
    assert_eq!(stack.top_ptr(), 0x8000);
    let mut k = CurrentKstack { top: 0 };
    set_current_kstack_top(&mut k, 0x8000);
    assert_eq!(current_kstack_top(&k), 0x8000);
}

#[test]
fn user_image_fields() {
    let mut u = UserImage::new();
    assert_eq!((u.entry_rip, u.image_end, u.rw_start), (0x400000, 0x401000, 0x401000));
    set_user_entry(&mut u, 1);
    set_user_image_end(&mut u, 2);
    set_user_rw_image_start(&mut u, 3);
    assert_eq!((u.entry_rip, u.image_end, u.rw_start), (1, 2, 3));
}

#[test]
fn what_can_be_written_can_be_read() {
    for addr in (0x3fff00..0x402100u64).step_by(0x40) {
        for len in [0, 1, 0x40, 0x1000] {
            if user_region_is_writable_range(addr, len) {
                assert!(user_region_is_readable_range(addr, len));
            }
        }
    }
}
