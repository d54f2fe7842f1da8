//! The user half of the address space, as ring 3 sees it.
//!
//! Virtual layout (classic "Unix-ish" low userspace):
//! - **Text** `0x400000`: one executable user page.
//! - **Stack** `0x401000..0x402000`: grows down; `RSP` starts at [`USER_STACK_TOP`].
//!
//! The two pages are adjacent. System calls read and write them through a *window*: a byte slice
//! that starts at [`USER_TEXT_BASE`] and ends at [`USER_STACK_TOP`].

use vstd::prelude::*;

use crate::elf::{ElfError, ExecStart};
use crate::memory::{takes_lowest, BitmapFrameAllocator, PAGE_SIZE};
use crate::paging::{
    map_to_phys_4k, page_containing, MapJob, MapRequest, PageFlags, PageRange, UnmapJob,
};

verus! {

/// User text virtual base (4 KiB).
pub const USER_TEXT_BASE: u64 = 0x400000;

/// One page stack, top just past high end.
pub const USER_STACK_TOP: u64 = 0x402000;

/// Lowest address of the stack page.
pub const USER_STACK_LO: u64 = 0x401000;

/// Bytes in the window from the text page to the top of the stack.
pub const USER_WINDOW: usize = 0x2000;

/// Flags register of a fresh user task: interrupts on, and the bit that is always set.
pub const USER_RFLAGS: u64 = 0x202;

/// Where the current program lives.
#[derive(Clone, Copy, Debug)]
pub struct UserImage {
    /// First instruction.
    pub entry_rip: u64,
    /// One past the highest byte of the image.
    pub image_end: u64,
    /// Lowest writable byte of the image.
    pub rw_start: u64,
}

/// The image before any program was loaded: one page of text.
pub open spec fn empty_image() -> UserImage {
    UserImage {
        entry_rip: USER_TEXT_BASE,
        image_end: (USER_TEXT_BASE + PAGE_SIZE) as u64,
        rw_start: (USER_TEXT_BASE + PAGE_SIZE) as u64,
    }
}

/// The image with another entry.
pub open spec fn with_entry(u: UserImage, entry: u64) -> UserImage {
    UserImage { entry_rip: entry, ..u }
}

/// The image with its writable part from `start` on.
pub open spec fn with_rw_start(u: UserImage, start: u64) -> UserImage {
    UserImage { rw_start: start, ..u }
}

impl UserImage {
    /// The one-page program that the kernel brings along.
    pub fn new() -> (u: UserImage)
        ensures
            u == (UserImage {
                entry_rip: USER_TEXT_BASE,
                image_end: (USER_TEXT_BASE + PAGE_SIZE) as u64,
                rw_start: (USER_TEXT_BASE + PAGE_SIZE) as u64,
            }),
            u == empty_image(),
    {
        UserImage {
            entry_rip: USER_TEXT_BASE,
            image_end: USER_TEXT_BASE + PAGE_SIZE,
            rw_start: USER_TEXT_BASE + PAGE_SIZE,
        }
    }
}

pub fn set_user_entry(u: &mut UserImage, entry: u64)
    ensures
        *final(u) == (UserImage { entry_rip: entry, ..*old(u) }),
        *final(u) == with_entry(*old(u), entry),
{
    u.entry_rip = entry;
}

pub fn set_user_image_end(u: &mut UserImage, end: u64)
    ensures
        *final(u) == (UserImage { image_end: end, ..*old(u) }),
{
    u.image_end = end;
}

pub fn set_user_rw_image_start(u: &mut UserImage, start: u64)
    ensures
        *final(u) == (UserImage { rw_start: start, ..*old(u) }),
        *final(u) == with_rw_start(*old(u), start),
{
    u.rw_start = start;
}

/// `[addr, addr + len)` lies entirely inside the text page or entirely inside the stack page.
pub open spec fn readable(addr: int, len: int) -> bool {
    ||| USER_TEXT_BASE <= addr && addr + len <= USER_TEXT_BASE + PAGE_SIZE
    ||| USER_STACK_LO <= addr && addr + len <= USER_STACK_TOP
}

/// `[addr, addr + len)` lies entirely inside the stack page; the text page is read-only. System
/// calls write to no other user memory: the heap, mapped regions and the writable part of an ELF
/// image do not count, whatever their processes own.
pub open spec fn writable(addr: int, len: int) -> bool {
    USER_STACK_LO <= addr && addr + len <= USER_STACK_TOP
}

/// Position in the window of a user address.
pub open spec fn window_index(addr: int) -> int {
    addr - USER_TEXT_BASE
}

/// Returns true if `[addr, addr+len)` lies entirely inside the mapped user text or stack page.
pub fn user_region_is_readable_range(addr: u64, len: usize) -> (ok: bool)
    ensures
        ok <==> readable(addr as int, len as int),
{
    match addr.checked_add(len as u64) {
        None => false,
        Some(end) => {
            let in_text = addr >= USER_TEXT_BASE && end <= USER_TEXT_BASE + PAGE_SIZE;
            let in_stack = addr >= USER_STACK_LO && end <= USER_STACK_TOP;
            in_text || in_stack
        },
    }
}

/// Returns true if `[addr, addr+len)` lies entirely inside the mapped user stack page.
pub fn user_region_is_writable_range(addr: u64, len: usize) -> (ok: bool)
    ensures
        ok <==> writable(addr as int, len as int),
{
    match addr.checked_add(len as u64) {
        None => false,
        Some(end) => addr >= USER_STACK_LO && end <= USER_STACK_TOP,
    }
}

/// What can be written can be read.
pub proof fn law_writable_is_readable(addr: int, len: int)
    requires
        writable(addr, len),
    ensures
        readable(addr, len),
{
}

/// A readable range lies inside the window.
pub proof fn law_readable_is_in_window(addr: int, len: int)
    requires
        readable(addr, len),
    ensures
        0 <= window_index(addr),
        window_index(addr) + len <= USER_WINDOW,
{
}

/// Bytes in the program that the kernel brings along.
pub const USER_BLOB_LEN: usize = 38;

/// Hand-built ring-3 demo: `write(1, msg, 12)` then `hlt` loop (`syscall` / Linux `write`=1).
/// The message follows the code.
pub open spec fn user_blob_bytes() -> Seq<u8> {
    seq![
        0x31u8, 0xc0, 0xff, 0xc0,  // xor eax,eax; inc eax: SYS_WRITE = 1
        0x48, 0x8d, 0x35, 0x0f, 0x00, 0x00, 0x00,  // lea rsi,[rip+0x0f]: the message
        0x48, 0x31, 0xd2,  // xor rdx,rdx
        0x48, 0x83, 0xc2, 0x0c,  // add rdx,12
        0x89, 0xc7, 0x90,  // mov edi,eax (fd 1); nop
        0x0f, 0x05,  // syscall
        0xf4,  // hlt
        0xeb, 0xfe,  // jmp .-0
        0x75, 0x73, 0x65, 0x72, 0x6c, 0x61, 0x6e, 0x64, 0x21, 0x0a, 0x00, 0x00,
    ]
}

/// The program that runs where no ELF image could be loaded.
pub fn user_blob() -> (blob: [u8; USER_BLOB_LEN])
    ensures
        blob@ == user_blob_bytes(),
        blob@.len() <= PAGE_SIZE,
{
    let blob: [u8; USER_BLOB_LEN] = [
        0x31, 0xc0, 0xff, 0xc0,  // xor eax,eax; inc eax: SYS_WRITE = 1
        0x48, 0x8d, 0x35, 0x0f, 0x00, 0x00, 0x00,  // lea rsi,[rip+0x0f]: the message
        0x48, 0x31, 0xd2,  // xor rdx,rdx
        0x48, 0x83, 0xc2, 0x0c,  // add rdx,12
        0x89, 0xc7, 0x90,  // mov edi,eax (fd 1); nop
        0x0f, 0x05,  // syscall
        0xf4,  // hlt
        0xeb, 0xfe,  // jmp .-0
        // "userland!\n"
        0x75, 0x73, 0x65, 0x72, 0x6c, 0x61, 0x6e, 0x64, 0x21, 0x0a, 0x00, 0x00,
    ];
    assert(blob@ =~= user_blob_bytes());
    blob
}

/// The two pages of the program that the kernel brings along.
#[derive(Clone, Copy, Debug)]
pub struct UserPages {
    /// The text page; [`user_blob`] goes to the start of its frame.
    pub text: MapRequest,
    pub stack: MapRequest,
}

/// Text is user-accessible and read-only.
pub open spec fn text_flags() -> PageFlags {
    PageFlags { present: true, writable: false, user_accessible: true, no_execute: false }
}

/// The stack can be written and not executed.
pub open spec fn stack_flags() -> PageFlags {
    PageFlags { present: true, writable: true, user_accessible: true, no_execute: true }
}

/// The pages of the built-in program: text and stack, each with the least free frame.
pub open spec fn takes_two_pages(before: Set<int>, pages: UserPages, after: Set<int>) -> bool {
    let t = pages.text.frame as int / PAGE_SIZE as int;
    let s = pages.stack.frame as int / PAGE_SIZE as int;
    &&& takes_lowest(before, t, before.remove(t))
    &&& takes_lowest(before.remove(t), s, after)
    &&& pages.text.page == USER_TEXT_BASE && pages.stack.page == USER_STACK_LO
    &&& pages.text.flags == text_flags() && pages.stack.flags == stack_flags()
}

/// Allocate user text + stack and ask for their mappings. `None` where a frame is missing.
pub fn map_and_load(fa: &mut BitmapFrameAllocator) -> (pages: Option<UserPages>)
    requires
        old(fa).wf(),
    ensures
        final(fa).wf(),
        final(fa).usable() == old(fa).usable(),
        match pages {
            Some(p) => {
                let t = p.text.frame as int / PAGE_SIZE as int;
                let s = p.stack.frame as int / PAGE_SIZE as int;
                &&& takes_lowest(old(fa)@, t, old(fa)@.remove(t))
                &&& takes_lowest(old(fa)@.remove(t), s, final(fa)@)
                &&& p.text.frame % PAGE_SIZE == 0
                &&& p.stack.frame % PAGE_SIZE == 0
                &&& p.text.page == USER_TEXT_BASE
                &&& p.stack.page == USER_STACK_LO
                &&& p.text.flags == text_flags()
                &&& p.stack.flags == stack_flags()
                &&& !p.text.zeroed
                &&& !p.stack.zeroed
            },
            None => {
                &&& final(fa)@ == Set::<int>::empty()
                &&& old(fa)@ == final(fa)@ || exists|t: int| takes_lowest(old(fa)@, t, final(fa)@)
            },
        },
        pages matches Some(p) ==> takes_two_pages(old(fa)@, p, final(fa)@),
{
    let code_frame = match fa.allocate_frame() {
        Some(f) => f,
        None => {
            return None;
        },
    };
    let ghost mid = fa@;
    let stack_frame = match fa.allocate_frame() {
        Some(f) => f,
        None => {
            return None;
        },
    };
    assert(mid == old(fa)@.remove(code_frame as int / PAGE_SIZE as int));
    let text = map_to_phys_4k(
        USER_TEXT_BASE,
        code_frame,
        PageFlags { present: true, writable: false, user_accessible: true, no_execute: false },
    );
    let stack = map_to_phys_4k(
        USER_STACK_TOP - 1,
        stack_frame,
        PageFlags { present: true, writable: true, user_accessible: true, no_execute: true },
    );
    Some(UserPages { text, stack })
}

/// The program that the first process runs.
#[derive(Clone, Copy, Debug, PartialEq, Eq, Structural)]
pub struct FirstProgram {
    pub entry: u64,
    pub rsp: u64,
    /// It is the built-in program, which still has to be mapped.
    pub built_in: bool,
}

/// The program that the first process runs; `start` is the entry and the stack pointer of the bundled
/// `init`, where that was loaded.
pub open spec fn chosen_program(start: Option<(u64, u64)>) -> FirstProgram {
    match start {
        Some((entry, rsp)) => FirstProgram { entry, rsp, built_in: false },
        None => FirstProgram { entry: USER_TEXT_BASE, rsp: USER_STACK_TOP, built_in: true },
    }
}

/// Prefers the bundled `init`. Where that could not be loaded, the built-in program runs: from the
/// start of the text page, with an empty stack.
pub fn first_program(loaded: &Result<ExecStart, ElfError>) -> (p: FirstProgram)
    ensures
        p == (match *loaded {
            Ok(start) => FirstProgram { entry: start.entry, rsp: start.rsp, built_in: false },
            Err(_) => FirstProgram {
                entry: USER_TEXT_BASE,
                rsp: USER_STACK_TOP,
                built_in: true,
            },
        }),
        *loaded matches Ok(start) ==> p == chosen_program(Some((start.entry, start.rsp))),
        *loaded is Err ==> p == chosen_program(None),
{
    match loaded {
        Ok(start) => FirstProgram { entry: start.entry, rsp: start.rsp, built_in: false },
        Err(_) => FirstProgram { entry: USER_TEXT_BASE, rsp: USER_STACK_TOP, built_in: true },
    }
}

/// The job that clears the text and stack pages for the built-in program, as far as a load that
/// failed has mapped them.
pub fn clear_for_blob() -> (job: UnmapJob)
    ensures
        job.wf(),
        job.todo() == seq![USER_TEXT_BASE, USER_STACK_LO],
        job.checks_mapped(),
{
    let job = UnmapJob::new(USER_TEXT_BASE, USER_STACK_TOP, true);
    assert(job.todo() =~= seq![USER_TEXT_BASE, USER_STACK_LO]);
    job
}

/// The job that gives an ELF program its stack page, unless it has one.
pub fn stack_page_job() -> (job: MapJob)
    ensures
        job.wf(),
        job.todo() == seq![USER_STACK_LO],
        job.page_flags() == stack_flags(),
        job.skips_mapped(),
        !job.zeroes(),
{
    let flags = PageFlags {
        present: true,
        writable: true,
        user_accessible: true,
        no_execute: true,
    };
    let page: u64 = page_containing(USER_STACK_LO);
    let job = MapJob::new(PageRange::new(page, page), flags, true, false);
    assert(job.todo() =~= seq![USER_STACK_LO]);
    job
}

/// What system calls may touch: a range is readable exactly if it lies in one of the two pages at
/// `0x400000` and `0x401000`, and writable exactly if that page is the second. Text page and stack
/// page are readable alike.
pub proof fn law_user_ranges(addr: int, len: int)
    requires
        0 <= len,
    ensures
        0x400000 <= addr && addr + len <= 0x401000 ==> readable(addr, len),
        0x401000 <= addr && addr + len <= 0x402000 ==> readable(addr, len) && writable(addr, len),
        len > 0 && !(0x400000 <= addr && addr + len <= 0x402000) ==> !readable(addr, len),
        len > 0 && !(0x401000 <= addr && addr + len <= 0x402000) ==> !writable(addr, len),
        addr < 0x401000 < addr + len ==> !readable(addr, len),
        window_index(addr) == addr - 0x400000,
{
}

/// A readable range is readable byte by byte, and so is every part of it; the same of writable.
pub proof fn law_parts_of_ranges(addr: int, len: int, from: int, part: int)
    requires
        0 <= from,
        0 <= part,
        from + part <= len,
    ensures
        readable(addr, len) ==> readable(addr + from, part),
        writable(addr, len) ==> writable(addr + from, part),
{
}

/// The built-in program may run its text page and not write it, and write its stack page and not run
/// it; ring 3 reaches both.
pub proof fn law_text_and_stack_protection()
    ensures
        text_flags().present && text_flags().user_accessible,
        !text_flags().writable && !text_flags().no_execute,
        stack_flags().present && stack_flags().user_accessible,
        stack_flags().writable && stack_flags().no_execute,
{
}

/// The bundled program runs wherever it could be loaded, from its own entry and on its own stack; the
/// built-in one runs only where it could not, from the text page with an empty stack.
pub proof fn law_bundled_program_is_preferred(entry: u64, rsp: u64)
    ensures
        !chosen_program(Some((entry, rsp))).built_in,
        chosen_program(Some((entry, rsp))).entry == entry,
        chosen_program(Some((entry, rsp))).rsp == rsp,
        chosen_program(None).built_in,
        chosen_program(None).entry == 0x400000,
        chosen_program(None).rsp == 0x402000,
{
}

/// The built-in program gets two different frames, the two least that are free: one for its text page,
/// which cannot be written, and one for its stack page, which cannot be run.
pub proof fn law_built_in_program_gets_two_frames(
    before: Set<int>,
    pages: UserPages,
    after: Set<int>,
    j: int,
)
    requires
        takes_two_pages(before, pages, after),
    ensures
        pages.text.page == 0x400000 && pages.stack.page == 0x401000,
        !pages.text.flags.writable && !pages.text.flags.no_execute,
        pages.stack.flags.writable && pages.stack.flags.no_execute,
        pages.text.flags.user_accessible && pages.stack.flags.user_accessible,
        ({
            let t = pages.text.frame as int / 4096;
            let s = pages.stack.frame as int / 4096;
            &&& t < s && before.contains(t) && before.contains(s)
            &&& before.contains(j) ==> t <= j && (j == t || s <= j)
            &&& after.contains(j) <==> before.contains(j) && j != t && j != s
        }),
{
    let t = pages.text.frame as int / 4096;
    let s = pages.stack.frame as int / 4096;
    if before.contains(j) && j != t {
        assert(before.remove(t).contains(j));
    }
    assert(before.remove(t).contains(s));
}

/// Noting the entry and noting where the writable part starts do not touch each other, nor the end of
/// the image; without a program the image is the one text page, which ends where the stack page starts.
pub proof fn law_image_notes(u: UserImage, entry: u64, start: u64)
    ensures
        with_entry(u, entry).entry_rip == entry,
        with_rw_start(u, start).rw_start == start,
        with_entry(with_rw_start(u, start), entry) == with_rw_start(with_entry(u, entry), start),
        with_entry(with_rw_start(u, start), entry).image_end == u.image_end,
        with_entry(u, entry).rw_start == u.rw_start,
        empty_image().entry_rip == 0x400000,
        empty_image().image_end == 0x401000,
        empty_image().rw_start == empty_image().image_end,
{
}

} // verus!
