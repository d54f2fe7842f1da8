//! What holds of every image that loads: which files do, what the kernel keeps of them, and what
//! user memory holds afterwards.

use vstd::prelude::*;

use crate::elf::{
    copy_steps, file_header, header_error, holds_phdrs, leaves_address_space, load_plan, plan_steps,
    program_header, scan, scan_end, segment_of, segment_steps, ElfLoadedMeta, LoadEnd, LoadStep,
    ElfError, ProgramHeader, ScanState, Segment, PHDR_SIZE,
};
use crate::memory::PAGE_SIZE;
use crate::paging::{
    is_canonical, page_at, page_of, page_rank, pages_between, virt_addr_of, PageFlags, UPPER_HALF,
};
use crate::user::USER_TEXT_BASE;

verus! {

// --- which images load ---

/// Where program header `i` stands in the file.
pub open spec fn header_offset(image: Seq<u8>, i: int) -> int {
    file_header(image).phoff + i * PHDR_SIZE
}

/// Program header `i`.
pub open spec fn header_at(image: Seq<u8>, i: int) -> ProgramHeader {
    program_header(image, header_offset(image, i))
}

/// The address of what header `i` describes.
pub open spec fn address_at(image: Seq<u8>, bias: u64, i: int) -> u64 {
    header_at(image, i).vaddr.wrapping_add(bias)
}

/// Header `i` describes a loadable segment that is not empty.
pub open spec fn takes_memory(image: Seq<u8>, i: int) -> bool {
    &&& 0 <= i < file_header(image).phnum
    &&& header_at(image, i).p_type == 1
    &&& header_at(image, i).memsz > 0
}

/// Header `i` describes a segment that can be written.
pub open spec fn takes_writable_memory(image: Seq<u8>, i: int) -> bool {
    takes_memory(image, i) && header_at(image, i).flags & 2 != 0
}

/// Header `i` describes a segment that holds the program headers.
pub open spec fn takes_headers(image: Seq<u8>, i: int) -> bool {
    takes_memory(image, i) && holds_phdrs(header_at(image, i), file_header(image).phoff)
}

/// One past the last address of what header `i` describes.
pub open spec fn end_at(image: Seq<u8>, bias: u64, i: int) -> int {
    address_at(image, bias, i) + header_at(image, i).memsz
}

/// The bytes that the segment wants from the file are there.
pub open spec fn file_range_fits(image: Seq<u8>, h: ProgramHeader) -> bool {
    h.filesz == 0 || h.offset + h.filesz <= image.len()
}

/// Header `i` lies in the file; a loadable segment is aligned to a page or not at all; and one that
/// takes memory has its bytes in the file and its addresses in the address space.
pub open spec fn is_sound(image: Seq<u8>, bias: u64, i: int) -> bool {
    let h = header_at(image, i);
    &&& header_offset(image, i) + PHDR_SIZE <= image.len()
    &&& h.p_type == 1 ==> h.align == 0 || h.align == PAGE_SIZE
    &&& takes_memory(image, i) ==> {
        &&& file_range_fits(image, h)
        &&& !leaves_address_space(h, address_at(image, bias, i), file_header(image).phoff)
    }
}

pub open spec fn all_sound(image: Seq<u8>, bias: u64) -> bool {
    forall|i: int| 0 <= i < file_header(image).phnum ==> #[trigger] is_sound(image, bias, i)
}

/// What the first `n` program headers amount to.
spec fn state_upto(image: Seq<u8>, bias: u64, n: int) -> ScanState
    decreases n,
{
    if n <= 0 {
        ScanState::initial()
    } else {
        let before = state_upto(image, bias, n - 1);
        if takes_memory(image, n - 1) {
            before.with_segment(
                image,
                header_at(image, n - 1),
                address_at(image, bias, n - 1),
                file_header(image).phoff,
            )
        } else {
            before
        }
    }
}

/// The segments of the first `n` program headers, in file order.
pub open spec fn segments_upto(image: Seq<u8>, bias: u64, n: int) -> Seq<Segment>
    decreases n,
{
    if n <= 0 {
        Seq::empty()
    } else if takes_memory(image, n - 1) {
        segments_upto(image, bias, n - 1).push(
            segment_of(image, header_at(image, n - 1), address_at(image, bias, n - 1)),
        )
    } else {
        segments_upto(image, bias, n - 1)
    }
}

proof fn lemma_scan(image: Seq<u8>, bias: u64, i: int)
    requires
        image.len() <= u64::MAX,
        header_error(image) is None,
        0 <= i <= file_header(image).phnum,
        forall|j: int| 0 <= j < i ==> #[trigger] is_sound(image, bias, j),
        load_plan(image, bias) == scan(image, bias, i, state_upto(image, bias, i)),
    ensures
        all_sound(image, bias) ==> load_plan(image, bias) == scan_end(
            image,
            bias,
            state_upto(image, bias, file_header(image).phnum as int),
        ),
        !all_sound(image, bias) ==> !(load_plan(image, bias).end is Loaded),
    decreases file_header(image).phnum - i,
{
    if i < file_header(image).phnum {
        if is_sound(image, bias, i) {
            lemma_scan(image, bias, i + 1);
        }
    }
}

proof fn lemma_plan(image: Seq<u8>, bias: u64)
    requires
        image.len() <= u64::MAX,
    ensures
        load_plan(image, bias).end is Loaded ==> header_error(image) is None && all_sound(image, bias),
        header_error(image) is None && all_sound(image, bias) ==> load_plan(image, bias) == scan_end(
            image,
            bias,
            state_upto(image, bias, file_header(image).phnum as int),
        ),
{
    if header_error(image) is None {
        lemma_scan(image, bias, 0);
    }
}

/// Of the first `n` headers, `i` is the last one whose segment holds the program headers.
pub open spec fn is_last_holder(image: Seq<u8>, i: int, n: int) -> bool {
    &&& 0 <= i < n
    &&& takes_headers(image, i)
    &&& forall|j: int| i < j < n ==> !#[trigger] takes_headers(image, j)
}

/// `end` is the greatest end of the segments of the first `n` headers, 0 where there is none.
spec fn is_greatest_end(image: Seq<u8>, bias: u64, n: int, end: u64) -> bool {
    &&& forall|i: int|
        0 <= i < n && #[trigger] takes_memory(image, i) ==> end_at(image, bias, i) <= end
    &&& end == 0 || exists|i: int|
        0 <= i < n && #[trigger] takes_memory(image, i) && end_at(image, bias, i) == end
}

/// `least` is the least address of the writable segments of the first `n` headers.
spec fn is_least_writable(image: Seq<u8>, bias: u64, n: int, least: Option<u64>) -> bool {
    match least {
        Some(m) => {
            &&& forall|i: int|
                0 <= i < n && #[trigger] takes_writable_memory(image, i) ==> m <= address_at(
                    image,
                    bias,
                    i,
                )
            &&& exists|i: int|
                0 <= i < n && #[trigger] takes_writable_memory(image, i) && m == address_at(
                    image,
                    bias,
                    i,
                )
        },
        None => forall|i: int| 0 <= i < n ==> !#[trigger] takes_writable_memory(image, i),
    }
}

/// `va` is where the first `n` headers put the program headers.
spec fn is_header_address(image: Seq<u8>, bias: u64, n: int, va: Option<u64>) -> bool {
    match va {
        Some(va) => exists|i: int| #[trigger]
            is_last_holder(image, i, n) && va == address_at(image, bias, i) + (file_header(image).phoff
                - header_at(image, i).offset),
        None => forall|i: int| 0 <= i < n ==> !#[trigger] takes_headers(image, i),
    }
}

proof fn lemma_greatest_end(image: Seq<u8>, bias: u64, n: int)
    requires
        all_sound(image, bias),
        0 <= n <= file_header(image).phnum,
    ensures
        state_upto(image, bias, n).segments == segments_upto(image, bias, n),
        is_greatest_end(image, bias, n, state_upto(image, bias, n).image_end),
    decreases n,
{
    if n > 0 {
        lemma_greatest_end(image, bias, n - 1);
        assert(is_sound(image, bias, n - 1));
    }
}

proof fn lemma_least_writable(image: Seq<u8>, bias: u64, n: int)
    requires
        0 <= n <= file_header(image).phnum,
    ensures
        is_least_writable(image, bias, n, state_upto(image, bias, n).rw_min),
    decreases n,
{
    if n > 0 {
        let k = n - 1;
        let before = state_upto(image, bias, k).rw_min;
        let after = state_upto(image, bias, n).rw_min;
        lemma_least_writable(image, bias, k);
        lemma_next_least(image, bias, k, before);
        if takes_writable_memory(image, k) {
            assert(after == next_least(before, address_at(image, bias, k)));
        } else {
            assert(after == before);
        }
    }
}

/// The lesser of an address and the least so far.
spec fn next_least(least: Option<u64>, address: u64) -> Option<u64> {
    match least {
        Some(m) if m <= address => Some(m),
        _ => Some(address),
    }
}

proof fn lemma_next_least(image: Seq<u8>, bias: u64, k: int, least: Option<u64>)
    requires
        0 <= k,
        is_least_writable(image, bias, k, least),
    ensures
        takes_writable_memory(image, k) ==> is_least_writable(
            image,
            bias,
            k + 1,
            next_least(least, address_at(image, bias, k)),
        ),
        !takes_writable_memory(image, k) ==> is_least_writable(image, bias, k + 1, least),
{
    if takes_writable_memory(image, k) {
        let m = next_least(least, address_at(image, bias, k))->0;
        if m == address_at(image, bias, k) {
            assert(takes_writable_memory(image, k));
        } else {
            let i = choose|i: int|
                0 <= i < k && #[trigger] takes_writable_memory(image, i) && least->0 == address_at(
                    image,
                    bias,
                    i,
                );
            assert(takes_writable_memory(image, i) && m == address_at(image, bias, i));
        }
    }
}

proof fn lemma_header_address(image: Seq<u8>, bias: u64, n: int)
    requires
        all_sound(image, bias),
        0 <= n <= file_header(image).phnum,
    ensures
        is_header_address(image, bias, n, state_upto(image, bias, n).phdr_va),
    decreases n,
{
    if n > 0 {
        let k = n - 1;
        let phoff = file_header(image).phoff;
        let before = state_upto(image, bias, k).phdr_va;
        lemma_header_address(image, bias, k);
        assert(is_sound(image, bias, k));
        if takes_headers(image, k) {
            assert(is_last_holder(image, k, n));
        } else if before is Some {
            let i = choose|i: int| #[trigger]
                is_last_holder(image, i, k) && before->0 == address_at(image, bias, i) + (phoff
                    - header_at(image, i).offset);
            assert(is_last_holder(image, i, n));
        }
    }
}

/// An image loads if and only if its file header is in order, every program header is sound, and
/// some segment holds the program headers.
pub proof fn law_which_images_load(image: Seq<u8>, bias: u64)
    requires
        image.len() <= u64::MAX,
    ensures
        load_plan(image, bias).end is Loaded <==> {
            &&& header_error(image) is None
            &&& all_sound(image, bias)
            &&& exists|i: int| #[trigger] takes_headers(image, i)
        },
{
    lemma_plan(image, bias);
    if header_error(image) is None && all_sound(image, bias) {
        lemma_header_address(image, bias, file_header(image).phnum as int);
    }
}

/// What the kernel keeps of an image that loads: the entry and the program headers as the file
/// header has them; the greatest end of a segment; the least address of a writable segment, or the
/// page after the first where there is none; and the program headers where the last segment that
/// holds them puts them. Its segments are those of the program headers that take memory, in file
/// order.
pub proof fn law_loaded_image(image: Seq<u8>, bias: u64, m: ElfLoadedMeta)
    requires
        image.len() <= u64::MAX,
        load_plan(image, bias).end == LoadEnd::Loaded(m),
    ensures
        ({
            let hdr = file_header(image);
            &&& load_plan(image, bias).segments == segments_upto(image, bias, hdr.phnum as int)
            &&& m.entry == hdr.entry.wrapping_add(bias)
            &&& m.phnum == hdr.phnum
            &&& m.phent == PHDR_SIZE
            &&& forall|i: int| #[trigger]
                takes_memory(image, i) ==> end_at(image, bias, i) <= m.image_end
            &&& exists|i: int| #[trigger]
                takes_memory(image, i) && end_at(image, bias, i) == m.image_end
            &&& if exists|i: int| #[trigger] takes_writable_memory(image, i) {
                &&& forall|i: int| #[trigger]
                    takes_writable_memory(image, i) ==> m.rw_min <= address_at(image, bias, i)
                &&& exists|i: int| #[trigger]
                    takes_writable_memory(image, i) && m.rw_min == address_at(image, bias, i)
            } else {
                m.rw_min == USER_TEXT_BASE + PAGE_SIZE
            }
            &&& exists|i: int| #[trigger]
                is_last_holder(image, i, hdr.phnum as int) && m.phdr == address_at(image, bias, i) + (
                hdr.phoff - header_at(image, i).offset)
        }),
{
    let n = file_header(image).phnum as int;
    lemma_plan(image, bias);
    lemma_greatest_end(image, bias, n);
    lemma_least_writable(image, bias, n);
    lemma_header_address(image, bias, n);
    let st = state_upto(image, bias, n);
    assert(m.phdr == st.phdr_va->0);
    let i = choose|i: int| #[trigger]
        is_last_holder(image, i, n) && m.phdr == address_at(image, bias, i) + (file_header(image).phoff
            - header_at(image, i).offset);
    assert(takes_memory(image, i));
    assert(m.image_end > 0);
}

// --- where a segment lies ---

/// Every address of `len` bytes from `start` on stands for one of the address space.
pub open spec fn all_canonical(start: u64, len: int) -> bool {
    forall|j: int| 0 <= j < len ==> #[trigger] address_in(start, j) is Some
}

/// The address that byte `j` from `start` on stands for.
pub open spec fn address_in(start: u64, j: int) -> Option<u64> {
    virt_addr_of((start + j) as u64)
}

/// The first `len` bytes from the start of a segment lie in its pages.
pub open spec fn pages_hold(s: Segment, len: int) -> bool {
    forall|j: int|
        0 <= j < len ==> (#[trigger] address_in(s.vaddr, j)) is Some && s.pages().contains(
            page_of(address_in(s.vaddr, j)->0),
        )
}

/// Whole ranges of canonical addresses lie on one side of the gap between the halves.
proof fn lemma_one_side(start: u64, len: int)
    requires
        all_canonical(start, len),
        0 < len,
        start + len <= u64::MAX,
    ensures
        start + len <= 0x1_0000_0000_0000 || UPPER_HALF <= start,
{
    if start < UPPER_HALF && start + len > 0x1_0000_0000_0000 {
        assert(address_in(start, 0) is Some);
        assert(address_in(start, 0x1_0000_0000_0000 - start) is None);
    }
}

/// The page of every address between two canonical ones is among the pages from the first to the
/// last.
proof fn lemma_page_between(first: u64, last: u64, v: u64)
    requires
        is_canonical(first),
        is_canonical(last),
        is_canonical(v),
        first <= v <= last,
    ensures
        pages_between(page_of(first), page_of(last)).contains(page_of(v)),
{
    let pages = pages_between(page_of(first), page_of(last));
    let i = page_rank(page_of(v)) - page_rank(page_of(first));
    assert(0 <= i < pages.len());
    assert(page_at(page_rank(page_of(v))) == page_of(v));
    assert(pages[i] == page_of(v));
}

/// A segment has a page under every address from its first to its last, and, where it takes no less
/// memory than file bytes, under every byte that is copied. The segment may be any whose addresses
/// are all canonical.
pub proof fn law_segment_pages_hold_segment(image: Seq<u8>, h: ProgramHeader, seg: u64, phoff: u64)
    requires
        h.memsz > 0,
        !leaves_address_space(h, seg, phoff),
        all_canonical(seg, h.memsz as int),
    ensures
        pages_hold(segment_of(image, h, seg), h.memsz as int),
        h.filesz <= h.memsz ==> segment_of(image, h, seg).copy_len <= h.memsz,
{
    let s = segment_of(image, h, seg);
    let first = virt_addr_of(seg)->0;
    let last = (virt_addr_of((seg + h.memsz) as u64)->0 - 1) as u64;
    lemma_one_side(seg, h.memsz as int);
    assert forall|j: int| 0 <= j < h.memsz implies (#[trigger] address_in(s.vaddr, j)) is Some
        && s.pages().contains(page_of(address_in(s.vaddr, j)->0)) by {
        assert(address_in(seg, j) is Some);
        lemma_page_between(first, last, address_in(seg, j)->0);
    }
}

// --- what memory holds ---

/// User memory: the byte at every address.
pub type Memory = spec_fn(u64) -> u8;

/// Memory once a page has a frame of zero bytes.
pub open spec fn with_zero_page(mem: Memory, page: u64) -> Memory {
    |a: u64|
        if page_of(a) == page {
            0
        } else {
            mem(a)
        }
}

/// Memory once `len` bytes of the image, from `file_off` on, have gone to the addresses from `va` on.
pub open spec fn with_copy(mem: Memory, image: Seq<u8>, va: u64, file_off: int, len: int) -> Memory
    decreases len,
{
    if len <= 0 {
        mem
    } else {
        let before = with_copy(mem, image, va, file_off, len - 1);
        |a: u64|
            if address_in(va, len - 1) == Some(a) {
                image[file_off + len - 1]
            } else {
                before(a)
            }
    }
}

pub open spec fn after_step(mem: Memory, image: Seq<u8>, step: LoadStep) -> Memory {
    match step {
        LoadStep::Page(page, _) => with_zero_page(mem, page),
        LoadStep::Copy { va, file_off, len } => with_copy(
            mem,
            image,
            va,
            file_off as int,
            len as int,
        ),
        LoadStep::End(_) => mem,
    }
}

/// Memory after the steps of a load, in order.
pub open spec fn after_steps(mem: Memory, image: Seq<u8>, steps: Seq<LoadStep>) -> Memory
    decreases steps.len(),
{
    if steps.len() == 0 {
        mem
    } else {
        after_step(after_steps(mem, image, steps.drop_last()), image, steps.last())
    }
}

/// Byte `j` of a segment: a byte of the file, or zero behind the last of those.
pub open spec fn segment_byte(image: Seq<u8>, s: Segment, j: int) -> u8 {
    if j < s.copy_len {
        image[s.file_off + j]
    } else {
        0
    }
}

proof fn lemma_after_both(mem: Memory, image: Seq<u8>, first: Seq<LoadStep>, second: Seq<LoadStep>)
    ensures
        after_steps(mem, image, first + second) == after_steps(
            after_steps(mem, image, first),
            image,
            second,
        ),
    decreases second.len(),
{
    if second.len() == 0 {
        assert(first + second =~= first);
    } else {
        lemma_after_both(mem, image, first, second.drop_last());
        assert((first + second).drop_last() =~= first + second.drop_last());
    }
}

spec fn page_steps_of(pages: Seq<u64>, flags: PageFlags) -> Seq<LoadStep> {
    pages.map_values(|p: u64| LoadStep::Page(p, flags))
}

proof fn lemma_after_pages(mem: Memory, image: Seq<u8>, pages: Seq<u64>, flags: PageFlags, v: u64)
    ensures
        after_steps(mem, image, page_steps_of(pages, flags))(v) == (if pages.contains(page_of(v)) {
            0
        } else {
            mem(v)
        }),
    decreases pages.len(),
{
    let steps = page_steps_of(pages, flags);
    if pages.len() > 0 {
        let front = pages.drop_last();
        lemma_after_pages(mem, image, front, flags, v);
        assert(steps.drop_last() =~= page_steps_of(front, flags));
        assert(steps.last() == LoadStep::Page(pages.last(), flags));
        assert(pages.contains(page_of(v)) <==> front.contains(page_of(v)) || pages.last() == page_of(
            v,
        )) by {
            if front.contains(page_of(v)) {
                let i = choose|i: int| 0 <= i < front.len() && front[i] == page_of(v);
                assert(pages[i] == page_of(v));
            }
            if pages.contains(page_of(v)) {
                let i = choose|i: int| 0 <= i < pages.len() && pages[i] == page_of(v);
                if i < front.len() {
                    assert(front[i] == page_of(v));
                }
            }
            assert(pages[pages.len() - 1] == pages.last());
        }
    }
}

/// Different bytes of a canonical range have different addresses.
proof fn lemma_addresses_differ(start: u64, len: int, i: int, j: int)
    requires
        all_canonical(start, len),
        start + len <= u64::MAX,
        0 <= i < len,
        0 <= j < len,
        address_in(start, i) == address_in(start, j),
    ensures
        i == j,
{
    lemma_one_side(start, len);
    assert(address_in(start, i) is Some);
    assert(address_in(start, j) is Some);
}

proof fn lemma_copied_byte(
    mem: Memory,
    image: Seq<u8>,
    va: u64,
    file_off: int,
    len: int,
    total: int,
    j: int,
)
    requires
        all_canonical(va, total),
        va + total <= u64::MAX,
        len <= total,
        0 <= j < total,
    ensures
        with_copy(mem, image, va, file_off, len)(address_in(va, j)->0) == (if j < len {
            image[file_off + j]
        } else {
            mem(address_in(va, j)->0)
        }),
    decreases len,
{
    assert(address_in(va, j) is Some);
    if len > 0 {
        lemma_copied_byte(mem, image, va, file_off, len - 1, total, j);
        assert(address_in(va, len - 1) is Some);
        if address_in(va, len - 1) == address_in(va, j) {
            lemma_addresses_differ(va, total, len - 1, j);
        }
    }
}

proof fn lemma_uncopied_byte(mem: Memory, image: Seq<u8>, va: u64, file_off: int, len: int, v: u64)
    requires
        forall|j: int| 0 <= j < len ==> #[trigger] address_in(va, j) != Some(v),
    ensures
        with_copy(mem, image, va, file_off, len)(v) == mem(v),
    decreases len,
{
    if len > 0 {
        lemma_uncopied_byte(mem, image, va, file_off, len - 1, v);
        assert(address_in(va, len - 1) != Some(v));
    }
}

proof fn lemma_after_copy_steps(mem: Memory, image: Seq<u8>, s: Segment)
    ensures
        after_steps(mem, image, copy_steps(s)) == with_copy(
            mem,
            image,
            s.vaddr,
            s.file_off as int,
            s.copy_len as int,
        ),
{
    if s.copy_len > 0 {
        let steps = copy_steps(s);
        assert(steps.drop_last() =~= Seq::empty());
        assert(after_steps(mem, image, steps.drop_last()) == mem);
    }
}

/// The steps of a segment, pages first.
proof fn lemma_after_segment(mem: Memory, image: Seq<u8>, s: Segment)
    ensures
        after_steps(mem, image, segment_steps(s.pages(), s)) == with_copy(
            after_steps(mem, image, page_steps_of(s.pages(), s.flags)),
            image,
            s.vaddr,
            s.file_off as int,
            s.copy_len as int,
        ),
{
    let zeroed = after_steps(mem, image, page_steps_of(s.pages(), s.flags));
    assert(segment_steps(s.pages(), s) =~= page_steps_of(s.pages(), s.flags) + copy_steps(s));
    lemma_after_both(mem, image, page_steps_of(s.pages(), s.flags), copy_steps(s));
    lemma_after_copy_steps(zeroed, image, s);
}

/// The segment has a page under each of its `len` bytes, those of the file among them.
pub open spec fn lies_in_pages(s: Segment, len: int) -> bool {
    &&& s.vaddr + len <= u64::MAX
    &&& s.copy_len <= len
    &&& pages_hold(s, len)
}

/// Placing a segment fills it: the bytes of the file, and zeros behind them.
pub proof fn law_placed_segment_holds_its_bytes(
    mem: Memory,
    image: Seq<u8>,
    s: Segment,
    len: int,
    j: int,
)
    requires
        lies_in_pages(s, len),
        0 <= j < len,
    ensures
        after_steps(mem, image, segment_steps(s.pages(), s))(address_in(s.vaddr, j)->0)
            == segment_byte(image, s, j),
{
    let v = address_in(s.vaddr, j)->0;
    let zeroed = after_steps(mem, image, page_steps_of(s.pages(), s.flags));
    lemma_after_segment(mem, image, s);
    assert(address_in(s.vaddr, j) is Some);
    assert(s.pages().contains(page_of(v)));
    lemma_after_pages(mem, image, s.pages(), s.flags, v);
    assert(all_canonical(s.vaddr, len));
    lemma_copied_byte(
        zeroed,
        image,
        s.vaddr,
        s.file_off as int,
        s.copy_len as int,
        len,
        j,
    );
}

proof fn lemma_other_segment(mem: Memory, image: Seq<u8>, s: Segment, len: int, v: u64)
    requires
        lies_in_pages(s, len),
        !s.pages().contains(page_of(v)),
    ensures
        after_steps(mem, image, segment_steps(s.pages(), s))(v) == mem(v),
{
    let zeroed = after_steps(mem, image, page_steps_of(s.pages(), s.flags));
    lemma_after_segment(mem, image, s);
    lemma_after_pages(mem, image, s.pages(), s.flags, v);
    assert forall|j: int| 0 <= j < s.copy_len implies #[trigger] address_in(s.vaddr, j) != Some(
        v,
    ) by {
        assert(s.pages().contains(page_of(address_in(s.vaddr, j)->0)));
    }
    lemma_uncopied_byte(
        zeroed,
        image,
        s.vaddr,
        s.file_off as int,
        s.copy_len as int,
        v,
    );
}

/// Every segment lies in its pages; `lens` are their lengths in memory.
pub open spec fn all_lie_in_pages(segments: Seq<Segment>, lens: Seq<int>) -> bool {
    &&& lens.len() == segments.len()
    &&& forall|k: int| 0 <= k < segments.len() ==> lies_in_pages(#[trigger] segments[k], lens[k])
}

/// No two segments share a page.
pub open spec fn no_shared_page(segments: Seq<Segment>) -> bool {
    forall|k: int, l: int, page: u64|
        0 <= k < l < segments.len() && #[trigger] segments[k].pages().contains(page)
            ==> !#[trigger] segments[l].pages().contains(page)
}

proof fn lemma_untouched(
    mem: Memory,
    image: Seq<u8>,
    segments: Seq<Segment>,
    lens: Seq<int>,
    end: LoadEnd,
    v: u64,
)
    requires
        all_lie_in_pages(segments, lens),
        forall|k: int|
            0 <= k < segments.len() ==> !(#[trigger] segments[k]).pages().contains(page_of(v)),
    ensures
        after_steps(mem, image, plan_steps(segments, end))(v) == mem(v),
    decreases segments.len(),
{
    if segments.len() == 0 {
        let steps = plan_steps(segments, end);
        assert(steps.drop_last() =~= Seq::empty());
        assert(after_steps(mem, image, steps.drop_last()) == mem);
    } else {
        let s = segments[0];
        let rest = segments.drop_first();
        let mid = after_steps(mem, image, segment_steps(s.pages(), s));
        lemma_after_both(mem, image, segment_steps(s.pages(), s), plan_steps(rest, end));
        lemma_other_segment(mem, image, s, lens[0], v);
        assert forall|k: int| 0 <= k < rest.len() implies lies_in_pages(
            #[trigger] rest[k],
            lens.drop_first()[k],
        ) && !rest[k].pages().contains(page_of(v)) by {
            assert(rest[k] == segments[k + 1]);
        }
        lemma_untouched(mid, image, rest, lens.drop_first(), end, v);
    }
}

proof fn lemma_segment_in_plan(
    mem: Memory,
    image: Seq<u8>,
    segments: Seq<Segment>,
    lens: Seq<int>,
    end: LoadEnd,
    k: int,
    j: int,
)
    requires
        all_lie_in_pages(segments, lens),
        no_shared_page(segments),
        0 <= k < segments.len(),
        0 <= j < lens[k],
    ensures
        after_steps(mem, image, plan_steps(segments, end))(address_in(segments[k].vaddr, j)->0)
            == segment_byte(image, segments[k], j),
    decreases segments.len(),
{
    let s = segments[0];
    let rest = segments.drop_first();
    let rest_lens = lens.drop_first();
    let mid = after_steps(mem, image, segment_steps(s.pages(), s));
    lemma_after_both(mem, image, segment_steps(s.pages(), s), plan_steps(rest, end));
    assert forall|i: int| 0 <= i < rest.len() implies lies_in_pages(
        #[trigger] rest[i],
        rest_lens[i],
    ) by {
        assert(rest[i] == segments[i + 1]);
    }
    if k == 0 {
        let v = address_in(s.vaddr, j)->0;
        law_placed_segment_holds_its_bytes(mem, image, s, lens[0], j);
        assert(address_in(s.vaddr, j) is Some);
        assert(segments[0].pages().contains(page_of(v)));
        assert forall|i: int| 0 <= i < rest.len() implies !(#[trigger] rest[i]).pages().contains(
            page_of(v),
        ) by {
            assert(rest[i] == segments[i + 1]);
            assert(!segments[i + 1].pages().contains(page_of(v)));
        }
        lemma_untouched(mid, image, rest, rest_lens, end, v);
    } else {
        assert forall|a: int, b: int, page: u64|
            0 <= a < b < rest.len() && #[trigger] rest[a].pages().contains(
                page,
            ) implies !#[trigger] rest[b].pages().contains(page) by {
            assert(segments[a + 1].pages().contains(page));
            assert(!segments[b + 1].pages().contains(page));
        }
        lemma_segment_in_plan(mid, image, rest, rest_lens, end, k - 1, j);
        assert(rest[k - 1] == segments[k]);
    }
}

/// The lengths in memory of the segments of the first `n` program headers.
spec fn lens_upto(image: Seq<u8>, n: int) -> Seq<int>
    decreases n,
{
    if n <= 0 {
        Seq::empty()
    } else if takes_memory(image, n - 1) {
        lens_upto(image, n - 1).push(header_at(image, n - 1).memsz as int)
    } else {
        lens_upto(image, n - 1)
    }
}

/// The segment of header `i` has room for its file bytes, and all its addresses are canonical.
pub open spec fn has_room(image: Seq<u8>, bias: u64, i: int) -> bool {
    let h = header_at(image, i);
    h.filesz <= h.memsz && all_canonical(address_at(image, bias, i), h.memsz as int)
}

proof fn lemma_segments_upto(image: Seq<u8>, bias: u64, n: int)
    requires
        all_sound(image, bias),
        0 <= n <= file_header(image).phnum,
        forall|i: int| #[trigger] takes_memory(image, i) ==> has_room(image, bias, i),
    ensures
        all_lie_in_pages(segments_upto(image, bias, n), lens_upto(image, n)),
    decreases n,
{
    if n > 0 {
        let k = n - 1;
        lemma_segments_upto(image, bias, k);
        if takes_memory(image, k) {
            let h = header_at(image, k);
            let seg = address_at(image, bias, k);
            assert(is_sound(image, bias, k));
            law_segment_pages_hold_segment(image, h, seg, file_header(image).phoff);
            let segments = segments_upto(image, bias, n);
            let lens = lens_upto(image, n);
            assert forall|i: int| 0 <= i < segments.len() implies lies_in_pages(
                #[trigger] segments[i],
                lens[i],
            ) by {
                if i < segments.len() - 1 {
                    assert(segments[i] == segments_upto(image, bias, k)[i]);
                }
            }
        }
    }
}

/// The segment of header `i` stands behind those of the headers before it.
proof fn lemma_segment_index(image: Seq<u8>, bias: u64, i: int, n: int)
    requires
        takes_memory(image, i),
        i < n,
    ensures
        ({
            let k = segments_upto(image, bias, i).len() as int;
            &&& k < segments_upto(image, bias, n).len()
            &&& lens_upto(image, n).len() == segments_upto(image, bias, n).len()
            &&& segments_upto(image, bias, n)[k] == segment_of(
                image,
                header_at(image, i),
                address_at(image, bias, i),
            )
            &&& lens_upto(image, n)[k] == header_at(image, i).memsz
        }),
    decreases n,
{
    lemma_lens_len(image, bias, n - 1);
    if i < n - 1 {
        lemma_segment_index(image, bias, i, n - 1);
    }
}

proof fn lemma_lens_len(image: Seq<u8>, bias: u64, n: int)
    ensures
        lens_upto(image, n).len() == segments_upto(image, bias, n).len(),
    decreases n,
{
    if n > 0 {
        lemma_lens_len(image, bias, n - 1);
    }
}

/// An image that has been loaded stands in memory: byte `j` of every segment is byte `j` of its part
/// of the file, and zero behind that. No two segments share a page (the page tables refuse the
/// second), each has room for its file bytes, and all addresses are canonical.
pub proof fn law_loaded_image_stands_in_memory(
    mem: Memory,
    image: Seq<u8>,
    bias: u64,
    m: ElfLoadedMeta,
    i: int,
    j: int,
)
    requires
        image.len() <= u64::MAX,
        load_plan(image, bias).end == LoadEnd::Loaded(m),
        no_shared_page(load_plan(image, bias).segments),
        forall|i: int| #[trigger] takes_memory(image, i) ==> has_room(image, bias, i),
        takes_memory(image, i),
        0 <= j < header_at(image, i).memsz,
    ensures
        ({
            let plan = load_plan(image, bias);
            let h = header_at(image, i);
            let v = virt_addr_of((address_at(image, bias, i) + j) as u64)->0;
            after_steps(mem, image, plan_steps(plan.segments, plan.end))(v) == (if j < h.filesz {
                image[h.offset + j]
            } else {
                0
            })
        }),
{
    let plan = load_plan(image, bias);
    let n = file_header(image).phnum as int;
    let k = segments_upto(image, bias, i).len() as int;
    law_loaded_image(image, bias, m);
    lemma_plan(image, bias);
    lemma_segments_upto(image, bias, n);
    lemma_segment_index(image, bias, i, n);
    lemma_segment_in_plan(mem, image, plan.segments, lens_upto(image, n), plan.end, k, j);
    assert(is_sound(image, bias, i));
    assert(plan.segments[k].copy_len == header_at(image, i).filesz);
}

/// The first header that is not sound decides how a load fails, after the segments of the headers
/// before it: one past the end of the file as such, then a wrong alignment, then an address that leaves
/// the address space, then file bytes that are not there.
pub proof fn law_first_unsound_header_decides(image: Seq<u8>, bias: u64, i: int)
    requires
        image.len() <= u64::MAX,
        header_error(image) is None,
        0 <= i < file_header(image).phnum,
        header_offset(image, i) + 56 <= u64::MAX,
        forall|j: int| 0 <= j < i ==> #[trigger] is_sound(image, bias, j),
        !is_sound(image, bias, i),
    ensures
        ({
            let end = load_plan(image, bias).end;
            let h = header_at(image, i);
            let inside = header_offset(image, i) + 56 <= image.len();
            let aligned = h.align == 0 || h.align == 4096;
            &&& !inside ==> end == LoadEnd::Failed(ElfError::PhdrOob)
            &&& inside && !aligned ==> end == LoadEnd::Failed(ElfError::UnsupportedAlign)
            &&& inside && aligned ==> end == LoadEnd::Fault || end == LoadEnd::Failed(
                ElfError::SegmentFileOob,
            )
            &&& inside && aligned && !leaves_address_space(
                h,
                address_at(image, bias, i),
                file_header(image).phoff,
            ) ==> end == LoadEnd::Failed(ElfError::SegmentFileOob)
        }),
{
    lemma_scan_upto(image, bias, i);
}

proof fn lemma_scan_upto(image: Seq<u8>, bias: u64, i: int)
    requires
        image.len() <= u64::MAX,
        header_error(image) is None,
        0 <= i <= file_header(image).phnum,
        forall|j: int| 0 <= j < i ==> #[trigger] is_sound(image, bias, j),
    ensures
        load_plan(image, bias) == scan(image, bias, i, state_upto(image, bias, i)),
    decreases i,
{
    if i > 0 {
        lemma_scan_upto(image, bias, i - 1);
        assert(is_sound(image, bias, i - 1));
    }
}

/// An image whose headers are all sound, and none of whose segments holds the program headers, fails as
/// such.
pub proof fn law_headers_must_be_loaded(image: Seq<u8>, bias: u64)
    requires
        image.len() <= u64::MAX,
        header_error(image) is None,
        all_sound(image, bias),
        forall|i: int| !#[trigger] takes_headers(image, i),
    ensures
        load_plan(image, bias).end == LoadEnd::Failed(ElfError::NoPhdrInLoad),
{
    let n = file_header(image).phnum as int;
    lemma_plan(image, bias);
    lemma_header_address(image, bias, n);
}

} // verus!
