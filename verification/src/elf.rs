//! **ELF** loader + **exec** stack (**argv**, **envp**, **auxv**).
//!
//! [`load_elf_mapped`] reads an image and works out which segments go where. An [`ElfLoader`] then
//! walks the segments: it hands out frames page by page, has the file bytes copied in, and ends
//! with what the image promised. [`finish_elf`] notes the bounds of the image; [`finish_elf_exec`]
//! also lays out the first stack page of the program.

use vstd::prelude::*;

use crate::bytes::{le16, le32, le64, read_u16, read_u32, read_u64};
use crate::exec_stack::{build_exec_stack, stack_image, stack_len, string_bytes};
use crate::memory::{BitmapFrameAllocator, PAGE_SIZE};
use crate::paging::{
    is_page, page_containing, page_of, page_steps, pages_between, places, virt_addr, virt_addr_of,
    MapJob, MapOutcome, MapRequest, PageAction, PageFailure, PageFlags, PageRange, UnmapJob,
};
use crate::user::{
    set_user_image_end, set_user_rw_image_start, UserImage, USER_STACK_LO, USER_TEXT_BASE,
};

verus! {

/// The strings a new program starts with.
pub struct ExecArgs<'a> {
    pub argv: &'a [String],
    pub envp: &'a [String],
}

/// What the kernel keeps of a loaded image.
#[derive(Clone, Copy, Debug, PartialEq, Eq, Structural)]
pub struct ElfLoadedMeta {
    pub entry: u64,
    pub phdr: u64,
    pub phnum: u64,
    pub phent: u64,
    pub image_end: u64,
    pub rw_min: u64,
}

/// Why an image cannot be run.
#[derive(Clone, Copy, Debug, PartialEq, Eq, Structural)]
pub enum ElfError {
    Truncated,
    BadElf,
    NotExecOrDyn,
    NotX86_64,
    UnexpectedPhdrSize,
    Allocator,
    PhdrOob,
    UnsupportedAlign,
    FrameOom,
    MapTo,
    SegmentFileOob,
    Translate,
    NoPhdrInLoad,
    StackOverflow,
    NoMap,
}

impl ElfError {
    /// The message that goes into the kernel log.
    pub fn message(self) -> (text: &'static str)
        ensures
            text@ == (match self {
                ElfError::Truncated => "truncated"@,
                ElfError::BadElf => "bad elf"@,
                ElfError::NotExecOrDyn => "not ET_EXEC/ET_DYN"@,
                ElfError::NotX86_64 => "not x86-64"@,
                ElfError::UnexpectedPhdrSize => "unexpected phdr size"@,
                ElfError::Allocator => "allocator"@,
                ElfError::PhdrOob => "phdr oob"@,
                ElfError::UnsupportedAlign => "unsupported align"@,
                ElfError::FrameOom => "frame OOM"@,
                ElfError::MapTo => "map_to"@,
                ElfError::SegmentFileOob => "segment file oob"@,
                ElfError::Translate => "translate"@,
                ElfError::NoPhdrInLoad => "no phdr in LOAD"@,
                ElfError::StackOverflow => "stack ovf"@,
                ElfError::NoMap => "no map"@,
            }),
    {
        match self {
            ElfError::Truncated => "truncated",
            ElfError::BadElf => "bad elf",
            ElfError::NotExecOrDyn => "not ET_EXEC/ET_DYN",
            ElfError::NotX86_64 => "not x86-64",
            ElfError::UnexpectedPhdrSize => "unexpected phdr size",
            ElfError::Allocator => "allocator",
            ElfError::PhdrOob => "phdr oob",
            ElfError::UnsupportedAlign => "unsupported align",
            ElfError::FrameOom => "frame OOM",
            ElfError::MapTo => "map_to",
            ElfError::SegmentFileOob => "segment file oob",
            ElfError::Translate => "translate",
            ElfError::NoPhdrInLoad => "no phdr in LOAD",
            ElfError::StackOverflow => "stack ovf",
            ElfError::NoMap => "no map",
        }
    }
}

// --- reading the image ---

/// Size of the file header.
pub const EHDR_SIZE: u64 = 64;

/// Size of a program header.
pub const PHDR_SIZE: u64 = 56;

/// What is wrong with the file header, if anything.
pub open spec fn header_error(image: Seq<u8>) -> Option<ElfError> {
    if image.len() < EHDR_SIZE {
        Some(ElfError::Truncated)
    } else if image[0] != 0x7f || image[1] != 0x45 || image[2] != 0x4c || image[3] != 0x46 || image[4]
        != 2 || image[5] != 1 {
        Some(ElfError::BadElf)
    } else if le16(image, 16) != 2 && le16(image, 16) != 3 {
        Some(ElfError::NotExecOrDyn)
    } else if le16(image, 18) != 0x3e {
        Some(ElfError::NotX86_64)
    } else if le16(image, 54) != PHDR_SIZE {
        Some(ElfError::UnexpectedPhdrSize)
    } else {
        None
    }
}

/// The fields of the file header that loading goes by.
#[derive(Clone, Copy, Debug, PartialEq, Eq, Structural)]
pub struct FileHeader {
    pub entry: u64,
    pub phoff: u64,
    pub phnum: u16,
}

pub open spec fn file_header(image: Seq<u8>) -> FileHeader {
    FileHeader {
        entry: le64(image, 24) as u64,
        phoff: le64(image, 32) as u64,
        phnum: le16(image, 56) as u16,
    }
}

/// One program header.
#[derive(Clone, Copy, Debug, PartialEq, Eq, Structural)]
pub struct ProgramHeader {
    pub p_type: u32,
    pub flags: u32,
    pub offset: u64,
    pub vaddr: u64,
    pub filesz: u64,
    pub memsz: u64,
    pub align: u64,
}

pub open spec fn program_header(image: Seq<u8>, off: int) -> ProgramHeader {
    ProgramHeader {
        p_type: le32(image, off) as u32,
        flags: le32(image, off + 4) as u32,
        offset: le64(image, off + 8) as u64,
        vaddr: le64(image, off + 16) as u64,
        filesz: le64(image, off + 32) as u64,
        memsz: le64(image, off + 40) as u64,
        align: le64(image, off + 48) as u64,
    }
}

/// A loadable segment, placed.
#[derive(Clone, Copy, Debug, PartialEq, Eq, Structural)]
pub struct Segment {
    /// Address of the first byte.
    pub vaddr: u64,
    /// First and last page.
    pub first_page: u64,
    pub last_page: u64,
    pub flags: PageFlags,
    /// The file bytes `file_off .. file_off + copy_len` go to `vaddr`; the rest stays zero.
    pub file_off: u64,
    pub copy_len: u64,
}

impl Segment {
    pub open spec fn wf(self) -> bool {
        is_page(self.first_page) && is_page(self.last_page)
    }
}

/// Page protection of a segment: bit 1 of the segment flags makes it writable, bit 0 executable.
pub open spec fn segment_flags(p_flags: u32) -> PageFlags {
    PageFlags {
        present: true,
        writable: p_flags & 2 != 0,
        user_accessible: true,
        no_execute: p_flags & 1 == 0,
    }
}

/// The file range of the segment holds the program headers.
pub open spec fn holds_phdrs(h: ProgramHeader, phoff: u64) -> bool {
    h.offset <= phoff && phoff < (if h.offset + h.filesz > u64::MAX {
        u64::MAX as int
    } else {
        h.offset + h.filesz
    })
}

/// The segment does not fit the address space: an address runs past 64 bits or is not canonical.
pub open spec fn leaves_address_space(h: ProgramHeader, seg: u64, phoff: u64) -> bool {
    ||| holds_phdrs(h, phoff) && seg + (phoff - h.offset) > u64::MAX
    ||| virt_addr_of(seg) is None
    ||| seg + h.memsz > u64::MAX
    ||| virt_addr_of((seg + h.memsz) as u64) is None
    ||| virt_addr_of((virt_addr_of((seg + h.memsz) as u64)->0 - 1) as u64) is None
}

/// How many bytes of the segment the file really holds.
pub open spec fn bytes_in_file(image: Seq<u8>, h: ProgramHeader) -> u64 {
    if h.offset >= image.len() {
        0
    } else if h.filesz <= image.len() - h.offset {
        h.filesz
    } else {
        (image.len() - h.offset) as u64
    }
}

/// The segment of a program header that fits the address space.
pub open spec fn segment_of(image: Seq<u8>, h: ProgramHeader, seg: u64) -> Segment {
    Segment {
        vaddr: seg,
        first_page: page_of(virt_addr_of(seg)->0),
        last_page: page_of((virt_addr_of((seg + h.memsz) as u64)->0 - 1) as u64),
        flags: segment_flags(h.flags),
        file_off: h.offset,
        copy_len: bytes_in_file(image, h),
    }
}

/// What the program headers read so far amount to.
pub struct ScanState {
    pub segments: Seq<Segment>,
    pub image_end: u64,
    pub rw_min: Option<u64>,
    pub phdr_va: Option<u64>,
}

impl ScanState {
    pub open spec fn initial() -> ScanState {
        ScanState { segments: Seq::empty(), image_end: 0, rw_min: None, phdr_va: None }
    }

    /// One more loadable segment.
    pub open spec fn with_segment(
        self,
        image: Seq<u8>,
        h: ProgramHeader,
        seg: u64,
        phoff: u64,
    ) -> ScanState {
        ScanState {
            segments: self.segments.push(segment_of(image, h, seg)),
            image_end: if self.image_end < seg + h.memsz {
                (seg + h.memsz) as u64
            } else {
                self.image_end
            },
            rw_min: if h.flags & 2 != 0 {
                match self.rw_min {
                    Some(m) if m <= seg => Some(m),
                    _ => Some(seg),
                }
            } else {
                self.rw_min
            },
            phdr_va: if holds_phdrs(h, phoff) {
                Some((seg + (phoff - h.offset)) as u64)
            } else {
                self.phdr_va
            },
        }
    }
}

/// How loading ends once the segments are in place.
#[derive(Clone, Copy, Debug, PartialEq, Eq, Structural)]
pub enum LoadEnd {
    Loaded(ElfLoadedMeta),
    Failed(ElfError),
    /// An address in the image leaves the address space. The kernel stops.
    Fault,
}

/// A load in the abstract: these segments, in this order, then the end.
pub struct PlanSpec {
    pub segments: Seq<Segment>,
    pub end: LoadEnd,
}

/// The plan once every program header has been read.
pub open spec fn scan_end(image: Seq<u8>, bias: u64, st: ScanState) -> PlanSpec {
    let hdr = file_header(image);
    PlanSpec {
        segments: st.segments,
        end: match st.phdr_va {
            None => LoadEnd::Failed(ElfError::NoPhdrInLoad),
            Some(phdr) => LoadEnd::Loaded(
                ElfLoadedMeta {
                    entry: hdr.entry.wrapping_add(bias),
                    phdr,
                    phnum: hdr.phnum as u64,
                    phent: PHDR_SIZE,
                    image_end: st.image_end,
                    rw_min: match st.rw_min {
                        Some(m) => m,
                        None => (USER_TEXT_BASE + PAGE_SIZE) as u64,
                    },
                },
            ),
        },
    }
}

/// Reads the program headers from number `i` on. A header past the end of the file, a wrong
/// alignment, file bytes that are not there and an address out of range each end the load after
/// the segments before it.
pub open spec fn scan(image: Seq<u8>, bias: u64, i: int, st: ScanState) -> PlanSpec
    decreases file_header(image).phnum - i,
{
    let hdr = file_header(image);
    let off = hdr.phoff + i * PHDR_SIZE;
    if i >= hdr.phnum {
        scan_end(image, bias, st)
    } else if off + PHDR_SIZE > u64::MAX {
        PlanSpec { segments: st.segments, end: LoadEnd::Fault }
    } else if off + PHDR_SIZE > image.len() {
        PlanSpec { segments: st.segments, end: LoadEnd::Failed(ElfError::PhdrOob) }
    } else {
        let h = program_header(image, off);
        let seg = h.vaddr.wrapping_add(bias);
        if h.p_type != 1 {
            scan(image, bias, i + 1, st)
        } else if h.align != 0 && h.align != PAGE_SIZE {
            PlanSpec { segments: st.segments, end: LoadEnd::Failed(ElfError::UnsupportedAlign) }
        } else if h.memsz == 0 {
            scan(image, bias, i + 1, st)
        } else if leaves_address_space(h, seg, hdr.phoff) {
            PlanSpec { segments: st.segments, end: LoadEnd::Fault }
        } else {
            let next = st.with_segment(image, h, seg, hdr.phoff);
            if bytes_in_file(image, h) < h.filesz {
                PlanSpec {
                    segments: next.segments,
                    end: LoadEnd::Failed(ElfError::SegmentFileOob),
                }
            } else {
                scan(image, bias, i + 1, next)
            }
        }
    }
}

/// What loading the image at `bias` comes to.
pub open spec fn load_plan(image: Seq<u8>, bias: u64) -> PlanSpec {
    match header_error(image) {
        Some(e) => PlanSpec { segments: Seq::empty(), end: LoadEnd::Failed(e) },
        None => scan(image, bias, 0, ScanState::initial()),
    }
}

/// The segments of an image, in load order, and how loading ends after them.
pub struct LoadPlan {
    pub segments: Vec<Segment>,
    pub end: LoadEnd,
}

impl View for LoadPlan {
    type V = PlanSpec;

    open spec fn view(&self) -> PlanSpec {
        PlanSpec { segments: self.segments@, end: self.end }
    }
}

fn read_program_header(image: &[u8], off: usize) -> (h: ProgramHeader)
    requires
        off + PHDR_SIZE <= image@.len(),
    ensures
        h == program_header(image@, off as int),
{
    assert(image.len() == image@.len());
    ProgramHeader {
        p_type: read_u32(image, off),
        flags: read_u32(image, off + 4),
        offset: read_u64(image, off + 8),
        vaddr: read_u64(image, off + 16),
        filesz: read_u64(image, off + 32),
        memsz: read_u64(image, off + 40),
        align: read_u64(image, off + 48),
    }
}

/// Places one segment; `None` where it leaves the address space. Also gives the end address and,
/// where the segment holds them, the address of the program headers.
fn place_segment(image: &[u8], h: &ProgramHeader, seg: u64, phoff: u64) -> (r: Option<
    (Segment, u64, Option<u64>),
>)
    requires
        h.memsz > 0,
    ensures
        match r {
            None => leaves_address_space(*h, seg, phoff),
            Some((s, end, phdr)) => {
                &&& !leaves_address_space(*h, seg, phoff)
                &&& s == segment_of(image@, *h, seg)
                &&& s.wf()
                &&& end == seg + h.memsz
                &&& phdr == (if holds_phdrs(*h, phoff) {
                    Some((seg + (phoff - h.offset)) as u64)
                } else {
                    None
                })
            },
        },
{
    let mut phdr: Option<u64> = None;
    if phoff >= h.offset && phoff < h.offset.saturating_add(h.filesz) {
        match seg.checked_add(phoff - h.offset) {
            None => {
                return None;
            },
            Some(va) => {
                phdr = Some(va);
            },
        }
    }
    let vstart = match virt_addr(seg) {
        None => {
            return None;
        },
        Some(v) => v,
    };
    let end = match seg.checked_add(h.memsz) {
        None => {
            return None;
        },
        Some(e) => e,
    };
    let vend = match virt_addr(end) {
        None => {
            return None;
        },
        Some(v) => v,
    };
    let vlast = match virt_addr(vend - 1) {
        None => {
            return None;
        },
        Some(v) => v,
    };
    assert(vlast == vend - 1);
    let available: u64 = image.len() as u64;
    let copy_len: u64 = if h.offset >= available {
        0
    } else if h.filesz <= available - h.offset {
        h.filesz
    } else {
        available - h.offset
    };
    let s = Segment {
        vaddr: seg,
        first_page: page_containing(vstart),
        last_page: page_containing(vlast),
        flags: PageFlags {
            present: true,
            writable: h.flags & 2 != 0,
            user_accessible: true,
            no_execute: h.flags & 1 == 0,
        },
        file_off: h.offset,
        copy_len,
    };
    Some((s, end, phdr))
}

/// Every segment of the plan starts and ends on a page.
pub open spec fn segments_wf(segments: Seq<Segment>) -> bool {
    forall|i: int| 0 <= i < segments.len() ==> (#[trigger] segments[i]).wf()
}

fn check_header(image: &[u8]) -> (e: Option<ElfError>)
    ensures
        e == header_error(image@),
{
    if image.len() < EHDR_SIZE as usize {
        return Some(ElfError::Truncated);
    }
    if image[0] != 0x7f || image[1] != 0x45 || image[2] != 0x4c || image[3] != 0x46 || image[4] != 2
        || image[5] != 1 {
        return Some(ElfError::BadElf);
    }
    let e_type = read_u16(image, 16);
    if e_type != 2 && e_type != 3 {
        return Some(ElfError::NotExecOrDyn);
    }
    if read_u16(image, 18) != 0x3e {
        return Some(ElfError::NotX86_64);
    }
    if read_u16(image, 54) as u64 != PHDR_SIZE {
        return Some(ElfError::UnexpectedPhdrSize);
    }
    None
}

/// Reads the image: the segments to place, in order, and how loading ends after them.
pub fn load_elf_mapped(image: &[u8], bias: u64) -> (plan: LoadPlan)
    ensures
        plan@ == load_plan(image@, bias),
        segments_wf(plan@.segments),
{
    let mut segments: Vec<Segment> = Vec::new();
    match check_header(image) {
        Some(e) => {
            return LoadPlan { segments, end: LoadEnd::Failed(e) };
        },
        None => {},
    }
    let hdr = FileHeader {
        entry: read_u64(image, 24),
        phoff: read_u64(image, 32),
        phnum: read_u16(image, 56),
    };
    let mut image_end: u64 = 0;
    let mut rw_min: Option<u64> = None;
    let mut phdr_va: Option<u64> = None;
    let mut i: u16 = 0;
    assert(ScanState::initial() == ScanState {
        segments: segments@,
        image_end,
        rw_min,
        phdr_va,
    });
    while i < hdr.phnum
        invariant
            hdr == file_header(image@),
            header_error(image@) is None,
            i <= hdr.phnum,
            segments_wf(segments@),
            load_plan(image@, bias) == scan(
                image@,
                bias,
                i as int,
                ScanState { segments: segments@, image_end, rw_min, phdr_va },
            ),
        decreases hdr.phnum - i,
    {
        let ghost st = ScanState { segments: segments@, image_end, rw_min, phdr_va };
        let off: u64 = match hdr.phoff.checked_add(i as u64 * PHDR_SIZE) {
            None => {
                return LoadPlan { segments, end: LoadEnd::Fault };
            },
            Some(o) => o,
        };
        let stop: u64 = match off.checked_add(PHDR_SIZE) {
            None => {
                return LoadPlan { segments, end: LoadEnd::Fault };
            },
            Some(o) => o,
        };
        if stop > image.len() as u64 {
            return LoadPlan { segments, end: LoadEnd::Failed(ElfError::PhdrOob) };
        }
        let h = read_program_header(image, off as usize);
        i = i + 1;
        if h.p_type != 1 {
            continue ;
        }
        if h.align != 0 && h.align != PAGE_SIZE {
            return LoadPlan { segments, end: LoadEnd::Failed(ElfError::UnsupportedAlign) };
        }
        if h.memsz == 0 {
            continue ;
        }
        let seg = h.vaddr.wrapping_add(bias);
        match place_segment(image, &h, seg, hdr.phoff) {
            None => {
                return LoadPlan { segments, end: LoadEnd::Fault };
            },
            Some((s, end, phdr)) => {
                if phdr.is_some() {
                    phdr_va = phdr;
                }
                if h.flags & 2 != 0 {
                    rw_min = match rw_min {
                        Some(m) => if m <= seg {
                            Some(m)
                        } else {
                            Some(seg)
                        },
                        None => Some(seg),
                    };
                }
                if image_end < end {
                    image_end = end;
                }
                segments.push(s);
                assert(st.with_segment(image@, h, seg, hdr.phoff) == ScanState {
                    segments: segments@,
                    image_end,
                    rw_min,
                    phdr_va,
                });
                if s.copy_len < h.filesz {
                    return LoadPlan { segments, end: LoadEnd::Failed(ElfError::SegmentFileOob) };
                }
            },
        }
    }
    let end = match phdr_va {
        None => LoadEnd::Failed(ElfError::NoPhdrInLoad),
        Some(phdr) => LoadEnd::Loaded(
            ElfLoadedMeta {
                entry: hdr.entry.wrapping_add(bias),
                phdr,
                phnum: hdr.phnum as u64,
                phent: PHDR_SIZE,
                image_end,
                rw_min: match rw_min {
                    Some(m) => m,
                    None => USER_TEXT_BASE + PAGE_SIZE,
                },
            },
        ),
    };
    LoadPlan { segments, end }
}

// --- placing the segments ---

/// What the loader needs next.
#[derive(Clone, Copy, Debug, PartialEq, Eq, Structural)]
pub enum LoadAction {
    /// Map a zeroed frame.
    Place(MapRequest),
    /// Copy `len` bytes of the image, from `file_off` on, to the user addresses from `va` on.
    Copy { va: u64, file_off: u64, len: u64 },
    /// Every segment is in place.
    End(LoadEnd),
    /// The machine did not go along.
    Failed(ElfError),
}

impl Segment {
    /// The pages of the segment.
    pub open spec fn pages(self) -> Seq<u64> {
        pages_between(self.first_page, self.last_page)
    }
}

/// Walks the segments of a plan. The current segment is the first of those left.
pub struct ElfLoader {
    segments: Vec<Segment>,
    end: LoadEnd,
    index: usize,
    job: MapJob,
}

/// Asking for a zeroed frame for `page`.
pub open spec fn places_page(
    page: u64,
    flags: PageFlags,
    before: Set<int>,
    action: LoadAction,
    after: Set<int>,
) -> bool {
    match action {
        LoadAction::Place(req) => places(page, flags, true, before, PageAction::Place(req), after),
        LoadAction::Failed(e) => e == ElfError::FrameOom && places(
            page,
            flags,
            true,
            before,
            PageAction::Failed(PageFailure::NoFrame),
            after,
        ),
        _ => false,
    }
}

impl ElfLoader {
    pub closed spec fn wf(&self) -> bool {
        &&& segments_wf(self.segments@)
        &&& self.index <= self.segments@.len()
        &&& self.job.wf()
        &&& self.job.zeroes()
        &&& !self.job.skips_mapped()
        &&& self.left().len() > 0 ==> self.job.page_flags() == self.left()[0].flags
    }

    /// The segments that are not in place yet.
    pub closed spec fn left(&self) -> Seq<Segment> {
        self.segments@.skip(self.index as int)
    }

    /// The pages of the current segment that are not mapped yet.
    pub closed spec fn todo(&self) -> Seq<u64> {
        self.job.todo()
    }

    /// How the load ends once every segment is in place.
    pub closed spec fn plan_end(&self) -> LoadEnd {
        self.end
    }

    /// The segments and the end of a fresh loader.
    pub open spec fn is_fresh(&self, plan: PlanSpec) -> bool {
        self.left() == plan.segments && self.plan_end() == plan.end
    }

    /// The loader stands at the start of `left`: it gives the first page a frame; a segment
    /// without pages goes straight to its file bytes; one without those either is passed over.
    pub open spec fn enters(
        &self,
        left: Seq<Segment>,
        before: Set<int>,
        action: LoadAction,
        after: Set<int>,
    ) -> bool
        decreases left.len(),
    {
        if left.len() == 0 {
            &&& self.left().len() == 0
            &&& action == LoadAction::End(self.plan_end())
            &&& after == before
        } else if left[0].pages().len() > 0 {
            &&& self.left() == left
            &&& self.todo() == left[0].pages()
            &&& places_page(left[0].pages()[0], left[0].flags, before, action, after)
        } else if left[0].copy_len > 0 {
            &&& self.left() == left
            &&& self.todo().len() == 0
            &&& action == copy_action(left[0])
            &&& after == before
        } else {
            self.enters(left.drop_first(), before, action, after)
        }
    }

    /// The page tables answered: the loader, the next action and the free frames that follow.
    pub open spec fn after_mapped(
        &self,
        outcome: MapOutcome,
        before: Set<int>,
        next: ElfLoader,
        action: LoadAction,
        after: Set<int>,
    ) -> bool {
        let rest = self.todo().drop_first();
        let s = self.left()[0];
        &&& next.plan_end() == self.plan_end()
        &&& if outcome != MapOutcome::Mapped {
            &&& next.left() == self.left()
            &&& action == LoadAction::Failed(ElfError::MapTo)
            &&& after == before
        } else if rest.len() > 0 {
            &&& next.left() == self.left()
            &&& next.todo() == rest
            &&& places_page(rest[0], s.flags, before, action, after)
        } else if s.copy_len > 0 {
            &&& next.left() == self.left()
            &&& next.todo().len() == 0
            &&& action == copy_action(s)
            &&& after == before
        } else {
            next.enters(self.left().drop_first(), before, action, after)
        }
    }

    /// The file bytes were copied or not: the loader, the next action and the free frames that
    /// follow.
    pub open spec fn after_copied(
        &self,
        copied: bool,
        before: Set<int>,
        next: ElfLoader,
        action: LoadAction,
        after: Set<int>,
    ) -> bool {
        &&& next.plan_end() == self.plan_end()
        &&& if copied {
            next.enters(self.left().drop_first(), before, action, after)
        } else {
            &&& next.left() == self.left()
            &&& action == LoadAction::Failed(ElfError::Translate)
            &&& after == before
        }
    }

    /// A loader for the plan.
    pub fn new(plan: LoadPlan) -> (loader: ElfLoader)
        requires
            segments_wf(plan@.segments),
        ensures
            loader.wf(),
            loader.is_fresh(plan@),
    {
        let flags = if plan.segments.len() > 0 {
            plan.segments[0].flags
        } else {
            PageFlags { present: true, writable: false, user_accessible: true, no_execute: true }
        };
        let job = MapJob::new(PageRange::new(PAGE_SIZE, 0), flags, false, true);
        let loader = ElfLoader { segments: plan.segments, end: plan.end, index: 0, job };
        assert(loader.left() =~= plan.segments@);
        loader
    }

    /// Enters the first of the segments left that has something to do.
    fn enter(&mut self, fa: &mut BitmapFrameAllocator) -> (action: LoadAction)
        requires
            segments_wf(old(self).segments@),
            old(self).index <= old(self).segments@.len(),
            old(self).job.wf(),
            old(self).job.zeroes(),
            !old(self).job.skips_mapped(),
            old(fa).wf(),
        ensures
            final(self).wf(),
            final(self).plan_end() == old(self).plan_end(),
            final(fa).wf(),
            final(fa).usable() == old(fa).usable(),
            final(self).enters(old(self).left(), old(fa)@, action, final(fa)@),
        decreases old(self).segments@.len() - old(self).index,
    {
        if self.index >= self.segments.len() {
            return LoadAction::End(self.end);
        }
        let s = self.segments[self.index];
        assert(self.left()[0] == s);
        self.job = MapJob::new(PageRange::new(s.first_page, s.last_page), s.flags, false, true);
        match self.job.start(fa) {
            PageAction::Place(req) => LoadAction::Place(req),
            PageAction::Failed(_) => LoadAction::Failed(ElfError::FrameOom),
            _ => {
                if s.copy_len > 0 {
                    LoadAction::Copy { va: s.vaddr, file_off: s.file_off, len: s.copy_len }
                } else {
                    let ghost left = self.left();
                    self.index = self.index + 1;
                    assert(self.left() =~= left.drop_first());
                    self.enter(fa)
                }
            },
        }
    }

    /// The first action.
    pub fn start(&mut self, fa: &mut BitmapFrameAllocator) -> (action: LoadAction)
        requires
            old(self).wf(),
            old(fa).wf(),
        ensures
            final(self).wf(),
            final(self).plan_end() == old(self).plan_end(),
            final(fa).wf(),
            final(fa).usable() == old(fa).usable(),
            final(self).enters(old(self).left(), old(fa)@, action, final(fa)@),
    {
        self.enter(fa)
    }

    /// The page tables answered the last [`MapRequest`].
    pub fn on_mapped(&mut self, fa: &mut BitmapFrameAllocator, outcome: MapOutcome) -> (action:
        LoadAction)
        requires
            old(self).wf(),
            old(self).left().len() > 0,
            old(self).todo().len() > 0,
            old(fa).wf(),
        ensures
            final(self).wf(),
            final(fa).wf(),
            final(fa).usable() == old(fa).usable(),
            old(self).after_mapped(outcome, old(fa)@, *final(self), action, final(fa)@),
    {
        let s = self.segments[self.index];
        assert(self.left()[0] == s);
        assert(self.segments.len() == self.segments@.len());
        match self.job.on_mapped(fa, outcome) {
            PageAction::Place(req) => LoadAction::Place(req),
            PageAction::Failed(f) => match f {
                PageFailure::NoFrame => LoadAction::Failed(ElfError::FrameOom),
                PageFailure::MapTo => LoadAction::Failed(ElfError::MapTo),
            },
            _ => {
                if s.copy_len > 0 {
                    LoadAction::Copy { va: s.vaddr, file_off: s.file_off, len: s.copy_len }
                } else {
                    let ghost left = self.left();
                    self.index = self.index + 1;
                    assert(self.left() =~= left.drop_first());
                    self.enter(fa)
                }
            },
        }
    }

    /// The file bytes of the current segment were copied, or one of their addresses was not mapped.
    pub fn on_copied(&mut self, fa: &mut BitmapFrameAllocator, copied: bool) -> (action: LoadAction)
        requires
            old(self).wf(),
            old(self).left().len() > 0,
            old(fa).wf(),
        ensures
            final(self).wf(),
            final(fa).wf(),
            final(fa).usable() == old(fa).usable(),
            old(self).after_copied(copied, old(fa)@, *final(self), action, final(fa)@),
    {
        if copied {
            let ghost left = self.left();
            assert(self.segments.len() == self.segments@.len());
            self.index = self.index + 1;
            assert(self.left() =~= left.drop_first());
            self.enter(fa)
        } else {
            LoadAction::Failed(ElfError::Translate)
        }
    }
}

/// The copy that fills a segment.
pub open spec fn copy_action(s: Segment) -> LoadAction {
    LoadAction::Copy { va: s.vaddr, file_off: s.file_off, len: s.copy_len }
}

/// Starts loading an image for the first time.
pub fn load_elf(image: &[u8], bias: u64) -> (loader: ElfLoader)
    ensures
        loader.wf(),
        loader.is_fresh(load_plan(image@, bias)),
{
    ElfLoader::new(load_elf_mapped(image, bias))
}

/// The bounds of a loaded image, noted: where it ends, counted as at least one page, and where its
/// writable part starts.
pub open spec fn with_image(user: UserImage, meta: ElfLoadedMeta) -> UserImage {
    UserImage {
        entry_rip: user.entry_rip,
        image_end: if meta.image_end < USER_TEXT_BASE + PAGE_SIZE {
            (USER_TEXT_BASE + PAGE_SIZE) as u64
        } else {
            meta.image_end
        },
        rw_start: meta.rw_min,
    }
}

/// Notes where the loaded image ends and where its writable part starts. The image counts as at
/// least one page.
pub fn apply_user_meta(user: &mut UserImage, meta: &ElfLoadedMeta)
    ensures
        *final(user) == with_image(*old(user), *meta),
{
    let least: u64 = USER_TEXT_BASE + PAGE_SIZE;
    set_user_image_end(
        user,
        if meta.image_end < least {
            least
        } else {
            meta.image_end
        },
    );
    set_user_rw_image_start(user, meta.rw_min);
}

/// What settling a load does, and its result.
pub open spec fn load_settles(
    loaded: Result<ElfLoadedMeta, ElfError>,
    user: UserImage,
    user2: UserImage,
    r: Result<u64, ElfError>,
) -> bool {
    match loaded {
        Ok(meta) => r == Ok::<u64, ElfError>(meta.entry) && user2 == with_image(user, meta),
        Err(e) => r == Err::<u64, ElfError>(e) && user2 == user,
    }
}

/// The job takes out the pages of the image.
pub open spec fn clears_image(user: UserImage, job: UnmapJob) -> bool {
    job.todo() == page_steps(USER_TEXT_BASE, user.image_end) && job.checks_mapped()
}

/// Settles a load: an image that is in place has its bounds noted, and the result is its entry. An
/// error is handed on, and nothing is noted.
pub fn finish_elf(user: &mut UserImage, loaded: &Result<ElfLoadedMeta, ElfError>) -> (r: Result<
    u64,
    ElfError,
>)
    ensures
        match *loaded {
            Ok(meta) => {
                &&& r == Ok::<u64, ElfError>(meta.entry)
                &&& *final(user) == with_image(*old(user), meta)
            },
            Err(e) => {
                &&& r == Err::<u64, ElfError>(e)
                &&& *final(user) == *old(user)
            },
        },
        load_settles(*loaded, *old(user), *final(user), r),
{
    match loaded {
        Ok(meta) => {
            apply_user_meta(user, meta);
            Ok(meta.entry)
        },
        Err(e) => Err(*e),
    }
}

/// Why an image cannot be loaded where there is no frame allocator. What is wrong with the file
/// header comes first.
pub fn error_without_allocator(image: &[u8]) -> (e: ElfError)
    ensures
        e == (match header_error(image@) {
            Some(e) => e,
            None => ElfError::Allocator,
        }),
{
    match check_header(image) {
        Some(e) => e,
        None => ElfError::Allocator,
    }
}

/// Takes the pages of the old image out, as far as they are mapped.
pub fn unmap_old_image_best_effort(user: &UserImage) -> (job: UnmapJob)
    requires
        user.image_end <= 0x1_0000_0000_0000,
    ensures
        job.wf(),
        job.todo() == page_steps(USER_TEXT_BASE, user.image_end),
        job.checks_mapped(),
        clears_image(*user, job),
{
    UnmapJob::new(USER_TEXT_BASE, user.image_end, true)
}

/// Starts replacing the running image: first the old pages go, then the new image is loaded.
pub fn load_elf_exec(image: &[u8], bias: u64, user: &UserImage) -> (r: (UnmapJob, ElfLoader))
    requires
        user.image_end <= 0x1_0000_0000_0000,
    ensures
        r.0.wf(),
        r.0.todo() == page_steps(USER_TEXT_BASE, user.image_end),
        r.0.checks_mapped(),
        r.1.wf(),
        r.1.is_fresh(load_plan(image@, bias)),
        clears_image(*user, r.0),
{
    (unmap_old_image_best_effort(user), load_elf(image, bias))
}

// --- what a load goes through ---

/// One step of a load that goes well.
pub enum LoadStep {
    /// A zeroed frame at this page.
    Page(u64, PageFlags),
    Copy { va: u64, file_off: u64, len: u64 },
    End(LoadEnd),
}

/// Every page of the segment, then its file bytes if it has any.
pub open spec fn segment_steps(pages: Seq<u64>, s: Segment) -> Seq<LoadStep> {
    pages.map_values(|p: u64| LoadStep::Page(p, s.flags)) + copy_steps(s)
}

pub open spec fn copy_steps(s: Segment) -> Seq<LoadStep> {
    if s.copy_len > 0 {
        seq![LoadStep::Copy { va: s.vaddr, file_off: s.file_off, len: s.copy_len }]
    } else {
        Seq::empty()
    }
}

/// The segments in order, then the end.
pub open spec fn plan_steps(segments: Seq<Segment>, end: LoadEnd) -> Seq<LoadStep>
    decreases segments.len(),
{
    if segments.len() == 0 {
        seq![LoadStep::End(end)]
    } else {
        segment_steps(segments[0].pages(), segments[0]) + plan_steps(segments.drop_first(), end)
    }
}

/// A loader at the moment it asked for `action`.
pub struct LoadMoment {
    pub loader: ElfLoader,
    pub action: LoadAction,
}

/// `b` can come right after `a`, whatever the machine answered.
pub open spec fn load_follows(a: LoadMoment, b: LoadMoment) -> bool {
    match a.action {
        LoadAction::Place(_) => exists|outcome: MapOutcome, before: Set<int>, after: Set<int>|
            a.loader.after_mapped(outcome, before, b.loader, b.action, after),
        LoadAction::Copy { .. } => exists|copied: bool, before: Set<int>, after: Set<int>|
            a.loader.after_copied(copied, before, b.loader, b.action, after),
        _ => false,
    }
}

/// Moment `i + 1` of a run can come right after moment `i`.
pub open spec fn is_load_step(run: Seq<LoadMoment>, i: int) -> bool {
    load_follows(run[i], run[i + 1])
}

/// `run` is what a fresh loader of `plan` can go through.
pub open spec fn is_load_run(plan: PlanSpec, run: Seq<LoadMoment>) -> bool {
    &&& run.len() > 0
    &&& run[0].loader.plan_end() == plan.end
    &&& exists|before: Set<int>, after: Set<int>|
        run[0].loader.enters(plan.segments, before, run[0].action, after)
    &&& forall|i: int| 0 <= i < run.len() - 1 ==> #[trigger] is_load_step(run, i)
}

/// The action carries out the step.
pub open spec fn carries_out(action: LoadAction, step: LoadStep) -> bool {
    match step {
        LoadStep::Page(page, flags) => action matches LoadAction::Place(req) && req.page == page
            && req.flags == flags && req.zeroed,
        LoadStep::Copy { va, file_off, len } => action == LoadAction::Copy { va, file_off, len },
        LoadStep::End(end) => action == LoadAction::End(end),
    }
}

/// The steps from the moment on, if everything goes well.
spec fn steps_from(m: LoadMoment) -> Seq<LoadStep> {
    match m.action {
        LoadAction::Place(_) => segment_steps(m.loader.todo(), m.loader.left()[0]) + plan_steps(
            m.loader.left().drop_first(),
            m.loader.plan_end(),
        ),
        LoadAction::Copy { .. } => copy_steps(m.loader.left()[0]) + plan_steps(
            m.loader.left().drop_first(),
            m.loader.plan_end(),
        ),
        LoadAction::End(end) => seq![LoadStep::End(m.loader.plan_end())],
        LoadAction::Failed(_) => Seq::empty(),
    }
}

/// The moment fits the loader's state.
spec fn in_step(m: LoadMoment) -> bool {
    match m.action {
        LoadAction::Place(_) => m.loader.left().len() > 0 && m.loader.todo().len() > 0,
        LoadAction::Copy { .. } => m.loader.left().len() > 0 && m.loader.left()[0].copy_len > 0,
        _ => true,
    }
}

proof fn lemma_enters(
    m: LoadMoment,
    left: Seq<Segment>,
    before: Set<int>,
    after: Set<int>,
)
    requires
        m.loader.enters(left, before, m.action, after),
        !(m.action is Failed),
    ensures
        steps_from(m) == plan_steps(left, m.loader.plan_end()),
        steps_from(m).len() > 0,
        carries_out(m.action, steps_from(m)[0]),
        in_step(m),
    decreases left.len(),
{
    if left.len() > 0 {
        if left[0].pages().len() > 0 {
        } else if left[0].copy_len > 0 {
            assert(segment_steps(left[0].pages(), left[0]) =~= copy_steps(left[0]));
        } else {
            lemma_enters(m, left.drop_first(), before, after);
            assert(segment_steps(left[0].pages(), left[0]) =~= Seq::empty());
            assert(plan_steps(left, m.loader.plan_end()) =~= plan_steps(
                left.drop_first(),
                m.loader.plan_end(),
            ));
        }
    }
}

proof fn lemma_load_follows(a: LoadMoment, b: LoadMoment)
    requires
        load_follows(a, b),
        in_step(a),
        steps_from(a).len() > 0,
        !(b.action is Failed),
    ensures
        b.loader.plan_end() == a.loader.plan_end(),
        steps_from(b) == steps_from(a).drop_first(),
        steps_from(b).len() > 0,
        carries_out(b.action, steps_from(b)[0]),
        in_step(b),
{
    let end = a.loader.plan_end();
    let left = a.loader.left();
    match a.action {
        LoadAction::Place(_) => {
            let (outcome, before, after) = choose|
                outcome: MapOutcome,
                before: Set<int>,
                after: Set<int>,
            | a.loader.after_mapped(outcome, before, b.loader, b.action, after);
            let rest = a.loader.todo().drop_first();
            let s = left[0];
            assert(segment_steps(a.loader.todo(), s).drop_first() =~= segment_steps(rest, s));
            assert(steps_from(a).drop_first() =~= segment_steps(rest, s) + plan_steps(
                left.drop_first(),
                end,
            ));
            if rest.len() > 0 {
            } else if s.copy_len > 0 {
                assert(segment_steps(rest, s) =~= copy_steps(s));
            } else {
                assert(segment_steps(rest, s) =~= Seq::empty());
                assert(steps_from(a).drop_first() =~= plan_steps(left.drop_first(), end));
                lemma_enters(b, left.drop_first(), before, after);
            }
        },
        LoadAction::Copy { .. } => {
            let (copied, before, after) = choose|
                copied: bool,
                before: Set<int>,
                after: Set<int>,
            | a.loader.after_copied(copied, before, b.loader, b.action, after);
            assert(steps_from(a).drop_first() =~= plan_steps(left.drop_first(), end));
            lemma_enters(b, left.drop_first(), before, after);
        },
        _ => {},
    }
}

proof fn lemma_load_run(plan: PlanSpec, run: Seq<LoadMoment>, i: int)
    requires
        is_load_run(plan, run),
        0 <= i < run.len(),
        forall|j: int| 0 <= j < run.len() ==> !((#[trigger] run[j]).action is Failed),
    ensures
        run[i].loader.plan_end() == plan.end,
        i < plan_steps(plan.segments, plan.end).len(),
        steps_from(run[i]) == plan_steps(plan.segments, plan.end).skip(i),
        carries_out(run[i].action, plan_steps(plan.segments, plan.end)[i]),
        in_step(run[i]),
    decreases i,
{
    let all = plan_steps(plan.segments, plan.end);
    if i == 0 {
        let (before, after) = choose|before: Set<int>, after: Set<int>|
            run[0].loader.enters(plan.segments, before, run[0].action, after);
        lemma_enters(run[0], plan.segments, before, after);
        assert(all.skip(0) =~= all);
    } else {
        lemma_load_run(plan, run, i - 1);
        assert(is_load_step(run, i - 1));
        assert(all.skip(i - 1)[0] == all[i - 1]);
        lemma_load_follows(run[i - 1], run[i]);
        assert(all.skip(i - 1).drop_first() =~= all.skip(i));
        assert(all.skip(i)[0] == all[i]);
    }
}

/// A load that reaches its end has put a zeroed frame under every page of every segment, with the
/// segment's protection, and has copied the file bytes of each segment after its pages, segment by
/// segment in file order; and nothing else.
pub proof fn law_load_places_every_segment(plan: PlanSpec, run: Seq<LoadMoment>)
    requires
        is_load_run(plan, run),
        forall|j: int| 0 <= j < run.len() ==> !((#[trigger] run[j]).action is Failed),
        run.last().action is End,
    ensures
        run.len() == plan_steps(plan.segments, plan.end).len(),
        forall|i: int|
            0 <= i < run.len() ==> carries_out(
                (#[trigger] run[i]).action,
                plan_steps(plan.segments, plan.end)[i],
            ),
{
    let all = plan_steps(plan.segments, plan.end);
    lemma_load_run(plan, run, run.len() - 1);
    assert(all.skip(run.len() - 1).len() == 1);
    assert forall|i: int| 0 <= i < run.len() implies carries_out(
        (#[trigger] run[i]).action,
        all[i],
    ) by {
        lemma_load_run(plan, run, i);
    }
}

/// A program ready to run: where it starts, its stack pointer, and the stack bytes from the stack
/// pointer on.
pub struct ExecStart {
    pub entry: u64,
    pub rsp: u64,
    pub stack: Vec<u8>,
}

/// The start of an image: its entry, and its first stack at the low end of the stack page.
pub open spec fn is_exec_start(
    meta: ElfLoadedMeta,
    argv: Seq<Seq<u8>>,
    envp: Seq<Seq<u8>>,
    start: ExecStart,
) -> bool {
    &&& start.entry == meta.entry
    &&& start.rsp == USER_STACK_LO
    &&& start.stack@ == stack_image(meta, argv, envp)
    &&& stack_len(argv, envp) <= PAGE_SIZE
}

/// The new image is in place: notes its extent and lays out its stack.
pub fn finish_elf_exec(user: &mut UserImage, meta: &ElfLoadedMeta, args: &ExecArgs<'_>) -> (r: Result<
    ExecStart,
    ElfError,
>)
    ensures
        *final(user) == with_image(*old(user), *meta),
        match r {
            Ok(start) => {
                &&& stack_len(string_bytes(args.argv@), string_bytes(args.envp@)) <= PAGE_SIZE
                &&& start.entry == meta.entry
                &&& start.rsp == USER_STACK_LO
                &&& start.stack@ == stack_image(
                    *meta,
                    string_bytes(args.argv@),
                    string_bytes(args.envp@),
                )
            },
            Err(e) => {
                &&& e == ElfError::StackOverflow
                &&& stack_len(string_bytes(args.argv@), string_bytes(args.envp@)) > PAGE_SIZE
            },
        },
        r matches Ok(start) ==> is_exec_start(*meta, string_bytes(args.argv@), string_bytes(
            args.envp@,
        ), start),
{
    apply_user_meta(user, meta);
    match build_exec_stack(meta, args) {
        Ok(stack) => Ok(ExecStart { entry: meta.entry, rsp: USER_STACK_LO, stack }),
        Err(e) => Err(e),
    }
}

/// When a file header is refused, and as what: too short a file; then a wrong magic number, class or
/// byte order; then a type that is neither executable nor shared; then another machine than x86-64;
/// then program headers of another size than 56 bytes. Any other header is in order.
pub proof fn law_header_errors(image: Seq<u8>)
    ensures
        ({
            let e = header_error(image);
            let magic = image[0] == 0x7f && image[1] == 0x45 && image[2] == 0x4c && image[3] == 0x46
                && image[4] == 2 && image[5] == 1;
            let kind = (image[16] == 2 || image[16] == 3) && image[17] == 0;
            let machine = image[18] == 0x3e && image[19] == 0;
            let size = image[54] == 56 && image[55] == 0;
            &&& image.len() < 64 <==> e == Some(ElfError::Truncated)
            &&& image.len() >= 64 && !magic <==> e == Some(ElfError::BadElf)
            &&& image.len() >= 64 && magic && !kind <==> e == Some(ElfError::NotExecOrDyn)
            &&& image.len() >= 64 && magic && kind && !machine <==> e == Some(ElfError::NotX86_64)
            &&& image.len() >= 64 && magic && kind && machine && !size <==> e == Some(
                ElfError::UnexpectedPhdrSize,
            )
            &&& image.len() >= 64 && magic && kind && machine && size <==> e is None
        }),
{
}

/// Where the fields of an ELF64 file header and of a program header stand.
pub proof fn law_header_fields(image: Seq<u8>, off: int)
    ensures
        file_header(image).entry == le64(image, 24),
        file_header(image).phoff == le64(image, 32),
        file_header(image).phnum == image[56] + 256 * image[57],
        program_header(image, off).p_type == le32(image, off),
        program_header(image, off).flags == le32(image, off + 4),
        program_header(image, off).offset == le64(image, off + 8),
        program_header(image, off).vaddr == le64(image, off + 16),
        program_header(image, off).filesz == le64(image, off + 32),
        program_header(image, off).memsz == le64(image, off + 40),
        program_header(image, off).align == le64(image, off + 48),
{
}

/// Ring 3 reaches every segment; it can be written exactly if the header says so (bit 1), and run
/// exactly if the header says so (bit 0). The file bytes go to the start of the segment.
pub proof fn law_segment_protection(image: Seq<u8>, h: ProgramHeader, seg: u64)
    ensures
        ({
            let s = segment_of(image, h, seg);
            &&& s.flags.present && s.flags.user_accessible
            &&& s.flags.writable <==> h.flags & 2 != 0
            &&& s.flags.no_execute <==> h.flags & 1 == 0
            &&& s.vaddr == seg
            &&& s.file_off == h.offset
            &&& h.offset + h.filesz <= image.len() ==> s.copy_len == h.filesz
            &&& s.copy_len <= h.filesz
        }),
{
}

/// A segment below the gap, with its file bytes in reach, is never turned away for its addresses.
pub proof fn law_lower_half_segments_fit(h: ProgramHeader, seg: u64, phoff: u64)
    requires
        h.memsz > 0,
        seg + h.memsz < 0x8000_0000_0000,
        seg + h.filesz <= u64::MAX,
        h.offset + h.filesz <= u64::MAX,
    ensures
        !leaves_address_space(h, seg, phoff),
        holds_phdrs(h, phoff) <==> h.offset <= phoff < h.offset + h.filesz,
{
}

/// The bounds that are noted of an image: its end, but at least the end of the page at `0x400000`, and
/// the start of its writable part.
pub proof fn law_noted_bounds(user: UserImage, meta: ElfLoadedMeta)
    ensures
        with_image(user, meta).image_end >= 0x401000,
        with_image(user, meta).image_end >= meta.image_end,
        with_image(user, meta).image_end == meta.image_end || with_image(user, meta).image_end
            == 0x401000,
        with_image(user, meta).rw_start == meta.rw_min,
        with_image(user, meta).entry_rip == user.entry_rip,
{
}

/// A load stops where the machine does not go along: a page that cannot be mapped, for whatever reason,
/// and a byte that cannot be copied each end it, with their own error, and take no frame.
pub proof fn law_machine_stops_load(
    loader: ElfLoader,
    outcome: MapOutcome,
    before: Set<int>,
    next: ElfLoader,
    action: LoadAction,
    after: Set<int>,
)
    ensures
        loader.after_mapped(outcome, before, next, action, after) && outcome != MapOutcome::Mapped
            ==> action == LoadAction::Failed(ElfError::MapTo) && after == before,
        loader.after_copied(false, before, next, action, after) ==> action == LoadAction::Failed(
            ElfError::Translate,
        ) && after == before,
{
}

/// A page of a segment gets the least free frame, zeroed, with the segment's protection; without a
/// free frame the load is out of memory.
pub proof fn law_segment_page_gets_zeroed_frame(
    page: u64,
    flags: PageFlags,
    before: Set<int>,
    action: LoadAction,
    after: Set<int>,
    j: int,
)
    requires
        places_page(page, flags, before, action, after),
    ensures
        match action {
            LoadAction::Place(req) => {
                &&& req.page == page && req.flags == flags && req.zeroed
                &&& req.frame % 4096 == 0
                &&& before.contains(req.frame as int / 4096)
                &&& before.contains(j) ==> req.frame as int / 4096 <= j
                &&& after.contains(j) <==> before.contains(j) && j != req.frame as int / 4096
            },
            _ => action == LoadAction::Failed(ElfError::FrameOom) && !before.contains(j) && !after.contains(
                j,
            ),
        },
{
}

/// A load that went through gives its entry and has its bounds noted; one that did not gives its error,
/// and nothing is noted.
pub proof fn law_settled_load(
    loaded: Result<ElfLoadedMeta, ElfError>,
    user: UserImage,
    user2: UserImage,
    r: Result<u64, ElfError>,
)
    requires
        load_settles(loaded, user, user2, r),
    ensures
        loaded matches Ok(m) ==> (r matches Ok(e) && e == m.entry) && user2.image_end >= m.image_end
            && user2.image_end >= 0x401000 && user2.rw_start == m.rw_min && user2.entry_rip
            == user.entry_rip,
        loaded matches Err(x) ==> (r matches Err(e) && e == x) && user2 == user,
{
}

/// Replacing an image takes out every page from the text base up to where the old image ends, as far as
/// it is mapped, and no other.
pub proof fn law_old_image_goes(user: UserImage, job: UnmapJob, page: u64)
    requires
        clears_image(user, job),
    ensures
        job.todo().contains(page) <==> page % 4096 == 0 && 0x400000 <= page < user.image_end,
        job.checks_mapped(),
{
    crate::paging::law_walk_membership(0x400000, user.image_end, page, 0, 0);
}

/// A program starts at its entry with the stack pointer at `argc`: the words behind it point at the
/// arguments, each with a zero byte behind it.
pub proof fn law_program_finds_its_arguments(
    meta: ElfLoadedMeta,
    argv: Seq<Seq<u8>>,
    envp: Seq<Seq<u8>>,
    start: ExecStart,
    i: int,
    j: int,
)
    requires
        is_exec_start(meta, argv, envp, start),
        0 <= i < argv.len(),
        0 <= j < argv[i].len(),
    ensures
        start.entry == meta.entry,
        start.rsp == 0x401000,
        le64(start.stack@, 0) == argv.len(),
        ({
            let at = le64(start.stack@, 8 + 8 * i) - 0x401000;
            &&& 0 <= at && at + argv[i].len() < start.stack@.len()
            &&& start.stack@[at + j] == argv[i][j]
            &&& start.stack@[at + argv[i].len()] == 0
        }),
{
    crate::exec_stack::law_stack_starts_with_argc(meta, argv, envp);
    crate::exec_stack::law_argv_points_at_arguments(meta, argv, envp, i);
    let at = le64(start.stack@, 8 + 8 * i) - 0x401000;
    assert(start.stack@.subrange(at, at + argv[i].len())[j] == argv[i][j]);
}

proof fn lemma_entering_takes_frames(
    next: ElfLoader,
    left: Seq<Segment>,
    before: Set<int>,
    action: LoadAction,
    after: Set<int>,
)
    requires
        next.enters(left, before, action, after),
    ensures
        next.left().len() <= left.len(),
        !(action is Place) && action != LoadAction::Failed(ElfError::FrameOom) ==> after == before,
    decreases left.len(),
{
    if left.len() > 0 && left[0].pages().len() == 0 && left[0].copy_len == 0 {
        lemma_entering_takes_frames(next, left.drop_first(), before, action, after);
    }
}

/// The loader takes a frame only to place a page: at any other action the free frames are as they were.
/// After a page comes the next page of its segment; after the last one the segment's bytes are copied,
/// where it has any in the file.
pub proof fn law_loader_goes_on_in_order(
    loader: ElfLoader,
    next: ElfLoader,
    before: Set<int>,
    action: LoadAction,
    after: Set<int>,
)
    requires
        loader.left().len() > 0,
        loader.todo().len() > 0,
        loader.after_mapped(MapOutcome::Mapped, before, next, action, after),
    ensures
        !(action is Place) && action != LoadAction::Failed(ElfError::FrameOom) ==> after == before,
        loader.todo().len() > 1 && (action matches LoadAction::Place(req)) ==> action->Place_0.page
            == loader.todo()[1] && action->Place_0.flags == loader.left()[0].flags,
        loader.todo().len() > 1 ==> action is Place || action == LoadAction::Failed(ElfError::FrameOom),
        loader.todo().len() == 1 && loader.left()[0].copy_len > 0 ==> action is Copy,
        loader.todo().len() == 1 && loader.left()[0].copy_len == 0 && loader.left().len() == 1 ==> action
            is End,
        loader.todo().len() == 1 && loader.left()[0].copy_len == 0 ==> next.left().len()
            < loader.left().len(),
{
    if loader.todo().len() == 1 && loader.left()[0].copy_len == 0 {
        lemma_entering_takes_frames(next, loader.left().drop_first(), before, action, after);
    }
}

} // verus!
