//! Physical frames: a bitmap allocator built from the firmware memory map.
//!
//! One bit per 4 KiB frame, `1` for used and `0` for free. The allocator is viewed as the set of
//! free frame numbers.

use vstd::prelude::*;

verus! {

/// Size of a page and of a frame, in bytes.
pub const PAGE_SIZE: u64 = 4096;

/// Bitmap size: **65536** frame indices, **256 MiB** of trackable 4 KiB frames.
pub const BITMAP_BYTES: usize = 8192;

pub const FRAME_BITMAP_BITS: usize = 65536;

/// First frame of the legacy video window (`0xA0000`).
pub const ISA_VIDEO_FIRST_FRAME: usize = 160;

/// One past the last frame of the legacy video window (`0xC0000`).
pub const ISA_VIDEO_END_FRAME: usize = 192;

/// One entry of the firmware memory map: frames `start_frame..end_frame`.
#[derive(Clone, Copy, Debug)]
pub struct FrameRegion {
    pub start_frame: u64,
    pub end_frame: u64,
    pub usable: bool,
}

impl FrameRegion {
    /// The region hands frame `i` to the kernel.
    pub open spec fn offers(self, i: int) -> bool {
        self.usable && self.start_frame <= i < self.end_frame
    }

    /// How many trackable frames the region hands to the kernel.
    pub open spec fn offered(self) -> int {
        let end = if self.end_frame < FRAME_BITMAP_BITS {
            self.end_frame as int
        } else {
            FRAME_BITMAP_BITS as int
        };
        if self.usable && self.start_frame < end {
            end - self.start_frame
        } else {
            0
        }
    }
}

/// Trackable frames counted once per usable region that lists them.
pub open spec fn total_offered(regions: Seq<FrameRegion>) -> int
    decreases regions.len(),
{
    if regions.len() == 0 {
        0
    } else {
        total_offered(regions.drop_last()) + regions.last().offered()
    }
}

/// Some usable region lists frame `i`.
pub open spec fn offered_by(regions: Seq<FrameRegion>, i: int) -> bool {
    exists|k: int| 0 <= k < regions.len() && (#[trigger] regions[k]).offers(i)
}

/// Frame 0 and the legacy video window stay out of the allocator whatever the map says.
pub open spec fn is_reserved(i: int) -> bool {
    i == 0 || ISA_VIDEO_FIRST_FRAME <= i < ISA_VIDEO_END_FRAME
}

/// The free frames of a fresh allocator.
pub open spec fn initial_free(regions: Seq<FrameRegion>) -> Set<int> {
    Set::new(|i: int| 0 <= i < FRAME_BITMAP_BITS && !is_reserved(i) && offered_by(regions, i))
}

/// `i` is the lowest frame of `before`, and `after` is `before` without it.
pub open spec fn takes_lowest(before: Set<int>, i: int, after: Set<int>) -> bool {
    &&& before.contains(i)
    &&& forall|j: int| before.contains(j) ==> i <= j
    &&& after == before.remove(i)
}

/// The free frames once frame `i` has been given back: frame 0 and untracked frames are ignored.
pub open spec fn after_release(before: Set<int>, i: int) -> Set<int> {
    if 0 < i < FRAME_BITMAP_BITS {
        before.insert(i)
    } else {
        before
    }
}

pub open spec fn bit_is_free(bitmap: Seq<u8>, i: int) -> bool {
    bitmap[i / 8] & (1u8 << ((i % 8) as u8)) == 0
}

pub open spec fn free_set(bitmap: Seq<u8>) -> Set<int> {
    Set::new(|i: int| 0 <= i < FRAME_BITMAP_BITS && bit_is_free(bitmap, i))
}

proof fn lemma_byte_bits(b: u8, j: u8, k: u8)
    by (bit_vector)
    requires
        j < 8,
        k < 8,
    ensures
        (b & !(1u8 << j)) & (1u8 << k) == 0 <==> (j == k || b & (1u8 << k) == 0),
        (b | (1u8 << j)) & (1u8 << k) == 0 <==> (j != k && b & (1u8 << k) == 0),
        (!b >> k) & 1u8 == 1u8 <==> b & (1u8 << k) == 0,
        b == 0xffu8 ==> b & (1u8 << k) != 0,
        !b == 0 <==> b == 0xffu8,
        (!b >> k) & 1u8 == 1u8 || (!b >> k) & 1u8 == 0u8,
{
}

proof fn lemma_update_bit(before: Seq<u8>, after: Seq<u8>, idx: int, value: u8, free: bool)
    requires
        before.len() == BITMAP_BYTES,
        0 <= idx < FRAME_BITMAP_BITS,
        after == before.update(idx / 8, value),
        forall|k: int|
            0 <= k < 8 ==> (#[trigger] (value & (1u8 << (k as u8))) == 0 <==> (if k == idx % 8 {
                free
            } else {
                before[idx / 8] & (1u8 << (k as u8)) == 0
            })),
    ensures
        forall|i: int|
            0 <= i < FRAME_BITMAP_BITS ==> (#[trigger] bit_is_free(after, i) <==> (if i == idx {
                free
            } else {
                bit_is_free(before, i)
            })),
{
    assert forall|i: int| 0 <= i < FRAME_BITMAP_BITS implies (#[trigger] bit_is_free(after, i) <==> (if i
        == idx {
        free
    } else {
        bit_is_free(before, i)
    })) by {
        let k = i % 8;
        if i / 8 == idx / 8 {
            assert(after[i / 8] == value);
            assert((value & (1u8 << (k as u8))) == 0 <==> (if k == idx % 8 {
                free
            } else {
                before[idx / 8] & (1u8 << (k as u8)) == 0
            }));
        }
    }
}

/// Clears the bit of frame `idx`; indices past the bitmap are ignored.
fn mark_free(bitmap: &mut [u8; BITMAP_BYTES], idx: usize)
    ensures
        forall|i: int|
            0 <= i < FRAME_BITMAP_BITS ==> (#[trigger] bit_is_free(final(bitmap)@, i) <==> (i == idx
                || bit_is_free(old(bitmap)@, i))),
{
    if idx >= FRAME_BITMAP_BITS {
        return ;
    }
    let ghost before = bitmap@;
    let value: u8 = bitmap[idx / 8] & !(1u8 << (idx % 8));
    proof {
        assert forall|k: int| 0 <= k < 8 implies (#[trigger] (value & (1u8 << (k as u8))) == 0 <==> (
        if k == idx as int % 8 {
            true
        } else {
            before[idx as int / 8] & (1u8 << (k as u8)) == 0
        })) by {
            lemma_byte_bits(before[idx as int / 8], (idx % 8) as u8, k as u8);
        }
    }
    bitmap[idx / 8] = value;
    proof {
        lemma_update_bit(before, bitmap@, idx as int, value, true);
    }
}

/// Sets the bit of frame `idx`; indices past the bitmap are ignored.
fn mark_used(bitmap: &mut [u8; BITMAP_BYTES], idx: usize)
    ensures
        forall|i: int|
            0 <= i < FRAME_BITMAP_BITS ==> (#[trigger] bit_is_free(final(bitmap)@, i) <==> (i != idx
                && bit_is_free(old(bitmap)@, i))),
{
    if idx >= FRAME_BITMAP_BITS {
        return ;
    }
    let ghost before = bitmap@;
    let value: u8 = bitmap[idx / 8] | (1u8 << (idx % 8));
    proof {
        assert forall|k: int| 0 <= k < 8 implies (#[trigger] (value & (1u8 << (k as u8))) == 0 <==> (
        if k == idx as int % 8 {
            false
        } else {
            before[idx as int / 8] & (1u8 << (k as u8)) == 0
        })) by {
            lemma_byte_bits(before[idx as int / 8], (idx % 8) as u8, k as u8);
        }
    }
    bitmap[idx / 8] = value;
    proof {
        lemma_update_bit(before, bitmap@, idx as int, value, false);
    }
}

spec fn free_below(bitmap: Seq<u8>, n: int) -> Set<int> {
    Set::new(|i: int| 0 <= i < n && bit_is_free(bitmap, i))
}

/// Number of free frames in the bitmap.
fn count_free(bitmap: &[u8; BITMAP_BYTES]) -> (n: u64)
    ensures
        free_set(bitmap@).finite(),
        n == free_set(bitmap@).len(),
        n <= FRAME_BITMAP_BITS,
{
    let mut n: u64 = 0;
    let mut idx: usize = 0;
    assert(free_below(bitmap@, 0) =~= Set::empty());
    while idx < FRAME_BITMAP_BITS
        invariant
            idx <= FRAME_BITMAP_BITS,
            n <= idx,
            free_below(bitmap@, idx as int).finite(),
            n == free_below(bitmap@, idx as int).len(),
        decreases FRAME_BITMAP_BITS - idx,
    {
        proof {
            let here = free_below(bitmap@, idx as int);
            let next = free_below(bitmap@, idx as int + 1);
            if bit_is_free(bitmap@, idx as int) {
                assert(next =~= here.insert(idx as int));
            } else {
                assert(next =~= here);
            }
        }
        if bitmap[idx / 8] & (1u8 << (idx % 8)) == 0 {
            n = n + 1;
        }
        idx = idx + 1;
    }
    assert(free_below(bitmap@, FRAME_BITMAP_BITS as int) =~= free_set(bitmap@));
    n
}

/// Handing out a frame: the least free one, by its address; none where nothing is free.
pub open spec fn hands_out(before: Set<int>, frame: Option<u64>, after: Set<int>) -> bool {
    match frame {
        None => before == Set::<int>::empty() && after == before,
        Some(addr) => addr % PAGE_SIZE == 0 && takes_lowest(
            before,
            addr as int / PAGE_SIZE as int,
            after,
        ),
    }
}

/// Taking a frame back by its address.
pub open spec fn takes_back(before: Set<int>, frame: u64, after: Set<int>) -> bool {
    after == after_release(before, frame as int / PAGE_SIZE as int)
}

/// The frame allocator. Its view is the set of free frame numbers.
pub struct BitmapFrameAllocator {
    bitmap: [u8; BITMAP_BYTES],
    total_usable: u64,
    free_count: u64,
}

impl View for BitmapFrameAllocator {
    type V = Set<int>;

    closed spec fn view(&self) -> Set<int> {
        free_set(self.bitmap@)
    }
}

impl BitmapFrameAllocator {
    /// The free counter is exact, every free frame is trackable, and frame 0 is never free.
    pub closed spec fn wf(&self) -> bool {
        &&& self@.finite()
        &&& self.free_count == self@.len()
        &&& !self@.contains(0)
    }

    /// Usable frames that the memory map listed.
    pub closed spec fn usable(&self) -> int {
        self.total_usable as int
    }

    /// What well-formedness says of the free frames.
    pub proof fn lemma_free_frames(&self)
        requires
            self.wf(),
        ensures
            self@.finite(),
            forall|i: int| #[trigger] self@.contains(i) ==> 0 < i < FRAME_BITMAP_BITS,
    {
    }

    /// Frees every frame that a usable region lists, then takes frame 0 (null pointer traps) and
    /// the legacy video window back out.
    pub fn new(memory_map: &[FrameRegion]) -> (fa: Self)
        requires
            memory_map@.len() <= 0xffff_ffff_ffff,
        ensures
            fa.wf(),
            fa@ == initial_free(memory_map@),
            fa.usable() == total_offered(memory_map@),
    {
        let mut bitmap: [u8; BITMAP_BYTES] = [0xFFu8;BITMAP_BYTES];
        let mut total: u64 = 0;
        proof {
            assert forall|i: int| 0 <= i < FRAME_BITMAP_BITS implies !(#[trigger] bit_is_free(
                bitmap@,
                i,
            )) by {
                lemma_byte_bits(0xffu8, 0, (i % 8) as u8);
            }
            assert(memory_map@.take(0) =~= Seq::empty());
        }
        let mut k: usize = 0;
        while k < memory_map.len()
            invariant
                k <= memory_map@.len() <= 0xffff_ffff_ffff,
                total == total_offered(memory_map@.take(k as int)),
                total <= k * 0x1_0000,
                forall|i: int|
                    0 <= i < FRAME_BITMAP_BITS ==> (#[trigger] bit_is_free(bitmap@, i)
                        <==> offered_by(memory_map@.take(k as int), i)),
            decreases memory_map@.len() - k,
        {
            let region = memory_map[k];
            let ghost seen = memory_map@.take(k as int);
            let ghost seen1 = memory_map@.take(k as int + 1);
            proof {
                assert(seen1.drop_last() =~= seen);
                assert(seen1.last() == region);
                assert forall|i: int| offered_by(seen1, i) <==> (offered_by(seen, i) || region.offers(
                    i,
                )) by {
                    if offered_by(seen, i) {
                        let j = choose|j: int| 0 <= j < seen.len() && (#[trigger] seen[j]).offers(i);
                        assert(seen1[j].offers(i));
                    }
                    if region.offers(i) {
                        assert(seen1[k as int].offers(i));
                    }
                    if offered_by(seen1, i) {
                        let j = choose|j: int| 0 <= j < seen1.len() && (#[trigger] seen1[j]).offers(
                            i,
                        );
                        if j < k {
                            assert(seen[j].offers(i));
                        }
                    }
                }
            }
            if region.usable {
                let end: u64 = if region.end_frame < FRAME_BITMAP_BITS as u64 {
                    region.end_frame
                } else {
                    FRAME_BITMAP_BITS as u64
                };
                let mut f: u64 = region.start_frame;
                let ghost total0 = total;
                while f < end
                    invariant
                        end <= FRAME_BITMAP_BITS,
                        region.start_frame <= f,
                        f <= end || f == region.start_frame,
                        total == total0 + (f - region.start_frame),
                        total0 + 0x1_0000 <= u64::MAX,
                        forall|i: int|
                            0 <= i < FRAME_BITMAP_BITS ==> (#[trigger] bit_is_free(bitmap@, i) <==> (
                            offered_by(seen, i) || region.start_frame <= i < f)),
                    decreases end - f,
                {
                    mark_free(&mut bitmap, f as usize);
                    total = total + 1;
                    f = f + 1;
                }
            }
            k = k + 1;
        }
        assert(memory_map@.take(k as int) =~= memory_map@);
        mark_used(&mut bitmap, 0);
        let mut idx: usize = ISA_VIDEO_FIRST_FRAME;
        while idx < ISA_VIDEO_END_FRAME
            invariant
                ISA_VIDEO_FIRST_FRAME <= idx <= ISA_VIDEO_END_FRAME,
                forall|i: int|
                    0 <= i < FRAME_BITMAP_BITS ==> (#[trigger] bit_is_free(bitmap@, i) <==> (i != 0
                        && !(ISA_VIDEO_FIRST_FRAME <= i < idx) && offered_by(memory_map@, i))),
            decreases ISA_VIDEO_END_FRAME - idx,
        {
            mark_used(&mut bitmap, idx);
            idx = idx + 1;
        }
        let free_count = count_free(&bitmap);
        assert(free_set(bitmap@) =~= initial_free(memory_map@));
        BitmapFrameAllocator { bitmap, total_usable: total, free_count }
    }

    /// Takes the lowest free frame and returns its physical start address.
    pub fn allocate_frame(&mut self) -> (frame: Option<u64>)
        requires
            old(self).wf(),
        ensures
            final(self).wf(),
            final(self).usable() == old(self).usable(),
            match frame {
                None => old(self)@ == Set::<int>::empty() && final(self)@ == old(self)@,
                Some(addr) => {
                    &&& addr % PAGE_SIZE == 0
                    &&& takes_lowest(old(self)@, addr as int / PAGE_SIZE as int, final(self)@)
                },
            },
            hands_out(old(self)@, frame, final(self)@),
    {
        let mut i: usize = 0;
        while i < BITMAP_BYTES
            invariant
                i <= BITMAP_BYTES,
                self.wf(),
                *self == *old(self),
                forall|j: int| 0 <= j < i * 8 ==> !(#[trigger] bit_is_free(self.bitmap@, j)),
            decreases BITMAP_BYTES - i,
        {
            let byte: u8 = self.bitmap[i];
            if byte == 0xFF {
                proof {
                    assert forall|j: int| 0 <= j < (i + 1) * 8 implies !(#[trigger] bit_is_free(
                        self.bitmap@,
                        j,
                    )) by {
                        if j >= i * 8 {
                            assert(j / 8 == i as int);
                            lemma_byte_bits(byte, 0, (j % 8) as u8);
                        }
                    }
                }
                i = i + 1;
                continue ;
            }
            let bit: u32 = (!byte).trailing_zeros();
            proof {
                vstd::std_specs::bits::axiom_u8_trailing_zeros(!byte);
                lemma_byte_bits(byte, 0, 0);
                lemma_byte_bits(byte, 0, bit as u8);
            }
            let frame_idx: usize = i * 8 + bit as usize;
            let ghost before = self@;
            assert(frame_idx as int / 8 == i as int && frame_idx as int % 8 == bit as int);
            assert(bit_is_free(self.bitmap@, frame_idx as int));
            assert(before.contains(frame_idx as int));
            proof {
                assert forall|j: int| before.contains(j) implies frame_idx <= j by {
                    if j < frame_idx {
                        assert(bit_is_free(self.bitmap@, j));
                        assert(j / 8 == i as int && j % 8 < bit);
                        lemma_byte_bits(byte, 0, (j % 8) as u8);
                        assert(((!byte) >> ((j % 8) as u8)) & 1u8 == 0u8);
                    }
                }
            }
            mark_used(&mut self.bitmap, frame_idx);
            assert(self@ =~= before.remove(frame_idx as int));
            self.free_count = self.free_count - 1;
            return Some(frame_idx as u64 * PAGE_SIZE);
        }
        assert(self@ =~= Set::<int>::empty());
        None
    }

    /// Gives a frame back. Frame 0, untracked frames and frames that are already free are ignored.
    pub fn deallocate_frame(&mut self, frame: u64)
        requires
            old(self).wf(),
        ensures
            final(self).wf(),
            final(self).usable() == old(self).usable(),
            final(self)@ == after_release(old(self)@, frame as int / PAGE_SIZE as int),
            takes_back(old(self)@, frame, final(self)@),
    {
        let idx64: u64 = frame / PAGE_SIZE;
        if idx64 >= FRAME_BITMAP_BITS as u64 || idx64 == 0 {
            return ;
        }
        let idx: usize = idx64 as usize;
        let ghost before = self@;
        if self.bitmap[idx / 8] & (1u8 << (idx % 8)) == 0 {
            assert(bit_is_free(self.bitmap@, idx as int));
            assert(before.insert(idx as int) =~= before);
            return ;
        }
        assert(!bit_is_free(self.bitmap@, idx as int));
        mark_free(&mut self.bitmap, idx);
        assert(self@ =~= before.insert(idx as int));
        proof {
            lemma_free_set_bounded(self.bitmap@);
        }
        self.free_count = self.free_count + 1;
    }

    /// Free frames right now.
    pub fn free_frames(&self) -> (n: u64)
        requires
            self.wf(),
        ensures
            n == self@.len(),
    {
        self.free_count
    }

    /// Usable frames that the memory map listed.
    pub fn total_usable_frames(&self) -> (n: u64)
        ensures
            n == self.usable(),
    {
        self.total_usable
    }
}

proof fn lemma_free_set_bounded(bitmap: Seq<u8>)
    ensures
        free_set(bitmap).finite(),
        free_set(bitmap).len() <= FRAME_BITMAP_BITS,
{
    let all = vstd::set_lib::set_int_range(0, FRAME_BITMAP_BITS as int);
    vstd::set_lib::lemma_int_range(0, FRAME_BITMAP_BITS as int);
    assert(free_set(bitmap).subset_of(all));
    vstd::set_lib::lemma_len_subset(free_set(bitmap), all);
}

/// The kernel's view of physical memory: the offset window and, once booted, the allocator.
pub struct PhysicalMemory {
    /// Kernel virtual address = physical + this offset.
    pub offset: u64,
    pub allocator: Option<BitmapFrameAllocator>,
}

impl PhysicalMemory {
    pub open spec fn wf(&self) -> bool {
        self.allocator matches Some(fa) ==> fa.wf()
    }

    /// The free frames; none before boot.
    pub open spec fn free(&self) -> Set<int> {
        match self.allocator {
            Some(fa) => fa@,
            None => Set::empty(),
        }
    }
}

/// Takes over the firmware memory map and the offset at which all of RAM is mapped.
pub fn init(memory_map: &[FrameRegion], physical_memory_offset: u64) -> (m: PhysicalMemory)
    requires
        memory_map@.len() <= 0xffff_ffff_ffff,
    ensures
        m.wf(),
        m.offset == physical_memory_offset,
        m.allocator is Some,
        m.free() == initial_free(memory_map@),
        m.allocator->0.usable() == total_offered(memory_map@),
{
    PhysicalMemory {
        offset: physical_memory_offset,
        allocator: Some(BitmapFrameAllocator::new(memory_map)),
    }
}

pub fn physical_memory_offset(m: &PhysicalMemory) -> (offset: u64)
    ensures
        offset == m.offset,
{
    m.offset
}

/// Where physical memory is seen: `offset` above its own address.
pub open spec fn seen_at(offset: u64, phys: u64) -> int {
    phys + offset
}

/// Kernel virtual address of a physical address, through the offset window.
pub fn phys_to_virt(m: &PhysicalMemory, phys: u64) -> (virt: u64)
    requires
        phys + m.offset <= u64::MAX,
    ensures
        virt == phys + m.offset,
        virt == seen_at(m.offset, phys),
{
    phys + m.offset
}

/// Takes the lowest free frame; `None` before boot or when nothing is free.
pub fn allocate_frame(m: &mut PhysicalMemory) -> (frame: Option<u64>)
    requires
        old(m).wf(),
    ensures
        final(m).wf(),
        final(m).offset == old(m).offset,
        final(m).allocator is Some <==> old(m).allocator is Some,
        match frame {
            None => old(m).free() == Set::<int>::empty() && final(m).free() == old(m).free(),
            Some(addr) => {
                &&& addr % PAGE_SIZE == 0
                &&& takes_lowest(old(m).free(), addr as int / PAGE_SIZE as int, final(m).free())
            },
        },
        hands_out(old(m).free(), frame, final(m).free()),
{
    match m.allocator.as_mut() {
        Some(fa) => fa.allocate_frame(),
        None => None,
    }
}

/// Gives a frame back to the allocator.
pub fn deallocate_frame(m: &mut PhysicalMemory, frame: u64)
    requires
        old(m).wf(),
    ensures
        final(m).wf(),
        final(m).offset == old(m).offset,
        final(m).allocator is Some <==> old(m).allocator is Some,
        final(m).free() == (if old(m).allocator is Some {
            after_release(old(m).free(), frame as int / PAGE_SIZE as int)
        } else {
            old(m).free()
        }),
        old(m).allocator is Some ==> takes_back(old(m).free(), frame, final(m).free()),
{
    if let Some(fa) = m.allocator.as_mut() {
        fa.deallocate_frame(frame);
    }
}

/// Free frames right now; zero before boot.
pub fn free_frames(m: &PhysicalMemory) -> (n: u64)
    requires
        m.wf(),
    ensures
        n == m.free().len(),
{
    match &m.allocator {
        Some(fa) => fa.free_frames(),
        None => 0,
    }
}

/// Usable frames that the memory map listed; zero before boot.
pub fn total_usable_frames(m: &PhysicalMemory) -> (n: u64)
    ensures
        n == (match m.allocator {
            Some(fa) => fa.usable(),
            None => 0,
        }),
{
    match &m.allocator {
        Some(fa) => fa.total_usable_frames(),
        None => 0,
    }
}

/// One step of a kernel that uses the allocator.
pub enum FrameOp {
    /// The allocator handed this frame out.
    Take(int),
    /// A holder gave this frame back.
    Release(int),
}

/// `ops` is a history that the allocator can produce from `free`, where only frames that are held
/// are given back.
pub open spec fn valid_history(free: Set<int>, held: Set<int>, ops: Seq<FrameOp>) -> bool
    decreases ops.len(),
{
    ops.len() > 0 ==> match ops[0] {
        FrameOp::Take(i) => {
            &&& takes_lowest(free, i, free.remove(i))
            &&& valid_history(free.remove(i), held.insert(i), ops.drop_first())
        },
        FrameOp::Release(i) => {
            &&& held.contains(i)
            &&& valid_history(after_release(free, i), held.remove(i), ops.drop_first())
        },
    }
}

proof fn lemma_history(all: Set<int>, free: Set<int>, held: Set<int>, ops: Seq<FrameOp>)
    requires
        valid_history(free, held, ops),
        free.disjoint(held),
        free.union(held) == all,
        forall|i: int| all.contains(i) ==> 0 < i < FRAME_BITMAP_BITS,
    ensures
        forall|k: int|
            0 <= k < ops.len() ==> (#[trigger] ops[k] matches FrameOp::Take(i) ==> all.contains(i)),
        forall|k: int|
            0 <= k < ops.len() ==> (#[trigger] ops[k] matches FrameOp::Take(i) ==> held.contains(i)
                ==> exists|j: int| 0 <= j < k && ops[j] == FrameOp::Release(i)),
        forall|k1: int, k2: int|
            0 <= k1 < k2 < ops.len() ==> (#[trigger] ops[k1] matches FrameOp::Take(i) ==> (
            #[trigger] ops[k2]) == FrameOp::Take(i) ==> exists|j: int|
                k1 < j < k2 && ops[j] == FrameOp::Release(i)),
    decreases ops.len(),
{
    if ops.len() > 0 {
        let rest = ops.drop_first();
        let (free1, held1) = match ops[0] {
            FrameOp::Take(i) => (free.remove(i), held.insert(i)),
            FrameOp::Release(i) => (after_release(free, i), held.remove(i)),
        };
        assert(free1.union(held1) =~= all) by {
            assert forall|x: int| free1.union(held1).contains(x) <==> all.contains(x) by {
                assert(all.contains(x) <==> free.contains(x) || held.contains(x));
            }
        }
        assert(free1.disjoint(held1));
        if let FrameOp::Release(i) = ops[0] {
            assert(all.contains(i));
        }
        lemma_history(all, free1, held1, rest);
        assert forall|k: int| 0 <= k < ops.len() implies (#[trigger] ops[k] matches FrameOp::Take(i)
            ==> all.contains(i)) by {
            if k > 0 {
                assert(ops[k] == rest[k - 1]);
            }
        }
        assert forall|k: int| 0 <= k < ops.len() implies (#[trigger] ops[k] matches FrameOp::Take(i)
            ==> held.contains(i) ==> exists|j: int|
            0 <= j < k && ops[j] == FrameOp::Release(i)) by {
            if k > 0 {
                assert(ops[k] == rest[k - 1]);
                if let FrameOp::Take(i) = ops[k] {
                    if held.contains(i) {
                        if held1.contains(i) {
                            let j = choose|j: int| 0 <= j < k - 1 && rest[j] == FrameOp::Release(i);
                            assert(ops[j + 1] == FrameOp::Release(i));
                        } else {
                            assert(ops[0] == FrameOp::Release(i));
                        }
                    }
                }
            }
        }
        assert forall|k1: int, k2: int| 0 <= k1 < k2 < ops.len() implies (
        #[trigger] ops[k1] matches FrameOp::Take(i) ==> (#[trigger] ops[k2]) == FrameOp::Take(i)
            ==> exists|j: int| k1 < j < k2 && ops[j] == FrameOp::Release(i)) by {
            assert(ops[k2] == rest[k2 - 1]);
            if let FrameOp::Take(i) = ops[k1] {
                if ops[k2] == FrameOp::Take(i) {
                    if k1 == 0 {
                        let j = choose|j: int| 0 <= j < k2 - 1 && rest[j] == FrameOp::Release(i);
                        assert(ops[j + 1] == FrameOp::Release(i));
                    } else {
                        assert(ops[k1] == rest[k1 - 1]);
                        let j = choose|j: int|
                            k1 - 1 < j < k2 - 1 && rest[j] == FrameOp::Release(i);
                        assert(ops[j + 1] == FrameOp::Release(i));
                    }
                }
            }
        }
    }
}

/// From boot on, every frame handed out is one that a usable region lists; it is never frame 0 and
/// never a frame of the video window, as long as holders give back only what they hold.
pub proof fn law_only_offered_frames_are_handed_out(
    memory_map: Seq<FrameRegion>,
    ops: Seq<FrameOp>,
    k: int,
    i: int,
)
    requires
        valid_history(initial_free(memory_map), Set::empty(), ops),
        0 <= k < ops.len(),
        ops[k] == FrameOp::Take(i),
    ensures
        offered_by(memory_map, i),
        !is_reserved(i),
        0 < i < FRAME_BITMAP_BITS,
{
    let all = initial_free(memory_map);
    assert(all.union(Set::empty()) =~= all);
    lemma_history(all, all, Set::empty(), ops);
}

/// A frame that was handed out is not handed out again before it has been given back.
pub proof fn law_frames_are_exclusive(
    memory_map: Seq<FrameRegion>,
    ops: Seq<FrameOp>,
    k1: int,
    k2: int,
    i: int,
)
    requires
        valid_history(initial_free(memory_map), Set::empty(), ops),
        0 <= k1 < k2 < ops.len(),
        ops[k1] == FrameOp::Take(i),
        ops[k2] == FrameOp::Take(i),
    ensures
        exists|j: int| k1 < j < k2 && ops[j] == FrameOp::Release(i),
{
    let all = initial_free(memory_map);
    assert(all.union(Set::empty()) =~= all);
    lemma_history(all, all, Set::empty(), ops);
}

/// Giving back the frame that was just taken restores the free frames, and so the free count.
pub proof fn law_release_undoes_allocation(before: Set<int>, i: int, after: Set<int>)
    requires
        takes_lowest(before, i, after),
        0 < i < FRAME_BITMAP_BITS,
    ensures
        after_release(after, i) == before,
        after_release(after, i).len() == before.len(),
{
    assert(after_release(after, i) =~= before);
}

/// At boot a frame is free exactly if the bitmap tracks it, some usable region lists it, and it is
/// neither frame 0 nor in the legacy video window at `0xA0000..0xC0000`.
pub proof fn law_free_frames_at_boot(memory_map: Seq<FrameRegion>, i: int)
    ensures
        initial_free(memory_map).contains(i) <==> {
            &&& 0 < i < 65536
            &&& !(0xA0000 <= i * 4096 < 0xC0000)
            &&& exists|k: int|
                0 <= k < memory_map.len() && (#[trigger] memory_map[k]).usable
                    && memory_map[k].start_frame <= i < memory_map[k].end_frame
        },
{
    if offered_by(memory_map, i) {
        let k = choose|k: int| 0 <= k < memory_map.len() && (#[trigger] memory_map[k]).offers(i);
        assert(memory_map[k].usable);
    }
    if exists|k: int|
        0 <= k < memory_map.len() && (#[trigger] memory_map[k]).usable && memory_map[k].start_frame
            <= i < memory_map[k].end_frame {
        let k = choose|k: int|
            0 <= k < memory_map.len() && (#[trigger] memory_map[k]).usable
                && memory_map[k].start_frame <= i < memory_map[k].end_frame;
        assert(memory_map[k].offers(i));
    }
}

/// Taking a frame takes the least free one and no other.
pub proof fn law_taking_takes_one_frame(before: Set<int>, i: int, after: Set<int>, j: int)
    requires
        takes_lowest(before, i, after),
        before.finite(),
    ensures
        before.contains(i),
        !after.contains(i),
        before.contains(j) ==> i <= j,
        j != i ==> (after.contains(j) <==> before.contains(j)),
        after.len() == before.len() - 1,
{
}

/// Frames go out in ascending order: between two takes in a row no free frame is passed over.
pub proof fn law_frames_go_out_in_order(a: Set<int>, i: int, b: Set<int>, j: int, c: Set<int>, x: int)
    requires
        takes_lowest(a, i, b),
        takes_lowest(b, j, c),
        a.contains(x),
        x < j,
    ensures
        x == i,
        i < j,
{
    assert(b.contains(x) || x == i);
}

/// Giving a frame back frees that frame and no other; frame 0 and frames that the bitmap does not
/// track stay as they were.
pub proof fn law_release_frees_one_frame(before: Set<int>, i: int, j: int)
    ensures
        after_release(before, i).contains(j) <==> before.contains(j) || (j == i && 0 < i < 65536),
{
}

/// A region counts as many frames as it lists below the end of the bitmap, and none if it is not
/// usable; the counts of several regions add up.
pub proof fn law_usable_frames_are_counted(a: Seq<FrameRegion>, b: Seq<FrameRegion>, r: FrameRegion)
    ensures
        total_offered(Seq::empty()) == 0,
        total_offered(a + b) == total_offered(a) + total_offered(b),
        !r.usable ==> total_offered(seq![r]) == 0,
        r.usable && r.start_frame <= r.end_frame <= 65536 ==> total_offered(seq![r]) == r.end_frame
            - r.start_frame,
        r.usable && r.start_frame <= 65536 <= r.end_frame ==> total_offered(seq![r]) == 65536
            - r.start_frame,
        r.usable && (r.start_frame >= r.end_frame || r.start_frame >= 65536) ==> total_offered(seq![r])
            == 0,
    decreases b.len(),
{
    reveal_with_fuel(total_offered, 2);
    assert(seq![r].drop_last() =~= Seq::empty());
    assert(seq![r].last() == r);
    if b.len() == 0 {
        assert(a + b =~= a);
    } else {
        assert((a + b).drop_last() =~= a + b.drop_last());
        assert((a + b).last() == b.last());
        law_usable_frames_are_counted(a, b.drop_last(), r);
    }
}

/// A frame is handed out whenever one is free: it is the least, its address is 4096 times its number, and
/// it is free no more. Giving it back by its address makes everything as it was.
pub proof fn law_frames_by_address(before: Set<int>, frame: Option<u64>, mid: Set<int>, after: Set<int>, j: int)
    requires
        hands_out(before, frame, mid),
        forall|i: int| before.contains(i) ==> 0 < i < 65536,
        frame matches Some(f) ==> takes_back(mid, f, after),
    ensures
        frame is None ==> !before.contains(j),
        frame matches Some(f) ==> {
            &&& f % 4096 == 0
            &&& before.contains(f as int / 4096) && !mid.contains(f as int / 4096)
            &&& before.contains(j) ==> f <= j * 4096
            &&& j * 4096 != f ==> (mid.contains(j) <==> before.contains(j))
            &&& after == before
        },
{
    if let Some(f) = frame {
        assert(after =~= before);
    }
}

/// Physical memory is seen as it lies: from the offset on, at the same distances, and no two addresses at
/// one place.
pub proof fn law_physical_memory_is_seen_in_order(offset: u64, a: u64, b: u64)
    ensures
        seen_at(offset, 0) == offset,
        seen_at(offset, a) - seen_at(offset, b) == a - b,
{
}

} // verus!
