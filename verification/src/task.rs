//! Per-task kernel stacks and the register frame that a system call leaves on them.

use vstd::prelude::*;

use crate::bytes::{push_zeros, zeros};
use crate::memory::PAGE_SIZE;

verus! {

/// A page-aligned kernel stack of one page.
pub struct AlignedKstack {
    /// The address of its lowest byte.
    pub base: u64,
    /// What the stack holds when its process starts. From then on the machine writes to the memory
    /// at `base`.
    pub bytes: Vec<u8>,
}

/// A kernel stack in the abstract.
#[verifier::ext_equal]
pub struct KstackSpec {
    pub base: u64,
    pub bytes: Seq<u8>,
}

impl View for AlignedKstack {
    type V = KstackSpec;

    open spec fn view(&self) -> KstackSpec {
        KstackSpec { base: self.base, bytes: self.bytes@ }
    }
}

impl KstackSpec {
    /// The stack is one page and ends inside the address space.
    pub open spec fn wf(self) -> bool {
        &&& self.base + PAGE_SIZE <= u64::MAX
        &&& self.bytes.len() == PAGE_SIZE
    }

    /// One past the highest byte.
    pub open spec fn top(self) -> int {
        self.base + PAGE_SIZE
    }

    /// A page of zero bytes.
    pub open spec fn fresh(base: u64) -> KstackSpec {
        KstackSpec { base, bytes: zeros(PAGE_SIZE as int) }
    }
}

impl AlignedKstack {
    /// A stack of zero bytes at an address.
    pub fn new(base: u64) -> (k: AlignedKstack)
        ensures
            k@ == KstackSpec::fresh(base),
    {
        let mut bytes: Vec<u8> = Vec::with_capacity(PAGE_SIZE as usize);
        push_zeros(&mut bytes, PAGE_SIZE as usize);
        assert(bytes@ =~= zeros(PAGE_SIZE as int));
        AlignedKstack { base, bytes }
    }

    pub fn top_ptr(&self) -> (top: u64)
        requires
            self@.wf(),
        ensures
            top == self@.top(),
    {
        self.base + PAGE_SIZE
    }
}

/// Callee-saved + user return state stashed across a system call.
#[derive(Clone, Copy, Debug, PartialEq, Eq, Structural)]
pub struct SyscallSaved {
    pub user_rsp: u64,
    pub user_rip: u64,
    pub user_rflags: u64,
    pub rbx: u64,
    pub rbp: u64,
    pub r12: u64,
    pub r13: u64,
    pub r14: u64,
    pub r15: u64,
}

/// The registers of a program that starts.
pub open spec fn fresh_registers(entry: u64, stack_top: u64, rflags: u64) -> SyscallSaved {
    SyscallSaved {
        user_rsp: stack_top,
        user_rip: entry,
        user_rflags: rflags,
        rbx: 0,
        rbp: 0,
        r12: 0,
        r13: 0,
        r14: 0,
        r15: 0,
    }
}

impl SyscallSaved {
    /// The state of a task that has not run yet.
    pub fn bootstrap_user(entry: u64, stack_top: u64, rflags: u64) -> (s: SyscallSaved)
        ensures
            s == (SyscallSaved {
                user_rsp: stack_top,
                user_rip: entry,
                user_rflags: rflags,
                rbx: 0,
                rbp: 0,
                r12: 0,
                r13: 0,
                r14: 0,
                r15: 0,
            }),
            s == fresh_registers(entry, stack_top, rflags),
    {
        SyscallSaved {
            user_rsp: stack_top,
            user_rip: entry,
            user_rflags: rflags,
            rbx: 0,
            rbp: 0,
            r12: 0,
            r13: 0,
            r14: 0,
            r15: 0,
        }
    }
}

/// Words in the frame that the system call entry path pushes.
pub const FRAME_WORDS: usize = 11;

/// Bytes in that frame.
pub const FRAME_BYTES: u64 = 88;

/// The saved state in a frame: `[0]=ret`, `[1]=pad`, `[2]=r15` ... `[10]=user_rsp`.
pub open spec fn saved_in_frame(words: Seq<u64>) -> SyscallSaved {
    SyscallSaved {
        user_rsp: words[10],
        user_rip: words[9],
        user_rflags: words[8],
        rbx: words[7],
        rbp: words[6],
        r12: words[5],
        r13: words[4],
        r14: words[3],
        r15: words[2],
    }
}

/// The frame that resumes `s` through `ret_to_kernel`.
pub open spec fn frame_for(s: SyscallSaved, ret_to_kernel: u64) -> Seq<u64> {
    seq![
        ret_to_kernel,
        0,
        s.r15,
        s.r14,
        s.r13,
        s.r12,
        s.rbp,
        s.rbx,
        s.user_rflags,
        s.user_rip,
        s.user_rsp,
    ]
}

/// Picks the saved state out of the frame at the dispatcher's stack pointer.
pub fn save_from_dispatch_rsp(words: &[u64; FRAME_WORDS]) -> (s: SyscallSaved)
    ensures
        s == saved_in_frame(words@),
{
    SyscallSaved {
        user_rsp: words[10],
        user_rip: words[9],
        user_rflags: words[8],
        rbx: words[7],
        rbp: words[6],
        r12: words[5],
        r13: words[4],
        r14: words[3],
        r15: words[2],
    }
}

/// A frame to be written to a kernel stack: `words` from address `base` on.
pub struct KstackFrame {
    pub base: u64,
    pub words: [u64; FRAME_WORDS],
}

/// The frame that makes the return path of a system call resume `s`, at the top of the stack that
/// ends at `top_exclusive`.
pub fn restore_to_kstack(top_exclusive: u64, s: &SyscallSaved, ret_to_kernel: u64) -> (frame:
    KstackFrame)
    requires
        top_exclusive >= FRAME_BYTES,
    ensures
        frame.base == top_exclusive - FRAME_BYTES,
        frame.words@ == frame_for(*s, ret_to_kernel),
{
    let words: [u64; FRAME_WORDS] = [
        ret_to_kernel,
        0,
        s.r15,
        s.r14,
        s.r13,
        s.r12,
        s.rbp,
        s.rbx,
        s.user_rflags,
        s.user_rip,
        s.user_rsp,
    ];
    assert(words@ =~= frame_for(*s, ret_to_kernel));
    KstackFrame { base: top_exclusive - FRAME_BYTES, words }
}

/// What was restored is what the next system call saves.
pub proof fn law_restore_then_save(s: SyscallSaved, ret_to_kernel: u64)
    ensures
        saved_in_frame(frame_for(s, ret_to_kernel)) == s,
        frame_for(s, ret_to_kernel).len() == FRAME_WORDS,
        FRAME_BYTES == 8 * FRAME_WORDS,
{
}

/// The kernel stack that the system call entry path switches to.
#[derive(Clone, Copy, Debug)]
pub struct CurrentKstack {
    pub top: u64,
}

pub fn set_current_kstack_top(k: &mut CurrentKstack, top_exclusive: u64)
    ensures
        final(k).top == top_exclusive,
{
    k.top = top_exclusive;
}

pub fn current_kstack_top(k: &CurrentKstack) -> (top: u64)
    ensures
        top == k.top,
{
    k.top
}

/// User-mode **child stack** page (after parent stack).
pub const USER_STACK_CHILD_TOP: u64 = 0x403000;

pub const CHILD_STACK_LO: u64 = 0x402000;

/// The frame lies on the stack as the entry path pushes it, highest address first: the user's stack
/// pointer, instruction pointer and flags, then `rbx`, `rbp`, `r12` to `r15`, a pad, and the address
/// to return to.
pub proof fn law_frame_layout(s: SyscallSaved, ret_to_kernel: u64, words: Seq<u64>)
    requires
        words.len() == 11,
    ensures
        ({
            let f = frame_for(s, ret_to_kernel);
            &&& f.len() == 11
            &&& f[10] == s.user_rsp && f[9] == s.user_rip && f[8] == s.user_rflags
            &&& f[7] == s.rbx && f[6] == s.rbp
            &&& f[5] == s.r12 && f[4] == s.r13 && f[3] == s.r14 && f[2] == s.r15
            &&& f[0] == ret_to_kernel
        }),
        saved_in_frame(words).user_rsp == words[10],
        saved_in_frame(words).user_rip == words[9],
        saved_in_frame(words).user_rflags == words[8],
        forall|i: int, x: u64|
            #![trigger words.update(i, x)]
            i == 0 || i == 1 ==> saved_in_frame(words.update(i, x)) == saved_in_frame(words),
        frame_for(saved_in_frame(words), words[0]) == words.update(1, 0),
{
    assert(frame_for(saved_in_frame(words), words[0]) =~= words.update(1, 0));
}

/// A fresh kernel stack is one page of zero bytes, and ends 4096 bytes above its start.
pub proof fn law_fresh_stack_is_zero(base: u64, i: int)
    requires
        0 <= i < 4096,
    ensures
        KstackSpec::fresh(base).base == base,
        KstackSpec::fresh(base).bytes.len() == 4096,
        KstackSpec::fresh(base).bytes[i] == 0,
        KstackSpec::fresh(base).top() == base + 4096,
{
}

/// A program that starts runs at its entry on its stack, and finds nothing in the other registers,
/// whatever ran before.
pub proof fn law_program_starts_clean(entry: u64, stack_top: u64, rflags: u64)
    ensures
        ({
            let s = fresh_registers(entry, stack_top, rflags);
            &&& s.user_rip == entry && s.user_rsp == stack_top && s.user_rflags == rflags
            &&& s.rbx == 0 && s.rbp == 0 && s.r12 == 0 && s.r13 == 0 && s.r14 == 0 && s.r15 == 0
        }),
{
}

} // verus!
