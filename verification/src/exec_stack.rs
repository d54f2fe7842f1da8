//! The first stack of a program: **argc**, **argv**, **envp** and **auxv**, then the strings.
//!
//! The stack fills one page from its low end; the stack pointer starts at that end.

use vstd::prelude::*;
use vstd::utf8::encode_utf8;

use crate::bytes::{le64, le64_bytes, push_u64, push_zeros, zeros};
use crate::elf::{ElfError, ElfLoadedMeta, ExecArgs};
use crate::memory::PAGE_SIZE;
use crate::user::{USER_STACK_LO, USER_STACK_TOP};

verus! {

pub const AT_NULL: u64 = 0;

pub const AT_PHDR: u64 = 3;

pub const AT_PHENT: u64 = 4;

pub const AT_PHNUM: u64 = 5;

pub const AT_PAGESZ: u64 = 6;

pub const AT_ENTRY: u64 = 9;

/// The smallest multiple of `a` that is at least `n`.
pub open spec fn round_up(n: int, a: int) -> int {
    (n + a - 1) / a * a
}

/// The UTF-8 bytes of each string.
pub open spec fn string_bytes(strs: Seq<String>) -> Seq<Seq<u8>> {
    strs.map_values(|s: String| encode_utf8(s@))
}

/// A string as it stands on the stack: its bytes, a terminating zero, and zeros up to a multiple
/// of eight.
pub open spec fn string_block(s: Seq<u8>) -> Seq<u8> {
    s + zeros(round_up(s.len() as int + 1, 8) - s.len())
}

/// Strings one after the other.
pub open spec fn string_area(strs: Seq<Seq<u8>>) -> Seq<u8>
    decreases strs.len(),
{
    if strs.len() == 0 {
        Seq::empty()
    } else {
        string_area(strs.drop_last()) + string_block(strs.last())
    }
}

/// Address of string `i` of an area that starts at `base`.
pub open spec fn string_address(base: int, strs: Seq<Seq<u8>>, i: int) -> int {
    base + string_area(strs.take(i)).len()
}

/// Pointers to the strings of an area that starts at `base`.
pub open spec fn pointer_table(base: int, strs: Seq<Seq<u8>>) -> Seq<u8>
    decreases strs.len(),
{
    if strs.len() == 0 {
        Seq::empty()
    } else {
        pointer_table(base, strs.drop_last()) + le64_bytes(
            (base + string_area(strs.drop_last()).len()) as u64,
        )
    }
}

/// The auxiliary vector, closed by `AT_NULL`.
pub open spec fn aux_entries(meta: ElfLoadedMeta) -> Seq<u64> {
    seq![
        AT_PHDR,
        meta.phdr,
        AT_PHENT,
        meta.phent,
        AT_PHNUM,
        meta.phnum,
        AT_PAGESZ,
        PAGE_SIZE,
        AT_ENTRY,
        meta.entry,
        AT_NULL,
        0,
    ]
}

/// Numbers one after the other.
pub open spec fn words(xs: Seq<u64>) -> Seq<u8>
    decreases xs.len(),
{
    if xs.len() == 0 {
        Seq::empty()
    } else {
        words(xs.drop_last()) + le64_bytes(xs.last())
    }
}

/// Bytes before the strings, without padding: `argc`, both pointer tables with their closing
/// zeros, and the auxiliary vector.
pub open spec fn tables_len(argc: int, envc: int) -> int {
    8 * (argc + envc) + 120
}

/// Offset of the first string.
pub open spec fn strings_offset(argc: int, envc: int) -> int {
    round_up(tables_len(argc, envc), 16)
}

/// Address of the environment strings.
pub open spec fn envp_base(argv: Seq<Seq<u8>>, envp: Seq<Seq<u8>>) -> int {
    USER_STACK_LO + strings_offset(argv.len() as int, envp.len() as int)
}

/// Address of the argument strings, which follow the environment strings.
pub open spec fn argv_base(argv: Seq<Seq<u8>>, envp: Seq<Seq<u8>>) -> int {
    envp_base(argv, envp) + string_area(envp).len()
}

/// Bytes that the first stack takes.
pub open spec fn stack_len(argv: Seq<Seq<u8>>, envp: Seq<Seq<u8>>) -> int {
    strings_offset(argv.len() as int, envp.len() as int) + string_area(envp).len() + string_area(
        argv,
    ).len()
}

/// SysV amd64 **initial stack**: **`argc`**, `argv[]`, `0`, `envp[]`, `0`, `auxv`, then strings
/// (ascending addresses).
pub open spec fn stack_image(meta: ElfLoadedMeta, argv: Seq<Seq<u8>>, envp: Seq<Seq<u8>>) -> Seq<u8> {
    le64_bytes(argv.len() as u64) + pointer_table(argv_base(argv, envp), argv) + le64_bytes(0)
        + pointer_table(envp_base(argv, envp), envp) + le64_bytes(0) + words(aux_entries(meta))
        + zeros(
        strings_offset(argv.len() as int, envp.len() as int) - tables_len(
            argv.len() as int,
            envp.len() as int,
        ),
    ) + string_area(envp) + string_area(argv)
}

proof fn lemma_area_prefix(strs: Seq<Seq<u8>>, i: int)
    requires
        0 <= i <= strs.len(),
    ensures
        string_area(strs.take(i)).len() <= string_area(strs).len(),
    decreases strs.len(),
{
    if i < strs.len() {
        lemma_area_prefix(strs.drop_last(), i);
        assert(strs.drop_last().take(i) =~= strs.take(i));
    } else {
        assert(strs.take(i) =~= strs);
    }
}

proof fn lemma_table_len(base: int, strs: Seq<Seq<u8>>)
    ensures
        pointer_table(base, strs).len() == 8 * strs.len(),
    decreases strs.len(),
{
    if strs.len() > 0 {
        lemma_table_len(base, strs.drop_last());
    }
}

proof fn lemma_words_len(xs: Seq<u64>)
    ensures
        words(xs).len() == 8 * xs.len(),
    decreases xs.len(),
{
    if xs.len() > 0 {
        lemma_words_len(xs.drop_last());
    }
}

proof fn lemma_take_next<T>(s: Seq<T>, i: int)
    requires
        0 <= i < s.len(),
    ensures
        s.take(i + 1).drop_last() == s.take(i),
        s.take(i + 1).last() == s[i],
{
    assert(s.take(i + 1).drop_last() =~= s.take(i));
}

/// The end of the string area that starts at offset `start`, or `None` where it passes the end of
/// the stack page.
fn area_end(strs: &[String], start: usize) -> (end: Option<usize>)
    requires
        start <= PAGE_SIZE,
    ensures
        match end {
            Some(e) => e == start + string_area(string_bytes(strs@)).len() && e <= PAGE_SIZE,
            None => start + string_area(string_bytes(strs@)).len() > PAGE_SIZE,
        },
{
    let ghost bs = string_bytes(strs@);
    let mut at: usize = start;
    let mut i: usize = 0;
    assert(bs.take(0) =~= Seq::empty());
    while i < strs.len()
        invariant
            i <= strs@.len(),
            bs == string_bytes(strs@),
            at == start + string_area(bs.take(i as int)).len(),
            at <= PAGE_SIZE,
        decreases strs@.len() - i,
    {
        let n: usize = strs[i].as_str().as_bytes().len();
        proof {
            lemma_take_next(bs, i as int);
            lemma_area_prefix(bs, i as int + 1);
            assert(bs[i as int] == encode_utf8(strs@[i as int]@));
        }
        if n >= PAGE_SIZE as usize {
            return None;
        }
        at = at + (n + 8) / 8 * 8;
        assert(round_up(n + 1, 8) == (n + 8) / 8 * 8);
        if at > PAGE_SIZE as usize {
            return None;
        }
        i = i + 1;
    }
    assert(bs.take(i as int) =~= bs);
    Some(at)
}

/// Appends pointers to the strings of an area that starts at `base`.
fn push_pointers(v: &mut Vec<u8>, strs: &[String], base: u64)
    requires
        base + string_area(string_bytes(strs@)).len() <= USER_STACK_TOP,
    ensures
        final(v)@ == old(v)@ + pointer_table(base as int, string_bytes(strs@)),
{
    let ghost bs = string_bytes(strs@);
    let mut at: u64 = base;
    let mut i: usize = 0;
    assert(bs.take(0) =~= Seq::empty());
    assert(v@ =~= old(v)@ + pointer_table(base as int, bs.take(0)));
    while i < strs.len()
        invariant
            i <= strs@.len(),
            bs == string_bytes(strs@),
            base + string_area(bs).len() <= USER_STACK_TOP,
            at == base + string_area(bs.take(i as int)).len(),
            v@ == old(v)@ + pointer_table(base as int, bs.take(i as int)),
        decreases strs@.len() - i,
    {
        let n: usize = strs[i].as_str().as_bytes().len();
        proof {
            lemma_take_next(bs, i as int);
            lemma_area_prefix(bs, i as int);
            lemma_area_prefix(bs, i as int + 1);
            assert(bs[i as int] == encode_utf8(strs@[i as int]@));
            assert(string_block(bs[i as int]).len() == round_up(n + 1, 8));
            assert(string_area(bs.take(i as int + 1)).len() == string_area(bs.take(i as int)).len()
                + round_up(n + 1, 8));
        }
        push_u64(v, at);
        at = at + (n as u64 + 8) / 8 * 8;
        i = i + 1;
        assert(v@ =~= old(v)@ + pointer_table(base as int, bs.take(i as int)));
    }
    assert(bs.take(i as int) =~= bs);
}

/// Appends the strings, each closed and padded.
fn push_strings(v: &mut Vec<u8>, strs: &[String])
    requires
        string_area(string_bytes(strs@)).len() <= PAGE_SIZE,
    ensures
        final(v)@ == old(v)@ + string_area(string_bytes(strs@)),
{
    let ghost bs = string_bytes(strs@);
    let mut i: usize = 0;
    assert(bs.take(0) =~= Seq::empty());
    assert(v@ =~= old(v)@ + string_area(bs.take(0)));
    while i < strs.len()
        invariant
            i <= strs@.len(),
            bs == string_bytes(strs@),
            string_area(bs).len() <= PAGE_SIZE,
            v@ == old(v)@ + string_area(bs.take(i as int)),
        decreases strs@.len() - i,
    {
        let b: &[u8] = strs[i].as_str().as_bytes();
        let ghost v0 = v@;
        proof {
            lemma_take_next(bs, i as int);
            lemma_area_prefix(bs, i as int + 1);
            assert(bs[i as int] == encode_utf8(strs@[i as int]@));
            assert(string_block(bs[i as int]).len() == round_up(b@.len() as int + 1, 8));
        }
        v.extend_from_slice(b);
        assert(v@ =~= v0 + b@);
        let n: usize = b.len();
        push_zeros(v, (n + 8) / 8 * 8 - n);
        i = i + 1;
        assert(v@ =~= old(v)@ + string_area(bs.take(i as int)));
    }
    assert(bs.take(i as int) =~= bs);
}

/// Appends numbers one after the other.
fn push_words(v: &mut Vec<u8>, xs: &[u64])
    ensures
        final(v)@ == old(v)@ + words(xs@),
{
    let mut i: usize = 0;
    assert(xs@.take(0) =~= Seq::empty());
    assert(v@ =~= old(v)@ + words(xs@.take(0)));
    while i < xs.len()
        invariant
            i <= xs@.len(),
            v@ == old(v)@ + words(xs@.take(i as int)),
        decreases xs@.len() - i,
    {
        proof {
            lemma_take_next(xs@, i as int);
        }
        push_u64(v, xs[i]);
        i = i + 1;
        assert(v@ =~= old(v)@ + words(xs@.take(i as int)));
    }
    assert(xs@.take(i as int) =~= xs@);
}

fn push_aux(v: &mut Vec<u8>, meta: &ElfLoadedMeta)
    ensures
        final(v)@ == old(v)@ + words(aux_entries(*meta)),
{
    let xs: [u64; 12] = [
        AT_PHDR,
        meta.phdr,
        AT_PHENT,
        meta.phent,
        AT_PHNUM,
        meta.phnum,
        AT_PAGESZ,
        PAGE_SIZE,
        AT_ENTRY,
        meta.entry,
        AT_NULL,
        0,
    ];
    assert(xs@ =~= aux_entries(*meta));
    push_words(v, &xs);
}

/// The bytes of the first stack, for the addresses from [`USER_STACK_LO`] on.
pub fn build_exec_stack(meta: &ElfLoadedMeta, args: &ExecArgs<'_>) -> (stack: Result<
    Vec<u8>,
    ElfError,
>)
    ensures
        match stack {
            Ok(v) => {
                &&& v@ == stack_image(*meta, string_bytes(args.argv@), string_bytes(args.envp@))
                &&& v@.len() == stack_len(string_bytes(args.argv@), string_bytes(args.envp@))
                &&& v@.len() <= PAGE_SIZE
            },
            Err(e) => {
                &&& e == ElfError::StackOverflow
                &&& stack_len(string_bytes(args.argv@), string_bytes(args.envp@)) > PAGE_SIZE
            },
        },
{
    let ghost argv = string_bytes(args.argv@);
    let ghost envp = string_bytes(args.envp@);
    let argc: usize = args.argv.len();
    let envc: usize = args.envp.len();
    if argc > 512 || envc > 512 {
        return Err(ElfError::StackOverflow);
    }
    let tables: usize = 8 * (argc + envc) + 120;
    let strings: usize = (tables + 15) / 16 * 16;
    if strings > PAGE_SIZE as usize {
        return Err(ElfError::StackOverflow);
    }
    let args_at = match area_end(args.envp, strings) {
        None => {
            return Err(ElfError::StackOverflow);
        },
        Some(e) => e,
    };
    match area_end(args.argv, args_at) {
        None => {
            return Err(ElfError::StackOverflow);
        },
        Some(_) => {},
    }
    let mut v: Vec<u8> = Vec::new();
    push_u64(&mut v, argc as u64);
    push_pointers(&mut v, args.argv, USER_STACK_LO + args_at as u64);
    push_u64(&mut v, 0);
    push_pointers(&mut v, args.envp, USER_STACK_LO + strings as u64);
    push_u64(&mut v, 0);
    push_aux(&mut v, meta);
    push_zeros(&mut v, strings - tables);
    push_strings(&mut v, args.envp);
    push_strings(&mut v, args.argv);
    proof {
        lemma_table_len(argv_base(argv, envp), argv);
        lemma_table_len(envp_base(argv, envp), envp);
        lemma_words_len(aux_entries(*meta));
        assert(v@ =~= stack_image(*meta, argv, envp));
    }
    Ok(v)
}

proof fn lemma_table_entry(base: int, strs: Seq<Seq<u8>>, i: int) -> (rest: Seq<u8>)
    requires
        0 <= i < strs.len(),
    ensures
        pointer_table(base, strs) == pointer_table(base, strs.take(i)) + le64_bytes(
            string_address(base, strs, i) as u64,
        ) + rest,
    decreases strs.len(),
{
    if i == strs.len() - 1 {
        assert(strs.take(i) =~= strs.drop_last());
        assert(pointer_table(base, strs) =~= pointer_table(base, strs.take(i)) + le64_bytes(
            string_address(base, strs, i) as u64,
        ) + Seq::<u8>::empty());
        Seq::empty()
    } else {
        let r = lemma_table_entry(base, strs.drop_last(), i);
        assert(strs.drop_last().take(i) =~= strs.take(i));
        let rest = r + le64_bytes((base + string_area(strs.drop_last()).len()) as u64);
        assert(pointer_table(base, strs) =~= pointer_table(base, strs.take(i)) + le64_bytes(
            string_address(base, strs, i) as u64,
        ) + rest);
        rest
    }
}

proof fn lemma_area_entry(strs: Seq<Seq<u8>>, i: int) -> (rest: Seq<u8>)
    requires
        0 <= i < strs.len(),
    ensures
        string_area(strs) == string_area(strs.take(i)) + string_block(strs[i]) + rest,
    decreases strs.len(),
{
    if i == strs.len() - 1 {
        assert(strs.take(i) =~= strs.drop_last());
        assert(string_area(strs) =~= string_area(strs.take(i)) + string_block(strs[i]) + Seq::<
            u8,
        >::empty());
        Seq::empty()
    } else {
        let r = lemma_area_entry(strs.drop_last(), i);
        assert(strs.drop_last().take(i) =~= strs.take(i));
        let rest = r + string_block(strs.last());
        assert(string_area(strs) =~= string_area(strs.take(i)) + string_block(strs[i]) + rest);
        rest
    }
}

proof fn lemma_words_entry(xs: Seq<u64>, i: int) -> (rest: Seq<u8>)
    requires
        0 <= i < xs.len(),
    ensures
        words(xs) == words(xs.take(i)) + le64_bytes(xs[i]) + rest,
    decreases xs.len(),
{
    if i == xs.len() - 1 {
        assert(xs.take(i) =~= xs.drop_last());
        assert(words(xs) =~= words(xs.take(i)) + le64_bytes(xs[i]) + Seq::<u8>::empty());
        Seq::empty()
    } else {
        let r = lemma_words_entry(xs.drop_last(), i);
        assert(xs.drop_last().take(i) =~= xs.take(i));
        let rest = r + le64_bytes(xs.last());
        assert(words(xs) =~= words(xs.take(i)) + le64_bytes(xs[i]) + rest);
        rest
    }
}

/// The bytes at user address `addr` of the stack are `s` and a closing zero.
pub open spec fn holds_string(stack: Seq<u8>, addr: int, s: Seq<u8>) -> bool {
    &&& USER_STACK_LO <= addr
    &&& addr - USER_STACK_LO + s.len() < stack.len()
    &&& stack.subrange(addr - USER_STACK_LO, addr - USER_STACK_LO + s.len()) == s
    &&& stack[addr - USER_STACK_LO + s.len()] == 0
}

/// The first word of the stack is `argc`, and the stack pointer is 16-byte aligned.
pub proof fn law_stack_starts_with_argc(meta: ElfLoadedMeta, argv: Seq<Seq<u8>>, envp: Seq<Seq<u8>>)
    requires
        stack_len(argv, envp) <= PAGE_SIZE,
    ensures
        le64(stack_image(meta, argv, envp), 0) == argv.len(),
        USER_STACK_LO % 16 == 0,
{
    let img = stack_image(meta, argv, envp);
    let rest = img.skip(8);
    assert(img =~= Seq::<u8>::empty() + le64_bytes(argv.len() as u64) + rest);
    crate::bytes::law_le64_round_trip(Seq::empty(), argv.len() as u64, rest);
}

/// The parts of the stack, in address order.
struct StackParts {
    argc: Seq<u8>,
    argv_table: Seq<u8>,
    argv_end: Seq<u8>,
    envp_table: Seq<u8>,
    envp_end: Seq<u8>,
    aux: Seq<u8>,
    padding: Seq<u8>,
    envp_strings: Seq<u8>,
    argv_strings: Seq<u8>,
}

impl StackParts {
    spec fn joined(self) -> Seq<u8> {
        self.argc + self.argv_table + self.argv_end + self.envp_table + self.envp_end + self.aux
            + self.padding + self.envp_strings + self.argv_strings
    }

    spec fn after_argv_table(self) -> Seq<u8> {
        self.argv_end + self.after_argv_end()
    }

    spec fn after_argv_end(self) -> Seq<u8> {
        self.envp_table + self.after_envp_table()
    }

    spec fn after_envp_table(self) -> Seq<u8> {
        self.envp_end + self.after_envp_end()
    }

    spec fn after_envp_end(self) -> Seq<u8> {
        self.aux + self.after_aux()
    }

    spec fn after_aux(self) -> Seq<u8> {
        self.padding + self.envp_strings + self.argv_strings
    }

    proof fn lemma_joined(self)
        ensures
            self.joined() == self.argc + self.argv_table + self.after_argv_table(),
            self.joined() == (self.argc + self.argv_table) + self.argv_end + self.after_argv_end(),
            self.joined() == (self.argc + self.argv_table + self.argv_end) + self.envp_table
                + self.after_envp_table(),
            self.joined() == (self.argc + self.argv_table + self.argv_end + self.envp_table)
                + self.envp_end + self.after_envp_end(),
            self.joined() == (self.argc + self.argv_table + self.argv_end + self.envp_table
                + self.envp_end) + self.aux + self.after_aux(),
    {
        let p = self;
        assert(p.after_argv_table() =~= p.argv_end + p.envp_table + p.envp_end + p.aux + p.padding
            + p.envp_strings + p.argv_strings);
        assert(p.after_argv_end() =~= p.envp_table + p.envp_end + p.aux + p.padding + p.envp_strings
            + p.argv_strings);
        assert(p.after_envp_table() =~= p.envp_end + p.aux + p.padding + p.envp_strings
            + p.argv_strings);
        assert(p.after_envp_end() =~= p.aux + p.padding + p.envp_strings + p.argv_strings);
        assert(p.joined() =~= p.argc + p.argv_table + p.after_argv_table());
        assert(p.joined() =~= (p.argc + p.argv_table) + p.argv_end + p.after_argv_end());
        assert(p.joined() =~= (p.argc + p.argv_table + p.argv_end) + p.envp_table
            + p.after_envp_table());
        assert(p.joined() =~= (p.argc + p.argv_table + p.argv_end + p.envp_table) + p.envp_end
            + p.after_envp_end());
        assert(p.joined() =~= (p.argc + p.argv_table + p.argv_end + p.envp_table + p.envp_end)
            + p.aux + p.after_aux());
    }
}

spec fn stack_parts(meta: ElfLoadedMeta, argv: Seq<Seq<u8>>, envp: Seq<Seq<u8>>) -> StackParts {
    StackParts {
        argc: le64_bytes(argv.len() as u64),
        argv_table: pointer_table(argv_base(argv, envp), argv),
        argv_end: le64_bytes(0),
        envp_table: pointer_table(envp_base(argv, envp), envp),
        envp_end: le64_bytes(0),
        aux: words(aux_entries(meta)),
        padding: zeros(
            strings_offset(argv.len() as int, envp.len() as int) - tables_len(
                argv.len() as int,
                envp.len() as int,
            ),
        ),
        envp_strings: string_area(envp),
        argv_strings: string_area(argv),
    }
}

proof fn lemma_parts(meta: ElfLoadedMeta, argv: Seq<Seq<u8>>, envp: Seq<Seq<u8>>) -> (p: StackParts)
    ensures
        p == stack_parts(meta, argv, envp),
        stack_image(meta, argv, envp) == p.joined(),
        p.argc.len() == 8,
        p.argv_table.len() == 8 * argv.len(),
        p.argv_end.len() == 8,
        p.envp_table.len() == 8 * envp.len(),
        p.envp_end.len() == 8,
        p.aux.len() == 96,
        p.padding.len() == strings_offset(argv.len() as int, envp.len() as int) - tables_len(
            argv.len() as int,
            envp.len() as int,
        ),
        p.joined().len() == stack_len(argv, envp),
{
    lemma_table_len(argv_base(argv, envp), argv);
    lemma_table_len(envp_base(argv, envp), envp);
    lemma_words_len(aux_entries(meta));
    stack_parts(meta, argv, envp)
}

/// A word inside a part of a byte string.
proof fn lemma_word_inside(
    before: Seq<u8>,
    part: Seq<u8>,
    after: Seq<u8>,
    head: Seq<u8>,
    x: u64,
    tail: Seq<u8>,
)
    requires
        part == head + le64_bytes(x) + tail,
    ensures
        le64(before + part + after, (before.len() + head.len()) as int) == x,
{
    let b = le64_bytes(x);
    lemma_reassociate(before, head, b, tail, after);
    crate::bytes::law_le64_round_trip(before + head, x, tail + after);
}

proof fn lemma_reassociate(
    before: Seq<u8>,
    head: Seq<u8>,
    b: Seq<u8>,
    tail: Seq<u8>,
    after: Seq<u8>,
)
    ensures
        before + (head + b + tail) + after == (before + head) + b + (tail + after),
{
    assert(before + (head + b + tail) + after =~= (before + head) + b + (tail + after));
}

/// A string inside a string area inside a byte string.
proof fn lemma_string_inside(before: Seq<u8>, strs: Seq<Seq<u8>>, after: Seq<u8>, i: int)
    requires
        0 <= i < strs.len(),
    ensures
        ({
            let all = before + string_area(strs) + after;
            let o = (before.len() + string_area(strs.take(i)).len()) as int;
            &&& o + strs[i].len() < all.len()
            &&& all.subrange(o, o + strs[i].len()) == strs[i]
            &&& all[o + strs[i].len()] == 0
        }),
{
    let rest = lemma_area_entry(strs, i);
    let head = string_area(strs.take(i));
    let block = string_block(strs[i]);
    let all = before + string_area(strs) + after;
    lemma_reassociate(before, head, block, rest, after);
    let o = (before + head).len() as int;
    let n = strs[i].len() as int;
    assert(all.subrange(o, o + n) =~= strs[i]) by {
        assert forall|j: int| 0 <= j < n implies all.subrange(o, o + n)[j] == strs[i][j] by {
            assert(all[o + j] == block[j]);
        }
    }
    assert(all[o + n] == block[n]);
}

/// `argv[i]` of the new program points at its `i`-th argument.
pub proof fn law_argv_points_at_arguments(
    meta: ElfLoadedMeta,
    argv: Seq<Seq<u8>>,
    envp: Seq<Seq<u8>>,
    i: int,
)
    requires
        stack_len(argv, envp) <= PAGE_SIZE,
        0 <= i < argv.len(),
    ensures
        holds_string(
            stack_image(meta, argv, envp),
            le64(stack_image(meta, argv, envp), 8 + 8 * i),
            argv[i],
        ),
{
    lemma_argv_word(meta, argv, envp, i);
    lemma_argv_string(meta, argv, envp, i);
}

proof fn lemma_argv_word(meta: ElfLoadedMeta, argv: Seq<Seq<u8>>, envp: Seq<Seq<u8>>, i: int)
    requires
        stack_len(argv, envp) <= PAGE_SIZE,
        0 <= i < argv.len(),
    ensures
        le64(stack_image(meta, argv, envp), 8 + 8 * i) == string_address(
            argv_base(argv, envp),
            argv,
            i,
        ),
{
    let p = lemma_parts(meta, argv, envp);
    let base = argv_base(argv, envp);
    let x = string_address(base, argv, i);
    p.lemma_joined();
    lemma_table_len(base, argv.take(i));
    lemma_area_prefix(argv, i);
    let t = lemma_table_entry(base, argv, i);
    lemma_word_inside(
        p.argc,
        p.argv_table,
        p.after_argv_table(),
        pointer_table(base, argv.take(i)),
        x as u64,
        t,
    );
}

proof fn lemma_argv_string(meta: ElfLoadedMeta, argv: Seq<Seq<u8>>, envp: Seq<Seq<u8>>, i: int)
    requires
        0 <= i < argv.len(),
    ensures
        holds_string(
            stack_image(meta, argv, envp),
            string_address(argv_base(argv, envp), argv, i),
            argv[i],
        ),
{
    let p = lemma_parts(meta, argv, envp);
    let before = p.argc + p.argv_table + p.argv_end + p.envp_table + p.envp_end + p.aux + p.padding
        + p.envp_strings;
    lemma_string_inside(before, argv, Seq::empty(), i);
    assert(before + p.argv_strings + Seq::<u8>::empty() =~= p.joined());
}

/// `envp[i]` of the new program points at its `i`-th environment string.
pub proof fn law_envp_points_at_environment(
    meta: ElfLoadedMeta,
    argv: Seq<Seq<u8>>,
    envp: Seq<Seq<u8>>,
    i: int,
)
    requires
        stack_len(argv, envp) <= PAGE_SIZE,
        0 <= i < envp.len(),
    ensures
        holds_string(
            stack_image(meta, argv, envp),
            le64(stack_image(meta, argv, envp), 8 + 8 * (argv.len() + 1) + 8 * i),
            envp[i],
        ),
{
    lemma_envp_word(meta, argv, envp, i);
    lemma_envp_string(meta, argv, envp, i);
}

proof fn lemma_envp_word(meta: ElfLoadedMeta, argv: Seq<Seq<u8>>, envp: Seq<Seq<u8>>, i: int)
    requires
        stack_len(argv, envp) <= PAGE_SIZE,
        0 <= i < envp.len(),
    ensures
        le64(stack_image(meta, argv, envp), 8 + 8 * (argv.len() + 1) + 8 * i) == string_address(
            envp_base(argv, envp),
            envp,
            i,
        ),
{
    let p = lemma_parts(meta, argv, envp);
    let base = envp_base(argv, envp);
    let x = string_address(base, envp, i);
    p.lemma_joined();
    lemma_table_len(base, envp.take(i));
    lemma_area_prefix(envp, i);
    let t = lemma_table_entry(base, envp, i);
    lemma_word_inside(
        p.argc + p.argv_table + p.argv_end,
        p.envp_table,
        p.after_envp_table(),
        pointer_table(base, envp.take(i)),
        x as u64,
        t,
    );
}

proof fn lemma_envp_string(meta: ElfLoadedMeta, argv: Seq<Seq<u8>>, envp: Seq<Seq<u8>>, i: int)
    requires
        0 <= i < envp.len(),
    ensures
        holds_string(
            stack_image(meta, argv, envp),
            string_address(envp_base(argv, envp), envp, i),
            envp[i],
        ),
{
    let p = lemma_parts(meta, argv, envp);
    let before = p.argc + p.argv_table + p.argv_end + p.envp_table + p.envp_end + p.aux + p.padding;
    lemma_string_inside(before, envp, p.argv_strings, i);
}

/// Both pointer tables are closed by a zero word.
pub proof fn law_tables_are_closed(meta: ElfLoadedMeta, argv: Seq<Seq<u8>>, envp: Seq<Seq<u8>>)
    requires
        stack_len(argv, envp) <= PAGE_SIZE,
    ensures
        le64(stack_image(meta, argv, envp), 8 + 8 * argv.len() as int) == 0,
        le64(stack_image(meta, argv, envp), 16 + 8 * (argv.len() + envp.len()) as int) == 0,
{
    let p = lemma_parts(meta, argv, envp);
    p.lemma_joined();
    crate::bytes::law_le64_round_trip(p.argc + p.argv_table, 0, p.after_argv_end());
    crate::bytes::law_le64_round_trip(
        p.argc + p.argv_table + p.argv_end + p.envp_table,
        0,
        p.after_envp_end(),
    );
}

/// The auxiliary vector follows the pointer tables.
pub proof fn law_aux_vector_follows_tables(
    meta: ElfLoadedMeta,
    argv: Seq<Seq<u8>>,
    envp: Seq<Seq<u8>>,
    i: int,
)
    requires
        stack_len(argv, envp) <= PAGE_SIZE,
        0 <= i < aux_entries(meta).len(),
    ensures
        le64(stack_image(meta, argv, envp), 24 + 8 * (argv.len() + envp.len()) + 8 * i)
            == aux_entries(meta)[i],
{
    let p = lemma_parts(meta, argv, envp);
    let aux = aux_entries(meta);
    p.lemma_joined();
    lemma_words_len(aux.take(i));
    let r = lemma_words_entry(aux, i);
    let before = p.argc + p.argv_table + p.argv_end + p.envp_table + p.envp_end;
    lemma_word_inside(before, p.aux, p.after_aux(), words(aux.take(i)), aux[i], r);
    assert(before.len() == 24 + 8 * (argv.len() + envp.len()));
    assert(words(aux.take(i)).len() == 8 * i);
}

/// The strings stand at ascending addresses, one after the other without overlap, each at a multiple
/// of eight; the argument strings follow the environment strings.
pub proof fn law_strings_ascend(argv: Seq<Seq<u8>>, envp: Seq<Seq<u8>>, i: int, j: int)
    ensures
        0 <= i < j < argv.len() ==> string_address(argv_base(argv, envp), argv, i) + argv[i].len()
            < string_address(argv_base(argv, envp), argv, j),
        0 <= i < j < envp.len() ==> string_address(envp_base(argv, envp), envp, i) + envp[i].len()
            < string_address(envp_base(argv, envp), envp, j),
        0 <= i < envp.len() && 0 <= j < argv.len() ==> string_address(
            envp_base(argv, envp),
            envp,
            i,
        ) + envp[i].len() < string_address(argv_base(argv, envp), argv, j),
        0 <= i < argv.len() ==> string_address(argv_base(argv, envp), argv, i) % 8 == 0,
        0 <= i < envp.len() ==> string_address(envp_base(argv, envp), envp, i) % 8 == 0,
{
    if 0 <= i < argv.len() {
        lemma_area_aligned(argv.take(i));
        lemma_area_aligned(envp);
        if i < j < argv.len() {
            lemma_area_step(argv, i, j);
        }
    }
    if 0 <= i < envp.len() {
        lemma_area_aligned(envp.take(i));
        lemma_area_step(envp, i, envp.len() as int);
        assert(envp.take(envp.len() as int) =~= envp);
        if i < j < envp.len() {
            lemma_area_step(envp, i, j);
        }
    }
}

proof fn lemma_area_aligned(strs: Seq<Seq<u8>>)
    ensures
        string_area(strs).len() % 8 == 0,
    decreases strs.len(),
{
    if strs.len() > 0 {
        lemma_area_aligned(strs.drop_last());
    }
}

/// The area of the first `j` strings holds string `i` behind the area of the first `i`.
proof fn lemma_area_step(strs: Seq<Seq<u8>>, i: int, j: int)
    requires
        0 <= i < j <= strs.len(),
    ensures
        string_area(strs.take(i)).len() + strs[i].len() < string_area(strs.take(j)).len(),
{
    let next = strs.take(i + 1);
    assert(next.drop_last() =~= strs.take(i));
    assert(next.last() == strs[i]);
    lemma_area_prefix(strs.take(j), i + 1);
    assert(strs.take(j).take(i + 1) =~= next);
}

/// The auxiliary vector behind the tables: six pairs of tag and value, for the program headers (3), the
/// size of one (4), their number (5), the page size (6), the entry (9), and the end (0).
pub proof fn law_aux_vector_entries(meta: ElfLoadedMeta, argv: Seq<Seq<u8>>, envp: Seq<Seq<u8>>)
    requires
        stack_len(argv, envp) <= PAGE_SIZE,
    ensures
        ({
            let img = stack_image(meta, argv, envp);
            let at = 24 + 8 * (argv.len() + envp.len()) as int;
            &&& le64(img, at) == 3 && le64(img, at + 8) == meta.phdr
            &&& le64(img, at + 16) == 4 && le64(img, at + 24) == meta.phent
            &&& le64(img, at + 32) == 5 && le64(img, at + 40) == meta.phnum
            &&& le64(img, at + 48) == 6 && le64(img, at + 56) == 4096
            &&& le64(img, at + 64) == 9 && le64(img, at + 72) == meta.entry
            &&& le64(img, at + 80) == 0 && le64(img, at + 88) == 0
        }),
{
    law_aux_vector_follows_tables(meta, argv, envp, 0);
    law_aux_vector_follows_tables(meta, argv, envp, 1);
    law_aux_vector_follows_tables(meta, argv, envp, 2);
    law_aux_vector_follows_tables(meta, argv, envp, 3);
    law_aux_vector_follows_tables(meta, argv, envp, 4);
    law_aux_vector_follows_tables(meta, argv, envp, 5);
    law_aux_vector_follows_tables(meta, argv, envp, 6);
    law_aux_vector_follows_tables(meta, argv, envp, 7);
    law_aux_vector_follows_tables(meta, argv, envp, 8);
    law_aux_vector_follows_tables(meta, argv, envp, 9);
    law_aux_vector_follows_tables(meta, argv, envp, 10);
    law_aux_vector_follows_tables(meta, argv, envp, 11);
}

/// The room that a stack takes: eight bytes for `argc`, each pointer and both closing zeros, 96 for the
/// auxiliary vector, up to the next multiple of 16; then each string with a zero behind it, up to the
/// next multiple of eight. No room is wasted beyond that.
pub proof fn law_stack_room(argv: Seq<Seq<u8>>, envp: Seq<Seq<u8>>, s: Seq<u8>)
    ensures
        ({
            let tables = 8 * (argv.len() + envp.len() + 3) + 96;
            let base = stack_len(argv, envp) - string_area(argv).len() - string_area(envp).len();
            &&& base % 16 == 0
            &&& tables <= base < tables + 16
            &&& string_area(Seq::empty()).len() == 0
            &&& string_area(argv.push(s)).len() % 8 == string_area(argv).len() % 8
            &&& string_area(argv).len() + s.len() < string_area(argv.push(s)).len() <= string_area(
                argv,
            ).len() + s.len() + 8
        }),
{
    assert(argv.push(s).drop_last() =~= argv);
}

} // verus!
