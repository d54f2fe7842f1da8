//! **execve**: the strings that a program hands over, read out of user memory, and the start of the
//! new program.

use vstd::prelude::*;
use vstd::utf8::{decode_utf8, decode_utf8_encode_utf8, valid_utf8};

use crate::bytes::{le64, read_u64};
use crate::elf::{ElfError, ElfLoadedMeta, ExecStart};
use crate::errno::{EFAULT, EINVAL, ENOENT, ENOEXEC};
use crate::exec_stack::{
    holds_string, law_argv_points_at_arguments, stack_image, stack_len, string_bytes,
};
use crate::memory::PAGE_SIZE;
use crate::process::{
    current_slot, set_syscall_saved, user_bootstrap, Processes, ProcessesSpec,
};
use crate::task::SyscallSaved;
use crate::user::{
    readable, set_user_entry, user_region_is_readable_range, window_index, UserImage, USER_RFLAGS,
    USER_TEXT_BASE, USER_WINDOW,
};
use crate::vm::{region_step, RegionEvent};

verus! {

/// `String::from_utf8`: the text that the bytes encode, where they are valid UTF-8.
#[verifier::external_body]
fn string_from_utf8(bytes: Vec<u8>) -> (s: Option<String>)
    ensures
        match s {
            Some(s) => valid_utf8(bytes@) && s@ == decode_utf8(bytes@),
            None => !valid_utf8(bytes@),
        },
{
    String::from_utf8(bytes).ok()
}

/// The bytes from `ptr` up to a zero byte, at most `cap` of them. A byte that cannot be read makes
/// it `-EFAULT`.
pub open spec fn cstring_at(window: Seq<u8>, ptr: int, cap: int) -> Result<Seq<u8>, u64>
    decreases cap,
{
    if cap <= 0 {
        Ok(Seq::empty())
    } else if !readable(ptr, 1) {
        Err(EFAULT)
    } else if window[window_index(ptr)] == 0 {
        Ok(Seq::empty())
    } else {
        match cstring_at(window, ptr + 1, cap - 1) {
            Ok(rest) => Ok(seq![window[window_index(ptr)]] + rest),
            Err(e) => Err(e),
        }
    }
}

/// The text at `ptr`. Bytes that are not UTF-8 make it `-EINVAL`.
pub open spec fn user_string(window: Seq<u8>, ptr: int, cap: int) -> Result<Seq<char>, u64> {
    match cstring_at(window, ptr, cap) {
        Ok(bytes) => if valid_utf8(bytes) {
            Ok(decode_utf8(bytes))
        } else {
            Err(EINVAL)
        },
        Err(e) => Err(e),
    }
}

/// The texts behind the pointers from `base` up to a zero pointer, at most `max` of them.
pub open spec fn user_strings(window: Seq<u8>, base: int, max: int, cap: int) -> Result<
    Seq<Seq<char>>,
    u64,
>
    decreases max,
{
    if max <= 0 {
        Ok(Seq::empty())
    } else if !readable(base, 8) {
        Err(EFAULT)
    } else if le64(window, window_index(base)) == 0 {
        Ok(Seq::empty())
    } else {
        match user_string(window, le64(window, window_index(base)), cap) {
            Err(e) => Err(e),
            Ok(s) => match user_strings(window, base + 8, max - 1, cap) {
                Err(e) => Err(e),
                Ok(rest) => Ok(seq![s] + rest),
            },
        }
    }
}

/// The texts of a pointer table; a null table has none.
pub open spec fn string_table(window: Seq<u8>, base: u64, max: int, cap: int) -> Result<
    Seq<Seq<char>>,
    u64,
> {
    if base == 0 {
        Ok(Seq::empty())
    } else {
        user_strings(window, base as int, max, cap)
    }
}

/// The texts of a list of strings.
pub open spec fn texts(strs: Seq<String>) -> Seq<Seq<char>> {
    strs.map_values(|s: String| s@)
}

/// Reads the text at user address `ptr`, at most `cap` bytes.
pub fn read_user_cstring(window: &[u8], ptr: u64, cap: usize) -> (r: Result<String, u64>)
    requires
        window@.len() == USER_WINDOW,
    ensures
        match r {
            Ok(s) => user_string(window@, ptr as int, cap as int) == Ok::<Seq<char>, u64>(s@),
            Err(e) => user_string(window@, ptr as int, cap as int) == Err::<Seq<char>, u64>(e),
        },
{
    let mut v: Vec<u8> = Vec::new();
    let ghost whole = cstring_at(window@, ptr as int, cap as int);
    let ghost mut ended = false;
    assert(match whole {
        Ok(rest) => v@ + rest =~= rest,
        Err(_) => true,
    });
    let mut n: usize = 0;
    while n < cap
        invariant_except_break
            !ended,
        invariant
            n <= cap,
            v@.len() == n,
            window@.len() == USER_WINDOW,
            n > 0 ==> ptr + n <= USER_TEXT_BASE + USER_WINDOW,
            whole == cstring_at(window@, ptr as int, cap as int),
            !ended ==> whole == (match cstring_at(window@, ptr + n, cap - n) {
                Ok(rest) => Ok::<Seq<u8>, u64>(v@ + rest),
                Err(e) => Err(e),
            }),
            ended ==> whole == Ok::<Seq<u8>, u64>(v@),
        ensures
            ended || n == cap,
        decreases cap - n,
    {
        let at: u64 = ptr + n as u64;
        if !user_region_is_readable_range(at, 1) {
            return Err(EFAULT);
        }
        let c: u8 = window[(at - USER_TEXT_BASE) as usize];
        if c == 0 {
            proof {
                ended = true;
                assert(v@ + Seq::<u8>::empty() =~= v@);
            }
            break;
        }
        let ghost before = v@;
        v.push(c);
        n = n + 1;
        proof {
            match cstring_at(window@, ptr + n, cap - n) {
                Ok(rest) => {
                    assert(before + (seq![c] + rest) =~= v@ + rest);
                },
                Err(_) => {},
            }
        }
    }
    assert(v@ + Seq::<u8>::empty() =~= v@);
    match string_from_utf8(v) {
        Some(s) => Ok(s),
        None => Err(EINVAL),
    }
}

/// Reads the texts behind a table of at most `max_ptrs` pointers.
pub fn parse_user_ptrvec(window: &[u8], base: u64, max_ptrs: usize, max_str: usize) -> (r: Result<
    Vec<String>,
    u64,
>)
    requires
        window@.len() == USER_WINDOW,
    ensures
        match r {
            Ok(v) => string_table(window@, base, max_ptrs as int, max_str as int) == Ok::<
                Seq<Seq<char>>,
                u64,
            >(texts(v@)),
            Err(e) => string_table(window@, base, max_ptrs as int, max_str as int) == Err::<
                Seq<Seq<char>>,
                u64,
            >(e),
        },
{
    let mut out: Vec<String> = Vec::new();
    assert(texts(out@) =~= Seq::empty());
    if base == 0 {
        return Ok(out);
    }
    let ghost whole = user_strings(window@, base as int, max_ptrs as int, max_str as int);
    assert(match whole {
        Ok(rest) => texts(out@) + rest =~= rest,
        Err(_) => true,
    });
    let mut i: usize = 0;
    while i < max_ptrs
        invariant
            i <= max_ptrs,
            window@.len() == USER_WINDOW,
            base != 0,
            i > 0 ==> base + 8 * i <= USER_TEXT_BASE + USER_WINDOW,
            whole == string_table(window@, base, max_ptrs as int, max_str as int),
            whole == (match user_strings(
                window@,
                base + 8 * i,
                max_ptrs - i,
                max_str as int,
            ) {
                Ok(rest) => Ok::<Seq<Seq<char>>, u64>(texts(out@) + rest),
                Err(e) => Err(e),
            }),
        decreases max_ptrs - i,
    {
        let p: u64 = base + i as u64 * 8;
        if !user_region_is_readable_range(p, 8) {
            return Err(EFAULT);
        }
        let ptr: u64 = read_u64(window, (p - USER_TEXT_BASE) as usize);
        if ptr == 0 {
            assert(texts(out@) + Seq::<Seq<char>>::empty() =~= texts(out@));
            return Ok(out);
        }
        match read_user_cstring(window, ptr, max_str) {
            Err(e) => {
                return Err(e);
            },
            Ok(s) => {
                let ghost before = texts(out@);
                let ghost t = s@;
                out.push(s);
                i = i + 1;
                proof {
                    assert(texts(out@) =~= before.push(t));
                    match user_strings(window@, base + 8 * i, max_ptrs - i, max_str as int) {
                        Ok(rest) => {
                            assert(before + (seq![t] + rest) =~= texts(out@) + rest);
                        },
                        Err(_) => {},
                    }
                }
            },
        }
    }
    assert(texts(out@) + Seq::<Seq<char>>::empty() =~= texts(out@));
    Ok(out)
}

/// The path that `execve` knows, with its closing zero: `/init`.
pub open spec fn init_path() -> Seq<u8> {
    seq![0x2fu8, 0x69, 0x6e, 0x69, 0x74, 0]
}

/// Most arguments that `execve` takes.
pub const MAX_ARGS: usize = 32;

/// Most environment strings that `execve` takes.
pub const MAX_ENV: usize = 16;

/// Most bytes of one string.
pub const MAX_STR: usize = 256;

/// Bytes of [`init_path`].
pub const INIT_PATH_LEN: usize = 6;

/// Returns true if the six bytes from `at` on are the path that `execve` knows.
pub fn is_init_path(window: &[u8], at: usize) -> (ok: bool)
    requires
        at + INIT_PATH_LEN <= window@.len(),
    ensures
        ok <==> window@.subrange(at as int, at + INIT_PATH_LEN) == init_path(),
{
    let ghost path = window@.subrange(at as int, at + INIT_PATH_LEN);
    let ok = window[at] == 0x2f && window[at + 1] == 0x69 && window[at + 2] == 0x6e && window[at
        + 3] == 0x69 && window[at + 4] == 0x74 && window[at + 5] == 0;
    proof {
        if ok {
            assert(path =~= init_path());
        } else {
            assert(path[0] == window@[at as int]);
            assert(path[1] == window@[at + 1]);
            assert(path[2] == window@[at + 2]);
            assert(path[3] == window@[at + 3]);
            assert(path[4] == window@[at + 4]);
            assert(path[5] == window@[at + 5]);
        }
    }
    ok
}

/// The strings for a new program.
pub struct ExecRequest {
    pub argv: Vec<String>,
    pub envp: Vec<String>,
}

/// What `execve` makes of its arguments: the argument and environment strings, or the refusal.
pub open spec fn exec_request(window: Seq<u8>, path: u64, argv: u64, envp: u64) -> Result<
    (Seq<Seq<char>>, Seq<Seq<char>>),
    u64,
> {
    if !readable(path as int, INIT_PATH_LEN as int) {
        Err(EFAULT)
    } else if window.subrange(
        window_index(path as int),
        window_index(path as int) + INIT_PATH_LEN,
    ) != init_path() {
        Err(ENOENT)
    } else {
        match string_table(window, argv, MAX_ARGS as int, MAX_STR as int) {
            Err(e) => Err(e),
            Ok(a) => match string_table(window, envp, MAX_ENV as int, MAX_STR as int) {
                Err(e) => Err(e),
                Ok(v) => Ok((a, v)),
            },
        }
    }
}

/// The strings that were read are those of the request.
pub open spec fn exec_decides(
    window: Seq<u8>,
    path: u64,
    argv: u64,
    envp: u64,
    r: Result<ExecRequest, u64>,
) -> bool {
    match r {
        Ok(req) => exec_request(window, path, argv, envp) == Ok::<
            (Seq<Seq<char>>, Seq<Seq<char>>),
            u64,
        >((texts(req.argv@), texts(req.envp@))),
        Err(e) => exec_request(window, path, argv, envp) == Err::<
            (Seq<Seq<char>>, Seq<Seq<char>>),
            u64,
        >(e),
    }
}

/// Checks the arguments of `execve`: only `/init` is known, and its strings are read out of user
/// memory before the old image goes away.
pub fn sys_execve(window: &[u8], path_u: u64, argv_u: u64, envp_u: u64) -> (r: Result<
    ExecRequest,
    u64,
>)
    requires
        window@.len() == USER_WINDOW,
    ensures
        exec_decides(window@, path_u, argv_u, envp_u, r),
{
    if !user_region_is_readable_range(path_u, INIT_PATH_LEN) {
        return Err(EFAULT);
    }
    if !is_init_path(window, (path_u - USER_TEXT_BASE) as usize) {
        return Err(ENOENT);
    }
    let argv = match parse_user_ptrvec(window, argv_u, MAX_ARGS, MAX_STR) {
        Ok(a) => a,
        Err(e) => {
            return Err(e);
        },
    };
    let envp = match parse_user_ptrvec(window, envp_u, MAX_ENV, MAX_STR) {
        Ok(a) => a,
        Err(e) => {
            return Err(e);
        },
    };
    Ok(ExecRequest { argv, envp })
}

/// What settling an `execve` does, and its result. `start` holds the entry and the stack pointer of an
/// image that was loaded.
pub open spec fn exec_settles(
    ps: ProcessesSpec,
    user: UserImage,
    start: Option<(u64, u64)>,
    ps2: ProcessesSpec,
    user2: UserImage,
    ret: u64,
) -> bool {
    match start {
        Some((entry, rsp)) => {
            &&& ret == 0
            &&& ps2 == ps.saved(ps.current_slot as int, user_bootstrap(entry, rsp), 0)
            &&& user2 == (UserImage { entry_rip: entry, ..user })
        },
        None => ret == ENOEXEC && ps2 == ps && user2 == user,
    }
}

/// Settles `execve`. The registers of the running process are noted anew, to start over at the new
/// entry with the new stack; the call then ends with [`crate::syscall::exec_tail`]. An image that
/// could not be loaded makes the call return `-ENOEXEC`.
pub fn finish_execve(
    ps: &mut Processes,
    user: &mut UserImage,
    loaded: &Result<ExecStart, ElfError>,
) -> (ret: u64)
    ensures
        old(ps)@.wf() ==> final(ps)@.wf(),
        match *loaded {
            Ok(start) => {
                &&& ret == 0
                &&& final(ps)@ == old(ps)@.saved(
                    old(ps)@.current_slot as int,
                    user_bootstrap(start.entry, start.rsp),
                    0,
                )
                &&& *final(user) == (UserImage { entry_rip: start.entry, ..*old(user) })
            },
            Err(_) => {
                &&& ret == ENOEXEC
                &&& final(ps)@ == old(ps)@
                &&& *final(user) == *old(user)
            },
        },
        region_step(old(ps)@, RegionEvent::Other, final(ps)@),
        *loaded matches Ok(start) ==> exec_settles(
            old(ps)@,
            *old(user),
            Some((start.entry, start.rsp)),
            final(ps)@,
            *final(user),
            ret,
        ),
        *loaded is Err ==> exec_settles(old(ps)@, *old(user), None, final(ps)@, *final(user), ret),
{
    match loaded {
        Ok(start) => {
            let slot: usize = current_slot(ps);
            let save = SyscallSaved::bootstrap_user(start.entry, start.rsp, USER_RFLAGS);
            set_syscall_saved(ps, slot, save, 0);
            set_user_entry(user, start.entry);
            0
        },
        Err(_) => ENOEXEC,
    }
}

/// A string that lies readable in user memory with a zero behind it is read back as it is.
pub proof fn law_cstring_round_trip(window: Seq<u8>, ptr: int, s: Seq<u8>, cap: int)
    requires
        s.len() < cap,
        forall|j: int| 0 <= j <= s.len() ==> readable(#[trigger] (ptr + j), 1),
        forall|j: int|
            0 <= j < s.len() ==> window[window_index(ptr + j)] == #[trigger] s[j] && s[j] != 0,
        window[window_index(ptr + s.len())] == 0,
    ensures
        cstring_at(window, ptr, cap) == Ok::<Seq<u8>, u64>(s),
    decreases s.len(),
{
    assert(readable(ptr + 0, 1));
    if s.len() == 0 {
        assert(s =~= Seq::empty());
    } else {
        let rest = s.drop_first();
        assert(s[0] == window[window_index(ptr + 0)]);
        assert forall|j: int| 0 <= j <= rest.len() implies readable(#[trigger] (ptr + 1 + j), 1) by {
            assert(readable(ptr + (j + 1), 1));
        }
        assert forall|j: int| 0 <= j < rest.len() implies window[window_index(ptr + 1 + j)]
            == #[trigger] rest[j] && rest[j] != 0 by {
            assert(rest[j] == s[j + 1]);
        }
        law_cstring_round_trip(window, ptr + 1, rest, cap - 1);
        assert(seq![s[0]] + rest =~= s);
    }
}

/// An argument of the caller arrives at the new program byte for byte: its stack holds the string
/// that stood in user memory, and `argv[i]` points at it.
pub proof fn law_exec_hands_arguments_over(
    window: Seq<u8>,
    ptr: int,
    cap: int,
    meta: ElfLoadedMeta,
    argv: Seq<String>,
    envp: Seq<String>,
    i: int,
)
    requires
        0 <= i < argv.len(),
        user_string(window, ptr, cap) == Ok::<Seq<char>, u64>(argv[i]@),
        stack_len(string_bytes(argv), string_bytes(envp)) <= PAGE_SIZE,
    ensures
        ({
            let stack = stack_image(meta, string_bytes(argv), string_bytes(envp));
            cstring_at(window, ptr, cap) matches Ok(bytes) && holds_string(
                stack,
                le64(stack, 8 + 8 * i),
                bytes,
            )
        }),
{
    let bytes = cstring_at(window, ptr, cap)->Ok_0;
    decode_utf8_encode_utf8(bytes);
    law_argv_points_at_arguments(meta, string_bytes(argv), string_bytes(envp), i);
}

/// What is read from a string pointer: the bytes that stand there in user memory, up to the first zero
/// byte or to the limit. It fails, with `-EFAULT`, only where a byte on the way cannot be read.
pub proof fn law_cstring_is_bytes_up_to_zero(window: Seq<u8>, ptr: int, cap: int)
    requires
        0 <= cap,
    ensures
        match cstring_at(window, ptr, cap) {
            Ok(s) => {
                &&& s.len() <= cap
                &&& forall|j: int|
                    0 <= j < s.len() ==> #[trigger] s[j] == window[ptr + j - 0x400000] && s[j] != 0
                &&& s.len() < cap ==> window[ptr + s.len() - 0x400000] == 0
                &&& forall|j: int| 0 <= j < s.len() ==> 0x400000 <= #[trigger] (ptr + j) < 0x402000
            },
            Err(e) => e == EFAULT && exists|j: int|
                0 <= j < cap && !(0x400000 <= #[trigger] (ptr + j) < 0x402000),
        },
    decreases cap,
{
    if cap > 0 && readable(ptr, 1) && window[window_index(ptr)] != 0 {
        law_cstring_is_bytes_up_to_zero(window, ptr + 1, cap - 1);
        match cstring_at(window, ptr + 1, cap - 1) {
            Ok(rest) => {
                let s = seq![window[window_index(ptr)]] + rest;
                assert forall|j: int| 0 <= j < s.len() implies #[trigger] s[j] == window[ptr + j
                    - 0x400000] && s[j] != 0 by {
                    if j > 0 {
                        assert(s[j] == rest[j - 1]);
                    }
                }
                assert forall|j: int| 0 <= j < s.len() implies 0x400000 <= #[trigger] (ptr + j)
                    < 0x402000 by {
                    if j > 0 {
                        assert(0x400000 <= (ptr + 1) + (j - 1) < 0x402000);
                    }
                }
            },
            Err(_) => {
                let j = choose|j: int|
                    0 <= j < cap - 1 && !(0x400000 <= #[trigger] ((ptr + 1) + j) < 0x402000);
                assert(!(0x400000 <= ptr + (j + 1) < 0x402000));
            },
        }
    } else if cap > 0 && !readable(ptr, 1) {
        assert(!(0x400000 <= ptr + 0 < 0x402000));
    }
}

/// The strings of a table: one for each pointer, in order, up to a zero pointer or to the limit; none
/// for a null table.
pub proof fn law_string_table_follows_pointers(window: Seq<u8>, base: u64, max: int, cap: int)
    requires
        0 <= max,
    ensures
        base == 0 ==> string_table(window, base, max, cap) == Ok::<Seq<Seq<char>>, u64>(Seq::empty()),
        base != 0 ==> (string_table(window, base, max, cap) matches Ok(v) ==> {
            &&& v.len() <= max
            &&& forall|k: int|
                0 <= k < v.len() ==> user_string(
                    window,
                    le64(window, base + 8 * k - 0x400000),
                    cap,
                ) == Ok::<Seq<char>, u64>(#[trigger] v[k])
            &&& forall|k: int|
                0 <= k < v.len() ==> #[trigger] le64(window, base + 8 * k - 0x400000) != 0
            &&& v.len() < max ==> le64(window, base + 8 * v.len() - 0x400000) == 0
        }),
{
    if base != 0 {
        lemma_user_strings(window, base as int, max, cap);
    }
}

proof fn lemma_user_strings(window: Seq<u8>, base: int, max: int, cap: int)
    requires
        0 <= max,
    ensures
        user_strings(window, base, max, cap) matches Ok(v) ==> {
            &&& v.len() <= max
            &&& forall|k: int|
                0 <= k < v.len() ==> user_string(
                    window,
                    le64(window, base + 8 * k - 0x400000),
                    cap,
                ) == Ok::<Seq<char>, u64>(#[trigger] v[k])
            &&& forall|k: int|
                0 <= k < v.len() ==> #[trigger] le64(window, base + 8 * k - 0x400000) != 0
            &&& v.len() < max ==> le64(window, base + 8 * v.len() - 0x400000) == 0
        },
    decreases max,
{
    if max > 0 {
        lemma_user_strings(window, base + 8, max - 1, cap);
        if let Ok(v) = user_strings(window, base, max, cap) {
            if v.len() > 0 {
                let rest = user_strings(window, base + 8, max - 1, cap)->Ok_0;
                assert(v.skip(1) =~= rest);
                assert forall|k: int| 0 <= k < v.len() implies user_string(
                    window,
                    le64(window, base + 8 * k - 0x400000),
                    cap,
                ) == Ok::<Seq<char>, u64>(#[trigger] v[k]) && le64(
                    window,
                    base + 8 * k - 0x400000,
                ) != 0 by {
                    if k > 0 {
                        assert(v[k] == rest[k - 1]);
                        assert((base + 8) + 8 * (k - 1) - 0x400000 == base + 8 * k - 0x400000);
                        assert(le64(window, (base + 8) + 8 * (k - 1) - 0x400000) != 0);
                    }
                }
                assert forall|k: int| 0 <= k < v.len() implies #[trigger] le64(
                    window,
                    base + 8 * k - 0x400000,
                ) != 0 by {
                    assert(v[k] == v[k]);
                }
                assert((base + 8) + 8 * rest.len() - 0x400000 == base + 8 * v.len() - 0x400000);
            }
        }
    }
}

/// `execve` knows one program. Where the six bytes of the path cannot be read it is `-EFAULT`; where
/// they are not `/init` and a zero it is `-ENOENT`; and otherwise the arguments and the environment
/// decide, in this order, each by its own table of at most 32 and 16 strings of 256 bytes.
pub proof fn law_execve_knows_init(window: Seq<u8>, path: u64, argv: u64, envp: u64)
    ensures
        ({
            let r = exec_request(window, path, argv, envp);
            let at = path - 0x400000;
            let named = window[at] == 0x2f && window[at + 1] == 0x69 && window[at + 2] == 0x6e
                && window[at + 3] == 0x69 && window[at + 4] == 0x74 && window[at + 5] == 0;
            let inside = (0x400000 <= path && path + 6 <= 0x401000) || (0x401000 <= path && path + 6
                <= 0x402000);
            let a = string_table(window, argv, 32, 256);
            let v = string_table(window, envp, 16, 256);
            &&& !inside ==> r == Err::<(Seq<Seq<char>>, Seq<Seq<char>>), u64>(EFAULT)
            &&& inside && window.len() == 0x2000 && !named ==> r == Err::<
                (Seq<Seq<char>>, Seq<Seq<char>>),
                u64,
            >(ENOENT)
            &&& inside && window.len() == 0x2000 && named ==> match (a, v) {
                (Err(e), _) => r == Err::<(Seq<Seq<char>>, Seq<Seq<char>>), u64>(e),
                (Ok(_), Err(e)) => r == Err::<(Seq<Seq<char>>, Seq<Seq<char>>), u64>(e),
                (Ok(a), Ok(v)) => r == Ok::<(Seq<Seq<char>>, Seq<Seq<char>>), u64>((a, v)),
            }
        }),
{
    let at = path - 0x400000;
    let p = window.subrange(at, at + 6);
    if readable(path as int, 6) && window.len() == 0x2000 {
        assert(p[0] == window[at] && p[1] == window[at + 1] && p[2] == window[at + 2]);
        assert(p[3] == window[at + 3] && p[4] == window[at + 4] && p[5] == window[at + 5]);
        if p == init_path() {
            assert(p[0] == 0x2f && p[1] == 0x69 && p[2] == 0x6e && p[3] == 0x69 && p[4] == 0x74 && p[5]
                == 0);
        } else {
            assert(!(p =~= init_path()));
        }
    }
}

/// An `execve` that goes through gives the caller, and nobody else, a fresh start: the new entry, the new
/// stack pointer, the flags of a user task and no other register, with 0 as its result; the process stays
/// the same one. One that does not go through is `-ENOEXEC` and changes nothing.
pub proof fn law_exec_gives_fresh_start(
    ps: ProcessesSpec,
    user: UserImage,
    start: Option<(u64, u64)>,
    ps2: ProcessesSpec,
    user2: UserImage,
    ret: u64,
    i: int,
)
    requires
        ps.current() is Some,
        exec_settles(ps, user, start, ps2, user2, ret),
    ensures
        start is None ==> ret == ENOEXEC && ps2 == ps && user2 == user,
        start matches Some(e) ==> {
            let p = ps.current()->0;
            let p2 = ps2.current()->0;
            &&& ret == 0
            &&& ps2.current() is Some
            &&& p2.save.user_rip == e.0 && p2.save.user_rsp == e.1 && p2.save.user_rflags == 0x202
            &&& p2.save.rbx == 0 && p2.save.rbp == 0 && p2.save.r12 == 0 && p2.save.r13 == 0
            &&& p2.save.r14 == 0 && p2.save.r15 == 0
            &&& p2.pending_rax == 0
            &&& p2.pid == p.pid && p2.parent == p.parent && p2.brk_end == p.brk_end
            &&& p2.vm_areas == p.vm_areas && p2.exit_code == p.exit_code && p2.kstack == p.kstack
            &&& i != ps.current_slot ==> ps2.occupant(i) == ps.occupant(i)
            &&& user2.entry_rip == e.0 && user2.image_end == user.image_end
        },
{
}

/// A text is the bytes up to its zero byte, where they are UTF-8; -22 where they are not, and -14 where they
/// cannot be read.
pub proof fn law_text_is_decoded(window: Seq<u8>, ptr: int, cap: int)
    requires
        0 <= cap,
    ensures
        match cstring_at(window, ptr, cap) {
            Ok(s) => if valid_utf8(s) {
                user_string(window, ptr, cap) == Ok::<Seq<char>, u64>(decode_utf8(s))
            } else {
                user_string(window, ptr, cap) matches Err(e) && e + 22 == 0x1_0000_0000_0000_0000
            },
            Err(_) => user_string(window, ptr, cap) matches Err(e) && e + 14 == 0x1_0000_0000_0000_0000,
        },
{
    law_cstring_is_bytes_up_to_zero(window, ptr, cap);
}

/// A table of texts goes on from each pointer to the next: it ends at a zero pointer or when it is full,
/// takes in every text that can be read, and fails with the first that cannot.
pub proof fn law_string_table_goes_on(window: Seq<u8>, base: u64, max: int, cap: int)
    requires
        0 < base,
        base + 8 <= u64::MAX,
    ensures
        ({
            let inside = (0x400000 <= base && base + 8 <= 0x401000) || (0x401000 <= base && base + 8
                <= 0x402000);
            let first = le64(window, base - 0x400000);
            let table = string_table(window, base, max, cap);
            let rest = string_table(window, (base + 8) as u64, max - 1, cap);
            &&& max == 0 ==> (table matches Ok(v) && v.len() == 0)
            &&& max > 0 && !inside ==> (table matches Err(e) && e + 14 == 0x1_0000_0000_0000_0000)
            &&& max > 0 && inside && first == 0 ==> (table matches Ok(v) && v.len() == 0)
            &&& max > 0 && inside && first != 0 ==> match (user_string(window, first, cap), rest) {
                (Err(e), _) => table matches Err(x) && x == e,
                (Ok(_), Err(e)) => table matches Err(x) && x == e,
                (Ok(s), Ok(v)) => table matches Ok(all) && all =~= seq![s] + v,
            }
        }),
{
}

} // verus!
