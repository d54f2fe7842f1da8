//! Little-endian integers in byte strings.

use vstd::prelude::*;

verus! {

/// The 16-bit number at offset `o`.
pub open spec fn le16(s: Seq<u8>, o: int) -> int {
    s[o] + 0x100 * s[o + 1]
}

/// The 32-bit number at offset `o`.
pub open spec fn le32(s: Seq<u8>, o: int) -> int {
    le16(s, o) + 0x1_0000 * le16(s, o + 2)
}

/// The 64-bit number at offset `o`.
pub open spec fn le64(s: Seq<u8>, o: int) -> int {
    le32(s, o) + 0x1_0000_0000 * le32(s, o + 4)
}

/// The eight bytes of `x`, lowest first.
pub open spec fn le64_bytes(x: u64) -> Seq<u8> {
    seq![
        (x % 0x100) as u8,
        (x / 0x100 % 0x100) as u8,
        (x / 0x1_0000 % 0x100) as u8,
        (x / 0x100_0000 % 0x100) as u8,
        (x / 0x1_0000_0000 % 0x100) as u8,
        (x / 0x100_0000_0000 % 0x100) as u8,
        (x / 0x1_0000_0000_0000 % 0x100) as u8,
        (x / 0x100_0000_0000_0000 % 0x100) as u8,
    ]
}

/// The four bytes of `x`, lowest first.
pub open spec fn le32_bytes(x: u32) -> Seq<u8> {
    seq![
        (x % 0x100) as u8,
        (x / 0x100 % 0x100) as u8,
        (x / 0x1_0000 % 0x100) as u8,
        (x / 0x100_0000 % 0x100) as u8,
    ]
}

/// Zero bytes.
pub open spec fn zeros(n: int) -> Seq<u8> {
    Seq::new(n as nat, |i: int| 0u8)
}

pub fn read_u16(s: &[u8], o: usize) -> (x: u16)
    requires
        o + 2 <= s@.len(),
    ensures
        x == le16(s@, o as int),
{
    s[o] as u16 + 0x100 * s[o + 1] as u16
}

pub fn read_u32(s: &[u8], o: usize) -> (x: u32)
    requires
        o + 4 <= s@.len(),
    ensures
        x == le32(s@, o as int),
{
    assert(s.len() == s@.len());
    read_u16(s, o) as u32 + 0x1_0000 * read_u16(s, o + 2) as u32
}

pub fn read_u64(s: &[u8], o: usize) -> (x: u64)
    requires
        o + 8 <= s@.len(),
    ensures
        x == le64(s@, o as int),
{
    assert(s.len() == s@.len());
    read_u32(s, o) as u64 + 0x1_0000_0000 * read_u32(s, o + 4) as u64
}

/// Appends the eight bytes of `x`.
pub fn push_u64(v: &mut Vec<u8>, x: u64)
    ensures
        final(v)@ == old(v)@ + le64_bytes(x),
{
    v.push((x % 0x100) as u8);
    v.push((x / 0x100 % 0x100) as u8);
    v.push((x / 0x1_0000 % 0x100) as u8);
    v.push((x / 0x100_0000 % 0x100) as u8);
    v.push((x / 0x1_0000_0000 % 0x100) as u8);
    v.push((x / 0x100_0000_0000 % 0x100) as u8);
    v.push((x / 0x1_0000_0000_0000 % 0x100) as u8);
    v.push((x / 0x100_0000_0000_0000 % 0x100) as u8);
    assert(v@ =~= old(v)@ + le64_bytes(x));
}

/// Appends `n` zero bytes.
pub fn push_zeros(v: &mut Vec<u8>, n: usize)
    ensures
        final(v)@ == old(v)@ + zeros(n as int),
{
    let mut i: usize = 0;
    assert(v@ =~= old(v)@ + zeros(0));
    while i < n
        invariant
            i <= n,
            v@ == old(v)@ + zeros(i as int),
        decreases n - i,
    {
        v.push(0);
        i = i + 1;
        assert(v@ =~= old(v)@ + zeros(i as int));
    }
}

/// A number read back from where its bytes stand is the number.
pub proof fn law_le64_round_trip(before: Seq<u8>, x: u64, after: Seq<u8>)
    ensures
        le64(before + le64_bytes(x) + after, before.len() as int) == x,
{
    let s = before + le64_bytes(x) + after;
    let o = before.len() as int;
    let b = le64_bytes(x);
    assert forall|i: int| 0 <= i < 8 implies s[o + i] == b[i] by {}
    assert(s[o + 0] == b[0]);
    assert(s[o + 1] == b[1]);
    assert(s[o + 2] == b[2]);
    assert(s[o + 3] == b[3]);
    assert(s[o + 4] == b[4]);
    assert(s[o + 5] == b[5]);
    assert(s[o + 6] == b[6]);
    assert(s[o + 7] == b[7]);
    lemma_digits(x);
}

proof fn lemma_digits(x: u64)
    ensures
        x == x % 0x100 + 0x100 * (x / 0x100 % 0x100) + 0x1_0000 * (x / 0x1_0000 % 0x100)
            + 0x100_0000 * (x / 0x100_0000 % 0x100) + 0x1_0000_0000 * (x / 0x1_0000_0000 % 0x100)
            + 0x100_0000_0000 * (x / 0x100_0000_0000 % 0x100) + 0x1_0000_0000_0000 * (x
            / 0x1_0000_0000_0000 % 0x100) + 0x100_0000_0000_0000 * (x / 0x100_0000_0000_0000
            % 0x100),
{
    assert(x / 0x1_0000 == x / 0x100 / 0x100);
    assert(x / 0x100_0000 == x / 0x1_0000 / 0x100);
    assert(x / 0x1_0000_0000 == x / 0x100_0000 / 0x100);
    assert(x / 0x100_0000_0000 == x / 0x1_0000_0000 / 0x100);
    assert(x / 0x1_0000_0000_0000 == x / 0x100_0000_0000 / 0x100);
    assert(x / 0x100_0000_0000_0000 == x / 0x1_0000_0000_0000 / 0x100);
    assert(x / 0x100_0000_0000_0000 < 0x100);
}

/// A number at an offset has the byte there as its lowest, and each later byte weighs 256 times the
/// one before it.
pub proof fn law_bytes_weigh_by_position(s: Seq<u8>, o: int)
    ensures
        le16(s, o) % 0x100 == s[o],
        le16(s, o) / 0x100 == s[o + 1],
        le32(s, o) % 0x1_0000 == s[o] + 256 * s[o + 1],
        le32(s, o) / 0x1_0000 == s[o + 2] + 256 * s[o + 3],
        le64(s, o) % 0x1_0000_0000 == s[o] + 256 * (s[o + 1] + 256 * (s[o + 2] + 256 * s[o + 3])),
        le64(s, o) / 0x1_0000_0000 == s[o + 4] + 256 * (s[o + 5] + 256 * (s[o + 6] + 256 * s[o + 7])),
{
}

/// The bytes of a number: their weighted sum is the number again, lowest byte first.
pub proof fn law_bytes_add_up(x: u64)
    ensures
        le64_bytes(x).len() == 8,
        ({
            let b = le64_bytes(x);
            b[0] + 0x100 * b[1] + 0x1_0000 * b[2] + 0x100_0000 * b[3] + 0x1_0000_0000 * b[4]
                + 0x100_0000_0000 * b[5] + 0x1_0000_0000_0000 * b[6] + 0x100_0000_0000_0000 * b[7]
                == x
        }),
{
    let b = le64_bytes(x);
    law_le64_round_trip(Seq::empty(), x, Seq::empty());
    assert(Seq::<u8>::empty() + b + Seq::<u8>::empty() =~= b);
    law_bytes_weigh_by_position(b, 0);
}

/// The same of 32 bits.
pub proof fn law_half_bytes_add_up(x: u32)
    ensures
        le32_bytes(x).len() == 4,
        ({
            let b = le32_bytes(x);
            b[0] + 0x100 * b[1] + 0x1_0000 * b[2] + 0x100_0000 * b[3] == x
        }),
{
}

/// Zero bytes are as many as asked for, and all of them zero.
pub proof fn law_zeros(n: int, i: int)
    requires
        0 <= i < n,
    ensures
        zeros(n).len() == n,
        zeros(n)[i] == 0,
{
}

} // verus!
