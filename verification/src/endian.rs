//! Little-endian integers of fixed width, as the snapshot format stores them.

use vstd::prelude::*;

verus! {

/// The number that two little-endian bytes denote.
pub open spec fn le_u16(s: Seq<u8>) -> nat {
    (s[0] + 256 * s[1]) as nat
}

/// The number that four little-endian bytes denote.
pub open spec fn le_u32(s: Seq<u8>) -> nat {
    (s[0] + 256 * s[1] + 65536 * s[2] + 16777216 * s[3]) as nat
}

/// The number that eight little-endian bytes denote.
pub open spec fn le_u64(s: Seq<u8>) -> nat {
    (le_u32(s.take(4)) + 4294967296 * le_u32(s.skip(4))) as nat
}

/// `n` below 2^16 as two little-endian bytes.
pub open spec fn u16_le(n: nat) -> Seq<u8> {
    seq![(n % 256) as u8, (n / 256 % 256) as u8]
}

/// `n` below 2^32 as four little-endian bytes.
pub open spec fn u32_le(n: nat) -> Seq<u8> {
    seq![
        (n % 256) as u8,
        (n / 256 % 256) as u8,
        (n / 256 / 256 % 256) as u8,
        (n / 256 / 256 / 256 % 256) as u8,
    ]
}

/// `n` below 2^64 as eight little-endian bytes.
pub open spec fn u64_le(n: nat) -> Seq<u8> {
    u32_le(n % 4294967296) + u32_le(n / 4294967296)
}

/// The two's-complement reading of `n`, where `half` is the weight of the sign bit.
pub open spec fn as_signed(n: nat, half: nat) -> int {
    if n >= half {
        n - 2 * half
    } else {
        n as int
    }
}

/// The two's-complement encoding of `v`, where `half` is the weight of the sign bit.
pub open spec fn as_unsigned(v: int, half: nat) -> nat {
    if v < 0 {
        (v + 2 * half) as nat
    } else {
        v as nat
    }
}

/// Writing and reading two bytes gives the number back.
pub proof fn lemma_le_u16_roundtrip(n: nat)
    requires
        n < 65536,
    ensures
        le_u16(u16_le(n)) == n,
        u16_le(n).len() == 2,
{
}

/// Writing and reading four bytes gives the number back.
pub proof fn lemma_le_u32_roundtrip(n: nat)
    requires
        n < 4294967296,
    ensures
        le_u32(u32_le(n)) == n,
        u32_le(n).len() == 4,
{
    let q1 = n / 256;
    let q2 = q1 / 256;
    let q3 = q2 / 256;
    assert(n == 256 * q1 + n % 256);
    assert(q1 == 256 * q2 + q1 % 256);
    assert(q2 == 256 * q3 + q2 % 256);
    assert(q3 < 256);
}

/// Writing and reading eight bytes gives the number back.
pub proof fn lemma_le_u64_roundtrip(n: nat)
    requires
        n < 18446744073709551616,
    ensures
        le_u64(u64_le(n)) == n,
        u64_le(n).len() == 8,
{
    let lo = n % 4294967296;
    let hi = n / 4294967296;
    assert(u64_le(n).take(4) =~= u32_le(lo));
    assert(u64_le(n).skip(4) =~= u32_le(hi));
    lemma_le_u32_roundtrip(lo);
    lemma_le_u32_roundtrip(hi);
}

/// Reads two little-endian bytes.
pub fn read_le_u16(s: &[u8]) -> (r: u16)
    requires
        s@.len() == 2,
    ensures
        r == le_u16(s@),
{
    (s[0] as u16) + 256 * (s[1] as u16)
}

/// Reads four little-endian bytes.
pub fn read_le_u32(s: &[u8]) -> (r: u32)
    requires
        s@.len() == 4,
    ensures
        r == le_u32(s@),
{
    (s[0] as u32) + 256 * (s[1] as u32) + 65536 * (s[2] as u32) + 16777216 * (s[3] as u32)
}

/// Reads eight little-endian bytes.
pub fn read_le_u64(s: &[u8]) -> (r: u64)
    requires
        s@.len() == 8,
    ensures
        r == le_u64(s@),
{
    let lo: u64 = (s[0] as u64) + 256 * (s[1] as u64) + 65536 * (s[2] as u64) + 16777216 * (
    s[3] as u64);
    let hi: u64 = (s[4] as u64) + 256 * (s[5] as u64) + 65536 * (s[6] as u64) + 16777216 * (
    s[7] as u64);
    assert(lo == le_u32(s@.take(4)));
    assert(hi == le_u32(s@.skip(4)));
    lo + 4294967296 * hi
}

/// Appends `n` as two little-endian bytes.
pub fn push_le_u16(n: u16, out: &mut Vec<u8>)
    ensures
        final(out)@ == old(out)@ + u16_le(n as nat),
{
    out.push((n % 256) as u8);
    out.push((n / 256) as u8);
    assert(out@ =~= old(out)@ + u16_le(n as nat));
}

/// Appends `n` as four little-endian bytes.
pub fn push_le_u32(n: u32, out: &mut Vec<u8>)
    ensures
        final(out)@ == old(out)@ + u32_le(n as nat),
{
    out.push((n % 256) as u8);
    out.push((n / 256 % 256) as u8);
    out.push((n / 256 / 256 % 256) as u8);
    out.push((n / 256 / 256 / 256 % 256) as u8);
    assert(out@ =~= old(out)@ + u32_le(n as nat));
}

/// Appends `n` as eight little-endian bytes.
pub fn push_le_u64(n: u64, out: &mut Vec<u8>)
    ensures
        final(out)@ == old(out)@ + u64_le(n as nat),
{
    push_le_u32((n % 4294967296) as u32, out);
    push_le_u32((n / 4294967296) as u32, out);
    assert(out@ =~= old(out)@ + u64_le(n as nat));
}

} // verus!
