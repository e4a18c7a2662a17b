//! Little-endian layout of the integers an IDP stream is made of.
//!
//! The layout is stated as arithmetic on byte sequences. The conversions
//! themselves are done by the `byteorder` crate.

use byteorder::{ByteOrder, LittleEndian};
use vstd::prelude::*;

verus! {

/// The 16-bit number whose little-endian form starts `b`.
pub open spec fn u16_from_le(b: Seq<u8>) -> u16
    recommends
        b.len() >= 2,
{
    (b[0] as int + 256 * (b[1] as int)) as u16
}

/// The 32-bit number whose little-endian form starts `b`.
pub open spec fn u32_from_le(b: Seq<u8>) -> u32
    recommends
        b.len() >= 4,
{
    (b[0] as int + 256 * (b[1] as int) + 65536 * (b[2] as int) + 16777216 * (b[3] as int)) as u32
}

/// The two bytes of `n`, least significant first.
pub open spec fn u16_to_le(n: u16) -> Seq<u8> {
    seq![(n as int % 256) as u8, (n as int / 256) as u8]
}

/// The four bytes of `n`, least significant first.
pub open spec fn u32_to_le(n: u32) -> Seq<u8> {
    seq![
        (n as int % 256) as u8,
        (n as int / 256 % 256) as u8,
        (n as int / 65536 % 256) as u8,
        (n as int / 16777216) as u8,
    ]
}

/// The bytes of a run of 16-bit samples, sample after sample.
pub open spec fn u16s_to_le(s: Seq<u16>) -> Seq<u8> {
    Seq::new(2 * s.len(), |j: int| u16_to_le(s[j / 2])[j % 2])
}

/// The bytes of a run of 32-bit samples, sample after sample.
pub open spec fn u32s_to_le(s: Seq<u32>) -> Seq<u8> {
    Seq::new(4 * s.len(), |j: int| u32_to_le(s[j / 4])[j % 4])
}

/// The first `count` 16-bit samples laid out in `b`.
pub open spec fn u16s_from_le(b: Seq<u8>, count: nat) -> Seq<u16>
    recommends
        b.len() >= 2 * count,
{
    Seq::new(count, |i: int| u16_from_le(b.subrange(2 * i, 2 * i + 2)))
}

/// The first `count` 32-bit samples laid out in `b`.
pub open spec fn u32s_from_le(b: Seq<u8>, count: nat) -> Seq<u32>
    recommends
        b.len() >= 4 * count,
{
    Seq::new(count, |i: int| u32_from_le(b.subrange(4 * i, 4 * i + 4)))
}

/// Reading back the bytes of a 16-bit number gives the number.
pub proof fn lemma_u16_le_round_trip(n: u16)
    ensures
        u16_to_le(n).len() == 2,
        u16_from_le(u16_to_le(n)) == n,
{
}

/// Reading back the bytes of a 32-bit number gives the number.
pub proof fn lemma_u32_le_round_trip(n: u32)
    ensures
        u32_to_le(n).len() == 4,
        u32_from_le(u32_to_le(n)) == n,
{
}

/// Appending a sample appends its two bytes.
pub proof fn lemma_u16s_to_le_push(s: Seq<u16>, n: u16)
    ensures
        u16s_to_le(s.push(n)) == u16s_to_le(s) + u16_to_le(n),
{
    assert(u16s_to_le(s.push(n)) =~= u16s_to_le(s) + u16_to_le(n));
}

/// Appending a sample appends its four bytes.
pub proof fn lemma_u32s_to_le_push(s: Seq<u32>, n: u32)
    ensures
        u32s_to_le(s.push(n)) == u32s_to_le(s) + u32_to_le(n),
{
    assert(u32s_to_le(s.push(n)) =~= u32s_to_le(s) + u32_to_le(n));
}

/// Reading back the bytes of a run of 16-bit samples gives the samples,
/// whatever follows the bytes.
pub proof fn lemma_u16s_le_round_trip(s: Seq<u16>, rest: Seq<u8>)
    ensures
        u16s_to_le(s).len() == 2 * s.len(),
        u16s_from_le(u16s_to_le(s) + rest, s.len()) == s,
{
    let b = u16s_to_le(s) + rest;
    assert forall|i: int| 0 <= i < s.len() implies u16_from_le(b.subrange(2 * i, 2 * i + 2))
        == s[i] by {
        lemma_u16_le_round_trip(s[i]);
        assert(b.subrange(2 * i, 2 * i + 2) =~= u16_to_le(s[i]));
    }
    assert(u16s_from_le(b, s.len()) =~= s);
}

/// Reading back the bytes of a run of 32-bit samples gives the samples,
/// whatever follows the bytes.
pub proof fn lemma_u32s_le_round_trip(s: Seq<u32>, rest: Seq<u8>)
    ensures
        u32s_to_le(s).len() == 4 * s.len(),
        u32s_from_le(u32s_to_le(s) + rest, s.len()) == s,
{
    let b = u32s_to_le(s) + rest;
    assert forall|i: int| 0 <= i < s.len() implies u32_from_le(b.subrange(4 * i, 4 * i + 4))
        == s[i] by {
        lemma_u32_le_round_trip(s[i]);
        assert(b.subrange(4 * i, 4 * i + 4) =~= u32_to_le(s[i]));
    }
    assert(u32s_from_le(b, s.len()) =~= s);
}

/// `byteorder::LittleEndian::read_u16`: the number held, least significant
/// byte first, in the first two bytes of `buf`. The crate panics on a
/// shorter `buf`, which `requires` leaves out.
#[verifier::external_body]
pub(crate) fn read_u16(buf: &[u8]) -> (n: u16)
    requires
        buf@.len() >= 2,
    ensures
        n == u16_from_le(buf@),
{
    LittleEndian::read_u16(buf)
}

/// `byteorder::LittleEndian::read_u32`: the number held, least significant
/// byte first, in the first four bytes of `buf`. The crate panics on a
/// shorter `buf`, which `requires` leaves out.
#[verifier::external_body]
pub(crate) fn read_u32(buf: &[u8]) -> (n: u32)
    requires
        buf@.len() >= 4,
    ensures
        n == u32_from_le(buf@),
{
    LittleEndian::read_u32(buf)
}

/// `byteorder::LittleEndian::write_u16`: overwrites the first two bytes of
/// `buf` with those of `n`, least significant first, and leaves the rest of
/// `buf` as it was. The crate panics on a shorter `buf`, which `requires`
/// leaves out.
#[verifier::external_body]
pub(crate) fn write_u16(buf: &mut [u8], n: u16)
    requires
        old(buf)@.len() >= 2,
    ensures
        final(buf)@ == u16_to_le(n) + old(buf)@.subrange(2, old(buf)@.len() as int),
{
    LittleEndian::write_u16(buf, n)
}

/// `byteorder::LittleEndian::write_u32`: overwrites the first four bytes of
/// `buf` with those of `n`, least significant first, and leaves the rest of
/// `buf` as it was. The crate panics on a shorter `buf`, which `requires`
/// leaves out.
#[verifier::external_body]
pub(crate) fn write_u32(buf: &mut [u8], n: u32)
    requires
        old(buf)@.len() >= 4,
    ensures
        final(buf)@ == u32_to_le(n) + old(buf)@.subrange(4, old(buf)@.len() as int),
{
    LittleEndian::write_u32(buf, n)
}

} // verus!
