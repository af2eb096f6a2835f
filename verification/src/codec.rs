//! Big-endian integers as byte sequences.
//!
//! The spec functions say what the bytes of an integer are; the executable
//! conversions are done by `byteorder` and stated against them.

use byteorder::{BigEndian, ByteOrder};
use vstd::prelude::*;

verus! {

/// The value of the first two bytes of `b`, most significant byte first.
pub open spec fn be_u16(b: Seq<u8>) -> u16
    recommends
        b.len() >= 2,
{
    (b[0] as int * 0x100 + b[1] as int) as u16
}

/// The value of the first four bytes of `b`, most significant byte first.
pub open spec fn be_u32(b: Seq<u8>) -> u32
    recommends
        b.len() >= 4,
{
    (b[0] as int * 0x100_0000 + b[1] as int * 0x1_0000 + b[2] as int * 0x100 + b[3] as int) as u32
}

/// The value of the first eight bytes of `b`, most significant byte first.
pub open spec fn be_u64(b: Seq<u8>) -> u64
    recommends
        b.len() >= 8,
{
    (be_u32(b) as int * 0x1_0000_0000 + be_u32(b.subrange(4, 8)) as int) as u64
}

/// The two bytes of `n`, most significant byte first.
pub open spec fn u16_be(n: u16) -> Seq<u8> {
    seq![(n / 0x100) as u8, (n % 0x100) as u8]
}

/// The four bytes of `n`, most significant byte first.
pub open spec fn u32_be(n: u32) -> Seq<u8> {
    seq![
        (n / 0x100_0000) as u8,
        (n / 0x1_0000 % 0x100) as u8,
        (n / 0x100 % 0x100) as u8,
        (n % 0x100) as u8,
    ]
}

/// The eight bytes of `n`, most significant byte first.
pub open spec fn u64_be(n: u64) -> Seq<u8> {
    u32_be((n / 0x1_0000_0000) as u32) + u32_be((n % 0x1_0000_0000) as u32)
}

/// Decoding the bytes of a 16 bit integer gives the integer back.
pub proof fn lemma_be_u16_of_bytes(n: u16)
    ensures
        be_u16(u16_be(n)) == n,
        u16_be(n).len() == 2,
{
}

/// Decoding the bytes of a 32 bit integer gives the integer back.
pub proof fn lemma_be_u32_of_bytes(n: u32)
    ensures
        be_u32(u32_be(n)) == n,
        u32_be(n).len() == 4,
{
    let m = n as int;
    assert(m == (m / 0x100_0000) * 0x100_0000 + (m / 0x1_0000 % 0x100) * 0x1_0000 + (m / 0x100
        % 0x100) * 0x100 + m % 0x100);
}

/// Decoding the bytes of a 64 bit integer gives the integer back.
pub proof fn lemma_be_u64_of_bytes(n: u64)
    ensures
        be_u64(u64_be(n)) == n,
        u64_be(n).len() == 8,
{
    let hi = (n / 0x1_0000_0000) as u32;
    let lo = (n % 0x1_0000_0000) as u32;
    lemma_be_u32_of_bytes(hi);
    lemma_be_u32_of_bytes(lo);
    assert(u64_be(n).subrange(4, 8) =~= u32_be(lo));
    assert(be_u32(u64_be(n)) == be_u32(u32_be(hi)));
}

/// Encoding the value of two bytes gives the bytes back.
pub proof fn lemma_bytes_of_be_u16(b: Seq<u8>)
    requires
        b.len() == 2,
    ensures
        u16_be(be_u16(b)) == b,
{
    assert(u16_be(be_u16(b)) =~= b);
}

/// Encoding the value of four bytes gives the bytes back.
pub proof fn lemma_bytes_of_be_u32(b: Seq<u8>)
    requires
        b.len() == 4,
    ensures
        u32_be(be_u32(b)) == b,
{
    let b0 = b[0] as int;
    let b1 = b[1] as int;
    let b2 = b[2] as int;
    let b3 = b[3] as int;
    let n = b0 * 0x100_0000 + b1 * 0x1_0000 + b2 * 0x100 + b3;
    assert(n % 0x100 == b3);
    assert(n / 0x100 == b0 * 0x1_0000 + b1 * 0x100 + b2);
    assert(n / 0x100 % 0x100 == b2);
    assert(n / 0x1_0000 == b0 * 0x100 + b1);
    assert(n / 0x1_0000 % 0x100 == b1);
    assert(n / 0x100_0000 == b0);
    assert(be_u32(b) == n);
    assert(u32_be(be_u32(b)) =~= b);
}

/// Encoding the value of eight bytes gives the bytes back.
pub proof fn lemma_bytes_of_be_u64(b: Seq<u8>)
    requires
        b.len() == 8,
    ensures
        u64_be(be_u64(b)) == b,
{
    let hi = b.subrange(0, 4);
    let lo = b.subrange(4, 8);
    lemma_bytes_of_be_u32(hi);
    lemma_bytes_of_be_u32(lo);
    assert(be_u32(b) == be_u32(hi));
    let n = be_u64(b);
    assert((n / 0x1_0000_0000) as u32 == be_u32(hi));
    assert((n % 0x1_0000_0000) as u32 == be_u32(lo));
    assert(u64_be(n) =~= b);
}

/// `byteorder::BigEndian::read_u16`: the big-endian value of the first two
/// bytes of `buf`. It panics on a shorter buffer, which `requires` rules out.
#[verifier::external_body]
pub(crate) fn read_be_u16(buf: &[u8]) -> (n: u16)
    requires
        buf@.len() >= 2,
    ensures
        n == be_u16(buf@),
{
    BigEndian::read_u16(buf)
}

/// `byteorder::BigEndian::read_u32`: the big-endian value of the first four
/// bytes of `buf`. It panics on a shorter buffer, which `requires` rules out.
#[verifier::external_body]
pub(crate) fn read_be_u32(buf: &[u8]) -> (n: u32)
    requires
        buf@.len() >= 4,
    ensures
        n == be_u32(buf@),
{
    BigEndian::read_u32(buf)
}

/// `byteorder::BigEndian::read_u64`: the big-endian value of the first eight
/// bytes of `buf`. It panics on a shorter buffer, which `requires` rules out.
#[verifier::external_body]
pub(crate) fn read_be_u64(buf: &[u8]) -> (n: u64)
    requires
        buf@.len() >= 8,
    ensures
        n == be_u64(buf@),
{
    BigEndian::read_u64(buf)
}

/// `byteorder::BigEndian::write_u16` into a fresh two byte buffer: the bytes
/// of `n`, most significant first.
#[verifier::external_body]
pub(crate) fn be_bytes_u16(n: u16) -> (b: [u8; 2])
    ensures
        b@ == u16_be(n),
{
    let mut b = [0u8; 2];
    BigEndian::write_u16(&mut b, n);
    b
}

/// `byteorder::BigEndian::write_u32` into a fresh four byte buffer: the bytes
/// of `n`, most significant first.
#[verifier::external_body]
pub(crate) fn be_bytes_u32(n: u32) -> (b: [u8; 4])
    ensures
        b@ == u32_be(n),
{
    let mut b = [0u8; 4];
    BigEndian::write_u32(&mut b, n);
    b
}

/// `byteorder::BigEndian::write_u64` into a fresh eight byte buffer: the bytes
/// of `n`, most significant first.
#[verifier::external_body]
pub(crate) fn be_bytes_u64(n: u64) -> (b: [u8; 8])
    ensures
        b@ == u64_be(n),
{
    let mut b = [0u8; 8];
    BigEndian::write_u64(&mut b, n);
    b
}

/// Appends the bytes of `bytes` to `out`.
pub fn put_bytes(out: &mut Vec<u8>, bytes: &[u8])
    ensures
        final(out)@ == old(out)@ + bytes@,
{
    out.extend_from_slice(bytes);
}

/// Appends one byte to `out`.
pub fn put_u8(out: &mut Vec<u8>, n: u8)
    ensures
        final(out)@ == old(out)@ + seq![n],
{
    out.push(n);
    assert(out@ =~= old(out)@ + seq![n]);
}

/// Appends the two bytes of `n` to `out`, most significant first.
pub fn put_be_u16(out: &mut Vec<u8>, n: u16)
    ensures
        final(out)@ == old(out)@ + u16_be(n),
{
    let b = be_bytes_u16(n);
    out.extend_from_slice(b.as_slice());
}

/// Appends the four bytes of `n` to `out`, most significant first.
pub fn put_be_u32(out: &mut Vec<u8>, n: u32)
    ensures
        final(out)@ == old(out)@ + u32_be(n),
{
    let b = be_bytes_u32(n);
    out.extend_from_slice(b.as_slice());
}

/// Appends the eight bytes of `n` to `out`, most significant first.
pub fn put_be_u64(out: &mut Vec<u8>, n: u64)
    ensures
        final(out)@ == old(out)@ + u64_be(n),
{
    let b = be_bytes_u64(n);
    out.extend_from_slice(b.as_slice());
}

} // verus!
