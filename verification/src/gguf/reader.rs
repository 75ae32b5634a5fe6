//! A byte cursor over an in-memory GGUF image, with little-endian field
//! readers.

use vstd::prelude::*;

verus! {

/// Little-endian value of the first two bytes of `s`.
pub open spec fn le_u16(s: Seq<u8>) -> u16 {
    (s[0] + 0x100 * s[1]) as u16
}

/// Little-endian value of the first four bytes of `s`.
pub open spec fn le_u32(s: Seq<u8>) -> u32 {
    (s[0] + 0x100 * s[1] + 0x1_0000 * s[2] + 0x100_0000 * s[3]) as u32
}

/// Little-endian value of the first eight bytes of `s`.
pub open spec fn le_u64(s: Seq<u8>) -> u64 {
    (s[0] + 0x100 * s[1] + 0x1_0000 * s[2] + 0x100_0000 * s[3] + 0x1_0000_0000 * s[4]
        + 0x100_0000_0000 * s[5] + 0x1_0000_0000_0000 * s[6] + 0x100_0000_0000_0000 * s[7]) as u64
}

/// Calls `byteorder::LittleEndian::read_u16` (which panics on fewer than
/// two bytes). Claimed: the first two bytes, read little-endian.
#[verifier::external_body]
pub(crate) fn read_u16_le(buf: &[u8]) -> (r: u16)
    requires
        buf@.len() >= 2,
    ensures
        r == le_u16(buf@),
{
    <byteorder::LittleEndian as byteorder::ByteOrder>::read_u16(buf)
}

/// Calls `byteorder::LittleEndian::read_u32` (which panics on fewer than
/// four bytes). Claimed: the first four bytes, read little-endian.
#[verifier::external_body]
pub(crate) fn read_u32_le(buf: &[u8]) -> (r: u32)
    requires
        buf@.len() >= 4,
    ensures
        r == le_u32(buf@),
{
    <byteorder::LittleEndian as byteorder::ByteOrder>::read_u32(buf)
}

/// Calls `byteorder::LittleEndian::read_u64` (which panics on fewer than
/// eight bytes). Claimed: the first eight bytes, read little-endian.
#[verifier::external_body]
pub(crate) fn read_u64_le(buf: &[u8]) -> (r: u64)
    requires
        buf@.len() >= 8,
    ensures
        r == le_u64(buf@),
{
    <byteorder::LittleEndian as byteorder::ByteOrder>::read_u64(buf)
}

/// Calls `byteorder::LittleEndian::read_i16` (which panics on fewer than
/// two bytes). Claimed: the two's-complement reading of the first two
/// bytes, little-endian.
#[verifier::external_body]
pub(crate) fn read_i16_le(buf: &[u8]) -> (r: i16)
    requires
        buf@.len() >= 2,
    ensures
        r == le_u16(buf@) as i16,
{
    <byteorder::LittleEndian as byteorder::ByteOrder>::read_i16(buf)
}

/// Calls `byteorder::LittleEndian::read_i32` (which panics on fewer than
/// four bytes). Claimed: the two's-complement reading of the first four
/// bytes, little-endian.
#[verifier::external_body]
pub(crate) fn read_i32_le(buf: &[u8]) -> (r: i32)
    requires
        buf@.len() >= 4,
    ensures
        r == le_u32(buf@) as i32,
{
    <byteorder::LittleEndian as byteorder::ByteOrder>::read_i32(buf)
}

/// Calls `byteorder::LittleEndian::read_i64` (which panics on fewer than
/// eight bytes). Claimed: the two's-complement reading of the first eight
/// bytes, little-endian.
#[verifier::external_body]
pub(crate) fn read_i64_le(buf: &[u8]) -> (r: i64)
    requires
        buf@.len() >= 8,
    ensures
        r == le_u64(buf@) as i64,
{
    <byteorder::LittleEndian as byteorder::ByteOrder>::read_i64(buf)
}

/// The `n` bytes of `data` at `pos`, and the position after them, or `None`
/// when the data ends first.
pub open spec fn take_at(data: Seq<u8>, pos: int, n: int) -> Option<(Seq<u8>, int)> {
    if 0 <= pos && 0 <= n && pos + n <= data.len() {
        Some((data.subrange(pos, pos + n), pos + n))
    } else {
        None
    }
}

/// A cursor over GGUF bytes that tracks the number of bytes consumed so far.
pub struct BufferedReader<'a> {
    data: &'a [u8],
    offset: u64,
}

impl<'a> BufferedReader<'a> {
    /// The bytes being read.
    pub closed spec fn data(&self) -> Seq<u8> {
        self.data@
    }

    /// The number of bytes consumed so far.
    pub closed spec fn pos(&self) -> u64 {
        self.offset
    }

    /// The cursor never passes the end of the data.
    #[verifier::type_invariant]
    closed spec fn in_bounds(&self) -> bool {
        self.offset <= self.data@.len()
    }

    /// Number of bytes consumed so far.
    pub fn offset(&self) -> (r: u64)
        ensures
            r == self.pos(),
            r <= self.data().len(),
    {
        proof {
            use_type_invariant(self);
        }
        self.offset
    }

    /// A cursor at the start of `data`.
    pub fn new(data: &'a [u8]) -> (r: Self)
        ensures
            r.data() == data@,
            r.pos() == 0,
    {
        BufferedReader { data, offset: 0 }
    }

    /// Consumes the next `n` bytes, or reports that the data ends first
    /// (leaving the cursor where it was).
    pub fn take(&mut self, n: u64) -> (r: Option<&'a [u8]>)
        ensures
            final(self).data() == old(self).data(),
            match take_at(old(self).data(), old(self).pos() as int, n as int) {
                Some((bytes, next)) => r matches Some(b) && b@ == bytes && final(self).pos() == next,
                None => r is None && final(self).pos() == old(self).pos(),
            },
    {
        proof {
            use_type_invariant(&*self);
        }
        let len = self.data.len() as u64;
        if self.offset > len || n > len - self.offset {
            return None;
        }
        let start = self.offset as usize;
        let end = (self.offset + n) as usize;
        let b = vstd::slice::slice_subrange(self.data, start, end);
        self.offset = self.offset + n;
        Some(b)
    }
}

} // verus!
