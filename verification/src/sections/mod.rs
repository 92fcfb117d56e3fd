//! The sections of a PSD document and the cursor that reads them.

use vstd::prelude::*;

pub mod file_header_section;
pub mod image_data_section;
pub mod image_data_laws;

verus! {

/// The byte at index `i` of `s`, where every index outside the buffer reads as zero.
pub open spec fn byte_at(s: Seq<u8>, i: int) -> u8 {
    if 0 <= i < s.len() {
        s[i]
    } else {
        0
    }
}

/// The big-endian two-byte integer that starts at index `i`, zero-padded past the end.
pub open spec fn be_u16_at(s: Seq<u8>, i: int) -> int {
    byte_at(s, i) * 256 + byte_at(s, i + 1)
}

/// The big-endian four-byte integer that starts at index `i`, zero-padded past the end.
pub open spec fn be_u32_at(s: Seq<u8>, i: int) -> int {
    byte_at(s, i) * 16777216 + byte_at(s, i + 1) * 65536 + byte_at(s, i + 2) * 256 + byte_at(
        s,
        i + 3,
    )
}

/// `i`, but never past `len`.
pub open spec fn clamp(i: int, len: int) -> int {
    if i < len {
        i
    } else {
        len
    }
}

/// Reads past the end of a buffer yield zero: a truncated buffer reads as if it were
/// followed by zero bytes.
pub proof fn lemma_read_past_end_is_zero(s: Seq<u8>, i: int)
    requires
        i >= s.len(),
    ensures
        be_u16_at(s, i) == 0,
        be_u32_at(s, i) == 0,
{
}

/// A forward reader over a byte buffer. Reads never fail: a read that runs past the end
/// of the buffer yields the bytes that are there followed by zeros, and the position
/// stops at the end of the buffer.
pub struct PsdCursor<'a> {
    bytes: &'a [u8],
    position: usize,
}

impl<'a> PsdCursor<'a> {
    /// The buffer being read.
    pub closed spec fn bytes(&self) -> Seq<u8> {
        self.bytes@
    }

    /// The index of the next byte to read.
    pub closed spec fn position(&self) -> int {
        self.position as int
    }

    /// The cursor's position never passes the end of its buffer.
    pub closed spec fn wf(&self) -> bool {
        self.position <= self.bytes@.len()
    }

    /// A cursor at the start of `bytes`.
    pub fn new(bytes: &'a [u8]) -> (res: PsdCursor<'a>)
        ensures
            res.wf(),
            res.bytes() == bytes@,
            res.position() == 0,
    {
        PsdCursor { bytes, position: 0 }
    }

    /// Read a big-endian `u16`, zero-padded at the end of the buffer.
    pub fn read_u16(&mut self) -> (res: u16)
        requires
            old(self).wf(),
        ensures
            final(self).wf(),
            final(self).bytes() == old(self).bytes(),
            res == be_u16_at(old(self).bytes(), old(self).position()),
            final(self).position() == clamp(old(self).position() + 2, old(self).bytes().len() as int),
    {
        let len = self.bytes.len();
        let avail = len - self.position;
        let b0: u8 = if avail > 0 { self.bytes[self.position] } else { 0 };
        let b1: u8 = if avail > 1 { self.bytes[self.position + 1] } else { 0 };
        self.position = if avail >= 2 { self.position + 2 } else { len };
        (b0 as u16) * 256 + (b1 as u16)
    }

    /// Read a big-endian `u32`, zero-padded at the end of the buffer.
    pub fn read_u32(&mut self) -> (res: u32)
        requires
            old(self).wf(),
        ensures
            final(self).wf(),
            final(self).bytes() == old(self).bytes(),
            res == be_u32_at(old(self).bytes(), old(self).position()),
            final(self).position() == clamp(old(self).position() + 4, old(self).bytes().len() as int),
    {
        let len = self.bytes.len();
        let avail = len - self.position;
        let b0: u8 = if avail > 0 { self.bytes[self.position] } else { 0 };
        let b1: u8 = if avail > 1 { self.bytes[self.position + 1] } else { 0 };
        let b2: u8 = if avail > 2 { self.bytes[self.position + 2] } else { 0 };
        let b3: u8 = if avail > 3 { self.bytes[self.position + 3] } else { 0 };
        self.position = if avail >= 4 { self.position + 4 } else { len };
        (b0 as u32) * 16777216 + (b1 as u32) * 65536 + (b2 as u32) * 256 + (b3 as u32)
    }
}

} // verus!
