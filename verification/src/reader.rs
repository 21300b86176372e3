//! A cursor over an in-memory byte buffer, with big-endian integer reads.
//!
//! The IDX format stores its header fields as unsigned 32-bit big-endian
//! integers followed by one byte per pixel or label; this reader is the only
//! piece of the crate that touches raw offsets.

use vstd::prelude::*;
use crate::DecodeError;

verus! {

/// The unsigned 32-bit value that four bytes denote in big-endian order.
pub open spec fn be32(b0: u8, b1: u8, b2: u8, b3: u8) -> u32 {
    (b0 as u32 * 0x100_0000 + b1 as u32 * 0x1_0000 + b2 as u32 * 0x100 + b3 as u32) as u32
}

/// The big-endian 32-bit value stored at offset `i` of `s`.
pub open spec fn be32_at(s: Seq<u8>, i: int) -> u32 {
    be32(s[i], s[i + 1], s[i + 2], s[i + 3])
}

/// A forward-only cursor over a borrowed byte buffer. Reads advance the
/// cursor and never mutate the buffer; a read past the end fails with
/// `TruncatedInput` and leaves the cursor where it was.
pub struct ByteReader<'a> {
    buf: &'a Vec<u8>,
    pos: usize,
}

impl<'a> ByteReader<'a> {
    /// The bytes the reader walks over.
    pub closed spec fn data(&self) -> Seq<u8> {
        self.buf@
    }

    /// The current cursor position.
    pub closed spec fn cursor(&self) -> int {
        self.pos as int
    }

    /// The cursor never runs past the end of the buffer.
    pub open spec fn wf(&self) -> bool {
        0 <= self.cursor() <= self.data().len()
    }

    /// A reader over `buf` with the cursor at the start.
    pub fn new(buf: &'a Vec<u8>) -> (r: ByteReader<'a>)
        ensures
            r.wf(),
            r.data() == buf@,
            r.cursor() == 0,
    {
        ByteReader { buf, pos: 0 }
    }

    /// Consumes one byte. Fails with `TruncatedInput`, leaving the cursor in
    /// place, when the buffer is exhausted.
    pub fn read_u8(&mut self) -> (r: Result<u8, DecodeError>)
        requires
            old(self).wf(),
        ensures
            final(self).wf(),
            final(self).data() == old(self).data(),
            old(self).cursor() + 1 <= old(self).data().len() ==> {
                &&& r == Ok::<u8, DecodeError>(old(self).data()[old(self).cursor()])
                &&& final(self).cursor() == old(self).cursor() + 1
            },
            old(self).cursor() + 1 > old(self).data().len() ==> {
                &&& r == Err::<u8, DecodeError>(DecodeError::TruncatedInput)
                &&& final(self).cursor() == old(self).cursor()
            },
    {
        if self.pos < self.buf.len() {
            let b = self.buf[self.pos];
            self.pos = self.pos + 1;
            Ok(b)
        } else {
            Err(DecodeError::TruncatedInput)
        }
    }

    /// Consumes four bytes as an unsigned big-endian 32-bit integer. Fails
    /// with `TruncatedInput`, leaving the cursor in place, when fewer than
    /// four bytes remain.
    pub fn read_u32_be(&mut self) -> (r: Result<u32, DecodeError>)
        requires
            old(self).wf(),
        ensures
            final(self).wf(),
            final(self).data() == old(self).data(),
            old(self).cursor() + 4 <= old(self).data().len() ==> {
                &&& r == Ok::<u32, DecodeError>(be32_at(old(self).data(), old(self).cursor()))
                &&& final(self).cursor() == old(self).cursor() + 4
            },
            old(self).cursor() + 4 > old(self).data().len() ==> {
                &&& r == Err::<u32, DecodeError>(DecodeError::TruncatedInput)
                &&& final(self).cursor() == old(self).cursor()
            },
    {
        if self.buf.len() - self.pos >= 4 {
            let b0 = self.buf[self.pos];
            let b1 = self.buf[self.pos + 1];
            let b2 = self.buf[self.pos + 2];
            let b3 = self.buf[self.pos + 3];
            self.pos = self.pos + 4;
            Ok(b0 as u32 * 0x100_0000 + b1 as u32 * 0x1_0000 + b2 as u32 * 0x100 + b3 as u32)
        } else {
            Err(DecodeError::TruncatedInput)
        }
    }

    /// How many bytes remain in front of the cursor.
    pub fn remaining(&self) -> (r: usize)
        requires
            self.wf(),
        ensures
            r == self.data().len() - self.cursor(),
    {
        self.buf.len() - self.pos
    }
}

} // verus!
