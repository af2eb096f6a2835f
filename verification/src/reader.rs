//! A cursor over the bytes of a file, or of the content of one atom.

use crate::codec::{be_u16, be_u32, be_u64, read_be_u16, read_be_u32, read_be_u64};
use crate::error::{eof, Error};
use vstd::prelude::*;
use vstd::slice::slice_subrange;

verus! {

/// The 16 bit big-endian number at position `p` of `s`.
pub open spec fn at16(s: Seq<u8>, p: int) -> u16 {
    be_u16(s.subrange(p, p + 2))
}

/// The 32 bit big-endian number at position `p` of `s`.
pub open spec fn at32(s: Seq<u8>, p: int) -> u32 {
    be_u32(s.subrange(p, p + 4))
}

/// The 64 bit big-endian number at position `p` of `s`.
pub open spec fn at64(s: Seq<u8>, p: int) -> u64 {
    be_u64(s.subrange(p, p + 8))
}

/// A cursor over a run of bytes: the bytes, the position in them of the next
/// read, and the position in the file of the first of them.
pub struct Reader<'a> {
    /// The bytes that can be read.
    pub data: &'a [u8],
    /// The position in `data` of the next byte to read.
    pub pos: usize,
    /// The position in the file of the first byte of `data`.
    pub base: u64,
}

impl<'a> Reader<'a> {
    /// The cursor lies inside its bytes, and every position of them in the
    /// file can be held in 64 bits.
    pub open spec fn wf(&self) -> bool {
        &&& self.pos <= self.data@.len()
        &&& self.base + self.data@.len() <= u64::MAX
    }

    /// The position in the file of the next byte to read.
    pub open spec fn abs(&self) -> int {
        self.base + self.pos
    }

    /// The number of bytes that are left to read.
    pub open spec fn left(&self) -> int {
        self.data@.len() - self.pos
    }

    /// `self` is `before` moved on by `n` bytes.
    pub open spec fn moved(&self, before: &Reader<'a>, n: int) -> bool {
        &&& self.data == before.data
        &&& self.base == before.base
        &&& self.pos == before.pos + n
        &&& self.wf()
    }

    /// `self` is over the same bytes as `before`, at any position in them.
    pub open spec fn same_stream(&self, before: &Reader<'a>) -> bool {
        &&& self.data == before.data
        &&& self.base == before.base
        &&& self.wf()
    }

    /// A cursor at the start of a whole file.
    pub fn new(data: &'a [u8]) -> (r: Reader<'a>)
        ensures
            r.data@ == data@,
            r.pos == 0,
            r.base == 0,
            r.wf(),
    {
        let len = data.len();
        assert(len <= u64::MAX);
        Reader { data, pos: 0, base: 0 }
    }

    /// The position in the file of the next byte to read.
    pub fn position(&self) -> (r: u64)
        requires
            self.wf(),
        ensures
            r == self.abs(),
    {
        self.base + self.pos as u64
    }

    /// The number of bytes that are left to read.
    pub fn remaining(&self) -> (r: u64)
        requires
            self.wf(),
        ensures
            r == self.left(),
    {
        (self.data.len() - self.pos) as u64
    }

    /// Reads one byte.
    pub fn read_u8(&mut self) -> (r: Result<u8, Error>)
        requires
            old(self).wf(),
        ensures
            match r {
                Ok(n) => old(self).left() >= 1 && n == old(self).data@[old(self).pos as int]
                    && final(self).moved(old(self), 1),
                Err(e) => old(self).left() < 1 && e@ == eof() && *final(self) == *old(self),
            },
    {
        if self.data.len() - self.pos < 1 {
            return Err(Error::eof());
        }
        let n = self.data[self.pos];
        self.pos = self.pos + 1;
        Ok(n)
    }

    /// Reads a 16 bit big-endian number.
    pub fn read_be_u16(&mut self) -> (r: Result<u16, Error>)
        requires
            old(self).wf(),
        ensures
            match r {
                Ok(n) => old(self).left() >= 2 && n == at16(old(self).data@, old(self).pos as int)
                    && final(self).moved(old(self), 2),
                Err(e) => old(self).left() < 2 && e@ == eof() && *final(self) == *old(self),
            },
    {
        if self.data.len() - self.pos < 2 {
            return Err(Error::eof());
        }
        let n = read_be_u16(slice_subrange(self.data, self.pos, self.pos + 2));
        self.pos = self.pos + 2;
        Ok(n)
    }

    /// Reads a 32 bit big-endian number.
    pub fn read_be_u32(&mut self) -> (r: Result<u32, Error>)
        requires
            old(self).wf(),
        ensures
            match r {
                Ok(n) => old(self).left() >= 4 && n == at32(old(self).data@, old(self).pos as int)
                    && final(self).moved(old(self), 4),
                Err(e) => old(self).left() < 4 && e@ == eof() && *final(self) == *old(self),
            },
    {
        if self.data.len() - self.pos < 4 {
            return Err(Error::eof());
        }
        let n = read_be_u32(slice_subrange(self.data, self.pos, self.pos + 4));
        self.pos = self.pos + 4;
        Ok(n)
    }

    /// Reads a 64 bit big-endian number.
    pub fn read_be_u64(&mut self) -> (r: Result<u64, Error>)
        requires
            old(self).wf(),
        ensures
            match r {
                Ok(n) => old(self).left() >= 8 && n == at64(old(self).data@, old(self).pos as int)
                    && final(self).moved(old(self), 8),
                Err(e) => old(self).left() < 8 && e@ == eof() && *final(self) == *old(self),
            },
    {
        if self.data.len() - self.pos < 8 {
            return Err(Error::eof());
        }
        let n = read_be_u64(slice_subrange(self.data, self.pos, self.pos + 8));
        self.pos = self.pos + 8;
        Ok(n)
    }

    /// The 32 bit big-endian number at the cursor, which stays where it is;
    /// `None` where fewer than four bytes are left.
    pub fn peek_be_u32(&self) -> (r: Option<u32>)
        requires
            self.wf(),
        ensures
            r == (if self.left() >= 4 {
                Some(at32(self.data@, self.pos as int))
            } else {
                None
            }),
    {
        if self.data.len() - self.pos < 4 {
            return None;
        }
        Some(read_be_u32(slice_subrange(self.data, self.pos, self.pos + 4)))
    }

    /// Reads the next `len` bytes.
    pub fn read_u8_vec(&mut self, len: u64) -> (r: Result<Vec<u8>, Error>)
        requires
            old(self).wf(),
        ensures
            match r {
                Ok(v) => old(self).left() >= len && v@ == old(self).data@.subrange(
                    old(self).pos as int,
                    old(self).pos + len,
                ) && final(self).moved(old(self), len as int),
                Err(e) => old(self).left() < len && e@ == eof() && *final(self) == *old(self),
            },
    {
        if ((self.data.len() - self.pos) as u64) < len {
            return Err(Error::eof());
        }
        let n = len as usize;
        let v = vstd::slice::slice_to_vec(slice_subrange(self.data, self.pos, self.pos + n));
        self.pos = self.pos + n;
        Ok(v)
    }

    /// Moves the cursor on by `len` bytes.
    pub fn skip(&mut self, len: u64) -> (r: Result<(), Error>)
        requires
            old(self).wf(),
        ensures
            match r {
                Ok(_) => old(self).left() >= len && final(self).moved(old(self), len as int),
                Err(e) => old(self).left() < len && e@ == eof() && *final(self) == *old(self),
            },
    {
        if ((self.data.len() - self.pos) as u64) < len {
            return Err(Error::eof());
        }
        self.pos = self.pos + len as usize;
        Ok(())
    }

    /// Moves the cursor to the position `pos` of the bytes.
    pub fn seek(&mut self, pos: u64) -> (r: Result<(), Error>)
        requires
            old(self).wf(),
        ensures
            match r {
                Ok(_) => pos <= old(self).data@.len() && final(self).same_stream(old(self))
                    && final(self).pos == pos,
                Err(e) => pos > old(self).data@.len() && e@ == eof() && *final(self) == *old(self),
            },
    {
        if pos > self.data.len() as u64 {
            return Err(Error::eof());
        }
        self.pos = pos as usize;
        Ok(())
    }

    /// Moves the cursor to the end of the bytes.
    pub fn skip_to_end(&mut self)
        requires
            old(self).wf(),
        ensures
            final(self).moved(old(self), old(self).left()),
    {
        self.pos = self.data.len();
    }

    /// A cursor over the next `len` bytes alone, at their start. `self` moves
    /// past them.
    pub fn take(&mut self, len: u64) -> (r: Result<Reader<'a>, Error>)
        requires
            old(self).wf(),
        ensures
            match r {
                Ok(sub) => old(self).left() >= len && final(self).moved(old(self), len as int)
                    && sub.data@ == old(self).data@.subrange(
                    old(self).pos as int,
                    old(self).pos + len,
                ) && sub.pos == 0 && sub.base == old(self).abs() && sub.wf(),
                Err(e) => old(self).left() < len && e@ == eof() && *final(self) == *old(self),
            },
    {
        if ((self.data.len() - self.pos) as u64) < len {
            return Err(Error::eof());
        }
        let n = len as usize;
        let sub = Reader {
            data: slice_subrange(self.data, self.pos, self.pos + n),
            pos: 0,
            base: self.base + self.pos as u64,
        };
        self.pos = self.pos + n;
        Ok(sub)
    }
}

} // verus!
