//! A forward byte stream over an in-memory buffer, and little-endian decoding.
use vstd::prelude::*;

use crate::esm::EsmError;

verus! {

/// The little-endian 16-bit integer at `at`.
pub open spec fn le_u16_at(data: Seq<u8>, at: int) -> u16 {
    (data[at] as int + 256 * (data[at + 1] as int)) as u16
}

/// The little-endian 32-bit integer at `at`.
pub open spec fn le_u32_at(data: Seq<u8>, at: int) -> u32 {
    (data[at] as int + 256 * (data[at + 1] as int) + 65536 * (data[at + 2] as int) + 16777216 * (
    data[at + 3] as int)) as u32
}

/// The two's-complement reading of a 32-bit pattern.
pub open spec fn as_signed(v: u32) -> i32 {
    if v >= 0x8000_0000 {
        (v as int - 0x1_0000_0000) as i32
    } else {
        v as i32
    }
}

/// The little-endian signed 32-bit integer at `at`.
pub open spec fn le_i32_at(data: Seq<u8>, at: int) -> i32 {
    as_signed(le_u32_at(data, at))
}

/// The four bytes of a tag at `at`.
pub open spec fn tag_at(data: Seq<u8>, at: int) -> Seq<u8> {
    data.subrange(at, at + 4)
}

/// Whether `n` bytes lie in `data` from position `pos` on.
pub open spec fn available(data: Seq<u8>, pos: int, n: int) -> bool {
    0 <= pos && 0 <= n && pos + n <= data.len()
}

/// The number of bytes that lie in `data` from position `pos` on.
pub open spec fn remaining(data: Seq<u8>, pos: int) -> nat {
    if 0 <= pos <= data.len() {
        (data.len() - pos) as nat
    } else {
        0
    }
}

/// The position `n` bytes behind `pos`, as far as a stream position can hold it.
pub open spec fn advance(pos: int, n: int) -> Result<int, EsmError> {
    if pos + n <= u64::MAX {
        Ok(pos + n)
    } else {
        Err(EsmError::Truncated)
    }
}

/// Reinterprets a 32-bit pattern as a signed integer.
pub fn to_signed(v: u32) -> (r: i32)
    ensures
        r == as_signed(v),
{
    if v >= 0x8000_0000 {
        let low: u32 = v - 0x8000_0000;
        (low as i32) - 0x7fff_ffff - 1
    } else {
        v as i32
    }
}

/// A cursor over a byte buffer. The position may lie beyond the end of the
/// buffer; every read from there fails.
pub struct ByteReader {
    pub data: Vec<u8>,
    pub pos: u64,
}

impl ByteReader {
    /// A reader at the start of `data`.
    pub fn new(data: Vec<u8>) -> (r: Self)
        ensures
            r.data == data,
            r.pos == 0,
    {
        ByteReader { data, pos: 0 }
    }

    /// Whether `n` more bytes can be read.
    pub open spec fn has(&self, n: int) -> bool {
        available(self.data@, self.pos as int, n)
    }

    /// Whether this is the reader `before`, moved `n` bytes forward.
    pub open spec fn is_moved(&self, before: ByteReader, n: int) -> bool {
        self.data == before.data && self.pos == before.pos + n
    }

    /// The current position.
    pub fn position(&self) -> (p: u64)
        ensures
            p == self.pos,
    {
        self.pos
    }

    /// Whether `n` more bytes can be read.
    pub fn can_read(&self, n: usize) -> (r: bool)
        ensures
            r == self.has(n as int),
            r ==> self.pos + n <= usize::MAX,
    {
        let len: u64 = self.data.len() as u64;
        self.pos <= len && len - self.pos >= n as u64
    }

    /// Reads the next `n` bytes.
    pub fn read_exact(&mut self, n: usize) -> (r: Result<Vec<u8>, EsmError>)
        ensures
            match r {
                Ok(v) => old(self).has(n as int) && v@ == old(self).data@.subrange(
                    old(self).pos as int,
                    old(self).pos + n,
                ) && final(self).is_moved(*old(self), n as int),
                Err(e) => e == EsmError::Truncated && !old(self).has(n as int) && *final(self)
                    == *old(self),
            },
    {
        if !self.can_read(n) {
            return Err(EsmError::Truncated);
        }
        let start: usize = self.pos as usize;
        let mut out: Vec<u8> = Vec::with_capacity(n);
        let mut i: usize = 0;
        while i < n
            invariant
                i <= n,
                start + n <= self.data@.len(),
                start + n <= usize::MAX,
                out@ == self.data@.subrange(start as int, start + i),
            decreases n - i,
        {
            out.push(self.data[start + i]);
            i += 1;
        }
        self.pos = self.pos + n as u64;
        Ok(out)
    }

    /// Reads one byte.
    pub fn read_u8(&mut self) -> (r: Result<u8, EsmError>)
        ensures
            match r {
                Ok(v) => old(self).has(1) && v == old(self).data@[old(self).pos as int]
                    && final(self).is_moved(*old(self), 1),
                Err(e) => e == EsmError::Truncated && !old(self).has(1) && *final(self)
                    == *old(self),
            },
    {
        if !self.can_read(1) {
            return Err(EsmError::Truncated);
        }
        let v = self.data[self.pos as usize];
        self.pos = self.pos + 1;
        Ok(v)
    }

    /// Reads a little-endian 16-bit integer.
    pub fn read_u16(&mut self) -> (r: Result<u16, EsmError>)
        ensures
            match r {
                Ok(v) => old(self).has(2) && v == le_u16_at(old(self).data@, old(self).pos as int)
                    && final(self).is_moved(*old(self), 2),
                Err(e) => e == EsmError::Truncated && !old(self).has(2) && *final(self)
                    == *old(self),
            },
    {
        if !self.can_read(2) {
            return Err(EsmError::Truncated);
        }
        let at: usize = self.pos as usize;
        let v: u16 = (self.data[at] as u16) + 256 * (self.data[at + 1] as u16);
        self.pos = self.pos + 2;
        Ok(v)
    }

    /// Reads a little-endian 32-bit integer.
    pub fn read_u32(&mut self) -> (r: Result<u32, EsmError>)
        ensures
            match r {
                Ok(v) => old(self).has(4) && v == le_u32_at(old(self).data@, old(self).pos as int)
                    && final(self).is_moved(*old(self), 4),
                Err(e) => e == EsmError::Truncated && !old(self).has(4) && *final(self)
                    == *old(self),
            },
    {
        if !self.can_read(4) {
            return Err(EsmError::Truncated);
        }
        let at: usize = self.pos as usize;
        let v: u32 = (self.data[at] as u32) + 256 * (self.data[at + 1] as u32) + 65536 * (
        self.data[at + 2] as u32) + 16777216 * (self.data[at + 3] as u32);
        self.pos = self.pos + 4;
        Ok(v)
    }

    /// Reads a little-endian signed 32-bit integer.
    pub fn read_i32(&mut self) -> (r: Result<i32, EsmError>)
        ensures
            match r {
                Ok(v) => old(self).has(4) && v == le_i32_at(old(self).data@, old(self).pos as int)
                    && final(self).is_moved(*old(self), 4),
                Err(e) => e == EsmError::Truncated && !old(self).has(4) && *final(self)
                    == *old(self),
            },
    {
        match self.read_u32() {
            Ok(v) => Ok(to_signed(v)),
            Err(e) => Err(e),
        }
    }

    /// Reads a four-byte tag.
    pub fn read_tag(&mut self) -> (r: Result<[u8; 4], EsmError>)
        ensures
            match r {
                Ok(v) => old(self).has(4) && v@ == tag_at(old(self).data@, old(self).pos as int)
                    && final(self).is_moved(*old(self), 4),
                Err(e) => e == EsmError::Truncated && !old(self).has(4) && *final(self)
                    == *old(self),
            },
    {
        if !self.can_read(4) {
            return Err(EsmError::Truncated);
        }
        let at: usize = self.pos as usize;
        let t: [u8; 4] = [self.data[at], self.data[at + 1], self.data[at + 2], self.data[at + 3]];
        proof {
            assert(t@ =~= tag_at(self.data@, at as int));
        }
        self.pos = self.pos + 4;
        Ok(t)
    }

    /// Moves the position `n` bytes forward without reading them. The new
    /// position may lie beyond the end of the buffer.
    pub fn skip(&mut self, n: u64) -> (r: Result<(), EsmError>)
        ensures
            match r {
                Ok(_) => final(self).is_moved(*old(self), n as int),
                Err(e) => e == EsmError::Truncated && old(self).pos + n > u64::MAX && *final(self)
                    == *old(self),
            },
    {
        if n > u64::MAX - self.pos {
            return Err(EsmError::Truncated);
        }
        self.pos = self.pos + n;
        Ok(())
    }
}

} // verus!
