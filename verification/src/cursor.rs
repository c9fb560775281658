use vstd::prelude::*;
use vstd::slice::{slice_subrange, slice_to_vec};

use crate::error::DecodeError;

verus! {

/// The unsigned 16-bit value stored little-endian at offset `i`.
pub open spec fn u16_le(s: Seq<u8>, i: int) -> int {
    s[i] + 0x100 * s[i + 1]
}

/// The unsigned 32-bit value stored little-endian at offset `i`.
pub open spec fn u32_le(s: Seq<u8>, i: int) -> int {
    u16_le(s, i) + 0x1_0000 * u16_le(s, i + 2)
}

/// The two's-complement interpretation of an unsigned 16-bit value.
pub open spec fn as_i16(v: int) -> int {
    if v >= 0x8000 {
        v - 0x1_0000
    } else {
        v
    }
}

/// A sequential reader over an immutable byte buffer with a read position.
/// All reads are little-endian; every read and seek is bounds checked and
/// fails with [`DecodeError::TruncatedData`] instead of reading past the end.
#[derive(Clone, Copy)]
pub struct ByteCursor<'a> {
    data: &'a [u8],
    pos: usize,
}

impl<'a> ByteCursor<'a> {
    /// The whole underlying buffer.
    pub closed spec fn bytes(&self) -> Seq<u8> {
        self.data@
    }

    /// The current read position.
    pub closed spec fn pos_int(&self) -> int {
        self.pos as int
    }

    /// The position never passes the end of the buffer.
    pub open spec fn wf(&self) -> bool {
        0 <= self.pos_int() <= self.bytes().len()
    }

    pub fn new(data: &'a [u8]) -> (c: ByteCursor<'a>)
        ensures
            c.wf(),
            c.bytes() == data@,
            c.pos_int() == 0,
    {
        ByteCursor { data, pos: 0 }
    }

    pub fn position(&self) -> (p: usize)
        ensures
            p == self.pos_int(),
    {
        self.pos
    }

    /// The total length of the underlying buffer.
    pub fn buf_len(&self) -> (n: usize)
        ensures
            n == self.bytes().len(),
    {
        self.data.len()
    }

    /// How many bytes remain before the end of the buffer.
    pub fn remaining(&self) -> (n: usize)
        requires
            self.wf(),
        ensures
            n == self.bytes().len() - self.pos_int(),
    {
        self.data.len() - self.pos
    }

    pub fn read_u8(&mut self) -> (r: Result<u8, DecodeError>)
        requires
            old(self).wf(),
        ensures
            final(self).wf(),
            final(self).bytes() == old(self).bytes(),
            old(self).pos_int() + 1 <= old(self).bytes().len() ==> {
                &&& r matches Ok(v) && v == old(self).bytes()[old(self).pos_int()]
                &&& final(self).pos_int() == old(self).pos_int() + 1
            },
            old(self).pos_int() + 1 > old(self).bytes().len() ==> {
                &&& r == Err::<u8, DecodeError>(DecodeError::TruncatedData)
                &&& final(self).pos_int() == old(self).pos_int()
            },
    {
        if self.data.len() - self.pos >= 1 {
            let b = self.data[self.pos];
            self.pos = self.pos + 1;
            Ok(b)
        } else {
            Err(DecodeError::TruncatedData)
        }
    }

    pub fn read_u16(&mut self) -> (r: Result<u16, DecodeError>)
        requires
            old(self).wf(),
        ensures
            final(self).wf(),
            final(self).bytes() == old(self).bytes(),
            old(self).pos_int() + 2 <= old(self).bytes().len() ==> {
                &&& r matches Ok(v) && v == u16_le(old(self).bytes(), old(self).pos_int())
                &&& final(self).pos_int() == old(self).pos_int() + 2
            },
            old(self).pos_int() + 2 > old(self).bytes().len() ==> {
                &&& r == Err::<u16, DecodeError>(DecodeError::TruncatedData)
                &&& final(self).pos_int() == old(self).pos_int()
            },
    {
        if self.data.len() - self.pos >= 2 {
            let b0 = self.data[self.pos] as u16;
            let b1 = self.data[self.pos + 1] as u16;
            self.pos = self.pos + 2;
            Ok(b0 + 0x100 * b1)
        } else {
            Err(DecodeError::TruncatedData)
        }
    }

    pub fn read_u32(&mut self) -> (r: Result<u32, DecodeError>)
        requires
            old(self).wf(),
        ensures
            final(self).wf(),
            final(self).bytes() == old(self).bytes(),
            old(self).pos_int() + 4 <= old(self).bytes().len() ==> {
                &&& r matches Ok(v) && v == u32_le(old(self).bytes(), old(self).pos_int())
                &&& final(self).pos_int() == old(self).pos_int() + 4
            },
            old(self).pos_int() + 4 > old(self).bytes().len() ==> {
                &&& r == Err::<u32, DecodeError>(DecodeError::TruncatedData)
                &&& final(self).pos_int() == old(self).pos_int()
            },
    {
        if self.data.len() - self.pos >= 4 {
            let b0 = self.data[self.pos] as u32;
            let b1 = self.data[self.pos + 1] as u32;
            let b2 = self.data[self.pos + 2] as u32;
            let b3 = self.data[self.pos + 3] as u32;
            self.pos = self.pos + 4;
            Ok(b0 + 0x100 * b1 + 0x1_0000 * b2 + 0x100_0000 * b3)
        } else {
            Err(DecodeError::TruncatedData)
        }
    }

    /// Reads a little-endian 16-bit two's-complement value, widened to `i32`.
    pub fn read_i16(&mut self) -> (r: Result<i32, DecodeError>)
        requires
            old(self).wf(),
        ensures
            final(self).wf(),
            final(self).bytes() == old(self).bytes(),
            old(self).pos_int() + 2 <= old(self).bytes().len() ==> {
                &&& r matches Ok(v) && v == as_i16(u16_le(old(self).bytes(), old(self).pos_int()))
                &&& final(self).pos_int() == old(self).pos_int() + 2
            },
            old(self).pos_int() + 2 > old(self).bytes().len() ==> {
                &&& r == Err::<i32, DecodeError>(DecodeError::TruncatedData)
                &&& final(self).pos_int() == old(self).pos_int()
            },
    {
        match self.read_u16() {
            Ok(v) => {
                if v >= 0x8000 {
                    Ok(v as i32 - 0x1_0000)
                } else {
                    Ok(v as i32)
                }
            },
            Err(e) => Err(e),
        }
    }

    /// Reads exactly `n` bytes into a fresh vector.
    pub fn read_bytes(&mut self, n: usize) -> (r: Result<Vec<u8>, DecodeError>)
        requires
            old(self).wf(),
        ensures
            final(self).wf(),
            final(self).bytes() == old(self).bytes(),
            old(self).pos_int() + n <= old(self).bytes().len() ==> {
                &&& r matches Ok(v) && v@ == old(self).bytes().subrange(
                    old(self).pos_int(),
                    old(self).pos_int() + n,
                )
                &&& final(self).pos_int() == old(self).pos_int() + n
            },
            old(self).pos_int() + n > old(self).bytes().len() ==> {
                &&& r == Err::<Vec<u8>, DecodeError>(DecodeError::TruncatedData)
                &&& final(self).pos_int() == old(self).pos_int()
            },
    {
        if self.data.len() - self.pos >= n {
            let part = slice_subrange(self.data, self.pos, self.pos + n);
            let v = slice_to_vec(part);
            self.pos = self.pos + n;
            Ok(v)
        } else {
            Err(DecodeError::TruncatedData)
        }
    }

    /// Advances the position by `n` bytes without decoding them.
    pub fn skip(&mut self, n: usize) -> (r: Result<(), DecodeError>)
        requires
            old(self).wf(),
        ensures
            final(self).wf(),
            final(self).bytes() == old(self).bytes(),
            old(self).pos_int() + n <= old(self).bytes().len() ==> {
                &&& r matches Ok(v)
                &&& final(self).pos_int() == old(self).pos_int() + n
            },
            old(self).pos_int() + n > old(self).bytes().len() ==> {
                &&& r == Err::<(), DecodeError>(DecodeError::TruncatedData)
                &&& final(self).pos_int() == old(self).pos_int()
            },
    {
        if self.data.len() - self.pos >= n {
            self.pos = self.pos + n;
            Ok(())
        } else {
            Err(DecodeError::TruncatedData)
        }
    }

    /// Moves the position to the absolute offset `to` (forward or backward).
    pub fn seek_to(&mut self, to: usize) -> (r: Result<(), DecodeError>)
        requires
            old(self).wf(),
        ensures
            final(self).wf(),
            final(self).bytes() == old(self).bytes(),
            to <= old(self).bytes().len() ==> {
                &&& r matches Ok(v)
                &&& final(self).pos_int() == to
            },
            to > old(self).bytes().len() ==> {
                &&& r == Err::<(), DecodeError>(DecodeError::TruncatedData)
                &&& final(self).pos_int() == old(self).pos_int()
            },
    {
        if to <= self.data.len() {
            self.pos = to;
            Ok(())
        } else {
            Err(DecodeError::TruncatedData)
        }
    }
}

} // verus!
