use vstd::prelude::*;

use crate::cursor::{u16_le, u32_le, ByteCursor};
use crate::error::DecodeError;

verus! {

// The four-byte chunk tags of the animation container, packed little-endian
// into one word each, so that a tag compares as a single integer.
/// `HEAD`
pub const SIG_HEAD: u32 = 0x4441_4548;
/// `PAL ` (trailing space)
pub const SIG_PAL: u32 = 0x204C_4150;
/// `TPAL`
pub const SIG_TPAL: u32 = 0x4C41_5054;
/// `CBOX`
pub const SIG_CBOX: u32 = 0x584F_4243;
/// `FRAM`
pub const SIG_FRAM: u32 = 0x4D41_5246;
/// `FNAM`
pub const SIG_FNAM: u32 = 0x4D41_4E46;
/// `CIMG`
pub const SIG_CIMG: u32 = 0x474D_4943;
/// `SEQ ` (trailing space)
pub const SIG_SEQ: u32 = 0x2051_4553;
/// `STAT`
pub const SIG_STAT: u32 = 0x5441_5453;

/// The header of one tagged chunk, as read from the byte stream.
pub ghost struct ChunkModel {
    pub sig: int,
    pub length: int,
    pub id: int,
    /// The offset of the chunk body (just past the ten header bytes).
    pub start: int,
}

impl ChunkModel {
    /// The offset just past the chunk body that the header declares.
    pub open spec fn end(self) -> int {
        self.start + self.length
    }
}

/// The chunk header stored at offset `p`: a four-byte tag, a 32-bit body
/// length and a 16-bit id, all little-endian.
pub open spec fn chunk_at(s: Seq<u8>, p: int) -> Result<ChunkModel, DecodeError> {
    if p + 10 <= s.len() {
        Ok(
            ChunkModel {
                sig: u32_le(s, p),
                length: u32_le(s, p + 4),
                id: u16_le(s, p + 8),
                start: p + 10,
            },
        )
    } else {
        Err(DecodeError::TruncatedData)
    }
}

/// Like [`chunk_at`], but requiring the tag `sig`.
pub open spec fn expect_chunk_at(s: Seq<u8>, p: int, sig: u32) -> Result<
    ChunkModel,
    DecodeError,
> {
    match chunk_at(s, p) {
        Ok(c) => if c.sig == sig {
            Ok(c)
        } else {
            Err(DecodeError::UnexpectedChunk)
        },
        Err(e) => Err(e),
    }
}

/// One tagged, length-prefixed block of the animation container.
pub struct Chunk {
    pub sig: u32,
    pub length: u32,
    pub id: u16,
    pub start: usize,
}

impl View for Chunk {
    type V = ChunkModel;

    open spec fn view(&self) -> ChunkModel {
        ChunkModel {
            sig: self.sig as int,
            length: self.length as int,
            id: self.id as int,
            start: self.start as int,
        }
    }
}

/// Reads the ten-byte chunk header at the cursor.
pub fn read_chunk(cur: &mut ByteCursor) -> (r: Result<Chunk, DecodeError>)
    requires
        old(cur).wf(),
    ensures
        final(cur).wf(),
        final(cur).bytes() == old(cur).bytes(),
        match chunk_at(old(cur).bytes(), old(cur).pos_int()) {
            Ok(m) => {
                &&& r matches Ok(c) && c@ == m
                &&& final(cur).pos_int() == m.start
            },
            Err(e) => r == Err::<Chunk, DecodeError>(e),
        },
{
    let sig = match cur.read_u32() {
        Ok(v) => v,
        Err(e) => {
            return Err(e);
        },
    };
    let length = match cur.read_u32() {
        Ok(v) => v,
        Err(e) => {
            return Err(e);
        },
    };
    let id = match cur.read_u16() {
        Ok(v) => v,
        Err(e) => {
            return Err(e);
        },
    };
    Ok(Chunk { sig, length, id, start: cur.position() })
}

/// Reads a chunk header and fails with [`DecodeError::UnexpectedChunk`]
/// unless it carries the tag `sig`.
pub fn expect_chunk(cur: &mut ByteCursor, sig: u32) -> (r: Result<Chunk, DecodeError>)
    requires
        old(cur).wf(),
    ensures
        final(cur).wf(),
        final(cur).bytes() == old(cur).bytes(),
        match expect_chunk_at(old(cur).bytes(), old(cur).pos_int(), sig) {
            Ok(m) => {
                &&& r matches Ok(c) && c@ == m
                &&& final(cur).pos_int() == m.start
            },
            Err(e) => r == Err::<Chunk, DecodeError>(e),
        },
{
    let c = match read_chunk(cur) {
        Ok(c) => c,
        Err(e) => {
            return Err(e);
        },
    };
    if c.sig == sig {
        Ok(c)
    } else {
        Err(DecodeError::UnexpectedChunk)
    }
}

/// Advances the cursor past the body of `c`, whose header was just read.
pub fn skip_chunk(cur: &mut ByteCursor, c: &Chunk) -> (r: Result<(), DecodeError>)
    requires
        old(cur).wf(),
        old(cur).pos_int() == c@.start,
    ensures
        final(cur).wf(),
        final(cur).bytes() == old(cur).bytes(),
        c@.end() <= old(cur).bytes().len() ==> {
            &&& r matches Ok(u)
            &&& final(cur).pos_int() == c@.end()
        },
        c@.end() > old(cur).bytes().len() ==> r == Err::<(), DecodeError>(
            DecodeError::TruncatedData,
        ),
{
    cur.skip(c.length as usize)
}

/// Moves the cursor to the declared end of `c`, forward or backward.
pub fn seek_chunk_end(cur: &mut ByteCursor, c: &Chunk) -> (r: Result<(), DecodeError>)
    requires
        old(cur).wf(),
        c@.start <= old(cur).bytes().len(),
    ensures
        final(cur).wf(),
        final(cur).bytes() == old(cur).bytes(),
        c@.end() <= old(cur).bytes().len() ==> {
            &&& r matches Ok(u)
            &&& final(cur).pos_int() == c@.end()
        },
        c@.end() > old(cur).bytes().len() ==> r == Err::<(), DecodeError>(
            DecodeError::TruncatedData,
        ),
{
    if c.length as usize <= cur.buf_len() - c.start {
        cur.seek_to(c.start + c.length as usize)
    } else {
        Err(DecodeError::TruncatedData)
    }
}

} // verus!
