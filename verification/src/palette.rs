use vstd::prelude::*;
use vstd::slice::slice_to_vec;

use crate::error::DecodeError;

verus! {

/// The exact size of a colour palette asset: 256 RGB colours followed by a
/// 32768-entry mapping from 15-bit colour to palette index.
pub const PALETTE_SIZE: usize = 256 * 3 + 32768;

/// The exact size of a colour remap table asset: 256 colour mappings and
/// three trailing bytes.
pub const TABLE_SIZE: usize = 259;

/// A fixed-size colour palette asset, stored byte for byte.
pub struct ColorPalette {
    data: Vec<u8>,
}

impl ColorPalette {
    /// The stored bytes.
    pub closed spec fn data_seq(&self) -> Seq<u8> {
        self.data@
    }

    /// Validates the asset size and keeps the bytes as they are.
    pub fn new(bytes: &[u8]) -> (r: Result<ColorPalette, DecodeError>)
        ensures
            bytes@.len() == PALETTE_SIZE ==> {
                &&& r matches Ok(p)
                &&& p.data_seq() == bytes@
            },
            bytes@.len() != PALETTE_SIZE ==> r == Err::<ColorPalette, DecodeError>(
                DecodeError::MalformedHeader,
            ),
    {
        if bytes.len() != PALETTE_SIZE {
            return Err(DecodeError::MalformedHeader);
        }
        Ok(ColorPalette { data: slice_to_vec(bytes) })
    }

    /// The raw palette bytes.
    pub fn bytes(&self) -> (r: &Vec<u8>)
        ensures
            r@ == self.data_seq(),
    {
        &self.data
    }
}

/// A fixed-size colour remap table asset, stored byte for byte.
pub struct ColorRemapTable {
    data: Vec<u8>,
}

impl ColorRemapTable {
    /// The stored bytes.
    pub closed spec fn data_seq(&self) -> Seq<u8> {
        self.data@
    }

    /// Validates the asset size and keeps the bytes as they are.
    pub fn new(bytes: &[u8]) -> (r: Result<ColorRemapTable, DecodeError>)
        ensures
            bytes@.len() == TABLE_SIZE ==> {
                &&& r matches Ok(t)
                &&& t.data_seq() == bytes@
            },
            bytes@.len() != TABLE_SIZE ==> r == Err::<ColorRemapTable, DecodeError>(
                DecodeError::MalformedHeader,
            ),
    {
        if bytes.len() != TABLE_SIZE {
            return Err(DecodeError::MalformedHeader);
        }
        Ok(ColorRemapTable { data: slice_to_vec(bytes) })
    }

    /// The raw table bytes.
    pub fn bytes(&self) -> (r: &Vec<u8>)
        ensures
            r@ == self.data_seq(),
    {
        &self.data
    }
}

} // verus!
