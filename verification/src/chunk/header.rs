//! The sixteen bytes that open every chunk.

use crate::constants::ND2_CHUNK_MAGIC;
use crate::error::{Fault, Nd2Error};
use crate::le::{in_bounds, le_u32_at, le_u64_at, u32_at, u64_at};
use vstd::prelude::*;

verus! {

/// The header of a chunk: its magic, the length of its name and the
/// length of its data, all little-endian.
#[derive(Debug, Clone, Copy, PartialEq, Eq)]
pub struct ChunkHeader {
    pub magic: u32,
    pub name_length: u32,
    pub data_length: u64,
}

/// The chunk header that `data` holds at `pos`, where it reaches that
/// far.
pub open spec fn chunk_header_at(data: Seq<u8>, pos: int) -> Option<ChunkHeader> {
    if in_bounds(data, pos, 16) {
        Some(
            ChunkHeader {
                magic: le_u32_at(data, pos),
                name_length: le_u32_at(data, pos + 4),
                data_length: le_u64_at(data, pos + 8),
            },
        )
    } else {
        None
    }
}

impl ChunkHeader {
    /// The number of bytes that a header takes.
    pub const SIZE: usize = 16;

    /// Reads the chunk header at `pos`. Fails with an I/O error where
    /// the source ends before the header does.
    pub fn read(data: &[u8], pos: usize) -> (outcome: Result<ChunkHeader, Nd2Error>)
        ensures
            match outcome {
                Ok(header) => chunk_header_at(data@, pos as int) == Some(header),
                Err(e) => chunk_header_at(data@, pos as int) is None && e@ == Fault::Io,
            },
    {
        let total: usize = data.len();
        if pos > total || total - pos < 16 {
            return Err(Nd2Error::Io("failed to fill whole buffer".to_string()));
        }
        let magic = match u32_at(data, pos) {
            Some(v) => v,
            None => {
                return Err(Nd2Error::Io("failed to fill whole buffer".to_string()));
            },
        };
        let name_length = match u32_at(data, pos + 4) {
            Some(v) => v,
            None => {
                return Err(Nd2Error::Io("failed to fill whole buffer".to_string()));
            },
        };
        let data_length = match u64_at(data, pos + 8) {
            Some(v) => v,
            None => {
                return Err(Nd2Error::Io("failed to fill whole buffer".to_string()));
            },
        };
        Ok(ChunkHeader { magic, name_length, data_length })
    }

    /// Checks that the header starts with the magic of a modern chunk.
    pub fn validate_magic(&self) -> (outcome: Result<(), Nd2Error>)
        ensures
            match outcome {
                Ok(_) => self.magic == ND2_CHUNK_MAGIC,
                Err(e) => {
                    &&& self.magic != ND2_CHUNK_MAGIC
                    &&& e@ == Fault::InvalidMagic { expected: ND2_CHUNK_MAGIC, actual: self.magic }
                },
            },
    {
        if self.magic != ND2_CHUNK_MAGIC {
            return Err(Nd2Error::InvalidMagic { expected: ND2_CHUNK_MAGIC, actual: self.magic });
        }
        Ok(())
    }
}

} // verus!
