//! The container layer: chunk headers, the chunk directory at the end of
//! the file, and chunks fetched by name.

pub mod header;
pub mod map;

pub use header::ChunkHeader;
pub use map::{read_chunk, read_chunkmap, ChunkMap};
