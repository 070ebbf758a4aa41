//! Byte-exact constants of the container format.

use vstd::prelude::*;

verus! {

/// Magic number that opens every chunk of a modern file (on disk: `DA CE BE 0A`).
pub const ND2_CHUNK_MAGIC: u32 = 0x0ABE_CEDA;

/// Magic number of the legacy JP2 container.
pub const JP2_MAGIC: u32 = 0x0C00_0000;

/// Length of each of the three fixed signatures.
pub const SIGNATURE_LEN: usize = 32;

/// Name of the chunk that opens every modern file.
/// In ASCII: `ND2 FILE SIGNATURE CHUNK NAME01!`.
pub const ND2_FILE_SIGNATURE: [u8; 32] = [
    0x4e, 0x44, 0x32, 0x20, 0x46, 0x49, 0x4c, 0x45,
    0x20, 0x53, 0x49, 0x47, 0x4e, 0x41, 0x54, 0x55,
    0x52, 0x45, 0x20, 0x43, 0x48, 0x55, 0x4e, 0x4b,
    0x20, 0x4e, 0x41, 0x4d, 0x45, 0x30, 0x31, 0x21,
];

/// Signature of the trailer that locates the chunk directory, and of the
/// entry that ends it.
/// In ASCII: `ND2 CHUNK MAP SIGNATURE 0000001!`.
pub const ND2_CHUNKMAP_SIGNATURE: [u8; 32] = [
    0x4e, 0x44, 0x32, 0x20, 0x43, 0x48, 0x55, 0x4e,
    0x4b, 0x20, 0x4d, 0x41, 0x50, 0x20, 0x53, 0x49,
    0x47, 0x4e, 0x41, 0x54, 0x55, 0x52, 0x45, 0x20,
    0x30, 0x30, 0x30, 0x30, 0x30, 0x30, 0x31, 0x21,
];

/// Name of the chunk that holds the chunk directory.
/// In ASCII: `ND2 FILEMAP SIGNATURE NAME 0001!`.
pub const ND2_FILEMAP_SIGNATURE: [u8; 32] = [
    0x4e, 0x44, 0x32, 0x20, 0x46, 0x49, 0x4c, 0x45,
    0x4d, 0x41, 0x50, 0x20, 0x53, 0x49, 0x47, 0x4e,
    0x41, 0x54, 0x55, 0x52, 0x45, 0x20, 0x4e, 0x41,
    0x4d, 0x45, 0x20, 0x30, 0x30, 0x30, 0x31, 0x21,
];

/// Name of the attributes chunk from version 3 on.
/// In ASCII: `ImageAttributesLV!`.
pub const ATTRIBUTES_CHUNK_V3: [u8; 18] = [
    0x49, 0x6d, 0x61, 0x67, 0x65, 0x41, 0x74, 0x74,
    0x72, 0x69, 0x62, 0x75, 0x74, 0x65, 0x73, 0x4c,
    0x56, 0x21,
];

/// Name of the attributes chunk before version 3.
/// In ASCII: `ImageAttributes!`.
pub const ATTRIBUTES_CHUNK_V2: [u8; 16] = [
    0x49, 0x6d, 0x61, 0x67, 0x65, 0x41, 0x74, 0x74,
    0x72, 0x69, 0x62, 0x75, 0x74, 0x65, 0x73, 0x21,
];

/// Name of the experiment chunk from version 3 on.
/// In ASCII: `ImageMetadataLV!`.
pub const EXPERIMENT_CHUNK_V3: [u8; 16] = [
    0x49, 0x6d, 0x61, 0x67, 0x65, 0x4d, 0x65, 0x74,
    0x61, 0x64, 0x61, 0x74, 0x61, 0x4c, 0x56, 0x21,
];

/// Name of the experiment chunk before version 3.
/// In ASCII: `ImageMetadata!`.
pub const EXPERIMENT_CHUNK_V2: [u8; 14] = [
    0x49, 0x6d, 0x61, 0x67, 0x65, 0x4d, 0x65, 0x74,
    0x61, 0x64, 0x61, 0x74, 0x61, 0x21,
];

/// Name of the text-info chunk from version 3 on.
/// In ASCII: `ImageTextInfoLV!`.
pub const TEXT_INFO_CHUNK_V3: [u8; 16] = [
    0x49, 0x6d, 0x61, 0x67, 0x65, 0x54, 0x65, 0x78,
    0x74, 0x49, 0x6e, 0x66, 0x6f, 0x4c, 0x56, 0x21,
];

/// Name of the text-info chunk before version 3.
/// In ASCII: `ImageTextInfo!`.
pub const TEXT_INFO_CHUNK_V2: [u8; 14] = [
    0x49, 0x6d, 0x61, 0x67, 0x65, 0x54, 0x65, 0x78,
    0x74, 0x49, 0x6e, 0x66, 0x6f, 0x21,
];

/// What the name of every image chunk starts with.
/// In ASCII: `ImageDataSeq|`.
pub const FRAME_CHUNK_PREFIX: [u8; 13] = [
    0x49, 0x6d, 0x61, 0x67, 0x65, 0x44, 0x61, 0x74, 0x61, 0x53, 0x65, 0x71, 0x7c,
];

/// Type codes of CLX-Lite records.
pub const CLX_UNKNOWN: u8 = 0;

pub const CLX_BOOL: u8 = 1;

pub const CLX_INT32: u8 = 2;

pub const CLX_UINT32: u8 = 3;

pub const CLX_INT64: u8 = 4;

pub const CLX_UINT64: u8 = 5;

pub const CLX_DOUBLE: u8 = 6;

pub const CLX_VOID_POINTER: u8 = 7;

pub const CLX_STRING: u8 = 8;

pub const CLX_BYTE_ARRAY: u8 = 9;

pub const CLX_DEPRECATED: u8 = 10;

pub const CLX_LEVEL: u8 = 11;

/// A record whose remaining stream is zlib-compressed.
pub const CLX_COMPRESS: u8 = 76;

/// A record header that ends a block early.
pub const CLX_END: u8 = 0xFF;

} // verus!
