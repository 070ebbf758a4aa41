//! The closed set of errors that the reader reports.

use crate::wording::{decimal_text, push_decimal, push_upper_hex, upper_hex_text};
use vstd::prelude::*;
use vstd::string::StringExecFns;

verus! {

/// Everything that can go wrong while reading an ND2 container.
#[derive(Debug, Clone)]
pub enum Nd2Error {
    /// A read reached past the end of the byte source.
    Io(String),
    /// A structural violation not covered by a more specific kind.
    InvalidFormat(String),
    /// A file or chunk header does not start with the expected magic.
    InvalidMagic { expected: u32, actual: u32 },
    /// A chunk header at the given position cannot be trusted.
    CorruptChunkHeader { position: u64 },
    /// The chunk directory has no entry of this name.
    ChunkNotFound { name: String },
    /// The trailer at the end of the file is not the directory signature.
    InvalidChunkmapSignature,
    /// A CLX-Lite stream is malformed or truncated.
    ClxParse(String),
    /// A CLX-Lite record carries a type code outside the known set.
    UnsupportedClxType(u8),
    /// A zlib stream could not be inflated.
    Decompression(String),
    /// A name or string is not valid UTF-16.
    Utf16Decode(String),
    /// The container version is not 2.x or 3.x.
    UnsupportedVersion { major: u32, minor: u32 },
    /// A required metadata field is missing or has the wrong type.
    MetadataParse(String),
}

/// An error without its wording: what contracts speak of.
#[derive(Debug, Clone, Copy, PartialEq, Eq)]
pub enum Fault {
    Io,
    InvalidFormat,
    InvalidMagic { expected: u32, actual: u32 },
    CorruptChunkHeader { position: u64 },
    ChunkNotFound,
    InvalidChunkmapSignature,
    ClxParse,
    UnsupportedClxType(u8),
    Decompression,
    Utf16Decode,
    UnsupportedVersion { major: u32, minor: u32 },
    MetadataParse,
}

impl View for Nd2Error {
    type V = Fault;

    open spec fn view(&self) -> Fault {
        match self {
            Nd2Error::Io(_) => Fault::Io,
            Nd2Error::InvalidFormat(_) => Fault::InvalidFormat,
            Nd2Error::InvalidMagic { expected, actual } => Fault::InvalidMagic {
                expected: *expected,
                actual: *actual,
            },
            Nd2Error::CorruptChunkHeader { position } => Fault::CorruptChunkHeader {
                position: *position,
            },
            Nd2Error::ChunkNotFound { name } => Fault::ChunkNotFound,
            Nd2Error::InvalidChunkmapSignature => Fault::InvalidChunkmapSignature,
            Nd2Error::ClxParse(_) => Fault::ClxParse,
            Nd2Error::UnsupportedClxType(code) => Fault::UnsupportedClxType(*code),
            Nd2Error::Decompression(_) => Fault::Decompression,
            Nd2Error::Utf16Decode(_) => Fault::Utf16Decode,
            Nd2Error::UnsupportedVersion { major, minor } => Fault::UnsupportedVersion {
                major: *major,
                minor: *minor,
            },
            Nd2Error::MetadataParse(_) => Fault::MetadataParse,
        }
    }
}

impl Nd2Error {
    /// The error in words.
    pub open spec fn wording(&self) -> Seq<char> {
        match self {
            Nd2Error::Io(message) => "IO error: "@ + message@,
            Nd2Error::InvalidFormat(message) => "Invalid ND2 file: "@ + message@,
            Nd2Error::InvalidMagic { expected, actual } => "Invalid magic number: expected 0x"@
                + upper_hex_text(*expected as nat, 8) + ", got 0x"@ + upper_hex_text(
                *actual as nat,
                8,
            ),
            Nd2Error::CorruptChunkHeader { position } => "Corrupt chunk header at position "@
                + decimal_text(*position as nat),
            Nd2Error::ChunkNotFound { name } => "Chunk '"@ + name@ + "' not found in chunkmap"@,
            Nd2Error::InvalidChunkmapSignature => "Invalid chunkmap signature"@,
            Nd2Error::ClxParse(message) => "CLX parsing error: "@ + message@,
            Nd2Error::UnsupportedClxType(code) => "Unsupported CLX data type: "@ + decimal_text(
                *code as nat,
            ),
            Nd2Error::Decompression(message) => "Decompression error: "@ + message@,
            Nd2Error::Utf16Decode(message) => "UTF-16 decoding error: "@ + message@,
            Nd2Error::UnsupportedVersion { major, minor } => "Unsupported file version: "@
                + decimal_text(*major as nat) + "."@ + decimal_text(*minor as nat),
            Nd2Error::MetadataParse(message) => "Metadata parse error: "@ + message@,
        }
    }

    /// Says the error in words: what kind it is, and what it carries.
    pub fn message(&self) -> (text: String)
        ensures
            text@ == self.wording(),
    {
        match self {
            Nd2Error::Io(message) => String::from_str("IO error: ").concat(message.as_str()),
            Nd2Error::InvalidFormat(message) => String::from_str("Invalid ND2 file: ").concat(
                message.as_str(),
            ),
            Nd2Error::InvalidMagic { expected, actual } => {
                let mut text = String::from_str("Invalid magic number: expected 0x");
                push_upper_hex(&mut text, *expected as u64, 8);
                text.append(", got 0x");
                push_upper_hex(&mut text, *actual as u64, 8);
                text
            },
            Nd2Error::CorruptChunkHeader { position } => {
                let mut text = String::from_str("Corrupt chunk header at position ");
                push_decimal(&mut text, *position);
                text
            },
            Nd2Error::ChunkNotFound { name } => String::from_str("Chunk '").concat(
                name.as_str(),
            ).concat("' not found in chunkmap"),
            Nd2Error::InvalidChunkmapSignature => String::from_str("Invalid chunkmap signature"),
            Nd2Error::ClxParse(message) => String::from_str("CLX parsing error: ").concat(
                message.as_str(),
            ),
            Nd2Error::UnsupportedClxType(code) => {
                let mut text = String::from_str("Unsupported CLX data type: ");
                push_decimal(&mut text, *code as u64);
                text
            },
            Nd2Error::Decompression(message) => String::from_str("Decompression error: ").concat(
                message.as_str(),
            ),
            Nd2Error::Utf16Decode(message) => String::from_str("UTF-16 decoding error: ").concat(
                message.as_str(),
            ),
            Nd2Error::UnsupportedVersion { major, minor } => {
                let mut text = String::from_str("Unsupported file version: ");
                push_decimal(&mut text, *major as u64);
                text.append(".");
                push_decimal(&mut text, *minor as u64);
                text
            },
            Nd2Error::MetadataParse(message) => String::from_str("Metadata parse error: ").concat(
                message.as_str(),
            ),
        }
    }

    /// The error without its wording.
    pub fn fault(&self) -> (fault: Fault)
        ensures
            fault == self@,
    {
        match self {
            Nd2Error::Io(_) => Fault::Io,
            Nd2Error::InvalidFormat(_) => Fault::InvalidFormat,
            Nd2Error::InvalidMagic { expected, actual } => Fault::InvalidMagic {
                expected: *expected,
                actual: *actual,
            },
            Nd2Error::CorruptChunkHeader { position } => Fault::CorruptChunkHeader {
                position: *position,
            },
            Nd2Error::ChunkNotFound { name } => Fault::ChunkNotFound,
            Nd2Error::InvalidChunkmapSignature => Fault::InvalidChunkmapSignature,
            Nd2Error::ClxParse(_) => Fault::ClxParse,
            Nd2Error::UnsupportedClxType(code) => Fault::UnsupportedClxType(*code),
            Nd2Error::Decompression(_) => Fault::Decompression,
            Nd2Error::Utf16Decode(_) => Fault::Utf16Decode,
            Nd2Error::UnsupportedVersion { major, minor } => Fault::UnsupportedVersion {
                major: *major,
                minor: *minor,
            },
            Nd2Error::MetadataParse(_) => Fault::MetadataParse,
        }
    }
}

} // verus!
