//! The image attributes: dimensions, bit depth and compression.

use crate::error::{Fault, Nd2Error};
use crate::metadata::fields::{field_number, field_text, get_number};
use crate::parse::value::{entries_view, find_entry, lookup, ClxTree, ClxValue};
use crate::types::attributes::{Attributes, CompressionType, PixelDataType};
use vstd::prelude::*;
use vstd::string::StringExecFns;

verus! {

/// The entries that hold the attributes: those of the object under
/// `SLxImageAttributes` where the tree has one, and else those of the
/// tree itself. A tree that is no object holds none.
pub open spec fn attribute_entries(t: ClxTree) -> Option<Seq<(Seq<char>, ClxTree)>> {
    match t {
        ClxTree::Object(root) => match lookup(root, "SLxImageAttributes"@) {
            Some(ClxTree::Object(inner)) => Some(inner),
            _ => Some(root),
        },
        _ => None,
    }
}

/// The value of an integer attribute: the entry named `key`, or in its
/// place the one named `key` with `_u32` added, or with `_i32`.
pub open spec fn attribute_source(entries: Seq<(Seq<char>, ClxTree)>, key: Seq<char>) -> Option<
    ClxTree,
> {
    match lookup(entries, key) {
        Some(t) => Some(t),
        None => match lookup(entries, key + "_u32"@) {
            Some(t) => Some(t),
            None => lookup(entries, key + "_i32"@),
        },
    }
}

/// An integer attribute, read as an unsigned 32-bit number.
pub open spec fn attribute_u32(entries: Seq<(Seq<char>, ClxTree)>, key: Seq<char>) -> Option<u32> {
    match attribute_source(entries, key) {
        Some(t) => t.as_u32(),
        None => None,
    }
}

/// The sample type: floating point where the entry named `uiCompBPC`
/// holds the integer 3, signed or unsigned, as it is stored; unsigned
/// otherwise.
pub open spec fn pixel_type(entries: Seq<(Seq<char>, ClxTree)>) -> PixelDataType {
    match lookup(entries, "uiCompBPC"@) {
        Some(ClxTree::UInt(code)) => if code == 3 {
            PixelDataType::Float
        } else {
            PixelDataType::Unsigned
        },
        Some(ClxTree::Int(code)) => if code == 3 {
            PixelDataType::Float
        } else {
            PixelDataType::Unsigned
        },
        _ => PixelDataType::Unsigned,
    }
}

/// The compression that a word of the file names.
pub open spec fn compression_named(word: Seq<char>) -> CompressionType {
    if word == "lossless"@ {
        CompressionType::Lossless
    } else if word == "lossy"@ {
        CompressionType::Lossy
    } else {
        CompressionType::Uncompressed
    }
}

/// The compression of the frames: what the text of `eCompression`
/// names, if the file has it.
pub open spec fn compression_of(entries: Seq<(Seq<char>, ClxTree)>) -> Option<CompressionType> {
    match field_text(entries, "eCompression"@) {
        Some(word) => Some(compression_named(word)),
        None => None,
    }
}

/// Whether the entries hold every attribute that a file must have.
pub open spec fn has_required_attributes(entries: Seq<(Seq<char>, ClxTree)>) -> bool {
    &&& attribute_u32(entries, "uiBpcInMemory"@) is Some
    &&& attribute_u32(entries, "uiBpcSignificant"@) is Some
    &&& attribute_u32(entries, "uiComp"@) is Some
    &&& attribute_u32(entries, "uiHeight"@) is Some
    &&& attribute_u32(entries, "uiSequenceCount"@) is Some
}

/// The attributes that the entries spell, given that they hold the
/// required ones.
pub open spec fn attributes_from(entries: Seq<(Seq<char>, ClxTree)>) -> Attributes {
    Attributes {
        bits_per_component_in_memory: attribute_u32(entries, "uiBpcInMemory"@).unwrap(),
        bits_per_component_significant: attribute_u32(entries, "uiBpcSignificant"@).unwrap(),
        component_count: attribute_u32(entries, "uiComp"@).unwrap(),
        height_px: attribute_u32(entries, "uiHeight"@).unwrap(),
        pixel_data_type: pixel_type(entries),
        sequence_count: attribute_u32(entries, "uiSequenceCount"@).unwrap(),
        width_bytes: attribute_u32(entries, "uiWidthBytes"@),
        width_px: attribute_u32(entries, "uiWidth"@),
        compression_level: field_number(entries, "dCompressionParam"@),
        compression_type: compression_of(entries),
        tile_height_px: attribute_u32(entries, "uiTileHeight"@),
        tile_width_px: attribute_u32(entries, "uiTileWidth"@),
        channel_count: attribute_u32(entries, "uiChannelCount"@),
    }
}

/// The attributes that a decoded tree spells: none where the tree is no
/// object or lacks a required attribute.
pub open spec fn attributes_of(t: ClxTree) -> Option<Attributes> {
    match attribute_entries(t) {
        Some(entries) => if has_required_attributes(entries) {
            Some(attributes_from(entries))
        } else {
            None
        },
        None => None,
    }
}

/// Reads an integer attribute under its name or a suffixed name.
fn get_attribute_u32(entries: &Vec<(String, ClxValue)>, key: &str) -> (value: Option<u32>)
    ensures
        value == attribute_u32(entries_view(entries@), key@),
{
    match find_entry(entries, key) {
        Some(v) => v.to_u32(),
        None => {
            let with_u32 = String::from_str(key).concat("_u32");
            match find_entry(entries, with_u32.as_str()) {
                Some(v) => v.to_u32(),
                None => {
                    let with_i32 = String::from_str(key).concat("_i32");
                    match find_entry(entries, with_i32.as_str()) {
                        Some(v) => v.to_u32(),
                        None => None,
                    }
                },
            }
        },
    }
}

/// Whether a string slice holds exactly the given text.
fn word_is(s: &str, text: &str) -> (same: bool)
    ensures
        same == (s@ == text@),
{
    let a: String = s.to_owned();
    let b: String = text.to_owned();
    a == b
}

/// What went wrong when a required attribute is missing.
fn missing(key: &str) -> (e: Nd2Error)
    ensures
        e@ == Fault::MetadataParse,
{
    Nd2Error::MetadataParse(String::from_str("Missing or invalid ").concat(key))
}

/// Interprets a decoded attributes tree.
///
/// Fails with a metadata error where the tree is no object or lacks one
/// of `uiBpcInMemory`, `uiBpcSignificant`, `uiComp`, `uiHeight` and
/// `uiSequenceCount` as an integer.
pub fn parse_attributes(clx: ClxValue) -> (parsed: Result<Attributes, Nd2Error>)
    ensures
        match parsed {
            Ok(attributes) => attributes_of(clx@) == Some(attributes),
            Err(e) => attributes_of(clx@) is None && e@ == Fault::MetadataParse,
        },
{
    let root = match clx.as_object() {
        Some(root) => root,
        None => {
            return Err(
                Nd2Error::MetadataParse(String::from_str("Expected object for attributes")),
            );
        },
    };
    let obj: &Vec<(String, ClxValue)> = match find_entry(root, "SLxImageAttributes") {
        Some(ClxValue::Object(inner)) => inner,
        _ => root,
    };
    assert(attribute_entries(clx@) == Some(entries_view(obj@)));
    let bits_per_component_in_memory = match get_attribute_u32(obj, "uiBpcInMemory") {
        Some(v) => v,
        None => {
            return Err(missing("uiBpcInMemory"));
        },
    };
    let bits_per_component_significant = match get_attribute_u32(obj, "uiBpcSignificant") {
        Some(v) => v,
        None => {
            return Err(missing("uiBpcSignificant"));
        },
    };
    let component_count = match get_attribute_u32(obj, "uiComp") {
        Some(v) => v,
        None => {
            return Err(missing("uiComp"));
        },
    };
    let height_px = match get_attribute_u32(obj, "uiHeight") {
        Some(v) => v,
        None => {
            return Err(missing("uiHeight"));
        },
    };
    let sequence_count = match get_attribute_u32(obj, "uiSequenceCount") {
        Some(v) => v,
        None => {
            return Err(missing("uiSequenceCount"));
        },
    };
    let pixel_data_type = match find_entry(obj, "uiCompBPC") {
        Some(ClxValue::UInt(3)) => PixelDataType::Float,
        Some(ClxValue::Int(3)) => PixelDataType::Float,
        _ => PixelDataType::Unsigned,
    };
    let compression_type = match find_entry(obj, "eCompression") {
        Some(v) => match v.as_str() {
            Some(word) => Some(
                if word_is(word, "lossless") {
                    CompressionType::Lossless
                } else if word_is(word, "lossy") {
                    CompressionType::Lossy
                } else {
                    CompressionType::Uncompressed
                },
            ),
            None => None,
        },
        None => None,
    };
    Ok(
        Attributes {
            bits_per_component_in_memory,
            bits_per_component_significant,
            component_count,
            height_px,
            pixel_data_type,
            sequence_count,
            width_bytes: get_attribute_u32(obj, "uiWidthBytes"),
            width_px: get_attribute_u32(obj, "uiWidth"),
            compression_level: get_number(obj, "dCompressionParam"),
            compression_type,
            tile_height_px: get_attribute_u32(obj, "uiTileHeight"),
            tile_width_px: get_attribute_u32(obj, "uiTileWidth"),
            channel_count: get_attribute_u32(obj, "uiChannelCount"),
        },
    )
}

} // verus!
