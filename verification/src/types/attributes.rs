//! Image attributes: dimensions, bit depth and compression.

use crate::types::number::Number;
use vstd::prelude::*;

verus! {

/// What the attributes chunk says of every frame in the file.
#[derive(Debug, Clone, Copy, PartialEq)]
pub struct Attributes {
    pub bits_per_component_in_memory: u32,
    pub bits_per_component_significant: u32,
    pub component_count: u32,
    pub height_px: u32,
    pub pixel_data_type: PixelDataType,
    pub sequence_count: u32,
    pub width_bytes: Option<u32>,
    pub width_px: Option<u32>,
    pub compression_level: Option<Number>,
    pub compression_type: Option<CompressionType>,
    pub tile_height_px: Option<u32>,
    pub tile_width_px: Option<u32>,
    pub channel_count: Option<u32>,
}

/// How a sample is to be read.
#[derive(Debug, Clone, Copy, PartialEq, Eq, Structural)]
pub enum PixelDataType {
    Float,
    Unsigned,
}

/// How the frames are stored.
#[derive(Debug, Clone, Copy, PartialEq, Eq, Structural)]
pub enum CompressionType {
    Lossless,
    Lossy,
    Uncompressed,
}

} // verus!
