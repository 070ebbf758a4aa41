//! Reader for the Nikon ND2 microscopy container (format versions 2.x and 3.x).
//!
//! The library works on the bytes of a file that the caller has already
//! loaded. It validates the file header, decodes the chunk directory at the
//! end of the file, decodes the CLX-Lite metadata trees, interprets them as
//! image attributes, text information and experiment loops, derives the
//! logical axes (P, T, C, Z, Y, X) and repacks image frames into planar
//! 16-bit samples. Every function is verified against a contract stated
//! over byte sequences and value trees.

pub mod axes;
pub mod chunk;
pub mod constants;
pub mod error;
pub mod frame;
pub mod inflate;
pub mod le;
pub mod metadata;
pub mod parse;
pub mod ravel;
pub mod reader;
pub mod types;
pub mod wording;

pub use error::{Fault, Nd2Error};
pub use reader::Nd2File;
pub use types::{
    Attributes, AxisInterpretation, Channel, ChannelMeta, Color, CompressionType, Contents,
    CustomLoop, ExpLoop, LoopIndices, LoopType, Metadata, Microscope, NETimeLoop,
    NETimeLoopParams, Number, Period, PeriodDiff, PixelDataType, Position, StagePosition,
    TextInfo, TimeLoop, TimeLoopParams, Volume, XYPosLoop, XYPosLoopParams, XYReference,
    ZStackLoop, ZStackLoopParams,
};
