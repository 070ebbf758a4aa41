//! The domain schema: what the metadata of a file says, in typed form.

pub mod attributes;
pub mod experiment;
pub mod metadata;
pub mod number;
pub mod text_info;

pub use attributes::{Attributes, CompressionType, PixelDataType};
pub use experiment::{
    CustomLoop, ExpLoop, LoopModel, LoopType, NETimeLoop, NETimeLoopParams, Period, PeriodDiff,
    Position, PositionModel, StagePosition, TimeLoop, TimeLoopParams, XYPosLoop, XYPosLoopParams, XYReference,
    ZStackLoop, ZStackLoopParams,
};
pub use metadata::{
    AxisInterpretation, Channel, ChannelMeta, Color, Contents, LoopIndices, Metadata, Microscope,
    Volume,
};
pub use number::Number;
pub use text_info::TextInfo;
