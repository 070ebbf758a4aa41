//! The loops of an experiment: one per axis of the acquisition.

use crate::types::number::Number;
use vstd::prelude::*;

verus! {

/// The kinds of loop that the acquisition software knows, by their code
/// in the file.
#[derive(Debug, Clone, Copy, PartialEq, Eq, Structural)]
pub enum LoopType {
    Unknown,
    TimeLoop,
    XYPosLoop,
    XYDiscrLoop,
    ZStackLoop,
    PolarLoop,
    SpectLoop,
    CustomLoop,
    NETimeLoop,
    ManTimeLoop,
    ZStackLoopAccurate,
}

impl LoopType {
    /// The kind that a code in the file stands for.
    pub open spec fn spec_from_code(code: u32) -> Option<LoopType> {
        if code == 0 {
            Some(LoopType::Unknown)
        } else if code == 1 {
            Some(LoopType::TimeLoop)
        } else if code == 2 {
            Some(LoopType::XYPosLoop)
        } else if code == 3 {
            Some(LoopType::XYDiscrLoop)
        } else if code == 4 {
            Some(LoopType::ZStackLoop)
        } else if code == 5 {
            Some(LoopType::PolarLoop)
        } else if code == 6 {
            Some(LoopType::SpectLoop)
        } else if code == 7 {
            Some(LoopType::CustomLoop)
        } else if code == 8 {
            Some(LoopType::NETimeLoop)
        } else if code == 9 {
            Some(LoopType::ManTimeLoop)
        } else if code == 10 {
            Some(LoopType::ZStackLoopAccurate)
        } else {
            None
        }
    }

    /// The kind that a code in the file stands for.
    #[verifier::when_used_as_spec(spec_from_code)]
    pub fn from_code(code: u32) -> (kind: Option<LoopType>)
        ensures
            kind == LoopType::spec_from_code(code),
    {
        match code {
            0 => Some(LoopType::Unknown),
            1 => Some(LoopType::TimeLoop),
            2 => Some(LoopType::XYPosLoop),
            3 => Some(LoopType::XYDiscrLoop),
            4 => Some(LoopType::ZStackLoop),
            5 => Some(LoopType::PolarLoop),
            6 => Some(LoopType::SpectLoop),
            7 => Some(LoopType::CustomLoop),
            8 => Some(LoopType::NETimeLoop),
            9 => Some(LoopType::ManTimeLoop),
            10 => Some(LoopType::ZStackLoopAccurate),
            _ => None,
        }
    }

    /// The code that stands for the kind in the file.
    pub open spec fn spec_code(self) -> u32 {
        match self {
            LoopType::Unknown => 0,
            LoopType::TimeLoop => 1,
            LoopType::XYPosLoop => 2,
            LoopType::XYDiscrLoop => 3,
            LoopType::ZStackLoop => 4,
            LoopType::PolarLoop => 5,
            LoopType::SpectLoop => 6,
            LoopType::CustomLoop => 7,
            LoopType::NETimeLoop => 8,
            LoopType::ManTimeLoop => 9,
            LoopType::ZStackLoopAccurate => 10,
        }
    }

    /// The code that stands for the kind in the file.
    #[verifier::when_used_as_spec(spec_code)]
    pub fn code(self) -> (code: u32)
        ensures
            code == self.spec_code(),
            LoopType::spec_from_code(code) == Some(self),
    {
        match self {
            LoopType::Unknown => 0,
            LoopType::TimeLoop => 1,
            LoopType::XYPosLoop => 2,
            LoopType::XYDiscrLoop => 3,
            LoopType::ZStackLoop => 4,
            LoopType::PolarLoop => 5,
            LoopType::SpectLoop => 6,
            LoopType::CustomLoop => 7,
            LoopType::NETimeLoop => 8,
            LoopType::ManTimeLoop => 9,
            LoopType::ZStackLoopAccurate => 10,
        }
    }
}

/// One loop of the experiment.
#[derive(Debug, Clone, PartialEq)]
pub enum ExpLoop {
    TimeLoop(TimeLoop),
    NETimeLoop(NETimeLoop),
    XYPosLoop(XYPosLoop),
    ZStackLoop(ZStackLoop),
    CustomLoop(CustomLoop),
}

/// A time series with one period.
#[derive(Debug, Clone, Copy, PartialEq)]
pub struct TimeLoop {
    pub count: u32,
    pub nesting_level: u32,
    pub parameters: TimeLoopParams,
}

#[derive(Debug, Clone, Copy, PartialEq)]
pub struct TimeLoopParams {
    pub start_ms: Number,
    pub period_ms: Number,
    pub duration_ms: Number,
    pub period_diff: Option<PeriodDiff>,
}

#[derive(Debug, Clone, Copy, PartialEq)]
pub struct PeriodDiff {
    pub avg: Number,
    pub max: Number,
    pub min: Number,
}

/// A stack of focal planes.
#[derive(Debug, Clone, PartialEq)]
pub struct ZStackLoop {
    pub count: u32,
    pub nesting_level: u32,
    pub parameters: ZStackLoopParams,
}

#[derive(Debug, Clone, PartialEq)]
pub struct ZStackLoopParams {
    pub home_index: i32,
    pub step_um: Number,
    pub bottom_to_top: bool,
    pub device_name: Option<String>,
}

/// A series of stage positions.
#[derive(Debug, Clone, PartialEq)]
pub struct XYPosLoop {
    pub count: u32,
    pub nesting_level: u32,
    pub parameters: XYPosLoopParams,
}

/// The points of a position loop.
///
/// Where `reference_xy_um` is present the file stores the x and y of each
/// point relative to it: the stage position is the sum of the two, which
/// is left to the caller because it is a floating-point sum.
#[derive(Debug, Clone, PartialEq)]
pub struct XYPosLoopParams {
    pub is_setting_z: bool,
    pub reference_xy_um: Option<XYReference>,
    pub points: Vec<Position>,
}

/// The point that relative stage positions refer to.
#[derive(Debug, Clone, Copy, PartialEq)]
pub struct XYReference {
    pub x: Number,
    pub y: Number,
}

#[derive(Debug, Clone, PartialEq)]
pub struct Position {
    pub stage_position_um: StagePosition,
    pub pfs_offset: Option<Number>,
    pub name: Option<String>,
}

#[derive(Debug, Clone, Copy, PartialEq)]
pub struct StagePosition {
    pub x: Number,
    pub y: Number,
    pub z: Number,
}

/// A time series made of several periods.
#[derive(Debug, Clone, PartialEq)]
pub struct NETimeLoop {
    pub count: u32,
    pub nesting_level: u32,
    pub parameters: NETimeLoopParams,
}

#[derive(Debug, Clone, PartialEq)]
pub struct NETimeLoopParams {
    pub periods: Vec<Period>,
}

#[derive(Debug, Clone, Copy, PartialEq)]
pub struct Period {
    pub count: u32,
    pub start_ms: Number,
    pub period_ms: Number,
    pub duration_ms: Number,
    pub period_diff: Option<PeriodDiff>,
}

/// A loop that the user defined.
#[derive(Debug, Clone, Copy, PartialEq)]
pub struct CustomLoop {
    pub count: u32,
    pub nesting_level: u32,
}

/// The text of an optional string.
pub open spec fn text_of(s: Option<String>) -> Option<Seq<char>> {
    match s {
        Some(t) => Some(t@),
        None => None,
    }
}

/// What a `Position` says.
pub struct PositionModel {
    pub stage_position_um: StagePosition,
    pub pfs_offset: Option<Number>,
    pub name: Option<Seq<char>>,
}

impl View for Position {
    type V = PositionModel;

    open spec fn view(&self) -> PositionModel {
        PositionModel {
            stage_position_um: self.stage_position_um,
            pfs_offset: self.pfs_offset,
            name: text_of(self.name),
        }
    }
}

/// What the positions of a list say, in order.
pub open spec fn positions_view(points: Seq<Position>) -> Seq<PositionModel> {
    points.map_values(|p: Position| p@)
}

/// What an `ExpLoop` says.
pub enum LoopModel {
    Time(TimeLoop),
    NETime { count: u32, nesting_level: u32, periods: Seq<Period> },
    XYPos {
        count: u32,
        nesting_level: u32,
        is_setting_z: bool,
        reference_xy_um: Option<XYReference>,
        points: Seq<PositionModel>,
    },
    ZStack {
        count: u32,
        nesting_level: u32,
        home_index: i32,
        step_um: Number,
        bottom_to_top: bool,
        device_name: Option<Seq<char>>,
    },
    Custom(CustomLoop),
}

impl LoopModel {
    /// How often the loop runs.
    pub open spec fn count(self) -> u32 {
        match self {
            LoopModel::Time(l) => l.count,
            LoopModel::NETime { count, .. } => count,
            LoopModel::XYPos { count, .. } => count,
            LoopModel::ZStack { count, .. } => count,
            LoopModel::Custom(l) => l.count,
        }
    }
}

impl View for ExpLoop {
    type V = LoopModel;

    open spec fn view(&self) -> LoopModel {
        match self {
            ExpLoop::TimeLoop(l) => LoopModel::Time(*l),
            ExpLoop::NETimeLoop(l) => LoopModel::NETime {
                count: l.count,
                nesting_level: l.nesting_level,
                periods: l.parameters.periods@,
            },
            ExpLoop::XYPosLoop(l) => LoopModel::XYPos {
                count: l.count,
                nesting_level: l.nesting_level,
                is_setting_z: l.parameters.is_setting_z,
                reference_xy_um: l.parameters.reference_xy_um,
                points: positions_view(l.parameters.points@),
            },
            ExpLoop::ZStackLoop(l) => LoopModel::ZStack {
                count: l.count,
                nesting_level: l.nesting_level,
                home_index: l.parameters.home_index,
                step_um: l.parameters.step_um,
                bottom_to_top: l.parameters.bottom_to_top,
                device_name: text_of(l.parameters.device_name),
            },
            ExpLoop::CustomLoop(l) => LoopModel::Custom(*l),
        }
    }
}

impl ExpLoop {
    /// How often the loop runs.
    pub fn count(&self) -> (count: u32)
        ensures
            count == self@.count(),
    {
        match self {
            ExpLoop::TimeLoop(l) => l.count,
            ExpLoop::NETimeLoop(l) => l.count,
            ExpLoop::XYPosLoop(l) => l.count,
            ExpLoop::ZStackLoop(l) => l.count,
            ExpLoop::CustomLoop(l) => l.count,
        }
    }
}

/// What the loops of an experiment say, outermost first.
pub open spec fn loops_view(loops: Seq<ExpLoop>) -> Seq<LoopModel> {
    loops.map_values(|l: ExpLoop| l@)
}

} // verus!
