//! Per-channel metadata.

use crate::types::attributes::PixelDataType;
use crate::types::number::Number;
use crate::wording::{lower_hex_pair, push_lower_hex_pair};
use vstd::prelude::*;
use vstd::string::StringExecFns;

verus! {

#[derive(Debug, Clone, PartialEq)]
pub struct Metadata {
    pub contents: Option<Contents>,
    pub channels: Option<Vec<Channel>>,
}

#[derive(Debug, Clone, PartialEq)]
pub struct Contents {
    pub channel_count: u32,
    pub frame_count: u32,
}

#[derive(Debug, Clone, PartialEq)]
pub struct Channel {
    pub channel: ChannelMeta,
    pub loops: Option<LoopIndices>,
    pub microscope: Microscope,
    pub volume: Volume,
}

#[derive(Debug, Clone, PartialEq)]
pub struct ChannelMeta {
    pub name: String,
    pub index: u32,
    pub color: Color,
    pub emission_lambda_nm: Option<Number>,
    pub excitation_lambda_nm: Option<Number>,
}

/// A display colour with an alpha channel.
#[derive(Debug, Clone, Copy, PartialEq, Eq, Structural)]
pub struct Color {
    pub r: u8,
    pub g: u8,
    pub b: u8,
    pub a: u8,
}

impl Color {
    /// The colour that a packed number stands for: red in the lowest
    /// byte, then green, blue and alpha.
    pub open spec fn spec_from_abgr_u32(val: u32) -> Color {
        Color {
            r: (val & 0xFF) as u8,
            g: ((val >> 8) & 0xFF) as u8,
            b: ((val >> 16) & 0xFF) as u8,
            a: ((val >> 24) & 0xFF) as u8,
        }
    }

    /// Unpacks a colour: red is the lowest byte, then green, blue and
    /// alpha.
    #[verifier::when_used_as_spec(spec_from_abgr_u32)]
    pub fn from_abgr_u32(val: u32) -> (color: Color)
        ensures
            color == Color::spec_from_abgr_u32(val),
            color.r as int == val as int % 256,
            color.g as int == (val as int / 0x100) % 256,
            color.b as int == (val as int / 0x1_0000) % 256,
            color.a as int == val as int / 0x100_0000,
    {
        assert((val & 0xFF) == val % 256 && (val & 0xFF) < 256) by (bit_vector);
        assert(((val >> 8) & 0xFF) == (val / 0x100) % 256 && ((val >> 8) & 0xFF) < 256)
            by (bit_vector);
        assert(((val >> 16) & 0xFF) == (val / 0x1_0000) % 256 && ((val >> 16) & 0xFF) < 256)
            by (bit_vector);
        assert(((val >> 24) & 0xFF) == val / 0x100_0000 && ((val >> 24) & 0xFF) < 256)
            by (bit_vector);
        Color {
            r: (val & 0xFF) as u8,
            g: ((val >> 8) & 0xFF) as u8,
            b: ((val >> 16) & 0xFF) as u8,
            a: ((val >> 24) & 0xFF) as u8,
        }
    }

    /// The colour as `#rrggbb`, without the alpha channel.
    pub open spec fn spec_as_hex(&self) -> Seq<char> {
        seq!['#'] + lower_hex_pair(self.r) + lower_hex_pair(self.g) + lower_hex_pair(self.b)
    }

    /// The colour as `#rrggbb`, in lower-case hexadecimal digits and
    /// without the alpha channel.
    pub fn as_hex(&self) -> (text: String)
        ensures
            text@ == self.spec_as_hex(),
            text@.len() == 7,
    {
        proof {
            reveal_strlit("#");
        }
        let mut out = String::from_str("#");
        assert(out@ =~= seq!['#']);
        push_lower_hex_pair(&mut out, self.r);
        push_lower_hex_pair(&mut out, self.g);
        push_lower_hex_pair(&mut out, self.b);
        out
    }
}

#[derive(Debug, Clone, PartialEq)]
pub struct LoopIndices {
    pub ne_time_loop: Option<u32>,
    pub time_loop: Option<u32>,
    pub xy_pos_loop: Option<u32>,
    pub z_stack_loop: Option<u32>,
    pub custom_loop: Option<u32>,
}

#[derive(Debug, Clone, PartialEq)]
pub struct Microscope {
    pub objective_magnification: Option<Number>,
    pub objective_name: Option<String>,
    pub objective_numerical_aperture: Option<Number>,
    pub zoom_magnification: Option<Number>,
    pub immersion_refractive_index: Option<Number>,
    pub projective_magnification: Option<Number>,
    pub pinhole_diameter_um: Option<Number>,
}

#[derive(Debug, PartialEq)]
pub struct Volume {
    pub axes_calibrated: (bool, bool, bool),
    pub axes_calibration: (Number, Number, Number),
    pub axes_interpretation: (AxisInterpretation, AxisInterpretation, AxisInterpretation),
    pub bits_per_component_in_memory: u32,
    pub bits_per_component_significant: u32,
    pub camera_transformation_matrix: (Number, Number, Number, Number),
    pub component_count: u32,
    pub component_data_type: PixelDataType,
    pub voxel_count: (u32, u32, u32),
    pub component_maxima: Option<Vec<Number>>,
    pub component_minima: Option<Vec<Number>>,
    pub pixel_to_stage_transformation_matrix: Option<(Number, Number, Number, Number, Number, Number)>,
}

impl Clone for Volume {
    fn clone(&self) -> (copy: Volume)
        ensures
            copy.axes_calibrated == self.axes_calibrated,
            copy.axes_calibration == self.axes_calibration,
            copy.axes_interpretation == self.axes_interpretation,
            copy.bits_per_component_in_memory == self.bits_per_component_in_memory,
            copy.bits_per_component_significant == self.bits_per_component_significant,
            copy.camera_transformation_matrix == self.camera_transformation_matrix,
            copy.component_count == self.component_count,
            copy.component_data_type == self.component_data_type,
            copy.voxel_count == self.voxel_count,
            copy.pixel_to_stage_transformation_matrix == self.pixel_to_stage_transformation_matrix,
    {
        Volume {
            axes_calibrated: self.axes_calibrated,
            axes_calibration: self.axes_calibration,
            axes_interpretation: self.axes_interpretation,
            bits_per_component_in_memory: self.bits_per_component_in_memory,
            bits_per_component_significant: self.bits_per_component_significant,
            camera_transformation_matrix: self.camera_transformation_matrix,
            component_count: self.component_count,
            component_data_type: self.component_data_type,
            voxel_count: self.voxel_count,
            component_maxima: self.component_maxima.clone(),
            component_minima: self.component_minima.clone(),
            pixel_to_stage_transformation_matrix: self.pixel_to_stage_transformation_matrix,
        }
    }
}

#[derive(Debug, Clone, Copy, PartialEq, Eq, Structural)]
pub enum AxisInterpretation {
    Distance,
    Time,
}

} // verus!
