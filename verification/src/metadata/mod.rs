//! Interpretation of decoded metadata trees as the domain schema.

pub mod attributes;
pub mod experiment;
pub mod fields;
pub mod text_info;

pub use attributes::parse_attributes;
pub use experiment::{parse_experiment, parse_single_loop};
pub use text_info::parse_text_info;
