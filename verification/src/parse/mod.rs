//! Decoding of the CLX-Lite encoding that metadata chunks use.

pub mod clx_lite;
pub mod text;
pub mod value;
pub mod walk;

pub use value::{ClxTree, ClxValue};
