//! Four-channel colors and a parser for their hexadecimal text forms.
pub mod color;

pub use color::Color;
