//! Glyph atlas layout for TrueType fonts: a shelf packer for glyph boxes,
//! the atlas built from a font's metrics, and the shaping of text into quads.
//!
//! All quantities are exact integers. Pixel coordinates in the atlas are whole
//! pixels; shaped text is given as numerators over a common denominator.

pub mod pack;
pub mod atlas;
pub mod shape;
pub mod font;
