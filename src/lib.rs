//! Text rendering core: glyph-run measurement, glyph bitmap decoding and
//! compositing into a four-plane RGBA buffer.
//!
//! The native shaping and rasterizing engines are driven by the caller; this
//! library receives their outputs as plain values (glyph records, glyph
//! metrics and glyph bitmaps) and turns them into a sized, filled buffer.

pub mod bitmap;
pub mod compose;
pub mod error;
pub mod glyph;
pub mod layout;
pub mod shape;
pub mod size;
