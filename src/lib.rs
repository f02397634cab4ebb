//! Stereoscopic camera geometry: unit-annotated lengths, their parser, and
//! the distance and field-of-view formulas built on them.
pub mod decimal;
pub mod geometry;
pub mod length;
pub mod parse;
pub mod text;
