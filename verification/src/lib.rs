//! An ASCII renderer for scenes of signed-distance-field primitives.
//!
//! All geometry is carried in fixed-point coordinates: one world unit is
//! `math::SCALE` raw units, and every operation rounds toward negative
//! infinity. This keeps the whole pipeline — vectors, signed distance
//! functions, sphere tracing and shading — in exact integer arithmetic,
//! so each function's contract pins its result completely.

pub mod demo;
pub mod math;
pub mod raymarch;
pub mod render;
pub mod vector;
