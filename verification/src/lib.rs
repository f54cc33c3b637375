//! A text layout and mesh-assembly engine for 3D text.
//!
//! Given a font's glyph metrics and pre-tessellated glyph outlines, the
//! library breaks a string into lines at explicit newlines, justifies each
//! line, places a cursor for every character, and either merges the per-glyph
//! triangle meshes into one indexed mesh (anchored relative to its bounding
//! box) or emits one placement per character for independently positioned
//! meshes.
//!
//! All coordinates, advances and font metrics are fixed-point integers in
//! milli-units: 1000 units stand for one em. A host that reads fonts through
//! a tessellation library converts its fractional values to this scale before
//! calling in, and converts the resulting geometry back.

use vstd::prelude::*;

pub mod font;
pub mod geometry;
pub mod layout;
pub mod assemble;
pub mod placement;
pub mod laws;

verus! {

/// Longest text, in characters, that a layout pass accepts.
pub const MAX_TEXT_LEN: usize = 32768;

/// Largest advance width, in milli-units, of a well-formed glyph.
pub const MAX_ADVANCE: i64 = 1_000_000;

/// Largest magnitude, in milli-units, of a well-formed font metric
/// (ascender, descender, line gap).
pub const MAX_METRIC: i64 = 1_000_000;

/// Largest magnitude, in milli-units, of a coordinate of a local glyph mesh.
pub const MAX_COORD: i64 = 1_000_000_000;

/// Largest vertex count of a well-formed local glyph mesh.
pub const MAX_GLYPH_VERTICES: usize = 65536;

/// Advance, in milli-units, of a whitespace character for which the font
/// reports no glyph. The library applies this one fallback uniformly, in the
/// measuring path and in the layout paths alike.
pub const WHITESPACE_FALLBACK_ADVANCE: i64 = 300;

/// Denominator of the fractional pivot of a custom anchor: a pivot component
/// of 1000 stands for the whole extent of the bounding box.
pub const PIVOT_DENOM: i64 = 1000;

/// Largest magnitude of a custom anchor pivot component; pivots may reach
/// far outside the box, but must stay within this machine limit.
pub const MAX_PIVOT: i64 = 1_000_000;

/// Largest magnitude, in milli-units, that a layout cursor coordinate can
/// reach for a well-formed font and a text within [`MAX_TEXT_LEN`].
pub const MAX_CURSOR: i64 = 100_000_000_000;

/// Largest magnitude, in milli-units, of a merged vertex coordinate before
/// anchoring: a local coordinate translated by a cursor.
pub const MAX_POSITION: i64 = 200_000_000_000;

/// Largest magnitude, in milli-units, of an anchor translation derived from
/// a bounding box within [`MAX_POSITION`] and a pivot within [`MAX_PIVOT`].
pub const MAX_OFFSET: i64 = 500_000_000_000_000;

} // verus!
