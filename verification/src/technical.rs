//! The two semantic switches of the section 03 technical-drawing style.
//!
//! Geometry still tells smooth, corner and off-curve points apart in both
//! point palettes; the palette only decides what the point fills mean.

use vstd::prelude::*;

verus! {

/// Meaning carried by point fills.
#[derive(Clone, Copy, Debug, PartialEq, Eq, Structural)]
pub enum TechnicalPointPalette {
    /// The canonical `no` and `HO` treatment: two light-gray point tiers.
    Neutral,
    /// Green points lie on the 8-unit structure grid; red points lie off it.
    GridLevel,
}

/// How strongly the source grid reads behind the glyphs.
#[derive(Clone, Copy, Debug, PartialEq, Eq, Structural)]
pub enum TechnicalGridTone {
    Faint,
    Subtle,
}

} // verus!
