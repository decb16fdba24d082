//! Verified logic behind the Virtua Grotesk figure renderers and the xix
//! calculator: PNG colour tagging, the walk round a glyph contour, font
//! family names, the training-log and harness-SVG readers, powers-of-two
//! labels and bit arithmetic, the label placer's decisions, the calculator's
//! state machine, and where figures read and write their files.

pub mod text;
pub mod calculator;
pub mod paths;
pub mod inputs;
pub mod powers;
pub mod png;
pub mod glyph;
pub mod runlog;
pub mod svg;
pub mod sfnt;
pub mod bits;
pub mod technical;
pub mod placement;
