//! Apple Haptic Audio Pattern documents: JSON descriptions of haptic and
//! audio events and of the curves that automate their parameters over time.
//!
//! * [`pattern`] holds the document tree and the calls that build it. A
//!   document only ever grows: entries are appended, never removed or
//!   rewritten.
//! * [`curve`] makes the control points of a straight ramp, rounded to three
//!   decimals.
//! * [`frequency`] places a frequency between 80 Hz and 230 Hz on a
//!   logarithmic scale, with [`natural`] for the large numbers that takes.
//! * [`encode`] and [`decode`] write a document as JSON and read it back;
//!   [`laws`] states what holds between the two; [`json`] is the ground
//!   they stand on.
//!
//! Every number in a document is a [`Scalar`], a decimal of six fractional
//! digits, so that the arithmetic on it is exact.

pub mod curve;
pub mod decimal;
pub mod decode;
pub mod digits;
pub mod encode;
pub mod format;
pub mod frequency;
pub mod ids;
pub mod json;
pub mod laws;
pub mod natural;
pub mod pattern;
pub mod scalar;
pub mod text;

pub use format::{Field, FormatError};
pub use frequency::NormalizeError;
pub use ids::{CurveParamID, ParamID};
pub use pattern::{
    AhapView, Event, EventPattern, EventPatternView, EventView, HapticCurve, Metadata,
    MetadataView, Parameter, ParameterCurve, ParameterCurveView, AHAP,
};
pub use scalar::Scalar;
