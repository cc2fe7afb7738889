//! Recognition and conversion of quantity mentions in free-form text.
//!
//! The crate holds a catalog of convertible measurements (physical units and
//! currencies), compiles two token patterns from that vocabulary, recognizes
//! `(unit, value)` occurrences in text, and converts a recognized quantity
//! into target units, special-casing the Celsius/Fahrenheit scales.
//!
//! Numeric magnitudes are exact decimal rationals (see [`rat::Ratio`]), so
//! every conversion result is specified and verified exactly.

pub mod conversion;
pub mod data;
pub mod laws;
pub mod pattern;
pub mod rat;
pub mod text;
