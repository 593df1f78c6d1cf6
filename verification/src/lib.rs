//! A symmetric text codec for a pigpen-style substitution cipher built on a
//! fixed 5x5 letter grid.
//!
//! Encoding turns each letter of a line into a dot-run token that spells the
//! letter's 1-based grid coordinates; decoding re-parses the tokens with a
//! small two-phase state machine.  An optional remap table substitutes
//! characters before the grid lookup, or suppresses them outright.

pub mod grid;
pub mod text;
pub mod remap;
pub mod encoder;
pub mod decoder;
pub mod laws;
