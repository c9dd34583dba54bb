//! Core engine of a guitar-practice tool: a musical score model, a
//! wall-clock-driven playback scheduler, a fixed-point plucked-string
//! synthesizer, and a chroma-based pitch matcher.
//!
//! Quantities that the problem domain treats as real numbers are held
//! here as fixed-point integers in micro-units (1 000 000 = 1.0), so that
//! every computation can be verified exactly.

pub mod chroma;
pub mod dtw;
pub mod guitar;
pub mod listener;
pub mod fixed;
pub mod music;
pub mod renderer;
pub mod scrubber;
pub mod synth;
