//! The score performer: synthesis choices and interpreting a score alongside playback.
pub mod synth;
pub mod interpret;
