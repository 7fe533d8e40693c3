//! Haydn: a stack machine driven by musical events, the tuning engine that maps notes
//! to machine events, and a score reader for LilyPond-style note text.
pub mod text;
pub mod vm;
pub mod tuning;
pub mod score;
pub mod session;
pub mod performer;
pub mod audio;
