//! A live session: MIDI note messages drive the tuning engine and the machine, and each
//! step is reported as a line of text.
pub mod text;
pub mod live;
