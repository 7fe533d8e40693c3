//! Scores in a LilyPond-like note language: notes with accidentals, octave marks,
//! durations, dots and ties; rests; bar lines; `%` comments.
pub mod types;
pub mod spec;
pub mod parser;
pub mod timeline;
pub mod midi_track;
pub mod laws;
