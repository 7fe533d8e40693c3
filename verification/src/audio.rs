//! Errors of the audio subsystem.
use vstd::prelude::*;

use crate::text::push_str;

verus! {

/// Errors from the audio subsystem.
#[derive(Debug, Clone, PartialEq, Eq)]
pub enum AudioError {
    DeviceNotFound(String),
    StreamError(String),
    ConfigError(String),
}

/// The message of an audio error.
pub open spec fn audio_error_text(e: AudioError) -> Seq<char> {
    match e {
        AudioError::DeviceNotFound(s) => "audio device not found: "@ + s@,
        AudioError::StreamError(s) => "audio stream error: "@ + s@,
        AudioError::ConfigError(s) => "audio config error: "@ + s@,
    }
}

impl AudioError {
    /// The error's message.
    pub fn to_string(&self) -> (r: String)
        ensures
            r@ == audio_error_text(*self),
    {
        let mut out = String::new();
        match self {
            AudioError::DeviceNotFound(s) => {
                push_str(&mut out, "audio device not found: ");
                push_str(&mut out, s.as_str());
            },
            AudioError::StreamError(s) => {
                push_str(&mut out, "audio stream error: ");
                push_str(&mut out, s.as_str());
            },
            AudioError::ConfigError(s) => {
                push_str(&mut out, "audio config error: ");
                push_str(&mut out, s.as_str());
            },
        }
        out
    }
}

} // verus!
