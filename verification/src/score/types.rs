use vstd::prelude::*;

use crate::text::{push_i64, push_str};

verus! {

/// A span of time, counted in microseconds.
#[derive(Debug, Clone, Copy, PartialEq, Eq, Structural)]
pub struct Duration {
    micros: u128,
}

impl View for Duration {
    type V = nat;

    closed spec fn view(&self) -> nat {
        self.micros as nat
    }
}

impl Duration {
    /// No duration is longer than the longest the platform's durations hold.
    #[verifier::type_invariant]
    spec fn within_range(self) -> bool {
        self.micros <= crate::score::spec::DURATION_MAX_MICROS
    }

    /// A duration of the given number of microseconds.
    pub fn from_micros(micros: u64) -> (d: Duration)
        ensures
            d@ == micros,
    {
        Duration { micros: micros as u128 }
    }

    /// A duration of the given number of milliseconds.
    pub fn from_millis(millis: u64) -> (d: Duration)
        ensures
            d@ == millis * 1000,
    {
        Duration { micros: millis as u128 * 1000 }
    }

    pub(crate) fn of_micros(micros: u128) -> (d: Duration)
        requires
            micros <= crate::score::spec::DURATION_MAX_MICROS,
        ensures
            d@ == micros,
    {
        Duration { micros }
    }

    /// The whole number of microseconds.
    pub fn as_micros(&self) -> (r: u128)
        ensures
            r == self@,
            r <= crate::score::spec::DURATION_MAX_MICROS,
    {
        proof {
            use_type_invariant(self);
        }
        self.micros
    }

    /// The whole number of milliseconds (rounded down).
    pub fn as_millis(&self) -> (r: u128)
        ensures
            r == self@ / 1000,
    {
        self.micros / 1000
    }
}

/// A note of a score: its MIDI note number (C4 = 60), how long it sounds, and how hard
/// it is struck.
#[derive(Debug, Clone, Copy, PartialEq, Eq, Structural)]
pub struct NoteEvent {
    pub midi_note: u8,
    pub duration: Duration,
    pub velocity: u8,
}

/// A rest: silence for a duration.
#[derive(Debug, Clone, Copy, PartialEq, Eq, Structural)]
pub struct RestEvent {
    pub duration: Duration,
}

/// An element of a parsed score.
#[derive(Debug, Clone, Copy, PartialEq, Eq, Structural)]
pub enum ScoreEvent {
    Note(NoteEvent),
    Rest(RestEvent),
}

/// The mathematical content of a score event, durations in microseconds.
pub enum EventView {
    Note { midi_note: u8, micros: nat, velocity: u8 },
    Rest { micros: nat },
}

pub open spec fn event_view(e: ScoreEvent) -> EventView {
    match e {
        ScoreEvent::Note(n) => EventView::Note {
            midi_note: n.midi_note,
            micros: n.duration@,
            velocity: n.velocity,
        },
        ScoreEvent::Rest(r) => EventView::Rest { micros: r.duration@ },
    }
}

pub open spec fn events_view(es: Seq<ScoreEvent>) -> Seq<EventView> {
    es.map_values(|e: ScoreEvent| event_view(e))
}

/// Why a score could not be read.
#[derive(Debug, Clone, PartialEq, Eq)]
pub enum ParseError {
    /// The text at the given place is not a note, rest or bar line, or names a note
    /// outside the MIDI range; holds the first twenty bytes of it.
    InvalidInput(String),
    /// A computed MIDI note number outside 0..=127.
    MidiOutOfRange(i32),
}

/// The mathematical content of a `ParseError`.
pub enum ParseErrorView {
    InvalidInput(Seq<char>),
    MidiOutOfRange(i32),
}

impl View for ParseError {
    type V = ParseErrorView;

    open spec fn view(&self) -> ParseErrorView {
        match self {
            ParseError::InvalidInput(s) => ParseErrorView::InvalidInput(s@),
            ParseError::MidiOutOfRange(m) => ParseErrorView::MidiOutOfRange(*m),
        }
    }
}

/// The message of a parse error.
pub open spec fn parse_error_text(e: ParseErrorView) -> Seq<char> {
    match e {
        ParseErrorView::InvalidInput(s) => "invalid input at: "@ + s,
        ParseErrorView::MidiOutOfRange(m) => "MIDI note out of range: "@
            + crate::text::decimal_i64_chars(m as i64),
    }
}

impl ParseError {
    /// The error's message.
    pub fn to_string(&self) -> (r: String)
        ensures
            r@ == parse_error_text(self@),
    {
        let mut out = String::new();
        match self {
            ParseError::InvalidInput(s) => {
                push_str(&mut out, "invalid input at: ");
                push_str(&mut out, s.as_str());
            },
            ParseError::MidiOutOfRange(m) => {
                push_str(&mut out, "MIDI note out of range: ");
                push_i64(&mut out, *m as i64);
            },
        }
        out
    }
}

} // verus!
