//! What a score text means: the grammar of the note language and the events it gives.
use vstd::prelude::*;

use crate::score::types::EventView;

verus! {

/// The duration value a note or rest has when none was written yet (a quarter).
pub const DEFAULT_DURATION: u32 = 4;

/// The velocity of every parsed note.
pub const NOTE_VELOCITY: u8 = 80;

/// How many bytes of the offending text an `InvalidInput` error quotes at most.
pub const SNIPPET_BYTES: usize = 20;

/// The largest duration representable: `u64::MAX` seconds and 999 999 microseconds.
pub const DURATION_MAX_MICROS: u128 = 18_446_744_073_709_551_615_999_999u128;

/// A note before ties are resolved.
#[derive(Debug, Clone, Copy, PartialEq, Eq, Structural)]
pub struct PartialNote {
    pub midi_note: u8,
    pub duration_value: u32,
    pub dotted: bool,
    pub tied: bool,
    pub velocity: u8,
}

/// A note or a rest (duration value, dotted) before ties are resolved.
#[derive(Debug, Clone, Copy, PartialEq, Eq, Structural)]
pub enum PartialOrRest {
    Note(PartialNote),
    Rest(u32, bool),
}

/// One lexical item of a score.
#[derive(Debug, Clone, Copy, PartialEq, Eq, Structural)]
pub enum Token {
    /// `|`
    Bar,
    /// `r`, an optional duration, an optional dot.
    Rest { duration: Option<u32>, dotted: bool },
    /// A note name, an optional accidental, octave marks, an optional duration, an
    /// optional dot, an optional tie.
    Note {
        semitone: u8,
        accidental: i8,
        octave: i8,
        duration: Option<u32>,
        dotted: bool,
        tied: bool,
    },
    /// A note whose running count of octave marks leaves the signed-byte range.
    OctaveOverflow,
    /// Anything else.
    Unknown,
}

/// Whether position `k` holds the character `c`.
pub open spec fn at(s: Seq<char>, k: int, c: char) -> bool {
    0 <= k < s.len() && s[k] == c
}

/// The position after white space and `%` comments (which run to the end of the line),
/// from position `i`; `in_comment` tells whether `i` is inside a comment.
pub open spec fn skip(s: Seq<char>, i: int, in_comment: bool) -> int
    decreases s.len() - i,
{
    if i < 0 || i >= s.len() {
        s.len() as int
    } else if in_comment {
        skip(s, i + 1, s[i] != '\n')
    } else if crate::text::is_white_space(s[i]) {
        skip(s, i + 1, false)
    } else if s[i] == '%' {
        skip(s, i + 1, true)
    } else {
        i
    }
}

/// The semitone above C of a note name `c d e f g a b`.
pub open spec fn semitone_of(c: char) -> Option<u8> {
    if c == 'c' {
        Some(0u8)
    } else if c == 'd' {
        Some(2u8)
    } else if c == 'e' {
        Some(4u8)
    } else if c == 'f' {
        Some(5u8)
    } else if c == 'g' {
        Some(7u8)
    } else if c == 'a' {
        Some(9u8)
    } else if c == 'b' {
        Some(11u8)
    } else {
        None
    }
}

/// The accidental at position `k` (`isis` +2, `eses` -2, `is` +1, `es` -1, else 0) and
/// the position after it.
pub open spec fn accidental_at(s: Seq<char>, k: int) -> (i8, int) {
    if at(s, k, 'i') && at(s, k + 1, 's') && at(s, k + 2, 'i') && at(s, k + 3, 's') {
        (2i8, k + 4)
    } else if at(s, k, 'e') && at(s, k + 1, 's') && at(s, k + 2, 'e') && at(s, k + 3, 's') {
        (-2i8, k + 4)
    } else if at(s, k, 'i') && at(s, k + 1, 's') {
        (1i8, k + 2)
    } else if at(s, k, 'e') && at(s, k + 1, 's') {
        (-1i8, k + 2)
    } else {
        (0i8, k)
    }
}

/// The octave marks from position `k` (each `'` one octave up, each `,` one down) added
/// to `total`, and the position after them; `None` when the running total leaves the
/// signed-byte range.
pub open spec fn marks(s: Seq<char>, k: int, total: int) -> Option<(int, i8)>
    decreases s.len() - k,
{
    if at(s, k, '\'') || at(s, k, ',') {
        let t = if s[k] == '\'' {
            total + 1
        } else {
            total - 1
        };
        if t < -128 || t > 127 {
            None
        } else {
            marks(s, k + 1, t)
        }
    } else {
        Some((k, total as i8))
    }
}

/// The duration value at position `k`, one of `64 32 16 1 2 4 8` tried in that order, and
/// the position after it.
pub open spec fn duration_at(s: Seq<char>, k: int) -> Option<(u32, int)> {
    if at(s, k, '6') && at(s, k + 1, '4') {
        Some((64u32, k + 2))
    } else if at(s, k, '3') && at(s, k + 1, '2') {
        Some((32u32, k + 2))
    } else if at(s, k, '1') && at(s, k + 1, '6') {
        Some((16u32, k + 2))
    } else if at(s, k, '1') {
        Some((1u32, k + 1))
    } else if at(s, k, '2') {
        Some((2u32, k + 1))
    } else if at(s, k, '4') {
        Some((4u32, k + 1))
    } else if at(s, k, '8') {
        Some((8u32, k + 1))
    } else {
        None
    }
}

/// An optional duration value at `k`, and the position after it.
pub open spec fn opt_duration(s: Seq<char>, k: int) -> (Option<u32>, int) {
    match duration_at(s, k) {
        Some((v, n)) => (Some(v), n),
        None => (None, k),
    }
}

/// The token at position `j` and the position after it.
pub open spec fn token_at(s: Seq<char>, j: int) -> (Token, int) {
    if at(s, j, '|') {
        (Token::Bar, j + 1)
    } else if at(s, j, 'r') {
        let (d, k) = opt_duration(s, j + 1);
        let dot = at(s, k, '.');
        (Token::Rest { duration: d, dotted: dot }, if dot { k + 1 } else { k })
    } else if 0 <= j < s.len() && semitone_of(s[j]) is Some {
        let (acc, k1) = accidental_at(s, j + 1);
        match marks(s, k1, 0) {
            None => (Token::OctaveOverflow, k1),
            Some((k2, oct)) => {
                let (d, k3) = opt_duration(s, k2);
                let dot = at(s, k3, '.');
                let k4 = if dot { k3 + 1 } else { k3 };
                let tie = at(s, k4, '~');
                (
                    Token::Note {
                        semitone: semitone_of(s[j])->0,
                        accidental: acc,
                        octave: oct,
                        duration: d,
                        dotted: dot,
                        tied: tie,
                    },
                    if tie { k4 + 1 } else { k4 },
                )
            },
        }
    } else {
        (Token::Unknown, j)
    }
}

/// The MIDI number of a note in absolute octave mode: `c` is C3 (48), each mark an octave.
pub open spec fn midi_number(semitone: u8, accidental: i8, octave: i8) -> int {
    48 + semitone + accidental + octave * 12
}

/// What scanning a score gives: the notes and rests, or the position of the text that
/// could not be read, or a failure of the running octave count.
pub enum ScanOutcome {
    Done(Seq<PartialOrRest>),
    Fail(int),
    Panic,
}

pub proof fn lemma_skip_advances(s: Seq<char>, i: int, c: bool)
    ensures
        skip(s, i, c) >= s.len() || skip(s, i, c) >= i,
    decreases s.len() - i,
{
    if 0 <= i < s.len() {
        lemma_skip_advances(s, i + 1, s[i] != '\n');
        lemma_skip_advances(s, i + 1, false);
        lemma_skip_advances(s, i + 1, true);
    }
}

pub proof fn lemma_marks_advances(s: Seq<char>, k: int, total: int)
    ensures
        marks(s, k, total) matches Some((n, _)) ==> n >= k && (k <= s.len() ==> n <= s.len()),
    decreases s.len() - k,
{
    if at(s, k, '\'') || at(s, k, ',') {
        lemma_marks_advances(s, k + 1, total + 1);
        lemma_marks_advances(s, k + 1, total - 1);
    }
}

pub proof fn lemma_token_advances(s: Seq<char>, j: int)
    ensures
        !(token_at(s, j).0 is Unknown) && !(token_at(s, j).0 is OctaveOverflow) ==> token_at(s, j).1
            > j,
        0 <= j < s.len() ==> token_at(s, j).1 <= s.len(),
{
    let (acc, k1) = accidental_at(s, j + 1);
    lemma_marks_advances(s, k1, 0);
}

/// Scans from position `i` with the current default duration value, after the items
/// `acc` already read. A note or rest without a duration takes the default; one with a
/// duration makes it the new default.
pub open spec fn scan(s: Seq<char>, i: int, default: u32, acc: Seq<PartialOrRest>) -> ScanOutcome
    decreases s.len() - i,
{
    let j = skip(s, i, false);
    if j >= s.len() {
        ScanOutcome::Done(acc)
    } else {
        let (t, n) = token_at(s, j);
        proof {
            lemma_skip_advances(s, i, false);
            lemma_token_advances(s, j);
        }
        match t {
            Token::Bar => scan(s, n, default, acc),
            Token::Rest { duration, dotted } => {
                let d = match duration {
                    Some(v) => v,
                    None => default,
                };
                scan(s, n, d, acc.push(PartialOrRest::Rest(d, dotted)))
            },
            Token::Note { semitone, accidental, octave, duration, dotted, tied } => {
                let d = match duration {
                    Some(v) => v,
                    None => default,
                };
                let m = midi_number(semitone, accidental, octave);
                if 0 <= m <= 127 {
                    scan(
                        s,
                        n,
                        d,
                        acc.push(
                            PartialOrRest::Note(
                                PartialNote {
                                    midi_note: m as u8,
                                    duration_value: d,
                                    dotted,
                                    tied,
                                    velocity: NOTE_VELOCITY,
                                },
                            ),
                        ),
                    )
                } else {
                    ScanOutcome::Fail(j)
                }
            },
            Token::OctaveOverflow => ScanOutcome::Panic,
            Token::Unknown => ScanOutcome::Fail(j),
        }
    }
}

/// The length in microseconds of a duration value (1 whole, 2 half, 4 quarter, ...) at
/// `bpm` quarter notes per minute, computed exactly and rounded down; a dot adds half. At
/// tempo 0 the length is the largest `u64`. (Computing in binary floating point instead
/// can land one microsecond lower at very high tempos, e.g. a dotted whole note at 3125.)
pub open spec fn note_micros(bpm: u32, value: u32, dotted: bool) -> nat {
    if bpm == 0 || value == 0 {
        u64::MAX as nat
    } else {
        (if dotted {
            360_000_000nat
        } else {
            240_000_000nat
        }) / (bpm as nat * value as nat)
    }
}

/// Follows a tie from the item at `i` (a note of pitch `midi`, tied when `tied`) over the
/// following notes of the same pitch, adding their lengths to `total`. Gives the position
/// of the last note merged into the chain and the summed length: a chain ends after a
/// note that is not tied, at the end of the items, or before an item that is not a note
/// of the same pitch (that item is left to sound on its own).
pub open spec fn tie_chain(
    ps: Seq<PartialOrRest>,
    i: int,
    midi: u8,
    tied: bool,
    total: nat,
    bpm: u32,
) -> (int, nat)
    decreases ps.len() - i,
{
    if !tied || i < 0 || i + 1 >= ps.len() {
        (i, total)
    } else {
        match ps[i + 1] {
            PartialOrRest::Note(next) => if next.midi_note == midi {
                tie_chain(
                    ps,
                    i + 1,
                    midi,
                    next.tied,
                    total + note_micros(bpm, next.duration_value, next.dotted),
                    bpm,
                )
            } else {
                (i, total)
            },
            PartialOrRest::Rest(_, _) => (i, total),
        }
    }
}

pub proof fn lemma_tie_chain_bounds(
    ps: Seq<PartialOrRest>,
    i: int,
    midi: u8,
    tied: bool,
    total: nat,
    bpm: u32,
)
    ensures
        tie_chain(ps, i, midi, tied, total, bpm).0 >= i,
        tie_chain(ps, i, midi, tied, total, bpm).1 >= total,
        i < ps.len() ==> tie_chain(ps, i, midi, tied, total, bpm).0 < ps.len(),
    decreases ps.len() - i,
{
    if tied && i >= 0 && i + 1 < ps.len() {
        match ps[i + 1] {
            PartialOrRest::Note(next) => {
                lemma_tie_chain_bounds(
                    ps,
                    i + 1,
                    midi,
                    next.tied,
                    total + note_micros(bpm, next.duration_value, next.dotted),
                    bpm,
                );
            },
            _ => {},
        }
    }
}

/// The events of the items from position `i` on. A rest becomes a rest; a note starts a
/// tie chain and becomes one note whose length is the chain's, and the item after the
/// last merged note comes next. Every item thus gives exactly one event unless it was
/// merged into a tie.
pub open spec fn resolve(ps: Seq<PartialOrRest>, i: int, bpm: u32) -> Seq<EventView>
    decreases ps.len() - i,
{
    if i < 0 || i >= ps.len() {
        Seq::empty()
    } else {
        match ps[i] {
            PartialOrRest::Rest(v, dotted) => seq![
                EventView::Rest { micros: note_micros(bpm, v, dotted) },
            ] + resolve(ps, i + 1, bpm),
            PartialOrRest::Note(n) => {
                let (j, total) = tie_chain(
                    ps,
                    i,
                    n.midi_note,
                    n.tied,
                    note_micros(bpm, n.duration_value, n.dotted),
                    bpm,
                );
                proof {
                    lemma_tie_chain_bounds(
                        ps,
                        i,
                        n.midi_note,
                        n.tied,
                        note_micros(bpm, n.duration_value, n.dotted),
                        bpm,
                    );
                }
                seq![EventView::Note { midi_note: n.midi_note, micros: total, velocity: n.velocity }]
                    + resolve(ps, j + 1, bpm)
            },
        }
    }
}

/// The length of an event.
pub open spec fn event_micros(e: EventView) -> nat {
    match e {
        EventView::Note { micros, .. } => micros,
        EventView::Rest { micros } => micros,
    }
}

/// Whether every event's length is a representable duration.
pub open spec fn durations_fit(evs: Seq<EventView>) -> bool {
    forall|k: int| 0 <= k < evs.len() ==> event_micros(#[trigger] evs[k]) <= DURATION_MAX_MICROS
}

/// The number of bytes of a character in UTF-8.
pub open spec fn utf8_len(c: char) -> nat {
    if (c as u32) < 0x80 {
        1
    } else if (c as u32) < 0x800 {
        2
    } else if (c as u32) < 0x10000 {
        3
    } else {
        4
    }
}

/// The characters from position `k` making up at most `budget` bytes of UTF-8: all of
/// them when they fit, else a prefix of exactly `budget` bytes; `None` when the cut would
/// fall inside a character.
pub open spec fn snippet(s: Seq<char>, k: int, budget: nat) -> Option<Seq<char>>
    decreases s.len() - k,
{
    if k < 0 || k >= s.len() {
        Some(Seq::empty())
    } else if utf8_len(s[k]) <= budget {
        match snippet(s, k + 1, (budget - utf8_len(s[k])) as nat) {
            Some(t) => Some(seq![s[k]] + t),
            None => None,
        }
    } else if budget == 0 {
        Some(Seq::empty())
    } else {
        None
    }
}

/// What reading a score gives: its events, or an invalid-input error quoting the text
/// where reading stopped, or a failure (a runaway octave count, a quote that would cut a
/// character, a length beyond the largest duration).
pub enum ParseOutcome {
    Parsed(Seq<EventView>),
    Invalid(Seq<char>),
    Fails,
}

pub open spec fn parse_outcome(s: Seq<char>, bpm: u32) -> ParseOutcome {
    match scan(s, 0, DEFAULT_DURATION, Seq::empty()) {
        ScanOutcome::Done(ps) => {
            let evs = resolve(ps, 0, bpm);
            if durations_fit(evs) {
                ParseOutcome::Parsed(evs)
            } else {
                ParseOutcome::Fails
            }
        },
        ScanOutcome::Fail(j) => match snippet(s, j, SNIPPET_BYTES as nat) {
            Some(t) => ParseOutcome::Invalid(t),
            None => ParseOutcome::Fails,
        },
        ScanOutcome::Panic => ParseOutcome::Fails,
    }
}

} // verus!
