//! Reading a score text into notes and rests.
use vstd::prelude::*;

use crate::score::spec;
use crate::score::spec::{
    PartialNote, PartialOrRest, Token, DEFAULT_DURATION, DURATION_MAX_MICROS, NOTE_VELOCITY,
    SNIPPET_BYTES,
};
use crate::score::types::{
    Duration, EventView, NoteEvent, ParseError, ParseErrorView, RestEvent, ScoreEvent,
};
use crate::text::{chars_of, is_white_space_char, push_char};

verus! {

/// What carries over from one item of a score to the next: the default duration value,
/// and the tempo in quarter notes per minute.
pub struct ParseState {
    pub default_duration: u32,
    pub bpm: u32,
}

impl ParseState {
    /// The state at the start of a score: quarter notes by default.
    pub fn new(bpm: u32) -> (r: ParseState)
        ensures
            r.default_duration == DEFAULT_DURATION,
            r.bpm == bpm,
    {
        ParseState { default_duration: DEFAULT_DURATION, bpm }
    }

    /// The length of a duration value at this tempo.
    pub fn duration_to_ms(&self, value: u32, dotted: bool) -> (d: Duration)
        ensures
            d@ == spec::note_micros(self.bpm, value, dotted),
            d@ <= u64::MAX,
    {
        if self.bpm == 0 || value == 0 {
            return Duration::from_micros(u64::MAX);
        }
        let whole: u64 = if dotted {
            360_000_000
        } else {
            240_000_000
        };
        let b = self.bpm as u64;
        let v = value as u64;
        assert(0 < b * v <= 0xffff_ffff * 0xffff_ffff) by (nonlinear_arith)
            requires
                0 < b <= 0xffff_ffff,
                0 < v <= 0xffff_ffff,
        ;
        let per: u64 = b * v;
        Duration::from_micros(whole / per)
    }
}

/// The position after white space and comments, from position `i`.
pub fn skip_ws_and_comments(s: &Vec<char>, i: usize) -> (j: usize)
    requires
        i <= s.len(),
    ensures
        j == spec::skip(s@, i as int, false),
        i <= j <= s.len(),
{
    let mut k: usize = i;
    let mut in_comment = false;
    while k < s.len()
        invariant
            i <= k <= s.len(),
            spec::skip(s@, i as int, false) == spec::skip(s@, k as int, in_comment),
        decreases s.len() - k,
    {
        let c = s[k];
        if in_comment {
            in_comment = c != '\n';
        } else if is_white_space_char(c) {
        } else if c == '%' {
            in_comment = true;
        } else {
            return k;
        }
        k = k + 1;
    }
    k
}

fn at(s: &Vec<char>, k: usize, c: char) -> (r: bool)
    ensures
        r == spec::at(s@, k as int, c),
{
    k < s.len() && s[k] == c
}

fn semitone_of(c: char) -> (r: Option<u8>)
    ensures
        r == spec::semitone_of(c),
{
    if c == 'c' {
        Some(0)
    } else if c == 'd' {
        Some(2)
    } else if c == 'e' {
        Some(4)
    } else if c == 'f' {
        Some(5)
    } else if c == 'g' {
        Some(7)
    } else if c == 'a' {
        Some(9)
    } else if c == 'b' {
        Some(11)
    } else {
        None
    }
}

fn chars_from(s: &Vec<char>, k: usize) -> (r: String)
    requires
        k <= s.len(),
    ensures
        r@ == s@.subrange(k as int, s.len() as int),
{
    let mut out = String::new();
    let mut p: usize = k;
    while p < s.len()
        invariant
            k <= p <= s.len(),
            out@ == s@.subrange(k as int, p as int),
        decreases s.len() - p,
    {
        proof {
            assert(s@.subrange(k as int, p + 1) =~= s@.subrange(k as int, p as int).push(s@[p as int]));
        }
        push_char(&mut out, s[p]);
        p = p + 1;
    }
    out
}

/// Reads a note name (`c d e f g a b`) at the start of `input`: the rest of the text and
/// the note's semitone above C.
pub fn note_name(input: &str) -> (r: Option<(String, u8)>)
    ensures
        match r {
            Some((rest, semitone)) => input@.len() > 0 && spec::semitone_of(input@[0]) == Some(
                semitone,
            ) && rest@ == input@.drop_first(),
            None => input@.len() == 0 || spec::semitone_of(input@[0]) is None,
        },
{
    let s = chars_of(input);
    if s.len() == 0 {
        return None;
    }
    match semitone_of(s[0]) {
        Some(semitone) => {
            let rest = chars_from(&s, 1);
            assert(s@.subrange(1, s.len() as int) =~= input@.drop_first());
            Some((rest, semitone))
        },
        None => None,
    }
}

fn accidental_at(s: &Vec<char>, k: usize) -> (r: (i8, usize))
    requires
        k <= s.len(),
    ensures
        (r.0, r.1 as int) == spec::accidental_at(s@, k as int),
{
    if at(s, k, 'i') && at(s, k + 1, 's') && at(s, k + 2, 'i') && at(s, k + 3, 's') {
        (2, k + 4)
    } else if at(s, k, 'e') && at(s, k + 1, 's') && at(s, k + 2, 'e') && at(s, k + 3, 's') {
        (-2, k + 4)
    } else if at(s, k, 'i') && at(s, k + 1, 's') {
        (1, k + 2)
    } else if at(s, k, 'e') && at(s, k + 1, 's') {
        (-1, k + 2)
    } else {
        (0, k)
    }
}

/// Reads an accidental (`isis`, `eses`, `is`, `es`) at the start of `input`: the rest of
/// the text and the semitones it adds; `None` when there is none.
pub fn accidental(input: &str) -> (r: Option<(String, i8)>)
    ensures
        match r {
            Some((rest, a)) => spec::accidental_at(input@, 0).1 > 0 && a == spec::accidental_at(
                input@,
                0,
            ).0 && rest@ == input@.subrange(spec::accidental_at(input@, 0).1, input@.len() as int),
            None => spec::accidental_at(input@, 0).1 == 0,
        },
{
    let s = chars_of(input);
    let (a, k) = accidental_at(&s, 0);
    if k == 0 {
        None
    } else {
        Some((chars_from(&s, k), a))
    }
}

fn marks(s: &Vec<char>, k: usize) -> (r: Option<(usize, i8)>)
    requires
        k <= s.len(),
    ensures
        match r {
            Some((n, o)) => spec::marks(s@, k as int, 0) == Some((n as int, o)),
            None => spec::marks(s@, k as int, 0) is None,
        },
{
    let mut p: usize = k;
    let mut total: i16 = 0;
    while p < s.len() && (s[p] == '\'' || s[p] == ',')
        invariant
            k <= p <= s.len(),
            -128 <= total <= 127,
            spec::marks(s@, k as int, 0) == spec::marks(s@, p as int, total as int),
        decreases s.len() - p,
    {
        if s[p] == '\'' {
            total = total + 1;
        } else {
            total = total - 1;
        }
        if total < -128 || total > 127 {
            return None;
        }
        p = p + 1;
    }
    Some((p, total as i8))
}

fn duration_at(s: &Vec<char>, k: usize) -> (r: Option<(u32, usize)>)
    requires
        k <= s.len(),
    ensures
        match r {
            Some((v, n)) => spec::duration_at(s@, k as int) == Some((v, n as int)),
            None => spec::duration_at(s@, k as int) is None,
        },
{
    if at(s, k, '6') && at(s, k + 1, '4') {
        Some((64, k + 2))
    } else if at(s, k, '3') && at(s, k + 1, '2') {
        Some((32, k + 2))
    } else if at(s, k, '1') && at(s, k + 1, '6') {
        Some((16, k + 2))
    } else if at(s, k, '1') {
        Some((1, k + 1))
    } else if at(s, k, '2') {
        Some((2, k + 1))
    } else if at(s, k, '4') {
        Some((4, k + 1))
    } else if at(s, k, '8') {
        Some((8, k + 1))
    } else {
        None
    }
}

fn opt_duration(s: &Vec<char>, k: usize) -> (r: (Option<u32>, usize))
    requires
        k <= s.len(),
    ensures
        (r.0, r.1 as int) == spec::opt_duration(s@, k as int),
        r.1 <= s.len(),
{
    match duration_at(s, k) {
        Some((v, n)) => (Some(v), n),
        None => (None, k),
    }
}

fn token_at(s: &Vec<char>, j: usize) -> (r: (Token, usize))
    requires
        j < s.len(),
    ensures
        (r.0, r.1 as int) == spec::token_at(s@, j as int),
{
    if at(s, j, '|') {
        return (Token::Bar, j + 1);
    }
    if at(s, j, 'r') {
        let (d, k) = opt_duration(s, j + 1);
        let dot = at(s, k, '.');
        return (Token::Rest { duration: d, dotted: dot }, if dot { k + 1 } else { k });
    }
    match semitone_of(s[j]) {
        Some(semitone) => {
            let (acc, k1) = accidental_at(s, j + 1);
            proof {
                spec::lemma_marks_advances(s@, k1 as int, 0);
            }
            match marks(s, k1) {
                None => (Token::OctaveOverflow, k1),
                Some((k2, oct)) => {
                    let (d, k3) = opt_duration(s, k2);
                    let dot = at(s, k3, '.');
                    let k4 = if dot {
                        k3 + 1
                    } else {
                        k3
                    };
                    let tie = at(s, k4, '~');
                    (
                        Token::Note {
                            semitone,
                            accidental: acc,
                            octave: oct,
                            duration: d,
                            dotted: dot,
                            tied: tie,
                        },
                        if tie {
                            k4 + 1
                        } else {
                            k4
                        },
                    )
                },
            }
        },
        None => (Token::Unknown, j),
    }
}

/// The MIDI number of a note (`c` is C3, 48; each octave mark moves twelve semitones),
/// or `MidiOutOfRange` when it falls outside 0..=127.
pub fn compute_midi(semitone: u8, accidental: i8, octave_offset: i8) -> (r: Result<u8, ParseError>)
    ensures
        ({
            let m = spec::midi_number(semitone, accidental, octave_offset);
            if 0 <= m <= 127 {
                r == Ok::<u8, ParseError>(m as u8)
            } else {
                r matches Err(e) && e@ == ParseErrorView::MidiOutOfRange(m as i32)
            }
        }),
{
    let midi: i32 = 48i32 + semitone as i32 + accidental as i32 + (octave_offset as i32 * 12);
    if 0 <= midi && midi <= 127 {
        Ok(midi as u8)
    } else {
        Err(ParseError::MidiOutOfRange(midi))
    }
}

fn utf8_len(c: char) -> (r: usize)
    ensures
        r == spec::utf8_len(c),
{
    let u = c as u32;
    if u < 0x80 {
        1
    } else if u < 0x800 {
        2
    } else if u < 0x10000 {
        3
    } else {
        4
    }
}

/// The quoted text of an invalid-input error at position `k`.
fn error_snippet(s: &Vec<char>, k: usize) -> (r: Option<String>)
    requires
        k <= s.len(),
    ensures
        match r {
            Some(t) => spec::snippet(s@, k as int, SNIPPET_BYTES as nat) == Some(t@),
            None => spec::snippet(s@, k as int, SNIPPET_BYTES as nat) is None,
        },
{
    let mut out = String::new();
    let mut p: usize = k;
    let mut budget: usize = SNIPPET_BYTES;
    while p < s.len() && utf8_len(s[p]) <= budget
        invariant
            k <= p <= s.len(),
            budget <= SNIPPET_BYTES,
            spec::snippet(s@, k as int, SNIPPET_BYTES as nat) == match spec::snippet(
                s@,
                p as int,
                budget as nat,
            ) {
                Some(t) => Some(out@ + t),
                None => None::<Seq<char>>,
            },
        decreases s.len() - p,
    {
        let l = utf8_len(s[p]);
        let ghost before = out@;
        push_char(&mut out, s[p]);
        proof {
            match spec::snippet(s@, p + 1, (budget - l) as nat) {
                Some(t) => {
                    assert(before + (seq![s@[p as int]] + t) =~= out@ + t);
                },
                None => {},
            }
        }
        budget = budget - l;
        p = p + 1;
    }
    if p < s.len() && budget > 0 {
        return None;
    }
    proof {
        assert(out@ + Seq::<char>::empty() =~= out@);
    }
    Some(out)
}

fn same_pitch(p: &PartialOrRest, midi: u8) -> (r: bool)
    ensures
        r == (*p matches PartialOrRest::Note(n) && n.midi_note == midi),
{
    match p {
        PartialOrRest::Note(n) => n.midi_note == midi,
        PartialOrRest::Rest(_, _) => false,
    }
}

proof fn lemma_fit_push(done: Seq<EventView>, e: EventView)
    requires
        spec::durations_fit(done),
        spec::event_micros(e) <= DURATION_MAX_MICROS,
    ensures
        spec::durations_fit(done.push(e)),
{
    assert forall|k: int| 0 <= k < done.push(e).len() implies spec::event_micros(
        #[trigger] done.push(e)[k],
    ) <= DURATION_MAX_MICROS by {
        if k < done.len() {
            assert(done.push(e)[k] == done[k]);
        }
    }
}

/// The score events of notes and rests, or nothing when a joined tie is longer than the
/// largest duration.
fn resolve_checked(partials: &Vec<PartialOrRest>, state: &ParseState) -> (r: Option<
    Vec<ScoreEvent>,
>)
    ensures
        match r {
            Some(evs) => spec::durations_fit(spec::resolve(partials@, 0, state.bpm))
                && crate::score::types::events_view(evs@) == spec::resolve(partials@, 0, state.bpm),
            None => !spec::durations_fit(spec::resolve(partials@, 0, state.bpm)),
        },
{
    let ghost ps = partials@;
    let ghost bpm = state.bpm;
    let ghost all = spec::resolve(ps, 0, bpm);
    let mut result: Vec<ScoreEvent> = Vec::new();
    let mut i: usize = 0;
    assert(crate::score::types::events_view(result@) + all =~= all);
    while i < partials.len()
        invariant
            i <= partials.len(),
            ps == partials@,
            bpm == state.bpm,
            all == spec::resolve(ps, 0, bpm),
            spec::durations_fit(crate::score::types::events_view(result@)),
            crate::score::types::events_view(result@) + spec::resolve(ps, i as int, bpm) == all,
        decreases partials.len() - i,
    {
        let ghost done = crate::score::types::events_view(result@);
        match partials[i] {
            PartialOrRest::Rest(value, dotted) => {
                let d = state.duration_to_ms(value, dotted);
                result.push(ScoreEvent::Rest(RestEvent { duration: d }));
                proof {
                    let e = EventView::Rest { micros: d@ };
                    assert(crate::score::types::events_view(result@) =~= done.push(e));
                    assert(d@ <= u64::MAX);
                    assert(spec::event_micros(e) <= DURATION_MAX_MICROS);
                    lemma_fit_push(done, e);
                    assert(spec::resolve(ps, i as int, bpm) == seq![e] + spec::resolve(ps, i + 1, bpm));
                    assert(done.push(e) + spec::resolve(ps, i + 1, bpm) =~= done + (seq![e]
                        + spec::resolve(ps, i + 1, bpm)));
                }
                i = i + 1;
            },
            PartialOrRest::Note(note) => {
                let midi = note.midi_note;
                let first = state.duration_to_ms(note.duration_value, note.dotted);
                let mut total: u128 = first.as_micros();
                let mut tied = note.tied;
                let mut j: usize = i;
                let ghost chain = spec::tie_chain(ps, i as int, midi, note.tied, first@, bpm);
                proof {
                    spec::lemma_tie_chain_bounds(ps, i as int, midi, note.tied, first@, bpm);
                    let e = EventView::Note { midi_note: midi, micros: chain.1, velocity: note.velocity };
                    assert(spec::resolve(ps, i as int, bpm) == seq![e] + spec::resolve(ps, chain.0 + 1, bpm));
                    assert(all[done.len() as int] == e);
                }
                while tied && j + 1 < partials.len() && same_pitch(&partials[j + 1], midi)
                    invariant
                        i <= j < partials.len(),
                        ps == partials@,
                        bpm == state.bpm,
                        spec::tie_chain(ps, j as int, midi, tied, total as nat, bpm) == chain,
                        total <= chain.1,
                        total <= DURATION_MAX_MICROS,
                        all[done.len() as int] == (EventView::Note {
                            midi_note: midi,
                            micros: chain.1,
                            velocity: note.velocity,
                        }),
                        done == crate::score::types::events_view(result@),
                        done.len() < all.len(),
                        all == spec::resolve(ps, 0, bpm),
                    decreases partials.len() - j,
                {
                    let next = match partials[j + 1] {
                        PartialOrRest::Note(n) => n,
                        PartialOrRest::Rest(_, _) => {
                            proof {
                                assert(false);
                            }
                            note
                        },
                    };
                    let d = state.duration_to_ms(next.duration_value, next.dotted);
                    let ghost t0 = total;
                    proof {
                        spec::lemma_tie_chain_bounds(
                            ps,
                            j + 1,
                            midi,
                            next.tied,
                            (total + d@) as nat,
                            bpm,
                        );
                    }
                    total = total + d.as_micros();
                    if total > DURATION_MAX_MICROS {
                        proof {
                            assert(spec::tie_chain(ps, j + 1, midi, next.tied, (t0 + d@) as nat, bpm)
                                == chain);
                            assert(spec::event_micros(all[done.len() as int]) > DURATION_MAX_MICROS);
                        }
                        return None;
                    }
                    tied = next.tied;
                    j = j + 1;
                }
                assert(chain == (j as int, total as nat));
                result.push(
                    ScoreEvent::Note(
                        NoteEvent {
                            midi_note: midi,
                            duration: Duration::of_micros(total),
                            velocity: note.velocity,
                        },
                    ),
                );
                let next_i: usize = j + 1;
                proof {
                    let e = EventView::Note { midi_note: midi, micros: chain.1, velocity: note.velocity };
                    assert(crate::score::types::events_view(result@) =~= done.push(e));
                    lemma_fit_push(done, e);
                    assert(done.push(e) + spec::resolve(ps, next_i as int, bpm) =~= done + (seq![e]
                        + spec::resolve(ps, next_i as int, bpm)));
                }
                i = next_i;
            },
        }
    }
    proof {
        assert(crate::score::types::events_view(result@) + Seq::<EventView>::empty() =~= crate::score::types::events_view(result@));
    }
    Some(result)
}

/// Turns notes and rests into score events, joining each tie chain into one note whose
/// length is the sum of the chain's lengths.
pub fn resolve_ties(partials: &Vec<PartialOrRest>, state: &ParseState) -> (r: Result<
    Vec<ScoreEvent>,
    ParseError,
>)
    requires
        spec::durations_fit(spec::resolve(partials@, 0, state.bpm)),
    ensures
        r matches Ok(evs) && crate::score::types::events_view(evs@) == spec::resolve(partials@, 0, state.bpm),
{
    match resolve_checked(partials, state) {
        Some(evs) => Ok(evs),
        None => vstd::pervasive::unreached(),
    }
}

/// Reads a score. Notes are in absolute octave mode (`c` is C3, 48; `c'` is C4, 60); a
/// note or rest without a duration takes the last one written (a quarter at first); tied
/// notes of one pitch become one note. Text that is not a note, rest, bar line, white
/// space or comment, or a note outside the MIDI range, gives `InvalidInput` quoting the
/// text from there.
pub fn parse(input: &str, bpm: u32) -> (r: Result<Vec<ScoreEvent>, ParseError>)
    requires
        !(spec::parse_outcome(input@, bpm) is Fails),
    ensures
        match r {
            Ok(evs) => spec::parse_outcome(input@, bpm) == spec::ParseOutcome::Parsed(
                crate::score::types::events_view(evs@),
            ),
            Err(e) => spec::parse_outcome(input@, bpm) matches spec::ParseOutcome::Invalid(t)
                && e@ == ParseErrorView::InvalidInput(t),
        },
{
    match try_parse(input, bpm) {
        Some(r) => r,
        None => vstd::pervasive::unreached(),
    }
}

/// Reads a score as `parse` does, on every input: `None` exactly for the inputs that
/// `parse` leaves out (a running octave count beyond a signed byte, a quote of twenty
/// bytes that would cut a character, a tied note longer than the largest duration).
pub fn try_parse(input: &str, bpm: u32) -> (r: Option<Result<Vec<ScoreEvent>, ParseError>>)
    ensures
        match r {
            None => spec::parse_outcome(input@, bpm) is Fails,
            Some(Ok(evs)) => spec::parse_outcome(input@, bpm) == spec::ParseOutcome::Parsed(
                crate::score::types::events_view(evs@),
            ),
            Some(Err(e)) => spec::parse_outcome(input@, bpm) matches spec::ParseOutcome::Invalid(
                t,
            ) && e@ == ParseErrorView::InvalidInput(t),
        },
{
    let s = chars_of(input);
    let mut state = ParseState::new(bpm);
    let mut partials: Vec<PartialOrRest> = Vec::new();
    let mut pos: usize = 0;
    let ghost whole = spec::scan(s@, 0, DEFAULT_DURATION, Seq::empty());
    loop
        invariant
            pos <= s.len(),
            s@ == input@,
            state.bpm == bpm,
            whole == spec::scan(s@, 0, DEFAULT_DURATION, Seq::empty()),
            whole == spec::scan(s@, pos as int, state.default_duration, partials@),
        decreases s.len() - pos,
    {
        let j = skip_ws_and_comments(&s, pos);
        if j >= s.len() {
            let fresh = ParseState::new(bpm);
            return match resolve_checked(&partials, &fresh) {
                Some(evs) => Some(Ok(evs)),
                None => None,
            };
        }
        let (tok, n) = token_at(&s, j);
        proof {
            spec::lemma_token_advances(s@, j as int);
        }
        match tok {
            Token::Bar => {
                pos = n;
            },
            Token::Rest { duration, dotted } => {
                let d = match duration {
                    Some(v) => {
                        state.default_duration = v;
                        v
                    },
                    None => state.default_duration,
                };
                partials.push(PartialOrRest::Rest(d, dotted));
                pos = n;
            },
            Token::Note { semitone, accidental, octave, duration, dotted, tied } => {
                let d = match duration {
                    Some(v) => {
                        state.default_duration = v;
                        v
                    },
                    None => state.default_duration,
                };
                match compute_midi(semitone, accidental, octave) {
                    Ok(midi) => {
                        partials.push(
                            PartialOrRest::Note(
                                PartialNote {
                                    midi_note: midi,
                                    duration_value: d,
                                    dotted,
                                    tied,
                                    velocity: NOTE_VELOCITY,
                                },
                            ),
                        );
                        pos = n;
                    },
                    Err(_) => {
                        return match error_snippet(&s, j) {
                            Some(t) => Some(Err(ParseError::InvalidInput(t))),
                            None => None,
                        };
                    },
                }
            },
            Token::OctaveOverflow => {
                return None;
            },
            Token::Unknown => {
                return match error_snippet(&s, j) {
                    Some(t) => Some(Err(ParseError::InvalidInput(t))),
                    None => None,
                };
            },
        }
    }
}

/// Reads the octave marks at the start of `input`: the rest of the text and the number of
/// octaves they move (each `'` up, each `,` down).
pub fn octave_marks(input: &str) -> (r: (String, i8))
    requires
        spec::marks(input@, 0, 0) is Some,
    ensures
        spec::marks(input@, 0, 0) matches Some((n, o)) && r.1 == o && r.0@ == input@.subrange(
            n,
            input@.len() as int,
        ),
{
    let s = chars_of(input);
    proof {
        spec::lemma_marks_advances(s@, 0, 0);
    }
    match marks(&s, 0) {
        Some((n, o)) => (chars_from(&s, n), o),
        None => vstd::pervasive::unreached(),
    }
}

} // verus!
