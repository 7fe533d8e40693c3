use haydn::score::parser::{compute_midi, parse, resolve_ties, try_parse, ParseState};
use haydn::score::spec::{PartialNote, PartialOrRest};
use haydn::score::types::{Duration, NoteEvent, ParseError, ScoreEvent};

#[test]
fn parse_error_quotes_the_offending_text() {
    let err = parse("c'4 xyz", 120).unwrap_err();
    assert_eq!(err, ParseError::InvalidInput("xyz".to_string()));
    assert_eq!(err.to_string(), "invalid input at: xyz");
}

#[test]
fn parse_error_quote_is_cut_at_twenty_bytes() {
    let err = parse("q123456789012345678901234", 120).unwrap_err();
    assert_eq!(err, ParseError::InvalidInput("q1234567890123456789".to_string()));
}

#[test]
fn parse_note_out_of_midi_range_is_invalid_input() {
    let err = parse("c'''''''''' d", 120).unwrap_err();
    assert_eq!(err, ParseError::InvalidInput("c'''''''''' d".to_string()));
    let err = parse("c,,,,,", 120).unwrap_err();
    assert_eq!(err, ParseError::InvalidInput("c,,,,,".to_string()));
}

#[test]
fn compute_midi_out_of_range_error() {
    assert_eq!(compute_midi(0, 0, 7), Err(ParseError::MidiOutOfRange(132)));
    assert_eq!(compute_midi(0, -1, -4), Err(ParseError::MidiOutOfRange(-1)));
    assert_eq!(ParseError::MidiOutOfRange(-1).to_string(), "MIDI note out of range: -1");
    assert_eq!(compute_midi(7, 0, 6).unwrap(), 127);
    assert_eq!(compute_midi(0, 0, -4).unwrap(), 0);
}

#[test]
fn tie_to_a_different_pitch_keeps_the_next_note() {
    let result = parse("c'4~ d'4 e'4", 120).unwrap();
    assert_eq!(result.len(), 3);
    let notes: Vec<(u8, Duration)> = result
        .iter()
        .map(|e| match e {
            ScoreEvent::Note(n) => (n.midi_note, n.duration),
            ScoreEvent::Rest(_) => panic!("expected notes"),
        })
        .collect();
    assert_eq!(
        notes,
        vec![
            (60, Duration::from_millis(500)),
            (62, Duration::from_millis(500)),
            (64, Duration::from_millis(500)),
        ]
    );
}

#[test]
fn tie_before_a_rest_keeps_the_rest() {
    let result = parse("c'4~ r4 c'4", 120).unwrap();
    assert_eq!(result.len(), 3);
    assert!(matches!(result[1], ScoreEvent::Rest(_)));
}

#[test]
fn resolve_ties_keeps_note_after_broken_tie() {
    let partials = vec![
        PartialOrRest::Note(PartialNote { midi_note: 60, duration_value: 4, dotted: false, tied: true, velocity: 80 }),
        PartialOrRest::Note(PartialNote { midi_note: 62, duration_value: 4, dotted: false, tied: false, velocity: 80 }),
    ];
    let ret = resolve_ties(&partials, &ParseState::new(120));
    assert_eq!(
        ret,
        Ok(vec![
            ScoreEvent::Note(NoteEvent { midi_note: 60, duration: Duration::from_millis(500), velocity: 80 }),
            ScoreEvent::Note(NoteEvent { midi_note: 62, duration: Duration::from_millis(500), velocity: 80 }),
        ])
    );
}

#[test]
fn tie_at_end_of_score_keeps_the_note() {
    let result = parse("c'2~", 120).unwrap();
    assert_eq!(result.len(), 1);
    match &result[0] {
        ScoreEvent::Note(n) => assert_eq!(n.duration, Duration::from_millis(1000)),
        _ => panic!("expected note"),
    }
}

#[test]
fn tempo_zero_gives_longest_lengths() {
    let result = parse("c'4 r", 0).unwrap();
    match (&result[0], &result[1]) {
        (ScoreEvent::Note(n), ScoreEvent::Rest(r)) => {
            assert_eq!(n.duration, Duration::from_micros(u64::MAX));
            assert_eq!(r.duration, Duration::from_micros(u64::MAX));
        }
        _ => panic!("expected note then rest"),
    }
}

#[test]
fn rest_duration_carries_forward_to_notes() {
    let result = parse("r8 c' d'64 e'", 60).unwrap();
    let micros: Vec<u128> = result
        .iter()
        .map(|e| match e {
            ScoreEvent::Note(n) => n.duration.as_micros(),
            ScoreEvent::Rest(r) => r.duration.as_micros(),
        })
        .collect();
    assert_eq!(micros, vec![500_000, 500_000, 62_500, 62_500]);
}

#[test]
fn velocity_is_eighty_and_accidentals_combine() {
    let result = parse("cisis' ceses' gis,", 120).unwrap();
    let notes: Vec<(u8, u8)> = result
        .iter()
        .map(|e| match e {
            ScoreEvent::Note(n) => (n.midi_note, n.velocity),
            ScoreEvent::Rest(_) => panic!("expected notes"),
        })
        .collect();
    assert_eq!(notes, vec![(62, 80), (58, 80), (44, 80)]);
}

#[test]
fn comment_without_newline_ends_the_score() {
    let result = parse("c'4 % the rest is a comment d'4", 120).unwrap();
    assert_eq!(result.len(), 1);
}

#[test]
fn highest_and_lowest_midi_notes() {
    let result = parse("g'''''' c,,,,", 120).unwrap();
    let notes: Vec<u8> = result
        .iter()
        .map(|e| match e {
            ScoreEvent::Note(n) => n.midi_note,
            ScoreEvent::Rest(_) => panic!("expected notes"),
        })
        .collect();
    assert_eq!(notes, vec![127, 0]);
    assert_eq!(
        parse("gis''''''", 120).unwrap_err(),
        ParseError::InvalidInput("gis''''''".to_string())
    );
}

#[test]
fn try_parse_reports_the_inputs_parse_leaves_out() {

    let marks = format!("c{}", "'".repeat(130));
    assert!(try_parse(&marks, 120).is_none());
    assert!(try_parse("xxxxxxxxxxxxxxxxxxxé", 120).is_none());
    assert_eq!(
        try_parse("xxxxxxxxxxxxxxxxxxé", 120),
        Some(Err(ParseError::InvalidInput("xxxxxxxxxxxxxxxxxxé".to_string())))
    );
    assert_eq!(try_parse("c'4 d'", 120), Some(parse("c'4 d'", 120)));
    assert_eq!(try_parse("?", 120), Some(Err(ParseError::InvalidInput("?".to_string()))));
}
