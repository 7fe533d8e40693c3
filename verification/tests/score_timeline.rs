use haydn::score::timeline::{current_index, midi_to_name, note_display, total_duration};
use haydn::score::types::{Duration, NoteEvent, RestEvent, ScoreEvent};

#[test]
fn test_midi_to_name() {
    assert_eq!(midi_to_name(60), "C4");
    assert_eq!(midi_to_name(69), "A4");
    assert_eq!(midi_to_name(61), "C#4");
    assert_eq!(midi_to_name(48), "C3");
}

#[test]
fn test_total_duration() {
    let seq = vec![
        ScoreEvent::Note(NoteEvent {
            midi_note: 60,
            duration: Duration::from_millis(500),
            velocity: 80,
        }),
        ScoreEvent::Rest(RestEvent {
            duration: Duration::from_millis(250),
        }),
    ];
    assert_eq!(total_duration(&seq), Duration::from_millis(750));
}

#[test]
fn test_current_index() {
    let seq = vec![
        ScoreEvent::Note(NoteEvent {
            midi_note: 60,
            duration: Duration::from_millis(500),
            velocity: 80,
        }),
        ScoreEvent::Note(NoteEvent {
            midi_note: 64,
            duration: Duration::from_millis(500),
            velocity: 80,
        }),
    ];
    assert_eq!(current_index(&seq, Duration::from_millis(0)), 0);
    assert_eq!(current_index(&seq, Duration::from_millis(400)), 0);
    assert_eq!(current_index(&seq, Duration::from_millis(600)), 1);
}

#[test]
fn test_note_display() {
    let seq = vec![
        ScoreEvent::Note(NoteEvent {
            midi_note: 60,
            duration: Duration::from_millis(500),
            velocity: 80,
        }),
        ScoreEvent::Note(NoteEvent {
            midi_note: 62,
            duration: Duration::from_millis(500),
            velocity: 80,
        }),
        ScoreEvent::Note(NoteEvent {
            midi_note: 64,
            duration: Duration::from_millis(500),
            velocity: 80,
        }),
    ];
    let display = note_display(&seq, 1, 5);
    assert!(display.contains("[D4]"));
    assert!(display.contains("C4"));
    assert!(display.contains("E4"));
}

#[test]
fn timeline_note_display_exact_text() {
    let seq = vec![
        ScoreEvent::Note(NoteEvent { midi_note: 60, duration: Duration::from_millis(500), velocity: 80 }),
        ScoreEvent::Rest(RestEvent { duration: Duration::from_millis(500) }),
        ScoreEvent::Note(NoteEvent { midi_note: 64, duration: Duration::from_millis(500), velocity: 80 }),
    ];
    assert_eq!(note_display(&seq, 1, 5), "C4  →  [~]  →  E4");
    assert_eq!(note_display(&seq, 0, 2), "[C4]  →  ~");
    assert_eq!(note_display(&seq, 10, 2), "");
    assert_eq!(note_display(&Vec::new(), 0, 3), "");
}

#[test]
fn timeline_current_index_past_end_and_empty() {
    let seq = vec![
        ScoreEvent::Note(NoteEvent { midi_note: 60, duration: Duration::from_millis(500), velocity: 80 }),
        ScoreEvent::Rest(RestEvent { duration: Duration::from_millis(250) }),
    ];
    assert_eq!(current_index(&seq, Duration::from_millis(500)), 1);
    assert_eq!(current_index(&seq, Duration::from_millis(749)), 1);
    assert_eq!(current_index(&seq, Duration::from_millis(10_000)), 1);
    assert_eq!(current_index(&Vec::new(), Duration::from_millis(10)), 0);
    assert_eq!(total_duration(&Vec::new()), Duration::from_micros(0));
}
