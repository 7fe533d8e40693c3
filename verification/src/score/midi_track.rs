//! The events of a single-track Standard MIDI File for a parsed score.
use vstd::prelude::*;

use crate::score::spec::DURATION_MAX_MICROS;
use crate::score::types::ScoreEvent;

verus! {

/// Ticks per quarter note of the written file.
pub const TICKS_PER_QUARTER: u16 = 480;

/// What a track event does.
#[derive(Debug, Clone, Copy, PartialEq, Eq, Structural)]
pub enum TrackKind {
    /// Tempo in microseconds per quarter note.
    Tempo(u32),
    NoteOn { key: u8, velocity: u8 },
    NoteOff { key: u8 },
    /// An empty text event that only carries the time of a rest.
    Text,
    EndOfTrack,
}

/// A track event: the ticks since the previous event, and what it does.
#[derive(Debug, Clone, Copy, PartialEq, Eq, Structural)]
pub struct TrackItem {
    pub delta: u32,
    pub kind: TrackKind,
}

/// A 28-bit delta time: the low 28 bits of the value.
pub open spec fn delta28(v: nat) -> u32 {
    (v % 0x1000_0000) as u32
}

/// The ticks of a length at a tempo: length in seconds × 480 ticks per quarter × `bpm` / 60,
/// computed exactly, rounded down and capped at the largest `u32`. A quarter note at a
/// tempo that divides a minute evenly is exactly 480 ticks. (Computing in binary floating
/// point instead can land one tick lower, e.g. 479 for a quarter note at 125 quarter notes
/// per minute.)
pub open spec fn ticks_of(micros: nat, bpm: u32) -> nat {
    let t: nat = micros * bpm as nat / 125_000;
    if t > u32::MAX {
        u32::MAX as nat
    } else {
        t
    }
}

/// The track events of one score event: a note is a note-on at once and a note-off after
/// its ticks (at least one); a rest of at least one tick is a text event after its ticks.
pub open spec fn event_items(e: ScoreEvent, bpm: u32) -> Seq<TrackItem> {
    match e {
        ScoreEvent::Note(n) => {
            let t = ticks_of(n.duration@, bpm);
            let ticks = if t < 1 {
                1
            } else {
                t
            };
            let key = if n.midi_note > 127 {
                127u8
            } else {
                n.midi_note
            };
            let vel = if n.velocity > 127 {
                127u8
            } else {
                n.velocity
            };
            seq![
                TrackItem { delta: 0, kind: TrackKind::NoteOn { key, velocity: vel } },
                TrackItem { delta: delta28(ticks), kind: TrackKind::NoteOff { key } },
            ]
        },
        ScoreEvent::Rest(r) => {
            let t = ticks_of(r.duration@, bpm);
            if t > 0 {
                seq![TrackItem { delta: delta28(t), kind: TrackKind::Text }]
            } else {
                Seq::empty()
            }
        },
    }
}

/// The track events of the first `k` score events.
pub open spec fn events_items(seq: Seq<ScoreEvent>, bpm: u32, k: int) -> Seq<TrackItem>
    decreases k,
{
    if k <= 0 {
        Seq::empty()
    } else {
        events_items(seq, bpm, k - 1) + event_items(seq[k - 1], bpm)
    }
}

/// The whole track: the tempo (its low 24 bits), the events, the end of the track.
pub open spec fn track_spec(seq: Seq<ScoreEvent>, bpm: u32) -> Seq<TrackItem> {
    seq![TrackItem { delta: 0, kind: TrackKind::Tempo(((60_000_000int / (bpm as int)) % 0x100_0000) as u32) }]
        + events_items(seq, bpm, seq.len() as int) + seq![
        TrackItem { delta: 0, kind: TrackKind::EndOfTrack },
    ]
}

fn micros_of(e: &ScoreEvent) -> (m: u128)
    ensures
        m <= DURATION_MAX_MICROS,
        m == match *e {
            ScoreEvent::Note(n) => n.duration@,
            ScoreEvent::Rest(r) => r.duration@,
        },
{
    match e {
        ScoreEvent::Note(n) => n.duration.as_micros(),
        ScoreEvent::Rest(r) => r.duration.as_micros(),
    }
}

fn ticks(micros: u128, bpm: u32) -> (t: u32)
    requires
        micros <= DURATION_MAX_MICROS,
    ensures
        t == ticks_of(micros as nat, bpm),
{
    assert(micros * bpm <= DURATION_MAX_MICROS * 0xffff_ffff) by (nonlinear_arith)
        requires
            micros <= DURATION_MAX_MICROS,
            bpm <= 0xffff_ffff,
    ;
    let t: u128 = micros * bpm as u128 / 125_000;
    if t > u32::MAX as u128 {
        u32::MAX
    } else {
        t as u32
    }
}

/// The single track of the MIDI file of a score at a tempo.
pub fn midi_track(sequence: &Vec<ScoreEvent>, bpm: u32) -> (track: Vec<TrackItem>)
    requires
        bpm > 0,
    ensures
        track@ == track_spec(sequence@, bpm),
{
    let mut track: Vec<TrackItem> = Vec::new();
    let tempo: u32 = (60_000_000u32 / bpm) % 0x100_0000;
    track.push(TrackItem { delta: 0, kind: TrackKind::Tempo(tempo) });
    let mut i: usize = 0;
    while i < sequence.len()
        invariant
            i <= sequence.len(),
            bpm > 0,
            track@ == seq![TrackItem { delta: 0, kind: TrackKind::Tempo(tempo) }] + events_items(
                sequence@,
                bpm,
                i as int,
            ),
            tempo == ((60_000_000int / (bpm as int)) % 0x100_0000) as u32,
        decreases sequence.len() - i,
    {
        let e = &sequence[i];
        let m = micros_of(e);
        let t = ticks(m, bpm);
        let ghost before = track@;
        match e {
            ScoreEvent::Note(n) => {
                let ticks: u32 = if t < 1 {
                    1
                } else {
                    t
                };
                let key: u8 = if n.midi_note > 127 {
                    127
                } else {
                    n.midi_note
                };
                let vel: u8 = if n.velocity > 127 {
                    127
                } else {
                    n.velocity
                };
                track.push(TrackItem { delta: 0, kind: TrackKind::NoteOn { key, velocity: vel } });
                track.push(TrackItem { delta: ticks % 0x1000_0000, kind: TrackKind::NoteOff { key } });
            },
            ScoreEvent::Rest(_) => {
                if t > 0 {
                    track.push(TrackItem { delta: t % 0x1000_0000, kind: TrackKind::Text });
                }
            },
        }
        proof {
            assert(track@ =~= before + event_items(sequence@[i as int], bpm));
            assert(seq![TrackItem { delta: 0, kind: TrackKind::Tempo(tempo) }] + events_items(
                sequence@,
                bpm,
                i + 1,
            ) =~= seq![TrackItem { delta: 0, kind: TrackKind::Tempo(tempo) }] + events_items(
                sequence@,
                bpm,
                i as int,
            ) + event_items(sequence@[i as int], bpm));
        }
        i = i + 1;
    }
    track.push(TrackItem { delta: 0, kind: TrackKind::EndOfTrack });
    track
}

} // verus!
