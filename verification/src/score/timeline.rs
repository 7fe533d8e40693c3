//! Where playback stands in a parsed score: total length, the event sounding at a time,
//! and the scrolling line of note names.
use vstd::prelude::*;

use crate::score::spec::DURATION_MAX_MICROS;
use crate::score::types::{Duration, ScoreEvent};
use crate::text::push_str;

verus! {

/// The name of a MIDI note, such as `C4` for 60.
pub fn midi_to_name(midi: u8) -> (r: String)
    ensures
        r@ == crate::session::text::note_name_text(midi),
{
    crate::session::text::note_name(midi)
}

/// The length of an event in microseconds.
pub open spec fn length_of(e: ScoreEvent) -> nat {
    match e {
        ScoreEvent::Note(n) => n.duration@,
        ScoreEvent::Rest(r) => r.duration@,
    }
}

/// The summed length of the first `k` events.
pub open spec fn elapsed_after(seq: Seq<ScoreEvent>, k: int) -> nat
    decreases k,
{
    if k <= 0 {
        0
    } else {
        elapsed_after(seq, k - 1) + length_of(seq[k - 1])
    }
}

fn length(e: &ScoreEvent) -> (d: Duration)
    ensures
        d@ == length_of(*e),
{
    match e {
        ScoreEvent::Note(n) => n.duration,
        ScoreEvent::Rest(r) => r.duration,
    }
}

pub(crate) proof fn lemma_elapsed_grows(seq: Seq<ScoreEvent>, j: int, k: int)
    requires
        0 <= j <= k,
    ensures
        elapsed_after(seq, j) <= elapsed_after(seq, k),
    decreases k - j,
{
    if j < k {
        lemma_elapsed_grows(seq, j, k - 1);
    }
}

/// The length of the whole score.
pub fn total_duration(sequence: &Vec<ScoreEvent>) -> (d: Duration)
    requires
        elapsed_after(sequence@, sequence@.len() as int) <= DURATION_MAX_MICROS,
    ensures
        d@ == elapsed_after(sequence@, sequence@.len() as int),
{
    let mut acc: u128 = 0;
    let mut i: usize = 0;
    while i < sequence.len()
        invariant
            i <= sequence.len(),
            acc == elapsed_after(sequence@, i as int),
            elapsed_after(sequence@, sequence@.len() as int) <= DURATION_MAX_MICROS,
        decreases sequence.len() - i,
    {
        let d = length(&sequence[i]);
        proof {
            lemma_elapsed_grows(sequence@, i + 1, sequence@.len() as int);
        }
        acc = acc + d.as_micros();
        i = i + 1;
    }
    Duration::of_micros(acc)
}

/// The first event whose end lies past `t`, searching from position `i`.
pub open spec fn sounding_from(seq: Seq<ScoreEvent>, t: nat, i: int) -> Option<int>
    decreases seq.len() - i,
{
    if i < 0 || i >= seq.len() {
        None
    } else if elapsed_after(seq, i + 1) > t {
        Some(i)
    } else {
        sounding_from(seq, t, i + 1)
    }
}

/// The event sounding `t` microseconds into playback: the first one that ends after `t`,
/// or the last one once the score is over (0 for an empty score).
pub open spec fn sounding_at(seq: Seq<ScoreEvent>, t: nat) -> int {
    match sounding_from(seq, t, 0) {
        Some(i) => i,
        None => if seq.len() > 0 {
            seq.len() - 1
        } else {
            0
        },
    }
}

/// The index of the event sounding after `elapsed` of playback.
pub fn current_index(sequence: &Vec<ScoreEvent>, elapsed: Duration) -> (r: usize)
    ensures
        r == sounding_at(sequence@, elapsed@),
{
    let mut acc: u128 = 0;
    let mut i: usize = 0;
    while i < sequence.len()
        invariant
            i <= sequence.len(),
            acc == elapsed_after(sequence@, i as int),
            acc <= elapsed@,
            sounding_from(sequence@, elapsed@, 0) == sounding_from(sequence@, elapsed@, i as int),
        decreases sequence.len() - i,
    {
        let d = length(&sequence[i]);
        if d.as_micros() > elapsed.as_micros() - acc {
            return i;
        }
        acc = acc + d.as_micros();
        i = i + 1;
    }
    if sequence.len() > 0 {
        sequence.len() - 1
    } else {
        0
    }
}

/// How an event shows in the scrolling line: its note name, `~` for a rest, in brackets
/// when it is the current one.
pub open spec fn event_label(e: ScoreEvent, current: bool) -> Seq<char> {
    let name = match e {
        ScoreEvent::Note(n) => crate::session::text::note_name_text(n.midi_note),
        ScoreEvent::Rest(_) => "~"@,
    };
    if current {
        "["@ + name + "]"@
    } else {
        name
    }
}

/// The labels of events `start..end`, separated by arrows.
pub open spec fn labels_between(seq: Seq<ScoreEvent>, current: int, start: int, end: int) -> Seq<
    char,
>
    decreases end - start,
{
    if end <= start {
        Seq::empty()
    } else if end == start + 1 {
        event_label(seq[start], start == current)
    } else {
        labels_between(seq, current, start, end - 1) + "  →  "@ + event_label(
            seq[end - 1],
            end - 1 == current,
        )
    }
}

/// The first event shown in a window of `window` events around `current`.
pub open spec fn window_start(current: int, window: int) -> int {
    if current >= window / 2 {
        current - window / 2
    } else {
        0
    }
}

/// The line of note names in a window of `window` events around the current one.
pub open spec fn note_display_text(seq: Seq<ScoreEvent>, current: int, window: int) -> Seq<char> {
    let start = window_start(current, window);
    let end = if start + window < seq.len() {
        start + window
    } else {
        seq.len() as int
    };
    labels_between(seq, current, start, end)
}

/// The scrolling line of note names around the current event.
pub fn note_display(sequence: &Vec<ScoreEvent>, current: usize, window: usize) -> (r: String)
    requires
        window_start(current as int, window as int) + window <= usize::MAX,
    ensures
        r@ == note_display_text(sequence@, current as int, window as int),
{
    let half = window / 2;
    let start = if current >= half {
        current - half
    } else {
        0
    };
    let end = if start + window < sequence.len() {
        start + window
    } else {
        sequence.len()
    };
    let mut out = String::new();
    if end <= start {
        return out;
    }
    let mut i: usize = start;
    while i < end
        invariant
            start <= end <= sequence.len(),
            start <= i <= end,
            out@ == labels_between(sequence@, current as int, start as int, i as int),
        decreases end - i,
    {
        if i > start {
            push_str(&mut out, "  →  ");
        }
        if i == current {
            push_str(&mut out, "[");
        }
        match &sequence[i] {
            ScoreEvent::Note(n) => {
                push_str(&mut out, midi_to_name(n.midi_note).as_str());
            },
            ScoreEvent::Rest(_) => {
                push_str(&mut out, "~");
            },
        }
        if i == current {
            push_str(&mut out, "]");
        }
        proof {
            let l = event_label(sequence@[i as int], i == current);
            if i == start {
                assert(out@ =~= l);
            } else {
                assert(out@ =~= labels_between(sequence@, current as int, start as int, i as int)
                    + "  →  "@ + l);
            }
        }
        i = i + 1;
    }
    out
}

} // verus!
