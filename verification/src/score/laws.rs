//! Properties of every parsed score.
use vstd::prelude::*;

use crate::score::spec::{
    parse_outcome, resolve, scan, tie_chain, ParseOutcome, PartialOrRest, ScanOutcome, Token,
    NOTE_VELOCITY,
};
use crate::score::timeline::{elapsed_after, sounding_at, sounding_from};
use crate::score::types::EventView;

verus! {

/// Whether every note among the items is a MIDI note struck at the parser's velocity.
pub open spec fn items_are_midi(ps: Seq<PartialOrRest>) -> bool {
    forall|k: int|
        0 <= k < ps.len() ==> (#[trigger] ps[k] matches PartialOrRest::Note(n) ==> n.midi_note
            <= 127 && n.velocity == NOTE_VELOCITY)
}

/// Whether every note event is a MIDI note struck at the parser's velocity.
pub open spec fn events_are_midi(evs: Seq<EventView>) -> bool {
    forall|k: int|
        0 <= k < evs.len() ==> (#[trigger] evs[k] matches EventView::Note { midi_note, velocity, .. }
            ==> midi_note <= 127 && velocity == NOTE_VELOCITY)
}

proof fn lemma_scan_items(s: Seq<char>, i: int, d: u32, acc: Seq<PartialOrRest>)
    requires
        items_are_midi(acc),
        scan(s, i, d, acc) is Done,
    ensures
        items_are_midi(scan(s, i, d, acc)->Done_0),
    decreases s.len() - i,
{
    let j = crate::score::spec::skip(s, i, false);
    if j < s.len() {
        let (t, n) = crate::score::spec::token_at(s, j);
        crate::score::spec::lemma_skip_advances(s, i, false);
        crate::score::spec::lemma_token_advances(s, j);
        match t {
            Token::Bar => lemma_scan_items(s, n, d, acc),
            Token::Rest { duration, dotted } => {
                let d2 = match duration {
                    Some(v) => v,
                    None => d,
                };
                let acc2 = acc.push(PartialOrRest::Rest(d2, dotted));
                assert(items_are_midi(acc2)) by {
                    assert forall|k: int| 0 <= k < acc2.len() implies (#[trigger] acc2[k] matches PartialOrRest::Note(x)
                        ==> x.midi_note <= 127 && x.velocity == NOTE_VELOCITY) by {
                        if k < acc.len() {
                            assert(acc2[k] == acc[k]);
                        }
                    }
                }
                lemma_scan_items(s, n, d2, acc2);
            },
            Token::Note { semitone, accidental, octave, duration, dotted, tied } => {
                let d2 = match duration {
                    Some(v) => v,
                    None => d,
                };
                let m = crate::score::spec::midi_number(semitone, accidental, octave);
                if 0 <= m <= 127 {
                    let acc2 = acc.push(
                        PartialOrRest::Note(
                            crate::score::spec::PartialNote {
                                midi_note: m as u8,
                                duration_value: d2,
                                dotted,
                                tied,
                                velocity: NOTE_VELOCITY,
                            },
                        ),
                    );
                    assert(items_are_midi(acc2)) by {
                        assert forall|k: int| 0 <= k < acc2.len() implies (#[trigger] acc2[k] matches PartialOrRest::Note(x)
                            ==> x.midi_note <= 127 && x.velocity == NOTE_VELOCITY) by {
                            if k < acc.len() {
                                assert(acc2[k] == acc[k]);
                            }
                        }
                    }
                    lemma_scan_items(s, n, d2, acc2);
                }
            },
            _ => {},
        }
    }
}

proof fn lemma_resolve_events(ps: Seq<PartialOrRest>, i: int, bpm: u32)
    requires
        items_are_midi(ps),
    ensures
        events_are_midi(resolve(ps, i, bpm)),
    decreases ps.len() + 1 - i,
{
    let r = resolve(ps, i, bpm);
    if 0 <= i < ps.len() {
        match ps[i] {
            PartialOrRest::Rest(v, dotted) => {
                lemma_resolve_events(ps, i + 1, bpm);
                let tail = resolve(ps, i + 1, bpm);
                assert forall|k: int| 0 <= k < r.len() implies (#[trigger] r[k] matches EventView::Note {
                    midi_note,
                    velocity,
                    ..
                } ==> midi_note <= 127 && velocity == NOTE_VELOCITY) by {
                    if k > 0 {
                        assert(r[k] == tail[k - 1]);
                    }
                }
            },
            PartialOrRest::Note(n) => {
                let first = crate::score::spec::note_micros(bpm, n.duration_value, n.dotted);
                let (j, total) = tie_chain(ps, i, n.midi_note, n.tied, first, bpm);
                crate::score::spec::lemma_tie_chain_bounds(ps, i, n.midi_note, n.tied, first, bpm);
                lemma_resolve_events(ps, j + 1, bpm);
                let tail = resolve(ps, j + 1, bpm);
                assert forall|k: int| 0 <= k < r.len() implies (#[trigger] r[k] matches EventView::Note {
                    midi_note,
                    velocity,
                    ..
                } ==> midi_note <= 127 && velocity == NOTE_VELOCITY) by {
                    if k > 0 {
                        assert(r[k] == tail[k - 1]);
                    }
                }
            },
        }
    }
}

/// Every note of a parsed score is a MIDI note (0..=127) struck at velocity 80.
pub proof fn law_parsed_notes_are_midi(s: Seq<char>, bpm: u32)
    requires
        parse_outcome(s, bpm) is Parsed,
    ensures
        events_are_midi(parse_outcome(s, bpm)->Parsed_0),
{
    let start = Seq::<PartialOrRest>::empty();
    lemma_scan_items(s, 0, crate::score::spec::DEFAULT_DURATION, start);
    let ps = scan(s, 0, crate::score::spec::DEFAULT_DURATION, start)->Done_0;
    lemma_resolve_events(ps, 0, bpm);
}

/// A note tied to a following note of the same pitch that is not tied on sounds once, for
/// the sum of both lengths, and the events go on after the second note.
pub proof fn law_tie_joins_notes(ps: Seq<PartialOrRest>, i: int, bpm: u32)
    requires
        0 <= i,
        i + 1 < ps.len(),
        ps[i] matches PartialOrRest::Note(a) && a.tied,
        ps[i + 1] matches PartialOrRest::Note(b) && !b.tied,
        ps[i]->Note_0.midi_note == ps[i + 1]->Note_0.midi_note,
    ensures
        ({
            let a = ps[i]->Note_0;
            let b = ps[i + 1]->Note_0;
            resolve(ps, i, bpm) == seq![
                EventView::Note {
                    midi_note: a.midi_note,
                    micros: crate::score::spec::note_micros(bpm, a.duration_value, a.dotted)
                        + crate::score::spec::note_micros(bpm, b.duration_value, b.dotted),
                    velocity: a.velocity,
                },
            ] + resolve(ps, i + 2, bpm)
        }),
{
    let a = ps[i]->Note_0;
    let b = ps[i + 1]->Note_0;
    let first = crate::score::spec::note_micros(bpm, a.duration_value, a.dotted);
    let both = first + crate::score::spec::note_micros(bpm, b.duration_value, b.dotted);
    assert(tie_chain(ps, i + 1, a.midi_note, b.tied, both, bpm) == (i + 1, both));
    assert(tie_chain(ps, i, a.midi_note, a.tied, first, bpm) == (i + 1, both));
}

/// A tie to anything but a note of the same pitch just ends: the note sounds for its own
/// length, and the next item still gives its own event.
pub proof fn law_broken_tie_keeps_next_item(ps: Seq<PartialOrRest>, i: int, bpm: u32)
    requires
        0 <= i,
        i + 1 < ps.len(),
        ps[i] matches PartialOrRest::Note(a) && a.tied,
        !(ps[i + 1] matches PartialOrRest::Note(b) && b.midi_note == ps[i]->Note_0.midi_note),
    ensures
        ({
            let a = ps[i]->Note_0;
            resolve(ps, i, bpm) == seq![
                EventView::Note {
                    midi_note: a.midi_note,
                    micros: crate::score::spec::note_micros(bpm, a.duration_value, a.dotted),
                    velocity: a.velocity,
                },
            ] + resolve(ps, i + 1, bpm)
        }),
{
}

/// The summed lengths of the items (notes and rests) at positions `lo` up to `hi`.
pub open spec fn items_micros(ps: Seq<PartialOrRest>, lo: int, hi: int, bpm: u32) -> nat
    decreases hi - lo,
{
    if lo >= hi {
        0
    } else {
        (match ps[lo] {
            PartialOrRest::Note(n) => crate::score::spec::note_micros(bpm, n.duration_value, n.dotted),
            PartialOrRest::Rest(v, dotted) => crate::score::spec::note_micros(bpm, v, dotted),
        }) + items_micros(ps, lo + 1, hi, bpm)
    }
}

/// Whether the items from `i` to `i + k` are notes of pitch `m`, each but the last tied to
/// the next, and the chain can go no further: the last is not tied, or is the last item,
/// or the item after it is not a note of pitch `m`.
pub open spec fn tie_run(ps: Seq<PartialOrRest>, i: int, k: int, m: u8) -> bool {
    &&& 0 <= i
    &&& 0 <= k
    &&& i + k < ps.len()
    &&& forall|j: int| i <= j <= i + k ==> (#[trigger] ps[j] matches PartialOrRest::Note(n) && n.midi_note == m)
    &&& forall|j: int| i <= j < i + k ==> (#[trigger] ps[j])->Note_0.tied
    &&& (!ps[i + k]->Note_0.tied || i + k + 1 == ps.len() || !(ps[i + k + 1] matches PartialOrRest::Note(
        n2,
    ) && n2.midi_note == m))
}

proof fn lemma_tie_run_chain(ps: Seq<PartialOrRest>, i: int, k: int, m: u8, j: int, total: nat, bpm: u32)
    requires
        tie_run(ps, i, k, m),
        i <= j <= i + k,
    ensures
        tie_chain(ps, j, m, ps[j]->Note_0.tied, total, bpm) == (i + k, total + items_micros(
            ps,
            j + 1,
            i + k + 1,
            bpm,
        )),
    decreases i + k - j,
{
    assert(ps[j] matches PartialOrRest::Note(n) && n.midi_note == m);
    if j < i + k {
        assert(ps[j]->Note_0.tied);
        let next = ps[j + 1]->Note_0;
        assert(ps[j + 1] matches PartialOrRest::Note(n) && n.midi_note == m);
        let step = crate::score::spec::note_micros(bpm, next.duration_value, next.dotted);
        lemma_tie_run_chain(ps, i, k, m, j + 1, total + step, bpm);
        assert(items_micros(ps, j + 1, i + k + 1, bpm) == step + items_micros(ps, j + 2, i + k + 1, bpm));
    } else {
        assert(items_micros(ps, j + 1, i + k + 1, bpm) == 0);
    }
}

/// Ties merge whole chains: notes of one pitch, each tied to the next, sound as a single
/// note whose length is the sum of all of theirs, at the first note's velocity, and the
/// events go on with the item after the chain. A note that is not tied is a chain of one.
pub proof fn law_tie_chain_merges(ps: Seq<PartialOrRest>, i: int, k: int, m: u8, bpm: u32)
    requires
        tie_run(ps, i, k, m),
    ensures
        resolve(ps, i, bpm) == seq![
            EventView::Note {
                midi_note: m,
                micros: items_micros(ps, i, i + k + 1, bpm),
                velocity: ps[i]->Note_0.velocity,
            },
        ] + resolve(ps, i + k + 1, bpm),
{
    assert(ps[i] matches PartialOrRest::Note(n) && n.midi_note == m);
    let a = ps[i]->Note_0;
    let first = crate::score::spec::note_micros(bpm, a.duration_value, a.dotted);
    lemma_tie_run_chain(ps, i, k, m, i, first, bpm);
}

/// The event sounding at a time is the one playing then: while the score lasts, it is the
/// event whose start (the summed lengths before it) is at or before `t` and whose end (the
/// summed lengths up to and including it) is after `t`; once the score is over it is the
/// last event (0 for an empty score).
pub proof fn law_sounding_event(seq: Seq<crate::score::types::ScoreEvent>, t: nat)
    ensures
        t < elapsed_after(seq, seq.len() as int) ==> ({
            let k = sounding_at(seq, t);
            &&& 0 <= k < seq.len()
            &&& elapsed_after(seq, k) <= t
            &&& t < elapsed_after(seq, k + 1)
        }),
        t >= elapsed_after(seq, seq.len() as int) ==> sounding_at(seq, t) == if seq.len() > 0 {
            seq.len() - 1
        } else {
            0
        },
{
    lemma_sounding_from(seq, t, 0);
}

proof fn lemma_sounding_from(seq: Seq<crate::score::types::ScoreEvent>, t: nat, i: int)
    requires
        0 <= i <= seq.len(),
        elapsed_after(seq, i) <= t,
    ensures
        match sounding_from(seq, t, i) {
            Some(k) => i <= k < seq.len() && elapsed_after(seq, k) <= t && t < elapsed_after(seq, k + 1),
            None => elapsed_after(seq, seq.len() as int) <= t,
        },
        elapsed_after(seq, seq.len() as int) <= t ==> sounding_from(seq, t, i) is None,
    decreases seq.len() - i,
{
    if i < seq.len() {
        crate::score::timeline::lemma_elapsed_grows(seq, i + 1, seq.len() as int);
        if elapsed_after(seq, i + 1) <= t {
            lemma_sounding_from(seq, t, i + 1);
        }
    }
}

/// The summed lengths of events.
pub open spec fn events_micros(evs: Seq<EventView>) -> nat
    decreases evs.len(),
{
    if evs.len() == 0 {
        0
    } else {
        crate::score::spec::event_micros(evs[0]) + events_micros(evs.drop_first())
    }
}

proof fn lemma_items_split(ps: Seq<PartialOrRest>, lo: int, mid: int, hi: int, bpm: u32)
    requires
        lo <= mid <= hi,
    ensures
        items_micros(ps, lo, hi, bpm) == items_micros(ps, lo, mid, bpm) + items_micros(ps, mid, hi, bpm),
    decreases mid - lo,
{
    if lo < mid {
        lemma_items_split(ps, lo + 1, mid, hi, bpm);
    }
}

proof fn lemma_chain_total(ps: Seq<PartialOrRest>, i: int, m: u8, tied: bool, total: nat, bpm: u32)
    requires
        0 <= i < ps.len(),
    ensures
        tie_chain(ps, i, m, tied, total, bpm).1 == total + items_micros(
            ps,
            i + 1,
            tie_chain(ps, i, m, tied, total, bpm).0 + 1,
            bpm,
        ),
    decreases ps.len() - i,
{
    if tied && i + 1 < ps.len() {
        match ps[i + 1] {
            PartialOrRest::Note(next) => {
                if next.midi_note == m {
                    let step = crate::score::spec::note_micros(bpm, next.duration_value, next.dotted);
                    lemma_chain_total(ps, i + 1, m, next.tied, total + step, bpm);
                    crate::score::spec::lemma_tie_chain_bounds(ps, i + 1, m, next.tied, total + step, bpm);
                }
            },
            _ => {},
        }
    }
}

/// Resolving ties keeps the score's length: the events from position `i` on last exactly
/// as long as all the notes and rests from there on together.
pub proof fn law_resolve_keeps_length(ps: Seq<PartialOrRest>, i: int, bpm: u32)
    requires
        0 <= i <= ps.len(),
    ensures
        events_micros(resolve(ps, i, bpm)) == items_micros(ps, i, ps.len() as int, bpm),
    decreases ps.len() - i,
{
    if i < ps.len() {
        let r = resolve(ps, i, bpm);
        match ps[i] {
            PartialOrRest::Rest(v, dotted) => {
                law_resolve_keeps_length(ps, i + 1, bpm);
                assert(r.drop_first() =~= resolve(ps, i + 1, bpm));
            },
            PartialOrRest::Note(n) => {
                let first = crate::score::spec::note_micros(bpm, n.duration_value, n.dotted);
                let (j, total) = tie_chain(ps, i, n.midi_note, n.tied, first, bpm);
                crate::score::spec::lemma_tie_chain_bounds(ps, i, n.midi_note, n.tied, first, bpm);
                lemma_chain_total(ps, i, n.midi_note, n.tied, first, bpm);
                law_resolve_keeps_length(ps, j + 1, bpm);
                assert(r.drop_first() =~= resolve(ps, j + 1, bpm));
                lemma_items_split(ps, i + 1, j + 1, ps.len() as int, bpm);
            },
        }
    }
}

/// The scrolling line shows the current event: for a window of at least one event, the
/// window starts at or before the current event and reaches past it, it is centred on the
/// current event (half the window before it) unless that would start before the score,
/// and it is never wider than asked.
pub proof fn law_window_holds_current(current: int, window: int)
    requires
        0 <= current,
        1 <= window,
    ensures
        0 <= crate::score::timeline::window_start(current, window) <= current,
        current < crate::score::timeline::window_start(current, window) + window,
        current >= window / 2 ==> current - crate::score::timeline::window_start(current, window)
            == window / 2,
        current < window / 2 ==> crate::score::timeline::window_start(current, window) == 0,
{
}

} // verus!
