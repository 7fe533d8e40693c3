//! Live input: MIDI note messages in, machine steps out.
use vstd::prelude::*;

use std::sync::mpsc::Sender;

use crate::session::text::{format_event_log, format_unmapped};
use crate::tuning::engine::TuningEngine;
use crate::vm::machine::HaydnVm;

verus! {

#[verifier::external_type_specification]
#[verifier::external_body]
#[verifier::reject_recursive_types(T)]
pub struct ExSender<T>(std::sync::mpsc::Sender<T>);

/// A note message from a MIDI device.
#[derive(Debug, Clone, Copy)]
pub enum MidiMsg {
    NoteOn { note: u8, velocity: u8 },
    NoteOff { note: u8 },
}

/// A note-on or note-off channel message as the MIDI decoder reads it: key and velocity.
#[derive(Debug, Clone, Copy)]
pub enum LiveNote {
    On { key: u8, velocity: u8 },
    Off { key: u8, velocity: u8 },
}

/// What the MIDI decoder makes of raw bytes, as far as note messages go: a status byte
/// `0x8n` (note off) or `0x9n` (note on) followed by two data bytes below `0x80`, the key
/// and the velocity. Anything else is not a note message.
pub open spec fn live_note(raw: Seq<u8>) -> Option<LiveNote> {
    if raw.len() >= 3 && 0x80 <= raw[0] <= 0x9F && raw[1] < 0x80 && raw[2] < 0x80 {
        if raw[0] < 0x90 {
            Some(LiveNote::Off { key: raw[1], velocity: raw[2] })
        } else {
            Some(LiveNote::On { key: raw[1], velocity: raw[2] })
        }
    } else {
        None
    }
}

/// `midly::live::LiveEvent::parse`, keeping note-on and note-off channel messages. The
/// decoder takes the first byte as the status and the following bytes up to the first one
/// with its top bit set as data; a note message needs two data bytes.
#[verifier::external_body]
fn read_live_note(message: &[u8]) -> (r: Option<LiveNote>)
    ensures
        r == live_note(message@),
{
    match midly::live::LiveEvent::parse(message) {
        Ok(
            midly::live::LiveEvent::Midi { message: midly::MidiMessage::NoteOn { key, vel }, .. },
        ) => Some(LiveNote::On { key: key.as_int(), velocity: vel.as_int() }),
        Ok(
            midly::live::LiveEvent::Midi { message: midly::MidiMessage::NoteOff { key, vel }, .. },
        ) => Some(LiveNote::Off { key: key.as_int(), velocity: vel.as_int() }),
        _ => None,
    }
}

/// The session message of raw MIDI bytes: note-on with a velocity, note-off (a note-on of
/// velocity 0 counts as a note-off), or nothing for any other message.
pub open spec fn midi_message(raw: Seq<u8>) -> Option<MidiMsg> {
    match live_note(raw) {
        Some(LiveNote::On { key, velocity }) => if velocity == 0 {
            Some(MidiMsg::NoteOff { note: key })
        } else {
            Some(MidiMsg::NoteOn { note: key, velocity })
        },
        Some(LiveNote::Off { key, .. }) => Some(MidiMsg::NoteOff { note: key }),
        None => None,
    }
}

/// Decodes raw MIDI bytes into a session message.
pub fn decode_midi(message: &[u8]) -> (r: Option<MidiMsg>)
    ensures
        r == midi_message(message@),
{
    match read_live_note(message) {
        Some(LiveNote::On { key, velocity }) => {
            if velocity == 0 {
                Some(MidiMsg::NoteOff { note: key })
            } else {
                Some(MidiMsg::NoteOn { note: key, velocity })
            }
        },
        Some(LiveNote::Off { key, .. }) => Some(MidiMsg::NoteOff { note: key }),
        None => None,
    }
}

/// The messages handed to `Sender::send` through a sender handle, in order. Whether the
/// channel took each one depends on its receiving end, which is not modelled.
pub uninterp spec fn sent_through(tx: Sender<MidiMsg>) -> Seq<MidiMsg>;

/// `Sender::send`: hands the message to the channel, which queues it for the receiving
/// end; when that end is gone the message comes back and is dropped. Stated: the message
/// joins the ones handed through this handle. Not stated: whether the channel kept it.
#[verifier::external_body]
fn send_midi(tx: &mut Sender<MidiMsg>, msg: MidiMsg)
    ensures
        sent_through(*final(tx)) == sent_through(*old(tx)).push(msg),
{
    let _ = tx.send(msg);
}

/// The MIDI input callback: decodes the message and, when it is a note message, sends it
/// on the channel; any other message sends nothing.
pub fn midi_callback(_timestamp: u64, message: &[u8], tx: &mut Sender<MidiMsg>)
    ensures
        sent_through(*final(tx)) == match midi_message(message@) {
            Some(m) => sent_through(*old(tx)).push(m),
            None => sent_through(*old(tx)),
        },
{
    match decode_midi(message) {
        Some(msg) => send_midi(tx, msg),
        None => {},
    }
}

pub open spec fn strings_view(ss: Seq<String>) -> Seq<Seq<char>> {
    ss.map_values(|s: String| s@)
}

/// Plays one note: the tuning engine maps it, and a mapped event goes through the machine
/// until it is idle. Gives one log line per machine step, or the unmapped line.
pub fn process_note(note: u8, velocity: u8, engine: &mut TuningEngine, vm: &mut HaydnVm) -> (lines:
    Vec<String>)
    ensures
        final(engine)@ == (crate::tuning::engine::EngineView {
            last_note: Some(note),
            ..old(engine)@
        }),
        match crate::tuning::engine::first_match(
            old(engine)@.rules,
            old(engine)@.last_note,
            note,
            0,
        ) {
            None => final(vm)@ == old(vm)@ && strings_view(lines@) == seq![
                crate::session::text::unmapped_text(note, velocity),
            ],
            Some(e) => crate::vm::spec::call_spec(old(vm)@, crate::vm::spec::VmCall::ProcessEvent(e)).1
                == final(vm)@ && strings_view(lines@) == crate::vm::spec::call_spec(
                old(vm)@,
                crate::vm::spec::VmCall::ProcessEvent(e),
            ).0.map_values(
                |r: crate::vm::types::StepView|
                    crate::session::text::event_log_text(note, velocity, r),
            ),
        },
{
    match engine.map_note(note) {
        Some(event) => {
            let results = vm.process_event(event);
            let mut lines: Vec<String> = Vec::new();
            let mut i: usize = 0;
            while i < results.len()
                invariant
                    i <= results.len(),
                    strings_view(lines@) =~= results@.subrange(0, i as int).map_values(
                        |r: crate::vm::types::StepResult|
                            crate::session::text::event_log_text(note, velocity, r@),
                    ),
                decreases results.len() - i,
            {
                let line = format_event_log(note, velocity, &results[i]);
                let ghost before = lines@;
                lines.push(line);
                proof {
                    let f = |r: crate::vm::types::StepResult|
                        crate::session::text::event_log_text(note, velocity, r@);
                    assert(results@.subrange(0, i + 1) =~= results@.subrange(0, i as int).push(
                        results@[i as int],
                    ));
                    assert(results@.subrange(0, i + 1).map_values(f) =~= results@.subrange(
                        0,
                        i as int,
                    ).map_values(f).push(f(results@[i as int])));
                    assert(strings_view(lines@) =~= strings_view(before).push(line@));
                }
                i = i + 1;
            }
            proof {
                assert(results@.subrange(0, i as int) =~= results@);
                let steps = crate::vm::spec::call_spec(old(vm)@, crate::vm::spec::VmCall::ProcessEvent(event)).0;
                assert(strings_view(lines@) =~= steps.map_values(
                    |r: crate::vm::types::StepView|
                        crate::session::text::event_log_text(note, velocity, r),
                ));
            }
            lines
        },
        None => {
            let mut lines: Vec<String> = Vec::new();
            lines.push(format_unmapped(note, velocity));
            assert(strings_view(lines@) =~= seq![crate::session::text::unmapped_text(note, velocity)]);
            lines
        },
    }
}

/// Plays one note and hands back the machine's steps: `None` when no rule maps the note,
/// else the steps of the mapped event run until the machine is idle.
pub fn process_note_structured(note: u8, engine: &mut TuningEngine, vm: &mut HaydnVm) -> (r: Option<
    Vec<crate::vm::types::StepResult>,
>)
    ensures
        final(engine)@ == (crate::tuning::engine::EngineView {
            last_note: Some(note),
            ..old(engine)@
        }),
        match crate::tuning::engine::first_match(
            old(engine)@.rules,
            old(engine)@.last_note,
            note,
            0,
        ) {
            None => final(vm)@ == old(vm)@ && r is None,
            Some(e) => r matches Some(results) && crate::vm::spec::call_spec(
                old(vm)@,
                crate::vm::spec::VmCall::ProcessEvent(e),
            ).1 == final(vm)@ && crate::vm::spec::call_spec(
                old(vm)@,
                crate::vm::spec::VmCall::ProcessEvent(e),
            ).0 =~= results@.map_values(|s: crate::vm::types::StepResult| s@),
        },
{
    match engine.map_note(note) {
        Some(event) => Some(vm.process_event(event)),
        None => None,
    }
}

} // verus!
