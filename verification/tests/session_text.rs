use haydn::session::live::{decode_midi, process_note, MidiMsg};
use haydn::session::text::{format_event_log, format_session_summary, format_unmapped, note_name};
use haydn::tuning::default_piano_tuning;
use haydn::vm::{EdgeCase, Event, HaydnVm, Opcode, Operation, StepResult};

#[test]
fn event_log_exact_line() {
    let result = StepResult {
        event: Event::Op(Opcode::Dup),
        operation: Operation::Executed(Opcode::Dup),
        stack_snapshot: vec![0],
        output: None,
        edge_case: Some(EdgeCase::EmptyStackDefault),
    };
    assert_eq!(
        format_event_log(64, 90, &result),
        "[E4 v=90] → Op(Dup)  |  Stack: [0]  |  ⚠ EmptyStackDefault"
    );
    let replay = StepResult {
        event: Event::Push(-3),
        operation: Operation::ReplayStep(Event::Push(-3)),
        stack_snapshot: vec![1, -3],
        output: Some(vec![]),
        edge_case: None,
    };
    assert_eq!(format_event_log(0, 0, &replay), "[C-1 v=0] → Replay(Push(-3))  |  Stack: [1, -3]");
}

#[test]
fn event_log_output_invalid_utf8_is_replaced() {
    let result = StepResult {
        event: Event::Op(Opcode::PrintChar),
        operation: Operation::Executed(Opcode::PrintChar),
        stack_snapshot: vec![],
        output: Some(vec![0xff]),
        edge_case: None,
    };
    assert_eq!(format_event_log(81, 80, &result), "[A5 v=80] → Op(PrintChar)  |  Stack: []  |  Out: \"\u{fffd}\"");
}

#[test]
fn unmapped_line_and_note_names() {
    assert_eq!(format_unmapped(120, 64), "[C9 v=64] → (unmapped)");
    assert_eq!(note_name(1), "C#-1");
    assert_eq!(note_name(70), "Bb4");
    assert_eq!(note_name(255), "Eb20");
}

#[test]
fn session_summary_with_text_and_bytes() {
    let mut vm = HaydnVm::new();
    for e in [Event::Push(72), Event::Op(Opcode::PrintChar), Event::Push(105), Event::Op(Opcode::PrintChar)] {
        vm.process_event(e);
    }
    assert_eq!(
        format_session_summary(&vm),
        "─── Session Summary ───\nFinal stack (0 items): []\nProgram output: Hi\n───────────────────────"
    );
    let mut vm = HaydnVm::new();
    for e in [Event::Push(200), Event::Op(Opcode::PrintChar), Event::Push(3)] {
        vm.process_event(e);
    }
    assert_eq!(
        format_session_summary(&vm),
        "─── Session Summary ───\nFinal stack (1 items): [3]\nProgram output (bytes): [200]\n───────────────────────"
    );
}

#[test]
fn decode_midi_messages() {
    assert!(matches!(decode_midi(&[0x93, 61, 5]), Some(MidiMsg::NoteOn { note: 61, velocity: 5 })));
    assert!(matches!(decode_midi(&[0x8f, 61, 5]), Some(MidiMsg::NoteOff { note: 61 })));
    assert!(matches!(decode_midi(&[0x90, 61, 0]), Some(MidiMsg::NoteOff { note: 61 })));
    assert!(decode_midi(&[0x90, 61]).is_none());
    assert!(decode_midi(&[0x90, 0x80, 5]).is_none());
    assert!(decode_midi(&[0xa0, 61, 5]).is_none());
    assert!(decode_midi(&[]).is_none());
    assert!(decode_midi(&[0x3c, 61, 5]).is_none());
}

#[test]
fn process_note_runs_loop_to_idle() {
    let mut engine = default_piano_tuning();
    let mut vm = HaydnVm::new();
    vm.process_event(Event::Push(2));
    process_note(72, 80, &mut engine, &mut vm); // loop_start
    process_note(59, 80, &mut engine, &mut vm); // push -1
    process_note(60, 80, &mut engine, &mut vm); // add
    process_note(64, 80, &mut engine, &mut vm); // dup
    let lines = process_note(74, 80, &mut engine, &mut vm); // loop_end
    assert_eq!(lines.len(), 5);
    assert!(lines[0].contains("LoopReplaying"));
    assert!(lines[4].contains("EndOfBufferExit"));
    assert_eq!(vm.stack(), &[0]);
}

#[test]
fn event_log_output_ascii_is_shown_as_text() {
    let result = StepResult {
        event: Event::Op(Opcode::PrintChar),
        operation: Operation::Executed(Opcode::PrintChar),
        stack_snapshot: vec![],
        output: Some(vec![65]),
        edge_case: None,
    };
    assert_eq!(format_event_log(81, 80, &result), "[A5 v=80] → Op(PrintChar)  |  Stack: []  |  Out: \"A\"");
}
