//! How a live session reports what happened: note names, one log line per machine
//! step, and a closing summary.
use vstd::prelude::*;

use crate::text::{push_i64, push_str, push_u64};
use crate::vm::types::{EdgeCase, Event, Opcode, Operation, StepResult};

verus! {

/// The pitch-class names, sharps and flats as a keyboard player reads them.
pub open spec fn pitch_class(i: int) -> Seq<char> {
    if i == 0 {
        "C"@
    } else if i == 1 {
        "C#"@
    } else if i == 2 {
        "D"@
    } else if i == 3 {
        "Eb"@
    } else if i == 4 {
        "E"@
    } else if i == 5 {
        "F"@
    } else if i == 6 {
        "F#"@
    } else if i == 7 {
        "G"@
    } else if i == 8 {
        "Ab"@
    } else if i == 9 {
        "A"@
    } else if i == 10 {
        "Bb"@
    } else {
        "B"@
    }
}

/// The name of a MIDI note: its pitch class and octave, middle C (60) being `C4`.
pub open spec fn note_name_text(midi: u8) -> Seq<char> {
    pitch_class((midi % 12) as int) + crate::text::decimal_i64_chars((midi / 12 - 1) as i64)
}

fn pitch_class_str(i: u8) -> (r: &'static str)
    requires
        i < 12,
    ensures
        r@ == pitch_class(i as int),
{
    match i {
        0 => "C",
        1 => "C#",
        2 => "D",
        3 => "Eb",
        4 => "E",
        5 => "F",
        6 => "F#",
        7 => "G",
        8 => "Ab",
        9 => "A",
        10 => "Bb",
        _ => "B",
    }
}

/// The name of a MIDI note, such as `C4` for 60 or `C-1` for 0.
pub fn note_name(midi: u8) -> (r: String)
    ensures
        r@ == note_name_text(midi),
{
    let mut out = String::new();
    push_str(&mut out, pitch_class_str(midi % 12));
    let octave: i64 = (midi / 12) as i64 - 1;
    push_i64(&mut out, octave);
    out
}

/// The name of an opcode as it is printed in logs.
pub open spec fn opcode_label(op: Opcode) -> Seq<char> {
    match op {
        Opcode::Dup => "Dup"@,
        Opcode::Swap => "Swap"@,
        Opcode::Drop => "Drop"@,
        Opcode::Rotate => "Rotate"@,
        Opcode::Add => "Add"@,
        Opcode::Sub => "Sub"@,
        Opcode::Mul => "Mul"@,
        Opcode::Div => "Div"@,
        Opcode::Mod => "Mod"@,
        Opcode::Eq => "Eq"@,
        Opcode::Gt => "Gt"@,
        Opcode::Lt => "Lt"@,
        Opcode::LoopStart => "LoopStart"@,
        Opcode::LoopEnd => "LoopEnd"@,
        Opcode::PrintNum => "PrintNum"@,
        Opcode::PrintChar => "PrintChar"@,
        Opcode::Read => "Read"@,
        Opcode::Store => "Store"@,
        Opcode::Load => "Load"@,
    }
}

fn opcode_label_str(op: Opcode) -> (r: &'static str)
    ensures
        r@ == opcode_label(op),
{
    match op {
        Opcode::Dup => "Dup",
        Opcode::Swap => "Swap",
        Opcode::Drop => "Drop",
        Opcode::Rotate => "Rotate",
        Opcode::Add => "Add",
        Opcode::Sub => "Sub",
        Opcode::Mul => "Mul",
        Opcode::Div => "Div",
        Opcode::Mod => "Mod",
        Opcode::Eq => "Eq",
        Opcode::Gt => "Gt",
        Opcode::Lt => "Lt",
        Opcode::LoopStart => "LoopStart",
        Opcode::LoopEnd => "LoopEnd",
        Opcode::PrintNum => "PrintNum",
        Opcode::PrintChar => "PrintChar",
        Opcode::Read => "Read",
        Opcode::Store => "Store",
        Opcode::Load => "Load",
    }
}

/// The name of an edge case as it is printed in logs.
pub open spec fn edge_case_label(e: EdgeCase) -> Seq<char> {
    match e {
        EdgeCase::StackUnderflow => "StackUnderflow"@,
        EdgeCase::DivisionByZero => "DivisionByZero"@,
        EdgeCase::ModuloByZero => "ModuloByZero"@,
        EdgeCase::NegativeAddress => "NegativeAddress"@,
        EdgeCase::MaxLoopDepthExceeded => "MaxLoopDepthExceeded"@,
        EdgeCase::UnmatchedLoopEnd => "UnmatchedLoopEnd"@,
        EdgeCase::EmptyStackDefault => "EmptyStackDefault"@,
    }
}

/// The name of an edge case as it is printed in logs.
pub fn edge_case_name(e: EdgeCase) -> (r: &'static str)
    ensures
        r@ == edge_case_label(e),
{
    match e {
        EdgeCase::StackUnderflow => "StackUnderflow",
        EdgeCase::DivisionByZero => "DivisionByZero",
        EdgeCase::ModuloByZero => "ModuloByZero",
        EdgeCase::NegativeAddress => "NegativeAddress",
        EdgeCase::MaxLoopDepthExceeded => "MaxLoopDepthExceeded",
        EdgeCase::UnmatchedLoopEnd => "UnmatchedLoopEnd",
        EdgeCase::EmptyStackDefault => "EmptyStackDefault",
    }
}

/// How an event is written in logs: `Push(v)` or `Op(name)`.
pub open spec fn event_text(e: Event) -> Seq<char> {
    match e {
        Event::Push(v) => "Push("@ + crate::text::decimal_i64_chars(v) + ")"@,
        Event::Op(op) => "Op("@ + opcode_label(op) + ")"@,
    }
}

fn push_event(out: &mut String, e: Event)
    ensures
        final(out)@ == old(out)@ + event_text(e),
{
    match e {
        Event::Push(v) => {
            push_str(out, "Push(");
            push_i64(out, v);
            push_str(out, ")");
        },
        Event::Op(op) => {
            push_str(out, "Op(");
            push_str(out, opcode_label_str(op));
            push_str(out, ")");
        },
    }
    proof {
        match e {
            Event::Push(v) => {
                assert(final(out)@ =~= old(out)@ + event_text(e));
            },
            Event::Op(op) => {
                assert(final(out)@ =~= old(out)@ + event_text(e));
            },
        }
    }
}

/// How the machine's response to a step is written in logs.
pub open spec fn operation_text(o: Operation) -> Seq<char> {
    match o {
        Operation::Pushed(v) => "Push("@ + crate::text::decimal_i64_chars(v) + ")"@,
        Operation::Executed(op) => "Op("@ + opcode_label(op) + ")"@,
        Operation::LoopEntered => "LoopEntered"@,
        Operation::LoopSkipped => "LoopSkipped"@,
        Operation::LoopExited => "LoopExited"@,
        Operation::LoopReplaying => "LoopReplaying"@,
        Operation::ReplayStep(e) => "Replay("@ + event_text(e) + ")"@,
        Operation::EndOfBufferReplay => "EndOfBufferReplay"@,
        Operation::EndOfBufferExit => "EndOfBufferExit"@,
        Operation::Noop => "Noop"@,
    }
}

fn push_operation(out: &mut String, o: Operation)
    ensures
        final(out)@ == old(out)@ + operation_text(o),
{
    let ghost start = out@;
    match o {
        Operation::Pushed(v) => {
            push_str(out, "Push(");
            push_i64(out, v);
            push_str(out, ")");
        },
        Operation::Executed(op) => {
            push_str(out, "Op(");
            push_str(out, opcode_label_str(op));
            push_str(out, ")");
        },
        Operation::LoopEntered => push_str(out, "LoopEntered"),
        Operation::LoopSkipped => push_str(out, "LoopSkipped"),
        Operation::LoopExited => push_str(out, "LoopExited"),
        Operation::LoopReplaying => push_str(out, "LoopReplaying"),
        Operation::ReplayStep(e) => {
            push_str(out, "Replay(");
            push_event(out, e);
            push_str(out, ")");
        },
        Operation::EndOfBufferReplay => push_str(out, "EndOfBufferReplay"),
        Operation::EndOfBufferExit => push_str(out, "EndOfBufferExit"),
        Operation::Noop => push_str(out, "Noop"),
    }
    assert(out@ =~= start + operation_text(o));
}

/// How the machine's response to a step is written in logs.
pub fn format_operation(o: Operation) -> (r: String)
    ensures
        r@ == operation_text(o),
{
    let mut out = String::new();
    push_operation(&mut out, o);
    out
}

/// The numbers separated by `", "`.
pub open spec fn joined_numbers(s: Seq<i64>) -> Seq<char>
    decreases s.len(),
{
    if s.len() == 0 {
        Seq::empty()
    } else if s.len() == 1 {
        crate::text::decimal_i64_chars(s[0])
    } else {
        joined_numbers(s.drop_last()) + ", "@ + crate::text::decimal_i64_chars(s.last())
    }
}

/// A list of numbers as it is printed: `[1, -2, 3]`.
pub open spec fn number_list(s: Seq<i64>) -> Seq<char> {
    "["@ + joined_numbers(s) + "]"@
}

fn push_number_list(out: &mut String, s: &[i64])
    ensures
        final(out)@ == old(out)@ + number_list(s@),
{
    let ghost start = out@;
    push_str(out, "[");
    let mut i: usize = 0;
    while i < s.len()
        invariant
            i <= s.len(),
            out@ == start + "["@ + joined_numbers(s@.subrange(0, i as int)),
        decreases s.len() - i,
    {
        let ghost before = out@;
        if i > 0 {
            push_str(out, ", ");
        }
        push_i64(out, s[i]);
        proof {
            let pre = s@.subrange(0, i as int);
            let cur = s@.subrange(0, i + 1);
            assert(cur.drop_last() =~= pre);
            if i == 0 {
                assert(joined_numbers(pre) =~= Seq::<char>::empty());
                assert(out@ =~= start + "["@ + joined_numbers(cur));
            } else {
                assert(out@ =~= start + "["@ + joined_numbers(cur));
            }
        }
        i = i + 1;
    }
    push_str(out, "]");
    assert(s@.subrange(0, i as int) =~= s@);
    assert(out@ =~= start + number_list(s@));
}

/// The bytes separated by `", "`.
pub open spec fn joined_bytes(s: Seq<u8>) -> Seq<char>
    decreases s.len(),
{
    if s.len() == 0 {
        Seq::empty()
    } else if s.len() == 1 {
        crate::text::decimal_nat_chars(s[0] as nat)
    } else {
        joined_bytes(s.drop_last()) + ", "@ + crate::text::decimal_nat_chars(s.last() as nat)
    }
}

/// A list of bytes as it is printed: `[72, 105]`.
pub open spec fn byte_list(s: Seq<u8>) -> Seq<char> {
    "["@ + joined_bytes(s) + "]"@
}

fn push_byte_list(out: &mut String, s: &[u8])
    ensures
        final(out)@ == old(out)@ + byte_list(s@),
{
    let ghost start = out@;
    push_str(out, "[");
    let mut i: usize = 0;
    while i < s.len()
        invariant
            i <= s.len(),
            out@ == start + "["@ + joined_bytes(s@.subrange(0, i as int)),
        decreases s.len() - i,
    {
        if i > 0 {
            push_str(out, ", ");
        }
        push_u64(out, s[i] as u64);
        proof {
            let pre = s@.subrange(0, i as int);
            let cur = s@.subrange(0, i + 1);
            assert(cur.drop_last() =~= pre);
            if i == 0 {
                assert(joined_bytes(pre) =~= Seq::<char>::empty());
            }
            assert(out@ =~= start + "["@ + joined_bytes(cur));
        }
        i = i + 1;
    }
    push_str(out, "]");
    assert(s@.subrange(0, i as int) =~= s@);
    assert(out@ =~= start + byte_list(s@));
}

/// The text `String::from_utf8_lossy` makes of bytes: their UTF-8 decoding, each
/// invalid sequence replaced by U+FFFD. Only named here.
pub uninterp spec fn utf8_lossy(bytes: Seq<u8>) -> Seq<char>;

/// How output bytes read as text: their UTF-8 decoding when they are valid UTF-8; a
/// single byte that is not (a byte from 0x80 up) reads as U+FFFD; any other invalid bytes
/// as `String::from_utf8_lossy` makes them.
pub open spec fn shown_text(bytes: Seq<u8>) -> Seq<char> {
    if vstd::utf8::valid_utf8(bytes) {
        vstd::utf8::decode_utf8(bytes)
    } else if bytes.len() == 1 {
        seq!['\u{FFFD}']
    } else {
        utf8_lossy(bytes)
    }
}

/// `String::from_utf8_lossy`: the bytes decoded as UTF-8, each invalid sequence replaced
/// by U+FFFD. The result is the named `utf8_lossy` of the bytes; valid UTF-8 comes back as
/// its decoding, and a lone invalid byte as one U+FFFD.
#[verifier::external_body]
fn lossy_text(bytes: &[u8]) -> (r: String)
    ensures
        r@ == utf8_lossy(bytes@),
        vstd::utf8::valid_utf8(bytes@) ==> r@ == vstd::utf8::decode_utf8(bytes@),
        bytes@.len() == 1 && !vstd::utf8::valid_utf8(bytes@) ==> r@ == seq!['\u{FFFD}'],
{
    String::from_utf8_lossy(bytes).into_owned()
}

/// `str::from_utf8`: the text of the bytes when they are valid UTF-8 (well-formed
/// sequences, no overlong encodings, no surrogates, nothing above U+10FFFF), else nothing.
#[verifier::external_body]
fn utf8_text(bytes: &[u8]) -> (r: Option<String>)
    ensures
        match r {
            Some(s) => vstd::utf8::valid_utf8(bytes@) && s@ == vstd::utf8::decode_utf8(bytes@),
            None => !vstd::utf8::valid_utf8(bytes@),
        },
{
    match std::str::from_utf8(bytes) {
        Ok(s) => Some(s.to_string()),
        Err(_) => None,
    }
}

/// The log line of one machine step caused by a note: the note and its velocity, what
/// the machine did, the stack after it, then the output of the step when there is any and
/// the edge case when one was met.
pub open spec fn event_log_text(note: u8, velocity: u8, r: crate::vm::types::StepView) -> Seq<char> {
    let head = "["@ + note_name_text(note) + " v="@ + crate::text::decimal_nat_chars(velocity as nat)
        + "] → "@ + operation_text(r.operation) + "  |  Stack: "@ + number_list(r.stack);
    let with_output = match r.output {
        Some(o) => if o.len() > 0 {
            head + "  |  Out: \""@ + shown_text(o) + "\""@
        } else {
            head
        },
        None => head,
    };
    match r.edge_case {
        Some(e) => with_output + "  |  ⚠ "@ + edge_case_label(e),
        None => with_output,
    }
}

/// The log line of one step.
pub fn format_event_log(note: u8, velocity: u8, result: &StepResult) -> (r: String)
    ensures
        r@ == event_log_text(note, velocity, result@),
{
    let mut line = String::new();
    push_str(&mut line, "[");
    push_str(&mut line, note_name(note).as_str());
    push_str(&mut line, " v=");
    push_u64(&mut line, velocity as u64);
    push_str(&mut line, "] → ");
    push_operation(&mut line, result.operation);
    push_str(&mut line, "  |  Stack: ");
    push_number_list(&mut line, result.stack_snapshot.as_slice());
    match &result.output {
        Some(o) => {
            if o.len() > 0 {
                push_str(&mut line, "  |  Out: \"");
                push_str(&mut line, lossy_text(o.as_slice()).as_str());
                push_str(&mut line, "\"");
            }
        },
        None => {},
    }
    match result.edge_case {
        Some(e) => {
            push_str(&mut line, "  |  ⚠ ");
            push_str(&mut line, edge_case_name(e));
        },
        None => {},
    }
    line
}

/// The log line of a note that no rule maps.
pub open spec fn unmapped_text(note: u8, velocity: u8) -> Seq<char> {
    "["@ + note_name_text(note) + " v="@ + crate::text::decimal_nat_chars(velocity as nat)
        + "] → (unmapped)"@
}

/// The log line of a note that no rule maps.
pub fn format_unmapped(note: u8, velocity: u8) -> (r: String)
    ensures
        r@ == unmapped_text(note, velocity),
{
    let mut line = String::new();
    push_str(&mut line, "[");
    push_str(&mut line, note_name(note).as_str());
    push_str(&mut line, " v=");
    push_u64(&mut line, velocity as u64);
    push_str(&mut line, "] → (unmapped)");
    line
}

/// The summary printed when a session ends: a title, the final stack with its size, the
/// program's output when there is any (as text when it is valid UTF-8, else as bytes),
/// and a closing rule; one per line.
pub open spec fn session_summary_text(stack: Seq<i64>, output: Seq<u8>) -> Seq<char> {
    let title = "─── Session Summary ───"@;
    let stack_line = "Final stack ("@ + crate::text::decimal_nat_chars(stack.len()) + " items): "@
        + number_list(stack);
    let rule = "───────────────────────"@;
    let body = if output.len() > 0 {
        let out_line = if vstd::utf8::valid_utf8(output) {
            "Program output: "@ + vstd::utf8::decode_utf8(output)
        } else {
            "Program output (bytes): "@ + byte_list(output)
        };
        title + "\n"@ + stack_line + "\n"@ + out_line
    } else {
        title + "\n"@ + stack_line
    };
    body + "\n"@ + rule
}

/// The summary of a session: the machine's final stack and output.
pub fn format_session_summary(vm: &crate::vm::machine::HaydnVm) -> (r: String)
    ensures
        r@ == session_summary_text(vm@.stack, vm@.output),
{
    let stack = vm.stack();
    let output = vm.output();
    let mut out = String::new();
    push_str(&mut out, "─── Session Summary ───");
    push_str(&mut out, "\n");
    push_str(&mut out, "Final stack (");
    push_u64(&mut out, stack.len() as u64);
    push_str(&mut out, " items): ");
    push_number_list(&mut out, stack);
    if output.len() > 0 {
        push_str(&mut out, "\n");
        match utf8_text(output) {
            Some(t) => {
                push_str(&mut out, "Program output: ");
                push_str(&mut out, t.as_str());
            },
            None => {
                push_str(&mut out, "Program output (bytes): ");
                push_byte_list(&mut out, output);
            },
        }
    }
    push_str(&mut out, "\n");
    push_str(&mut out, "───────────────────────");
    out
}

} // verus!
