use vstd::prelude::*;

use crate::text::chars_of;
use crate::tuning::error::TuningError;
use crate::tuning::names;
use crate::tuning::names::parse_opcode;
use crate::tuning::types;
use crate::tuning::types::{Metadata, RawEmit, RawRule, RawTrigger, RawTuningFile};
use crate::tuning::validate;
use crate::tuning::validate::parse_u8_chars;
use crate::vm::types::{Event, Opcode};

verus! {

/// A compiled trigger condition.
#[derive(Debug, Clone, Copy, PartialEq, Eq, Structural)]
pub enum Trigger {
    ExactNote(u8),
    NoteRange { from: u8, to: u8 },
    Interval(i8),
}

/// What a matching rule produces.
#[derive(Debug, Clone, Copy, PartialEq, Eq, Structural)]
pub enum Action {
    Push(i64),
    PushOffset { root_note: u8 },
    Op(Opcode),
}

/// A compiled rule: trigger and action.
#[derive(Debug, Clone, Copy, PartialEq, Eq, Structural)]
pub struct CompiledRule {
    pub trigger: Trigger,
    pub action: Action,
}

/// A compiled tuning: maps MIDI notes to machine events.
///
/// Evaluation order: the value range, then the operations sorted by note, then the raw
/// rules in order. The first matching rule wins.
pub struct TuningEngine {
    rules: Vec<CompiledRule>,
    root_note: u8,
    metadata: Metadata,
    last_note: Option<u8>,
}

/// The mathematical content of a `TuningEngine`.
pub struct EngineView {
    pub rules: Seq<CompiledRule>,
    pub root_note: u8,
    pub metadata: types::MetadataView,
    pub last_note: Option<u8>,
}

impl View for TuningEngine {
    type V = EngineView;

    closed spec fn view(&self) -> EngineView {
        EngineView {
            rules: self.rules@,
            root_note: self.root_note,
            metadata: self.metadata@,
            last_note: self.last_note,
        }
    }
}

/// Whether a rule's trigger matches a note, given the previous note.
pub open spec fn rule_matches(t: Trigger, last: Option<u8>, note: u8) -> bool {
    match t {
        Trigger::ExactNote(n) => note == n,
        Trigger::NoteRange { from, to } => from <= note && note <= to,
        Trigger::Interval(semitones) => match last {
            Some(l) => note - l == semitones,
            None => false,
        },
    }
}

/// The event a matching rule's action produces for a note.
pub open spec fn action_event(a: Action, note: u8) -> Event {
    match a {
        Action::Push(v) => Event::Push(v),
        Action::PushOffset { root_note } => Event::Push((note - root_note) as i64),
        Action::Op(op) => Event::Op(op),
    }
}

/// The event of the first rule, from position `i` on, that matches the note.
pub open spec fn first_match(rules: Seq<CompiledRule>, last: Option<u8>, note: u8, i: int) -> Option<
    Event,
>
    decreases rules.len() - i,
{
    if i < 0 || i >= rules.len() {
        None
    } else if rule_matches(rules[i].trigger, last, note) {
        Some(action_event(rules[i].action, note))
    } else {
        first_match(rules, last, note, i + 1)
    }
}

/// The rule compiled from the values range.
pub open spec fn value_rules(raw: types::RawTuningView) -> Seq<CompiledRule> {
    match raw.values {
        Some((lo, hi)) => seq![
            CompiledRule {
                trigger: Trigger::NoteRange { from: lo, to: hi },
                action: Action::PushOffset { root_note: raw.metadata.root_note },
            },
        ],
        None => Seq::empty(),
    }
}

/// The (note, opcode) pairs of the first `k` `[operations]` entries whose key and
/// opcode name both parse.
pub open spec fn op_entries(ops: Seq<(Seq<char>, Seq<char>)>, k: int) -> Seq<(u8, Opcode)>
    decreases k,
{
    if k <= 0 {
        Seq::empty()
    } else {
        let prev = op_entries(ops, k - 1);
        match (validate::parse_u8_spec(ops[k - 1].0), names::parse_opcode_spec(ops[k - 1].1)) {
            (Some(note), Ok(op)) => prev.push((note, op)),
            _ => prev,
        }
    }
}

/// The entries with note `n`, in order.
pub open spec fn with_note(entries: Seq<(u8, Opcode)>, n: int) -> Seq<(u8, Opcode)> {
    entries.filter(|e: (u8, Opcode)| e.0 == n)
}

/// A rule that runs `op` on the exact note `note`.
pub open spec fn op_rule(e: (u8, Opcode)) -> CompiledRule {
    CompiledRule { trigger: Trigger::ExactNote(e.0), action: Action::Op(e.1) }
}

/// The entries with notes `n, n+1, ..., 255`, ascending by note, entries with the same
/// note kept in their order: a stable sort by note.
pub open spec fn sorted_from(entries: Seq<(u8, Opcode)>, n: int) -> Seq<(u8, Opcode)>
    decreases 256 - n,
{
    if n < 0 || n > 255 {
        Seq::empty()
    } else {
        with_note(entries, n) + sorted_from(entries, n + 1)
    }
}

/// The rules compiled from the `[operations]` table, sorted by note.
pub open spec fn op_rules(raw: types::RawTuningView) -> Seq<CompiledRule> {
    match raw.operations {
        Some(o) => sorted_from(op_entries(o, o.len() as int), 0).map_values(
            |e: (u8, Opcode)| op_rule(e),
        ),
        None => Seq::empty(),
    }
}

/// The compiled form of a raw trigger.
pub open spec fn compile_trigger(t: RawTrigger) -> Trigger {
    match t {
        RawTrigger::Note { note } => Trigger::ExactNote(note),
        RawTrigger::Range { from, to } => Trigger::NoteRange { from, to },
        RawTrigger::Interval { semitones } => Trigger::Interval(semitones),
    }
}

/// The rules compiled from the first `k` raw rules (a rule whose opcode name does not
/// parse yields nothing; validation has already reported it).
pub open spec fn raw_rules(rules: Seq<types::RuleView>, root: u8, k: int) -> Seq<CompiledRule>
    decreases k,
{
    if k <= 0 {
        Seq::empty()
    } else {
        let prev = raw_rules(rules, root, k - 1);
        let t = compile_trigger(rules[k - 1].trigger);
        match rules[k - 1].emit {
            types::EmitView::Push { value } => prev.push(
                CompiledRule { trigger: t, action: Action::Push(value) },
            ),
            types::EmitView::PushOffset => prev.push(
                CompiledRule { trigger: t, action: Action::PushOffset { root_note: root } },
            ),
            types::EmitView::Op { opcode } => match names::parse_opcode_spec(opcode) {
                Ok(op) => prev.push(CompiledRule { trigger: t, action: Action::Op(op) }),
                Err(_) => prev,
            },
        }
    }
}

/// Every compiled rule, in evaluation order.
pub open spec fn compiled_rules(raw: types::RawTuningView) -> Seq<CompiledRule> {
    value_rules(raw) + op_rules(raw) + raw_rules(
        raw.rules,
        raw.metadata.root_note,
        raw.rules.len() as int,
    )
}

fn entries_with_note(entries: &Vec<(u8, Opcode)>, n: u8, out: &mut Vec<CompiledRule>)
    ensures
        final(out)@ == old(out)@ + with_note(entries@, n as int).map_values(
            |e: (u8, Opcode)| op_rule(e),
        ),
{
    let ghost start = out@;
    let ghost g = |e: (u8, Opcode)| op_rule(e);
    let mut i: usize = 0;
    proof {
        reveal_with_fuel(Seq::<(u8, Opcode)>::filter, 1);
        assert(with_note(entries@.subrange(0, 0), n as int) =~= Seq::<(u8, Opcode)>::empty());
        assert(start + Seq::<(u8, Opcode)>::empty().map_values(g) =~= start);
    }
    while i < entries.len()
        invariant
            i <= entries.len(),
            g == (|e: (u8, Opcode)| op_rule(e)),
            out@ == start + with_note(entries@.subrange(0, i as int), n as int).map_values(g),
        decreases entries.len() - i,
    {
        let e = entries[i];
        let ghost before = out@;
        if e.0 == n {
            out.push(CompiledRule { trigger: Trigger::ExactNote(e.0), action: Action::Op(e.1) });
        }
        proof {
            reveal_with_fuel(Seq::<(u8, Opcode)>::filter, 1);
            let pre = entries@.subrange(0, i as int);
            let cur = entries@.subrange(0, i + 1);
            assert(cur.drop_last() =~= pre);
            assert(cur.last() == e);
            if e.0 == n {
                assert(with_note(cur, n as int) == with_note(pre, n as int).push(e));
                assert(with_note(pre, n as int).push(e).map_values(g) =~= with_note(pre, n as int).map_values(g).push(g(e)));
                assert(out@ =~= start + with_note(cur, n as int).map_values(g));
            } else {
                assert(with_note(cur, n as int) == with_note(pre, n as int));
            }
        }
        i = i + 1;
    }
    proof {
        assert(entries@.subrange(0, i as int) =~= entries@);
    }
}

impl TuningEngine {
    /// Compiles a tuning file. Every validation error is returned when there is any;
    /// otherwise the engine holds the compiled rules and no previous note. The
    /// `[operations]` entries come in ascending key order, as the table's map yields them.
    pub fn compile(raw: RawTuningFile) -> (r: Result<TuningEngine, Vec<TuningError>>)
        requires
            types::well_keyed(raw@),
        ensures
            validate::validate_errors(raw@).len() > 0 <==> r is Err,
            match r {
                Err(errors) => validate::errors_view(errors@) == validate::validate_errors(raw@),
                Ok(engine) => engine@ == (EngineView {
                    rules: compiled_rules(raw@),
                    root_note: raw@.metadata.root_note,
                    metadata: raw@.metadata,
                    last_note: None,
                }),
            },
    {
        let result = validate::validate(&raw);
        if result.errors.len() > 0 {
            return Err(result.errors);
        }
        let root_note = raw.metadata.root_note;
        let metadata = raw.metadata.copy();
        let mut rules: Vec<CompiledRule> = Vec::new();
        match &raw.values {
            Some(values) => {
                rules.push(
                    CompiledRule {
                        trigger: Trigger::NoteRange { from: values.range[0], to: values.range[1] },
                        action: Action::PushOffset { root_note },
                    },
                );
            },
            None => {},
        }
        proof {
            assert(rules@ =~= value_rules(raw@));
        }
        match &raw.operations {
            Some(ops) => {
                let ghost ov = types::ops_view(ops@);
                let mut entries: Vec<(u8, Opcode)> = Vec::new();
                let mut k: usize = 0;
                while k < ops.len()
                    invariant
                        k <= ops.len(),
                        ov == types::ops_view(ops@),
                        entries@ == op_entries(ov, k as int),
                    decreases ops.len() - k,
                {
                    assert(ov[k as int] == (ops@[k as int].0@, ops@[k as int].1@));
                    let key_chars = chars_of(ops[k].0.as_str());
                    match parse_u8_chars(&key_chars) {
                        Some(note) => match parse_opcode(ops[k].1.as_str()) {
                            Ok(op) => {
                                entries.push((note, op));
                            },
                            Err(_) => {},
                        },
                        None => {},
                    }
                    k = k + 1;
                }
                let ghost before = rules@;
                let ghost g = |e: (u8, Opcode)| op_rule(e);
                let mut n: u16 = 0;
                while n < 256
                    invariant
                        n <= 256,
                        g == (|e: (u8, Opcode)| op_rule(e)),
                        before + sorted_from(entries@, 0).map_values(g) == rules@ + sorted_from(
                            entries@,
                            n as int,
                        ).map_values(g),
                    decreases 256 - n,
                {
                    let ghost r0 = rules@;
                    entries_with_note(&entries, n as u8, &mut rules);
                    proof {
                        let here = with_note(entries@, n as int);
                        assert(sorted_from(entries@, n as int) == here + sorted_from(
                            entries@,
                            n + 1,
                        ));
                        assert((here + sorted_from(entries@, n + 1)).map_values(g) =~= here.map_values(g)
                            + sorted_from(entries@, n + 1).map_values(g));
                        assert(r0 + (here.map_values(g) + sorted_from(entries@, n + 1).map_values(g))
                            =~= (r0 + here.map_values(g)) + sorted_from(entries@, n + 1).map_values(
                            g,
                        ));
                    }
                    n = n + 1;
                }
                proof {
                    assert(sorted_from(entries@, 256).map_values(g) =~= Seq::<CompiledRule>::empty());
                    assert(rules@ =~= value_rules(raw@) + op_rules(raw@));
                }
            },
            None => {
                proof {
                    assert(rules@ =~= value_rules(raw@) + op_rules(raw@));
                }
            },
        }
        let ghost prefix = rules@;
        let ghost rv = raw.rules@.map_values(|r: RawRule| types::rule_view(r));
        let mut k: usize = 0;
        assert(prefix + raw_rules(rv, root_note, 0) =~= prefix);
        while k < raw.rules.len()
            invariant
                k <= raw.rules.len(),
                root_note == raw.metadata.root_note,
                rv == raw.rules@.map_values(|r: RawRule| types::rule_view(r)),
                rules@ == prefix + raw_rules(rv, root_note, k as int),
            decreases raw.rules.len() - k,
        {
            let rule = &raw.rules[k];
            assert(rv[k as int] == types::rule_view(raw.rules@[k as int]));
            let trigger = match rule.trigger {
                RawTrigger::Note { note } => Trigger::ExactNote(note),
                RawTrigger::Range { from, to } => Trigger::NoteRange { from, to },
                RawTrigger::Interval { semitones } => Trigger::Interval(semitones),
            };
            let action = match &rule.emit {
                RawEmit::Push { value } => Some(Action::Push(*value)),
                RawEmit::PushOffset => Some(Action::PushOffset { root_note }),
                RawEmit::Op { opcode } => match parse_opcode(opcode.as_str()) {
                    Ok(op) => Some(Action::Op(op)),
                    Err(_) => None,
                },
            };
            match action {
                Some(a) => {
                    rules.push(CompiledRule { trigger, action: a });
                },
                None => {},
            }
            proof {
                assert(rules@ =~= prefix + raw_rules(rv, root_note, k + 1));
            }
            k = k + 1;
        }
        Ok(TuningEngine { rules, root_note, metadata, last_note: None })
    }

    /// Maps a MIDI note to an event: the action of the first matching rule, if any.
    /// The note is remembered for interval triggers whether or not a rule matched.
    pub fn map_note(&mut self, midi_note: u8) -> (r: Option<Event>)
        ensures
            r == first_match(old(self)@.rules, old(self)@.last_note, midi_note, 0),
            final(self)@ == (EngineView { last_note: Some(midi_note), ..old(self)@ }),
    {
        let mut i: usize = 0;
        let mut result: Option<Event> = None;
        let mut found = false;
        while i < self.rules.len() && !found
            invariant
                i <= self.rules.len(),
                !found ==> result.is_none() && first_match(self@.rules, self@.last_note, midi_note, 0)
                    == first_match(self@.rules, self@.last_note, midi_note, i as int),
                found ==> result == first_match(self@.rules, self@.last_note, midi_note, 0),
            decreases self.rules.len() - i, (if found { 0int } else { 1int }),
        {
            let rule = self.rules[i];
            let matched = match rule.trigger {
                Trigger::ExactNote(n) => midi_note == n,
                Trigger::NoteRange { from, to } => midi_note >= from && midi_note <= to,
                Trigger::Interval(semitones) => match self.last_note {
                    Some(last) => (midi_note as i16 - last as i16) == semitones as i16,
                    None => false,
                },
            };
            if matched {
                result = Some(
                    match rule.action {
                        Action::Push(v) => Event::Push(v),
                        Action::PushOffset { root_note } => Event::Push(
                            midi_note as i64 - root_note as i64,
                        ),
                        Action::Op(opcode) => Event::Op(opcode),
                    },
                );
                found = true;
            } else {
                i = i + 1;
            }
        }
        self.last_note = Some(midi_note);
        result
    }

    /// The tuning's metadata.
    pub fn metadata(&self) -> (r: &Metadata)
        ensures
            r@ == self@.metadata,
    {
        &self.metadata
    }

    /// The root note.
    pub fn root_note(&self) -> (r: u8)
        ensures
            r == self@.root_note,
    {
        self.root_note
    }

    /// Forgets the previous note, so no interval trigger can match the next one.
    pub fn reset(&mut self)
        ensures
            final(self)@ == (EngineView { last_note: None, ..old(self)@ }),
    {
        self.last_note = None;
    }
}

} // verus!
