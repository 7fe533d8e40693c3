use haydn::tuning::{
    default_piano_tuning, parse_opcode, validate, Metadata, RawEmit, RawRule, RawTrigger,
    RawTuningFile, TuningEngine, TuningError, ValuesSection,
};
use haydn::vm::{Event, Opcode};

fn file(values: Option<[u8; 2]>, ops: &[(&str, &str)], rules: Vec<RawRule>) -> RawTuningFile {
    RawTuningFile {
        metadata: Metadata {
            name: "Laws".to_string(),
            root_note: 60,
            instrument: "test".to_string(),
            author: None,
            partial_coverage: true,
        },
        values: values.map(|range| ValuesSection { range }),
        operations: if ops.is_empty() {
            None
        } else {
            Some(ops.iter().map(|(k, v)| (k.to_string(), v.to_string())).collect())
        },
        rules,
    }
}

#[test]
fn value_zone_pushes_offset_whatever_came_before() {
    let mut engine = TuningEngine::compile(file(Some([30, 50]), &[], vec![])).unwrap();
    assert_eq!(engine.map_note(30), Some(Event::Push(-30)));
    assert_eq!(engine.map_note(50), Some(Event::Push(-10)));
    assert_eq!(engine.map_note(51), None);
}

#[test]
fn operation_entry_runs_its_opcode() {
    let ops = [("+64", " Loop_End "), ("07", "swap")];
    let mut engine = TuningEngine::compile(file(Some([10, 20]), &ops, vec![])).unwrap();
    assert_eq!(engine.map_note(64), Some(Event::Op(Opcode::LoopEnd)));
    assert_eq!(engine.map_note(7), Some(Event::Op(Opcode::Swap)));
    assert_eq!(engine.map_note(15), Some(Event::Push(-45)));
}

#[test]
fn interval_rule_needs_a_previous_note() {
    let rules = vec![RawRule {
        trigger: RawTrigger::Interval { semitones: -3 },
        emit: RawEmit::Push { value: 9 },
    }];
    let mut engine = TuningEngine::compile(file(None, &[], rules)).unwrap();
    assert_eq!(engine.map_note(70), None);
    assert_eq!(engine.map_note(67), Some(Event::Push(9)));
    engine.reset();
    assert_eq!(engine.map_note(64), None);
    assert_eq!(engine.map_note(61), Some(Event::Push(9)));
}

#[test]
fn compile_returns_every_validation_error() {
    let ops = [("128", "add"), ("40", "dup"), ("x", "mull")];
    let rules = vec![
        RawRule { trigger: RawTrigger::Note { note: 40 }, emit: RawEmit::Op { opcode: "nope".to_string() } },
        RawRule { trigger: RawTrigger::Range { from: 9, to: 3 }, emit: RawEmit::PushOffset },
    ];
    let errors = match TuningEngine::compile(file(Some([100, 200]), &ops, rules)) {
        Err(errors) => errors,
        Ok(_) => panic!("expected errors"),
    };
    let messages: Vec<String> = errors.iter().map(|e| e.to_string()).collect();
    assert_eq!(
        messages,
        vec![
            "note 200 out of MIDI range (0-127)".to_string(),
            "note 128 out of MIDI range (0-127)".to_string(),
            "in [operations]: key 'x' is not a valid MIDI note number (0-127)".to_string(),
            "unknown opcode 'mull' — did you mean 'mul'?".to_string(),
            "unknown opcode 'nope'".to_string(),
            "in [rules[1]]: range from (9) must be <= to (3)".to_string(),
            "overlapping rules: operations[40] and rules[0] both match note 40".to_string(),
            "overlapping rules: values[100-200] and operations[128] both match note 128".to_string(),
        ]
    );
    assert!(matches!(errors[0], TuningError::NoteOutOfRange { note: 200 }));
    assert!(matches!(errors[2], TuningError::Validation { .. }));
    assert!(matches!(errors[6], TuningError::Overlap { note: 40, .. }));
    let inverted = TuningEngine::compile(file(Some([9, 3]), &[], vec![]));
    match inverted {
        Err(errors) => {
            assert_eq!(errors.len(), 1);
            assert_eq!(errors[0].to_string(), "in [values]: range[0] (9) must be <= range[1] (3)");
        }
        Ok(_) => panic!("expected an error"),
    }
}

#[test]
fn coverage_warning_lists_missing_opcodes() {
    let mut raw = file(None, &[("1", "dup"), ("2", "swap")], vec![]);
    raw.metadata.partial_coverage = false;
    let result = validate(&raw);
    assert!(result.errors.is_empty());
    assert_eq!(
        result.warnings,
        vec!["unmapped opcodes (set partial_coverage = true to suppress): drop, rotate, add, sub, mul, div, mod, eq, gt, lt, loop_start, loop_end, print_num, print_char, read, store, load".to_string()]
    );
}

#[test]
fn parse_opcode_non_ascii_goes_through_unicode_lowercase() {
    let err = parse_opcode("ÄDD").unwrap_err();
    match err {
        TuningError::UnknownOpcode { found, suggestion } => {
            assert_eq!(found, "ädd");
            assert_eq!(suggestion, Some("add".to_string()));
        }
        other => panic!("expected unknown opcode, got {:?}", other),
    }
    assert_eq!(parse_opcode("\tPRINT_CHAR\n").unwrap(), Opcode::PrintChar);
}

#[test]
fn piano_tuning_maps_every_key() {
    let mut engine = default_piano_tuning();
    assert_eq!(engine.root_note(), 60);
    let meta = engine.metadata();
    assert_eq!(meta.author, None);
    assert!(!meta.partial_coverage);
    let expected = [
        (60, Opcode::Add), (62, Opcode::Sub), (64, Opcode::Dup), (65, Opcode::Drop),
        (67, Opcode::Mul), (69, Opcode::Div), (71, Opcode::Mod), (72, Opcode::LoopStart),
        (74, Opcode::LoopEnd), (76, Opcode::Eq), (77, Opcode::Gt), (79, Opcode::Lt),
        (81, Opcode::PrintChar), (83, Opcode::PrintNum), (84, Opcode::Read), (86, Opcode::Store),
        (88, Opcode::Load), (89, Opcode::Swap), (91, Opcode::Rotate),
    ];
    for (note, op) in expected {
        assert_eq!(engine.map_note(note), Some(Event::Op(op)));
    }
    for note in 36..=59u8 {
        assert_eq!(engine.map_note(note), Some(Event::Push(note as i64 - 60)));
    }
}
