use haydn::tuning::{
    parse_opcode, validate, Metadata, RawEmit, RawRule, RawTrigger, RawTuningFile, TuningError,
    ValuesSection,
};
use haydn::vm::Opcode;

/// Builds a tuning file from TOML text, field by field.
fn raw_from_toml(text: &str) -> RawTuningFile {
    let table: toml::Table = toml::from_str(text).unwrap();
    let meta = table.get("metadata").unwrap().as_table().unwrap();
    let metadata = Metadata {
        name: meta.get("name").unwrap().as_str().unwrap().to_string(),
        root_note: meta.get("root_note").unwrap().as_integer().unwrap() as u8,
        instrument: meta.get("instrument").unwrap().as_str().unwrap().to_string(),
        author: meta.get("author").map(|a| a.as_str().unwrap().to_string()),
        partial_coverage: meta
            .get("partial_coverage")
            .map(|p| p.as_bool().unwrap())
            .unwrap_or(false),
    };
    let values = table.get("values").map(|v| {
        let range = v.as_table().unwrap().get("range").unwrap().as_array().unwrap();
        ValuesSection {
            range: [
                range[0].as_integer().unwrap() as u8,
                range[1].as_integer().unwrap() as u8,
            ],
        }
    });
    let operations = table.get("operations").map(|o| {
        o.as_table()
            .unwrap()
            .iter()
            .map(|(k, v)| (k.clone(), v.as_str().unwrap().to_string()))
            .collect::<Vec<(String, String)>>()
    });
    let mut rules = Vec::new();
    if let Some(list) = table.get("rules") {
        for rule in list.as_array().unwrap() {
            let rule = rule.as_table().unwrap();
            let t = rule.get("trigger").unwrap().as_table().unwrap();
            let int = |key: &str| t.get(key).unwrap().as_integer().unwrap();
            let trigger = match t.get("type").unwrap().as_str().unwrap() {
                "note" => RawTrigger::Note { note: int("note") as u8 },
                "range" => RawTrigger::Range { from: int("from") as u8, to: int("to") as u8 },
                "interval" => RawTrigger::Interval { semitones: int("semitones") as i8 },
                other => panic!("unknown trigger type {other}"),
            };
            let e = rule.get("emit").unwrap().as_table().unwrap();
            let emit = match e.get("type").unwrap().as_str().unwrap() {
                "push" => RawEmit::Push { value: e.get("value").unwrap().as_integer().unwrap() },
                "push_offset" => RawEmit::PushOffset,
                "op" => RawEmit::Op {
                    opcode: e.get("opcode").unwrap().as_str().unwrap().to_string(),
                },
                other => panic!("unknown emit type {other}"),
            };
            rules.push(RawRule { trigger, emit });
        }
    }
    RawTuningFile { metadata, values, operations, rules }
}


// ── Opcode parsing tests ──────────────────────────────────────────

#[test]
fn parse_all_19_opcodes() {
    let cases = [
        ("dup", Opcode::Dup),
        ("swap", Opcode::Swap),
        ("drop", Opcode::Drop),
        ("rotate", Opcode::Rotate),
        ("add", Opcode::Add),
        ("sub", Opcode::Sub),
        ("mul", Opcode::Mul),
        ("div", Opcode::Div),
        ("mod", Opcode::Mod),
        ("eq", Opcode::Eq),
        ("gt", Opcode::Gt),
        ("lt", Opcode::Lt),
        ("loop_start", Opcode::LoopStart),
        ("loop_end", Opcode::LoopEnd),
        ("print_num", Opcode::PrintNum),
        ("print_char", Opcode::PrintChar),
        ("read", Opcode::Read),
        ("store", Opcode::Store),
        ("load", Opcode::Load),
    ];
    for (name, expected) in cases {
        assert_eq!(parse_opcode(name).unwrap(), expected, "failed for {name}");
    }
}

#[test]
fn parse_opcode_case_insensitive() {
    assert_eq!(parse_opcode("ADD").unwrap(), Opcode::Add);
    assert_eq!(parse_opcode("Loop_Start").unwrap(), Opcode::LoopStart);
}

#[test]
fn parse_opcode_typo_suggests_dup() {
    let err = parse_opcode("dupe").unwrap_err();
    let msg = err.to_string();
    assert!(msg.contains("dup"), "expected suggestion 'dup' in: {msg}");
}

#[test]
fn parse_opcode_unknown_no_suggestion() {
    let err = parse_opcode("xyz").unwrap_err();
    let msg = err.to_string();
    assert!(msg.contains("unknown opcode"), "expected 'unknown opcode' in: {msg}");
    // xyz is too far from any opcode to suggest
}

// ── Validation tests ──────────────────────────────────────────────

#[test]
fn validation_collects_all_errors() {
    let toml = r#"
        [metadata]
        name = "Bad"
        root_note = 60
        instrument = "piano"

        [values]
        range = [80, 40]

        [operations]
        60 = "dupe"
        62 = "xyz_bad"
    "#;
    let raw: RawTuningFile = raw_from_toml(toml);
    let result = validate(&raw);
    // Should have multiple errors: inverted range, unknown opcodes
    assert!(
        result.errors.len() >= 3,
        "expected >= 3 errors, got {}: {:?}",
        result.errors.len(),
        result.errors
    );
}

#[test]
fn validation_overlapping_exact_notes() {
    let toml = r#"
        [metadata]
        name = "Overlap"
        root_note = 60
        instrument = "piano"
        partial_coverage = true

        [operations]
        60 = "add"

        [[rules]]
        [rules.trigger]
        type = "note"
        note = 60

        [rules.emit]
        type = "op"
        opcode = "sub"
    "#;
    let raw: RawTuningFile = raw_from_toml(toml);
    let result = validate(&raw);
    let overlap_errors: Vec<_> = result
        .errors
        .iter()
        .filter(|e| matches!(e, TuningError::Overlap { .. }))
        .collect();
    assert!(
        !overlap_errors.is_empty(),
        "expected at least one overlap error, got: {:?}",
        result.errors
    );
}

#[test]
fn validation_coverage_warning_when_opcodes_missing() {
    let toml = r#"
        [metadata]
        name = "Partial"
        root_note = 60
        instrument = "piano"

        [operations]
        60 = "add"
    "#;
    let raw: RawTuningFile = raw_from_toml(toml);
    let result = validate(&raw);
    assert!(
        !result.warnings.is_empty(),
        "expected coverage warnings"
    );
    assert!(result.warnings[0].contains("unmapped opcodes"));
}

#[test]
fn validation_no_coverage_warning_with_partial_flag() {
    let toml = r#"
        [metadata]
        name = "Partial OK"
        root_note = 60
        instrument = "piano"
        partial_coverage = true

        [operations]
        60 = "add"
    "#;
    let raw: RawTuningFile = raw_from_toml(toml);
    let result = validate(&raw);
    assert!(
        result.warnings.is_empty(),
        "expected no coverage warnings with partial_coverage=true"
    );
}

#[test]
fn inverted_range_caught_in_validation() {
    let toml = r#"
        [metadata]
        name = "Inverted"
        root_note = 60
        instrument = "piano"
        partial_coverage = true

        [values]
        range = [80, 40]
    "#;
    let raw: RawTuningFile = raw_from_toml(toml);
    let result = validate(&raw);
    assert!(!result.errors.is_empty(), "expected validation error for inverted range");
}
