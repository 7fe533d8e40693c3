//! The built-in tunings.
use vstd::prelude::*;

use crate::text::{push_str, push_u64};
use crate::tuning::engine;
use crate::tuning::engine::TuningEngine;
use crate::tuning::names;
use crate::tuning::names::{opcode_name_chars, string_of_chars};
use crate::tuning::types;
use crate::tuning::types::{Metadata, RawTuningFile, ValuesSection};
use crate::tuning::validate;
use crate::vm::types::Opcode;

verus! {

/// Number of `[operations]` entries of the piano tuning: one white key per opcode.
pub const PIANO_OPERATION_COUNT: usize = 19;

/// The note of the `i`-th `[operations]` entry of the piano tuning: the white keys
/// from middle C (60) up to G6 (91).
pub open spec fn piano_note(i: int) -> u8 {
    if i == 0 {
        60
    } else if i == 1 {
        62
    } else if i == 2 {
        64
    } else if i == 3 {
        65
    } else if i == 4 {
        67
    } else if i == 5 {
        69
    } else if i == 6 {
        71
    } else if i == 7 {
        72
    } else if i == 8 {
        74
    } else if i == 9 {
        76
    } else if i == 10 {
        77
    } else if i == 11 {
        79
    } else if i == 12 {
        81
    } else if i == 13 {
        83
    } else if i == 14 {
        84
    } else if i == 15 {
        86
    } else if i == 16 {
        88
    } else if i == 17 {
        89
    } else {
        91
    }
}

/// The opcode of the `i`-th `[operations]` entry of the piano tuning.
pub open spec fn piano_op(i: int) -> Opcode {
    if i == 0 {
        Opcode::Add
    } else if i == 1 {
        Opcode::Sub
    } else if i == 2 {
        Opcode::Dup
    } else if i == 3 {
        Opcode::Drop
    } else if i == 4 {
        Opcode::Mul
    } else if i == 5 {
        Opcode::Div
    } else if i == 6 {
        Opcode::Mod
    } else if i == 7 {
        Opcode::LoopStart
    } else if i == 8 {
        Opcode::LoopEnd
    } else if i == 9 {
        Opcode::Eq
    } else if i == 10 {
        Opcode::Gt
    } else if i == 11 {
        Opcode::Lt
    } else if i == 12 {
        Opcode::PrintChar
    } else if i == 13 {
        Opcode::PrintNum
    } else if i == 14 {
        Opcode::Read
    } else if i == 15 {
        Opcode::Store
    } else if i == 16 {
        Opcode::Load
    } else if i == 17 {
        Opcode::Swap
    } else {
        Opcode::Rotate
    }
}

/// The text of an `[operations]` entry: the note's decimal key and the opcode's name.
pub open spec fn entry_text(note: u8, op: Opcode) -> (Seq<char>, Seq<char>) {
    (crate::text::decimal_nat_chars(note as nat), names::opcode_name(op))
}

/// The `[operations]` table of the piano tuning.
pub open spec fn piano_operations() -> Seq<(Seq<char>, Seq<char>)> {
    Seq::new(PIANO_OPERATION_COUNT as nat, |i: int| entry_text(piano_note(i), piano_op(i)))
}

/// The piano tuning file: root note middle C, pushes on C2-B3 (36-59), one opcode per
/// white key from C4 to G6, no rules, full coverage required.
pub open spec fn piano_view() -> types::RawTuningView {
    types::RawTuningView {
        metadata: types::MetadataView {
            name: "Default Piano"@,
            root_note: 60,
            instrument: "piano"@,
            author: None,
            partial_coverage: false,
        },
        values: Some((36, 59)),
        operations: Some(piano_operations()),
        rules: Seq::empty(),
    }
}

fn piano_note_at(i: usize) -> (n: u8)
    requires
        i < PIANO_OPERATION_COUNT,
    ensures
        n == piano_note(i as int),
{
    match i {
        0 => 60,
        1 => 62,
        2 => 64,
        3 => 65,
        4 => 67,
        5 => 69,
        6 => 71,
        7 => 72,
        8 => 74,
        9 => 76,
        10 => 77,
        11 => 79,
        12 => 81,
        13 => 83,
        14 => 84,
        15 => 86,
        16 => 88,
        17 => 89,
        _ => 91,
    }
}

fn piano_op_at(i: usize) -> (op: Opcode)
    requires
        i < PIANO_OPERATION_COUNT,
    ensures
        op == piano_op(i as int),
{
    match i {
        0 => Opcode::Add,
        1 => Opcode::Sub,
        2 => Opcode::Dup,
        3 => Opcode::Drop,
        4 => Opcode::Mul,
        5 => Opcode::Div,
        6 => Opcode::Mod,
        7 => Opcode::LoopStart,
        8 => Opcode::LoopEnd,
        9 => Opcode::Eq,
        10 => Opcode::Gt,
        11 => Opcode::Lt,
        12 => Opcode::PrintChar,
        13 => Opcode::PrintNum,
        14 => Opcode::Read,
        15 => Opcode::Store,
        16 => Opcode::Load,
        17 => Opcode::Swap,
        _ => Opcode::Rotate,
    }
}

/// The built-in piano tuning file.
pub fn piano_tuning_file() -> (r: RawTuningFile)
    ensures
        r@ == piano_view(),
{
    let mut name = String::new();
    push_str(&mut name, "Default Piano");
    let mut instrument = String::new();
    push_str(&mut instrument, "piano");
    let mut ops: Vec<(String, String)> = Vec::new();
    let mut i: usize = 0;
    while i < PIANO_OPERATION_COUNT
        invariant
            i <= PIANO_OPERATION_COUNT,
            types::ops_view(ops@) =~= piano_operations().subrange(0, i as int),
        decreases PIANO_OPERATION_COUNT - i,
    {
        let mut key = String::new();
        push_u64(&mut key, piano_note_at(i) as u64);
        assert(key@ =~= crate::text::decimal_nat_chars(piano_note(i as int) as nat));
        let op_name = string_of_chars(&opcode_name_chars(piano_op_at(i)));
        let ghost before = ops@;
        ops.push((key, op_name));
        proof {
            assert(ops@ == before.push((key, op_name)));
            assert(types::ops_view(ops@) =~= types::ops_view(before).push((key@, op_name@)));
            assert(piano_operations()[i as int] == (key@, op_name@));
            assert(types::ops_view(ops@) =~= piano_operations().subrange(0, i + 1));
        }
        i = i + 1;
    }
    assert(piano_operations().subrange(0, i as int) =~= piano_operations());
    let rules = Vec::new();
    assert(rules@.map_values(|r: types::RawRule| types::rule_view(r)) =~= Seq::<types::RuleView>::empty());
    RawTuningFile {
        metadata: Metadata {
            name,
            root_note: 60,
            instrument,
            author: None,
            partial_coverage: false,
        },
        values: Some(ValuesSection { range: [36, 59] }),
        operations: Some(ops),
        rules,
    }
}

proof fn lemma_ops_errors_empty(ops: Seq<(Seq<char>, Seq<char>)>, k: int)
    requires
        0 <= k <= ops.len(),
        forall|j: int|
            0 <= j < k ==> ((#[trigger] validate::parse_u8_spec(ops[j].0)) matches Some(n) && n
                <= 127),
        forall|j: int| 0 <= j < k ==> (#[trigger] names::parse_opcode_spec(ops[j].1)) is Ok,
    ensures
        validate::ops_errors(ops, k) =~= Seq::<crate::tuning::error::TuningErrorView>::empty(),
    decreases k,
{
    if k > 0 {
        lemma_ops_errors_empty(ops, k - 1);
        assert(validate::parse_u8_spec(ops[k - 1].0) is Some);
        assert(names::parse_opcode_spec(ops[k - 1].1) is Ok);
    }
}

proof fn lemma_op_sources(ops: Seq<(Seq<char>, Seq<char>)>, k: int)
    requires
        0 <= k <= ops.len(),
        forall|j: int| 0 <= j < k ==> (#[trigger] validate::parse_u8_spec(ops[j].0)) is Some,
    ensures
        validate::op_sources(ops, k).len() == k,
        forall|j: int|
            0 <= j < k ==> Some(#[trigger] validate::op_sources(ops, k)[j].0)
                == validate::parse_u8_spec(ops[j].0),
    decreases k,
{
    if k > 0 {
        lemma_op_sources(ops, k - 1);
        assert(validate::parse_u8_spec(ops[k - 1].0) is Some);
        let prev = validate::op_sources(ops, k - 1);
        assert forall|j: int| 0 <= j < k implies Some(
            #[trigger] validate::op_sources(ops, k)[j].0,
        ) == validate::parse_u8_spec(ops[j].0) by {
            if j < k - 1 {
                assert(validate::op_sources(ops, k)[j] == prev[j]);
            }
        }
    }
}

proof fn lemma_no_earlier_note(src: Seq<(u8, Seq<char>)>, note: u8, m: int)
    requires
        0 <= m <= src.len(),
        forall|i: int| 0 <= i < m ==> (#[trigger] src[i]).0 != note,
    ensures
        validate::first_with_note(src, note, m) is None,
    decreases m,
{
    if m > 0 {
        lemma_no_earlier_note(src, note, m - 1);
    }
}

proof fn lemma_no_duplicates(src: Seq<(u8, Seq<char>)>, k: int)
    requires
        0 <= k <= src.len(),
        forall|i: int, j: int| 0 <= i < j < src.len() ==> (#[trigger] src[i]).0 < (#[trigger] src[j]).0,
    ensures
        validate::duplicate_errors(src, k) =~= Seq::<crate::tuning::error::TuningErrorView>::empty(),
    decreases k,
{
    if k > 0 {
        lemma_no_duplicates(src, k - 1);
        assert forall|i: int| 0 <= i < k - 1 implies (#[trigger] src[i]).0 != src[k - 1].0 by {
            assert(src[i].0 < src[k - 1].0);
        }
        lemma_no_earlier_note(src, src[k - 1].0, k - 1);
    }
}

proof fn lemma_outside_range(src: Seq<(u8, Seq<char>)>, lo: u8, hi: u8, k: int)
    requires
        0 <= k <= src.len(),
        forall|i: int| 0 <= i < k ==> (#[trigger] src[i]).0 > hi,
    ensures
        validate::range_errors(src, lo, hi, k) =~= Seq::<crate::tuning::error::TuningErrorView>::empty(),
    decreases k,
{
    if k > 0 {
        lemma_outside_range(src, lo, hi, k - 1);
        assert(src[k - 1].0 > hi);
    }
}

/// The piano tuning has no validation errors.
pub proof fn lemma_piano_valid()
    ensures
        validate::validate_errors(piano_view()).len() == 0,
{
    let raw = piano_view();
    let ops = piano_operations();
    assert forall|j: int| 0 <= j < ops.len() implies (#[trigger] validate::parse_u8_spec(
        ops[j].0,
    )) == Some(piano_note(j)) by {
        validate::lemma_parse_decimal(piano_note(j));
    }
    assert forall|j: int| 0 <= j < ops.len() implies (#[trigger] names::parse_opcode_spec(
        ops[j].1,
    )) is Ok by {
        names::lemma_parse_opcode_name(piano_op(j));
    }
    lemma_ops_errors_empty(ops, ops.len() as int);
    lemma_op_sources(ops, ops.len() as int);
    let src = validate::note_sources(raw);
    assert(validate::rule_sources(raw.rules, 0) =~= Seq::<(u8, Seq<char>)>::empty());
    assert(src =~= validate::op_sources(ops, ops.len() as int));
    assert forall|j: int| 0 <= j < src.len() implies (#[trigger] src[j]).0 == piano_note(j) by {
        assert(Some(validate::op_sources(ops, ops.len() as int)[j].0) == validate::parse_u8_spec(
            ops[j].0,
        ));
    }
    assert forall|i: int, j: int| 0 <= i < j < src.len() implies (#[trigger] src[i]).0 < (
    #[trigger] src[j]).0 by {
        assert(src[i].0 == piano_note(i));
        assert(src[j].0 == piano_note(j));
    }
    lemma_no_duplicates(src, src.len() as int);
    assert forall|i: int| 0 <= i < src.len() implies (#[trigger] src[i]).0 > 59u8 by {
        assert(src[i].0 == piano_note(i));
    }
    lemma_outside_range(src, 36, 59, src.len() as int);
    assert(validate::values_errors(raw.values) =~= Seq::<crate::tuning::error::TuningErrorView>::empty());
    assert(validate::rules_errors(raw.rules, 0) =~= Seq::<crate::tuning::error::TuningErrorView>::empty());
    assert(validate::validate_errors(raw) =~= Seq::<crate::tuning::error::TuningErrorView>::empty());
}

proof fn lemma_two_digits(n: nat)
    requires
        10 <= n <= 99,
    ensures
        crate::text::decimal_nat_chars(n) == seq![
            crate::text::digit_byte(n / 10) as char,
            crate::text::digit_byte(n % 10) as char,
        ],
{
    let d = crate::text::decimal_nat(n);
    assert(crate::text::decimal_nat(n / 10) == seq![crate::text::digit_byte(n / 10)]);
    assert(d == seq![crate::text::digit_byte(n / 10)].push(crate::text::digit_byte(n % 10)));
    assert(crate::text::decimal_nat_chars(n) =~= seq![
        crate::text::digit_byte(n / 10) as char,
        crate::text::digit_byte(n % 10) as char,
    ]);
}

proof fn lemma_two_digit_keys_ascend(a: nat, b: nat)
    requires
        10 <= a < b <= 99,
    ensures
        types::chars_less(crate::text::decimal_nat_chars(a), crate::text::decimal_nat_chars(b)),
{
    lemma_two_digits(a);
    lemma_two_digits(b);
    let x = crate::text::decimal_nat_chars(a);
    let y = crate::text::decimal_nat_chars(b);
    assert((crate::text::digit_byte(a / 10) as char) as u32 == 48 + a / 10);
    assert((crate::text::digit_byte(b / 10) as char) as u32 == 48 + b / 10);
    assert((crate::text::digit_byte(a % 10) as char) as u32 == 48 + a % 10);
    assert((crate::text::digit_byte(b % 10) as char) as u32 == 48 + b % 10);
    if a / 10 == b / 10 {
        assert(a % 10 < b % 10);
        assert(x.drop_first() =~= seq![x[1]]);
        assert(y.drop_first() =~= seq![y[1]]);
        assert(types::chars_less(x.drop_first(), y.drop_first()));
    } else {
        assert(a / 10 < b / 10);
    }
}

/// The piano tuning's `[operations]` keys come in ascending order.
proof fn lemma_piano_well_keyed()
    ensures
        types::well_keyed(piano_view()),
{
    let ops = piano_operations();
    assert forall|i: int, j: int| 0 <= i < j < ops.len() implies types::chars_less(
        #[trigger] ops[i].0,
        #[trigger] ops[j].0,
    ) by {
        assert(piano_note(i) < piano_note(j));
        assert(10 <= piano_note(i));
        assert(piano_note(j) <= 99);
        lemma_two_digit_keys_ascend(piano_note(i) as nat, piano_note(j) as nat);
    }
}

/// The built-in piano tuning (see `piano_view`), compiled.
pub fn default_piano_tuning() -> (r: TuningEngine)
    ensures
        r@ == (engine::EngineView {
            rules: engine::compiled_rules(piano_view()),
            root_note: 60,
            metadata: piano_view().metadata,
            last_note: None,
        }),
{
    proof {
        lemma_piano_valid();
        lemma_piano_well_keyed();
    }
    match TuningEngine::compile(piano_tuning_file()) {
        Ok(e) => e,
        Err(_) => vstd::pervasive::unreached(),
    }
}

} // verus!
