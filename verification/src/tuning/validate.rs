use vstd::prelude::*;

use crate::text::{chars_of, push_chars, push_str, push_u64};
use crate::tuning::error::{TuningError, TuningErrorView, ValidationResult};
use crate::tuning::names;
use crate::tuning::names::{opcode_at_index, opcode_name_chars, parse_opcode, OPCODE_COUNT};
use crate::tuning::types::{copy_string, EmitView, RawEmit, RawRule, RawTrigger, RawTuningFile, RuleView};
use crate::tuning::types;

verus! {

// ---------------------------------------------------------------------------
// Parsing a note number from an `[operations]` key.

/// Whether a character is an ASCII decimal digit.
pub open spec fn is_digit(c: char) -> bool {
    '0' <= c && c <= '9'
}

/// The value of a run of decimal digits.
pub open spec fn digits_value(s: Seq<char>) -> nat
    decreases s.len(),
{
    if s.len() == 0 {
        0
    } else {
        digits_value(s.drop_last()) * 10 + ((s.last() as u32) - 48) as nat
    }
}

/// The digits part of an unsigned number: an optional leading `+` is dropped when
/// something follows it.
pub open spec fn unsigned_digits(s: Seq<char>) -> Seq<char> {
    if s.len() > 1 && s[0] == '+' {
        s.drop_first()
    } else {
        s
    }
}

/// What `u8::from_str` gives: an optional `+`, then one or more decimal digits
/// whose value fits in a byte.
pub open spec fn parse_u8_spec(s: Seq<char>) -> Option<u8> {
    let d = unsigned_digits(s);
    if d.len() > 0 && (forall|i: int| 0 <= i < d.len() ==> is_digit(#[trigger] d[i]))
        && digits_value(d) <= 255 {
        Some(digits_value(d) as u8)
    } else {
        None
    }
}

proof fn lemma_digits_value_prefix(s: Seq<char>, k: int)
    requires
        0 <= k < s.len(),
        forall|i: int| 0 <= i < s.len() ==> is_digit(#[trigger] s[i]),
    ensures
        digits_value(s.subrange(0, k + 1)) == digits_value(s.subrange(0, k)) * 10 + ((s[k] as u32)
            - 48) as nat,
{
    assert(s.subrange(0, k + 1).drop_last() =~= s.subrange(0, k));
}

proof fn lemma_digits_value_grows(s: Seq<char>, k: int)
    requires
        0 <= k <= s.len(),
        forall|i: int| 0 <= i < s.len() ==> is_digit(#[trigger] s[i]),
    ensures
        digits_value(s) >= digits_value(s.subrange(0, k)),
    decreases s.len() - k,
{
    if k < s.len() {
        lemma_digits_value_prefix(s, k);
        lemma_digits_value_grows(s, k + 1);
    } else {
        assert(s.subrange(0, k) =~= s);
    }
}

/// The decimal text of a number is a non-empty run of digits whose value is the number.
pub proof fn lemma_decimal_digits(n: nat)
    ensures
        crate::text::decimal_nat_chars(n).len() > 0,
        forall|k: int|
            0 <= k < crate::text::decimal_nat_chars(n).len() ==> is_digit(
                #[trigger] crate::text::decimal_nat_chars(n)[k],
            ),
        digits_value(crate::text::decimal_nat_chars(n)) == n,
    decreases n,
{
    let s = crate::text::decimal_nat_chars(n);
    let d = crate::text::digit_byte(n % 10);
    assert(d == 48 + n % 10);
    assert((d as char) as u32 == d);
    if n < 10 {
        assert(s =~= seq![d as char]);
        assert(s.drop_last() =~= Seq::<char>::empty());
        assert(s.last() == d as char);
        assert(digits_value(s) == digits_value(s.drop_last()) * 10 + ((s.last() as u32) - 48) as nat);
    } else {
        lemma_decimal_digits(n / 10);
        let p = crate::text::decimal_nat_chars(n / 10);
        assert(s =~= p.push(d as char));
        assert(s.drop_last() =~= p);
        assert(s.last() == d as char);
        assert(digits_value(s) == digits_value(p) * 10 + ((s.last() as u32) - 48) as nat);
        assert((n / 10) * 10 + n % 10 == n);
    }
}

/// A note number written in decimal reads back as the same note.
pub proof fn lemma_parse_decimal(n: u8)
    ensures
        parse_u8_spec(crate::text::decimal_nat_chars(n as nat)) == Some(n),
{
    lemma_decimal_digits(n as nat);
    let s = crate::text::decimal_nat_chars(n as nat);
    assert(is_digit(s[0]));
    assert(unsigned_digits(s) == s);
}

/// Parses a note key as `u8::from_str` does.
pub fn parse_u8_chars(s: &Vec<char>) -> (r: Option<u8>)
    ensures
        r == parse_u8_spec(s@),
{
    let start: usize = if s.len() > 1 && s[0] == '+' {
        1
    } else {
        0
    };
    let ghost d = unsigned_digits(s@);
    assert(d =~= s@.subrange(start as int, s@.len() as int));
    if start >= s.len() {
        return None;
    }
    let mut value: u32 = 0;
    let mut i: usize = start;
    while i < s.len()
        invariant
            start <= i <= s.len(),
            start < s.len(),
            d == unsigned_digits(s@),
            d =~= s@.subrange(start as int, s@.len() as int),
            forall|k: int| 0 <= k < i - start ==> is_digit(#[trigger] d[k]),
            value as nat == digits_value(d.subrange(0, i - start)),
            value <= 255,
        decreases s.len() - i,
    {
        let c = s[i];
        if !('0' <= c && c <= '9') {
            assert(!is_digit(d[i - start]));
            return None;
        }
        proof {
            assert(d.subrange(0, i - start + 1).drop_last() =~= d.subrange(0, i - start));
        }
        value = value * 10 + ((c as u32) - 48);
        if value > 255 {
            proof {
                assert(value as nat == digits_value(d.subrange(0, i - start + 1)));
                assert forall|k: int| 0 <= k < i - start + 1 implies is_digit(#[trigger] d.subrange(0, i - start + 1)[k]) by {}
                if forall|k: int| 0 <= k < d.len() ==> is_digit(#[trigger] d[k]) {
                    lemma_digits_value_grows(d, i - start + 1);
                }
            }
            return None;
        }
        i = i + 1;
    }
    assert(d.subrange(0, i - start) =~= d);
    Some(value as u8)
}

// ---------------------------------------------------------------------------
// What validation reports.

pub open spec fn validation(section: Seq<char>, message: Seq<char>) -> TuningErrorView {
    TuningErrorView::Validation { section, message }
}

pub open spec fn dec(n: u8) -> Seq<char> {
    crate::text::decimal_nat_chars(n as nat)
}

pub open spec fn dec_nat(n: nat) -> Seq<char> {
    crate::text::decimal_nat_chars(n)
}

/// Errors of the `[values]` section.
pub open spec fn values_errors(v: Option<(u8, u8)>) -> Seq<TuningErrorView> {
    match v {
        None => Seq::empty(),
        Some((lo, hi)) => {
            let inverted = if lo > hi {
                seq![
                    validation(
                        "values"@,
                        "range[0] ("@ + dec(lo) + ") must be <= range[1] ("@ + dec(hi) + ")"@,
                    ),
                ]
            } else {
                Seq::empty()
            };
            let out = if hi > 127 {
                seq![TuningErrorView::NoteOutOfRange { note: hi }]
            } else {
                Seq::empty()
            };
            inverted + out
        },
    }
}

/// The error of an opcode name, if it names no opcode.
pub open spec fn opcode_errors(name: Seq<char>) -> Seq<TuningErrorView> {
    match names::parse_opcode_spec(name) {
        Ok(_) => Seq::empty(),
        Err(e) => seq![e],
    }
}

/// Errors of one `[operations]` entry: its key, then its opcode name.
pub open spec fn op_entry_errors(key: Seq<char>, name: Seq<char>) -> Seq<TuningErrorView> {
    let key_errors = match parse_u8_spec(key) {
        Some(note) => if note > 127 {
            seq![TuningErrorView::NoteOutOfRange { note }]
        } else {
            Seq::empty()
        },
        None => seq![
            validation(
                "operations"@,
                "key '"@ + key + "' is not a valid MIDI note number (0-127)"@,
            ),
        ],
    };
    key_errors + opcode_errors(name)
}

/// Errors of the first `k` `[operations]` entries, in table order.
pub open spec fn ops_errors(ops: Seq<(Seq<char>, Seq<char>)>, k: int) -> Seq<TuningErrorView>
    decreases k,
{
    if k <= 0 {
        Seq::empty()
    } else {
        ops_errors(ops, k - 1) + op_entry_errors(ops[k - 1].0, ops[k - 1].1)
    }
}

/// The label of a rule in messages: `rules[i]`.
pub open spec fn rule_label(i: nat) -> Seq<char> {
    "rules["@ + dec_nat(i) + "]"@
}

/// Errors of rule `i`: its trigger, then its opcode name.
pub open spec fn rule_errors(i: nat, r: RuleView) -> Seq<TuningErrorView> {
    let trigger_errors = match r.trigger {
        RawTrigger::Note { note } => if note > 127 {
            seq![TuningErrorView::NoteOutOfRange { note }]
        } else {
            Seq::empty()
        },
        RawTrigger::Range { from, to } => {
            let inverted = if from > to {
                seq![
                    validation(
                        rule_label(i),
                        "range from ("@ + dec(from) + ") must be <= to ("@ + dec(to) + ")"@,
                    ),
                ]
            } else {
                Seq::empty()
            };
            let out = if to > 127 {
                seq![TuningErrorView::NoteOutOfRange { note: to }]
            } else {
                Seq::empty()
            };
            inverted + out
        },
        RawTrigger::Interval { .. } => Seq::empty(),
    };
    let emit_errors = match r.emit {
        EmitView::Op { opcode } => opcode_errors(opcode),
        _ => Seq::empty(),
    };
    trigger_errors + emit_errors
}

/// Errors of the first `k` rules, in order.
pub open spec fn rules_errors(rules: Seq<RuleView>, k: int) -> Seq<TuningErrorView>
    decreases k,
{
    if k <= 0 {
        Seq::empty()
    } else {
        rules_errors(rules, k - 1) + rule_errors((k - 1) as nat, rules[k - 1])
    }
}

/// The exact notes named by the first `k` `[operations]` keys that parse, with labels
/// `operations[key]`.
pub open spec fn op_sources(ops: Seq<(Seq<char>, Seq<char>)>, k: int) -> Seq<(u8, Seq<char>)>
    decreases k,
{
    if k <= 0 {
        Seq::empty()
    } else {
        let prev = op_sources(ops, k - 1);
        match parse_u8_spec(ops[k - 1].0) {
            Some(note) => prev.push((note, "operations["@ + ops[k - 1].0 + "]"@)),
            None => prev,
        }
    }
}

/// The notes of the first `k` rules with a `note` trigger, with labels `rules[i]`.
pub open spec fn rule_sources(rules: Seq<RuleView>, k: int) -> Seq<(u8, Seq<char>)>
    decreases k,
{
    if k <= 0 {
        Seq::empty()
    } else {
        let prev = rule_sources(rules, k - 1);
        match rules[k - 1].trigger {
            RawTrigger::Note { note } => prev.push((note, rule_label((k - 1) as nat))),
            _ => prev,
        }
    }
}

/// Every exact note named in the file: `[operations]` keys first, then `note` rules.
pub open spec fn note_sources(raw: types::RawTuningView) -> Seq<(u8, Seq<char>)> {
    let ops = match raw.operations {
        Some(o) => op_sources(o, o.len() as int),
        None => Seq::empty(),
    };
    ops + rule_sources(raw.rules, raw.rules.len() as int)
}

/// The first of the first `k` sources that names `note`.
pub open spec fn first_with_note(src: Seq<(u8, Seq<char>)>, note: u8, k: int) -> Option<int>
    decreases k,
{
    if k <= 0 {
        None
    } else {
        match first_with_note(src, note, k - 1) {
            Some(j) => Some(j),
            None => if src[k - 1].0 == note {
                Some(k - 1)
            } else {
                None
            },
        }
    }
}

/// One overlap error for every source whose note an earlier source already named,
/// pairing it with the first such source; for the first `k` sources.
pub open spec fn duplicate_errors(src: Seq<(u8, Seq<char>)>, k: int) -> Seq<TuningErrorView>
    decreases k,
{
    if k <= 0 {
        Seq::empty()
    } else {
        let prev = duplicate_errors(src, k - 1);
        match first_with_note(src, src[k - 1].0, k - 1) {
            Some(j) => prev.push(
                TuningErrorView::Overlap {
                    rule_a: src[j].1,
                    rule_b: src[k - 1].1,
                    note: src[k - 1].0,
                },
            ),
            None => prev,
        }
    }
}

/// The label of the `[values]` range in messages: `values[lo-hi]`.
pub open spec fn values_label(lo: u8, hi: u8) -> Seq<char> {
    "values["@ + dec(lo) + "-"@ + dec(hi) + "]"@
}

/// One overlap error for each of the first `k` sources whose note lies in the values range.
pub open spec fn range_errors(src: Seq<(u8, Seq<char>)>, lo: u8, hi: u8, k: int) -> Seq<
    TuningErrorView,
>
    decreases k,
{
    if k <= 0 {
        Seq::empty()
    } else {
        let prev = range_errors(src, lo, hi, k - 1);
        if lo <= src[k - 1].0 && src[k - 1].0 <= hi {
            prev.push(
                TuningErrorView::Overlap {
                    rule_a: values_label(lo, hi),
                    rule_b: src[k - 1].1,
                    note: src[k - 1].0,
                },
            )
        } else {
            prev
        }
    }
}

/// Errors from rules that can match the same note.
pub open spec fn overlap_errors(raw: types::RawTuningView) -> Seq<TuningErrorView> {
    let src = note_sources(raw);
    duplicate_errors(src, src.len() as int) + match raw.values {
        Some((lo, hi)) => range_errors(src, lo, hi, src.len() as int),
        None => Seq::empty(),
    }
}

/// Every error of a tuning file, in the order validation reports them.
pub open spec fn validate_errors(raw: types::RawTuningView) -> Seq<TuningErrorView> {
    values_errors(raw.values) + match raw.operations {
        Some(o) => ops_errors(o, o.len() as int),
        None => Seq::empty(),
    } + rules_errors(raw.rules, raw.rules.len() as int) + overlap_errors(raw)
}

/// The normalized opcode names used by the first `k` `[operations]` entries.
pub open spec fn op_names_used(ops: Seq<(Seq<char>, Seq<char>)>, k: int) -> Seq<Seq<char>>
    decreases k,
{
    if k <= 0 {
        Seq::empty()
    } else {
        op_names_used(ops, k - 1).push(names::normalize(ops[k - 1].1))
    }
}

/// The normalized opcode names emitted by the first `k` rules.
pub open spec fn rule_names_used(rules: Seq<RuleView>, k: int) -> Seq<Seq<char>>
    decreases k,
{
    if k <= 0 {
        Seq::empty()
    } else {
        let prev = rule_names_used(rules, k - 1);
        match rules[k - 1].emit {
            EmitView::Op { opcode } => prev.push(names::normalize(opcode)),
            _ => prev,
        }
    }
}

/// Every normalized opcode name the file uses.
pub open spec fn names_used(raw: types::RawTuningView) -> Seq<Seq<char>> {
    let ops = match raw.operations {
        Some(o) => op_names_used(o, o.len() as int),
        None => Seq::empty(),
    };
    ops + rule_names_used(raw.rules, raw.rules.len() as int)
}

/// The table names among the first `k` that the file does not use.
pub open spec fn missing_names(used: Seq<Seq<char>>, k: int) -> Seq<Seq<char>>
    decreases k,
{
    if k <= 0 {
        Seq::empty()
    } else {
        let prev = missing_names(used, k - 1);
        if used.contains(names::name_at(k - 1)) {
            prev
        } else {
            prev.push(names::name_at(k - 1))
        }
    }
}

/// The names joined with `", "`.
pub open spec fn join_names(ns: Seq<Seq<char>>) -> Seq<char>
    decreases ns.len(),
{
    if ns.len() == 0 {
        Seq::empty()
    } else if ns.len() == 1 {
        ns[0]
    } else {
        join_names(ns.drop_last()) + ", "@ + ns.last()
    }
}

/// Warnings of a tuning file: unless partial coverage is declared, one warning listing
/// the opcodes that no entry maps.
pub open spec fn validate_warnings(raw: types::RawTuningView) -> Seq<Seq<char>> {
    let missing = missing_names(names_used(raw), OPCODE_COUNT as int);
    if raw.metadata.partial_coverage || missing.len() == 0 {
        Seq::empty()
    } else {
        seq!["unmapped opcodes (set partial_coverage = true to suppress): "@ + join_names(missing)]
    }
}

pub open spec fn errors_view(errors: Seq<TuningError>) -> Seq<TuningErrorView> {
    errors.map_values(|e: TuningError| e@)
}

pub open spec fn strings_view(ws: Seq<String>) -> Seq<Seq<char>> {
    ws.map_values(|w: String| w@)
}

// ---------------------------------------------------------------------------
// Executable validation.

fn push_error(errors: &mut Vec<TuningError>, e: TuningError)
    ensures
        errors_view(final(errors)@) == errors_view(old(errors)@).push(e@),
{
    errors.push(e);
    proof {
        assert(errors_view(errors@) =~= errors_view(old(errors)@).push(e@));
    }
}

fn u8_text(n: u8) -> (s: String)
    ensures
        s@ == dec(n),
{
    let mut s = String::new();
    push_u64(&mut s, n as u64);
    s
}

fn values_check(v: &Option<crate::tuning::types::ValuesSection>, errors: &mut Vec<TuningError>)
    ensures
        errors_view(final(errors)@) == errors_view(old(errors)@) + values_errors(
            match v {
                Some(v) => Some((v.range[0], v.range[1])),
                None => None,
            },
        ),
{
    match v {
        None => {
            proof {
                assert(errors_view(errors@) + Seq::<TuningErrorView>::empty() =~= errors_view(errors@));
            }
        },
        Some(values) => {
            let lo = values.range[0];
            let hi = values.range[1];
            let ghost start = errors_view(errors@);
            if lo > hi {
                let mut m = String::new();
                push_str(&mut m, "range[0] (");
                push_u64(&mut m, lo as u64);
                push_str(&mut m, ") must be <= range[1] (");
                push_u64(&mut m, hi as u64);
                push_str(&mut m, ")");
                let mut sec = String::new();
                push_str(&mut sec, "values");
                push_error(errors, TuningError::Validation { section: sec, message: m });
            }
            let ghost mid = errors_view(errors@);
            if hi > 127 {
                push_error(errors, TuningError::NoteOutOfRange { note: hi });
            }
            proof {
                let inverted = if lo > hi {
                    seq![
                        validation(
                            "values"@,
                            "range[0] ("@ + dec(lo) + ") must be <= range[1] ("@ + dec(hi) + ")"@,
                        ),
                    ]
                } else {
                    Seq::empty()
                };
                assert(mid =~= start + inverted);
                assert(errors_view(errors@) =~= start + values_errors(Some((lo, hi))));
            }
        },
    }
}

fn opcode_check(name: &str, errors: &mut Vec<TuningError>)
    ensures
        errors_view(final(errors)@) == errors_view(old(errors)@) + opcode_errors(name@),
{
    match parse_opcode(name) {
        Ok(_) => {
            proof {
                assert(errors_view(errors@) + Seq::<TuningErrorView>::empty() =~= errors_view(errors@));
            }
        },
        Err(e) => {
            push_error(errors, e);
            proof {
                assert(errors_view(old(errors)@).push(e@) =~= errors_view(old(errors)@) + seq![e@]);
            }
        },
    }
}

fn ops_check(ops: &Vec<(String, String)>, errors: &mut Vec<TuningError>)
    ensures
        errors_view(final(errors)@) == errors_view(old(errors)@) + ops_errors(
            types::ops_view(ops@),
            ops@.len() as int,
        ),
{
    let ghost start = errors_view(errors@);
    let ghost ov = types::ops_view(ops@);
    let mut k: usize = 0;
    assert(start + ops_errors(ov, 0) =~= start);
    while k < ops.len()
        invariant
            k <= ops.len(),
            ov == types::ops_view(ops@),
            errors_view(errors@) == start + ops_errors(ov, k as int),
        decreases ops.len() - k,
    {
        let key = &ops[k].0;
        let name = &ops[k].1;
        let key_chars = chars_of(key.as_str());
        let ghost before = errors_view(errors@);
        match parse_u8_chars(&key_chars) {
            Some(note) => {
                if note > 127 {
                    push_error(errors, TuningError::NoteOutOfRange { note });
                }
            },
            None => {
                let mut m = String::new();
                push_str(&mut m, "key '");
                push_str(&mut m, key.as_str());
                push_str(&mut m, "' is not a valid MIDI note number (0-127)");
                let mut sec = String::new();
                push_str(&mut sec, "operations");
                push_error(errors, TuningError::Validation { section: sec, message: m });
            },
        }
        let ghost mid = errors_view(errors@);
        opcode_check(name.as_str(), errors);
        proof {
            let key_errors = match parse_u8_spec(key@) {
                Some(note) => if note > 127 {
                    seq![TuningErrorView::NoteOutOfRange { note }]
                } else {
                    Seq::empty()
                },
                None => seq![
                    validation(
                        "operations"@,
                        "key '"@ + key@ + "' is not a valid MIDI note number (0-127)"@,
                    ),
                ],
            };
            assert(ov[k as int] == (key@, name@));
            assert(mid =~= before + key_errors);
            assert(errors_view(errors@) =~= start + ops_errors(ov, k + 1));
        }
        k = k + 1;
    }
}

fn rule_label_text(i: usize) -> (s: String)
    ensures
        s@ == rule_label(i as nat),
{
    let mut s = String::new();
    push_str(&mut s, "rules[");
    push_u64(&mut s, i as u64);
    push_str(&mut s, "]");
    s
}

fn rules_check(rules: &Vec<RawRule>, errors: &mut Vec<TuningError>)
    ensures
        errors_view(final(errors)@) == errors_view(old(errors)@) + rules_errors(
            rules@.map_values(|r: RawRule| types::rule_view(r)),
            rules@.len() as int,
        ),
{
    let ghost start = errors_view(errors@);
    let ghost rv = rules@.map_values(|r: RawRule| types::rule_view(r));
    let mut k: usize = 0;
    assert(start + rules_errors(rv, 0) =~= start);
    while k < rules.len()
        invariant
            k <= rules.len(),
            rv == rules@.map_values(|r: RawRule| types::rule_view(r)),
            errors_view(errors@) == start + rules_errors(rv, k as int),
        decreases rules.len() - k,
    {
        let rule = &rules[k];
        let ghost before = errors_view(errors@);
        match rule.trigger {
            RawTrigger::Note { note } => {
                if note > 127 {
                    push_error(errors, TuningError::NoteOutOfRange { note });
                }
            },
            RawTrigger::Range { from, to } => {
                if from > to {
                    let mut m = String::new();
                    push_str(&mut m, "range from (");
                    push_u64(&mut m, from as u64);
                    push_str(&mut m, ") must be <= to (");
                    push_u64(&mut m, to as u64);
                    push_str(&mut m, ")");
                    push_error(
                        errors,
                        TuningError::Validation { section: rule_label_text(k), message: m },
                    );
                }
                if to > 127 {
                    push_error(errors, TuningError::NoteOutOfRange { note: to });
                }
            },
            RawTrigger::Interval { .. } => {},
        }
        let ghost mid = errors_view(errors@);
        match &rule.emit {
            RawEmit::Op { opcode } => {
                opcode_check(opcode.as_str(), errors);
            },
            _ => {},
        }
        proof {
            let r = rv[k as int];
            assert(r == types::rule_view(rules@[k as int]));
            let trigger_errors = match r.trigger {
                RawTrigger::Note { note } => if note > 127 {
                    seq![TuningErrorView::NoteOutOfRange { note }]
                } else {
                    Seq::empty()
                },
                RawTrigger::Range { from, to } => {
                    let inverted = if from > to {
                        seq![
                            validation(
                                rule_label(k as nat),
                                "range from ("@ + dec(from) + ") must be <= to ("@ + dec(to) + ")"@,
                            ),
                        ]
                    } else {
                        Seq::empty()
                    };
                    let out = if to > 127 {
                        seq![TuningErrorView::NoteOutOfRange { note: to }]
                    } else {
                        Seq::empty()
                    };
                    inverted + out
                },
                RawTrigger::Interval { .. } => Seq::empty(),
            };
            assert(mid =~= before + trigger_errors);
            match r.emit {
                EmitView::Op { opcode } => {},
                _ => {
                    assert(errors_view(errors@) =~= mid + Seq::<TuningErrorView>::empty());
                },
            }
            assert(errors_view(errors@) =~= start + rules_errors(rv, k + 1));
        }
        k = k + 1;
    }
}

/// A note source: an exact note and the label of the entry that names it.
struct Source {
    note: u8,
    label: String,
}

spec fn sources_view(s: Seq<Source>) -> Seq<(u8, Seq<char>)> {
    s.map_values(|x: Source| (x.note, x.label@))
}

fn push_source(src: &mut Vec<Source>, note: u8, label: String)
    ensures
        sources_view(final(src)@) == sources_view(old(src)@).push((note, label@)),
{
    src.push(Source { note, label });
    proof {
        assert(sources_view(src@) =~= sources_view(old(src)@).push((note, label@)));
    }
}

fn collect_sources(raw: &RawTuningFile) -> (src: Vec<Source>)
    ensures
        sources_view(src@) == note_sources(raw@),
{
    let mut src: Vec<Source> = Vec::new();
    match &raw.operations {
        Some(ops) => {
            let ghost ov = types::ops_view(ops@);
            let mut k: usize = 0;
            assert(sources_view(src@) =~= op_sources(ov, 0));
            while k < ops.len()
                invariant
                    k <= ops.len(),
                    ov == types::ops_view(ops@),
                    sources_view(src@) == op_sources(ov, k as int),
                decreases ops.len() - k,
            {
                let key = &ops[k].0;
                let key_chars = chars_of(key.as_str());
                assert(ov[k as int].0 == key@);
                match parse_u8_chars(&key_chars) {
                    Some(note) => {
                        let mut label = String::new();
                        push_str(&mut label, "operations[");
                        push_str(&mut label, key.as_str());
                        push_str(&mut label, "]");
                        push_source(&mut src, note, label);
                    },
                    None => {},
                }
                k = k + 1;
            }
        },
        None => {
            assert(sources_view(src@) =~= Seq::<(u8, Seq<char>)>::empty());
        },
    }
    let ghost ops_part = sources_view(src@);
    let ghost rv = raw.rules@.map_values(|r: RawRule| types::rule_view(r));
    let mut k: usize = 0;
    assert(ops_part + rule_sources(rv, 0) =~= ops_part);
    while k < raw.rules.len()
        invariant
            k <= raw.rules.len(),
            rv == raw.rules@.map_values(|r: RawRule| types::rule_view(r)),
            sources_view(src@) == ops_part + rule_sources(rv, k as int),
        decreases raw.rules.len() - k,
    {
        assert(rv[k as int].trigger == raw.rules@[k as int].trigger);
        match raw.rules[k].trigger {
            RawTrigger::Note { note } => {
                let label = rule_label_text(k);
                push_source(&mut src, note, label);
                proof {
                    assert(ops_part + rule_sources(rv, k + 1) =~= (ops_part + rule_sources(
                        rv,
                        k as int,
                    )).push((note, rule_label(k as nat))));
                }
            },
            _ => {},
        }
        k = k + 1;
    }
    src
}


fn duplicate_check(src: &Vec<Source>, errors: &mut Vec<TuningError>)
    ensures
        errors_view(final(errors)@) == errors_view(old(errors)@) + duplicate_errors(
            sources_view(src@),
            src@.len() as int,
        ),
{
    let ghost start = errors_view(errors@);
    let ghost sv = sources_view(src@);
    let mut k: usize = 0;
    assert(start + duplicate_errors(sv, 0) =~= start);
    while k < src.len()
        invariant
            k <= src.len(),
            sv == sources_view(src@),
            errors_view(errors@) == start + duplicate_errors(sv, k as int),
        decreases src.len() - k,
    {
        let note = src[k].note;
        let mut j: usize = 0;
        let mut found = false;
        while j < k && !found
            invariant
                j <= k,
                k < src.len(),
                sv == sources_view(src@),
                note == sv[k as int].0,
                !found ==> first_with_note(sv, note, j as int) is None,
                found ==> j < k && first_with_note(sv, note, k as int) == Some(j as int),
            decreases k - j, (if found { 0int } else { 1int }),
        {
            assert(sv[j as int].0 == src@[j as int].note);
            if src[j].note == note {
                proof {
                    lemma_first_with_note_stable(sv, note, j as int, k as int);
                }
                found = true;
            } else {
                proof {
                    assert(first_with_note(sv, note, j + 1) is None);
                }
                j = j + 1;
            }
        }
        if !found {
            assert(first_with_note(sv, note, k as int) is None);
        }
        if found {
            let a = copy_string(&src[j].label);
            let b = copy_string(&src[k].label);
            push_error(errors, TuningError::Overlap { rule_a: a, rule_b: b, note });
        }
        proof {
            assert(errors_view(errors@) =~= start + duplicate_errors(sv, k + 1));
        }
        k = k + 1;
    }
}

proof fn lemma_first_with_note_stable(src: Seq<(u8, Seq<char>)>, note: u8, j: int, k: int)
    requires
        0 <= j < k <= src.len(),
        src[j].0 == note,
        first_with_note(src, note, j) is None,
    ensures
        first_with_note(src, note, k) == Some(j),
    decreases k - j,
{
    if k > j + 1 {
        lemma_first_with_note_stable(src, note, j, k - 1);
    }
}

fn range_check(src: &Vec<Source>, lo: u8, hi: u8, errors: &mut Vec<TuningError>)
    ensures
        errors_view(final(errors)@) == errors_view(old(errors)@) + range_errors(
            sources_view(src@),
            lo,
            hi,
            src@.len() as int,
        ),
{
    let ghost start = errors_view(errors@);
    let ghost sv = sources_view(src@);
    let mut label = String::new();
    push_str(&mut label, "values[");
    push_u64(&mut label, lo as u64);
    push_str(&mut label, "-");
    push_u64(&mut label, hi as u64);
    push_str(&mut label, "]");
    let mut k: usize = 0;
    assert(start + range_errors(sv, lo, hi, 0) =~= start);
    while k < src.len()
        invariant
            k <= src.len(),
            sv == sources_view(src@),
            label@ == values_label(lo, hi),
            errors_view(errors@) == start + range_errors(sv, lo, hi, k as int),
        decreases src.len() - k,
    {
        let note = src[k].note;
        if note >= lo && note <= hi {
            let a = copy_string(&label);
            let b = copy_string(&src[k].label);
            push_error(errors, TuningError::Overlap { rule_a: a, rule_b: b, note });
        }
        proof {
            assert(errors_view(errors@) =~= start + range_errors(sv, lo, hi, k + 1));
        }
        k = k + 1;
    }
}

fn contains_name(used: &Vec<Vec<char>>, name: &Vec<char>) -> (r: bool)
    ensures
        r == used@.map_values(|v: Vec<char>| v@).contains(name@),
{
    let ghost uv = used@.map_values(|v: Vec<char>| v@);
    let mut i: usize = 0;
    while i < used.len()
        invariant
            i <= used.len(),
            uv == used@.map_values(|v: Vec<char>| v@),
            forall|k: int| 0 <= k < i ==> uv[k] != name@,
        decreases used.len() - i,
    {
        if names::chars_eq(&used[i], name) {
            assert(uv[i as int] == name@);
            return true;
        }
        i = i + 1;
    }
    false
}

fn check_coverage(raw: &RawTuningFile, warnings: &mut Vec<String>)
    requires
        !raw.metadata.partial_coverage,
    ensures
        strings_view(final(warnings)@) == strings_view(old(warnings)@) + validate_warnings(raw@),
{
    let mut used: Vec<Vec<char>> = Vec::new();
    match &raw.operations {
        Some(ops) => {
            let ghost ov = types::ops_view(ops@);
            let mut k: usize = 0;
            assert(used@.map_values(|v: Vec<char>| v@) =~= op_names_used(ov, 0));
            while k < ops.len()
                invariant
                    k <= ops.len(),
                    ov == types::ops_view(ops@),
                    used@.map_values(|v: Vec<char>| v@) == op_names_used(ov, k as int),
                decreases ops.len() - k,
            {
                assert(ov[k as int].1 == ops@[k as int].1@);
                let n = names::normalized_chars(ops[k].1.as_str());
                used.push(n);
                proof {
                    assert(used@.map_values(|v: Vec<char>| v@) =~= op_names_used(ov, k + 1));
                }
                k = k + 1;
            }
        },
        None => {
            assert(used@.map_values(|v: Vec<char>| v@) =~= Seq::<Seq<char>>::empty());
        },
    }
    let ghost ops_part = used@.map_values(|v: Vec<char>| v@);
    let ghost rv = raw.rules@.map_values(|r: RawRule| types::rule_view(r));
    let mut k: usize = 0;
    assert(ops_part + rule_names_used(rv, 0) =~= ops_part);
    while k < raw.rules.len()
        invariant
            k <= raw.rules.len(),
            rv == raw.rules@.map_values(|r: RawRule| types::rule_view(r)),
            used@.map_values(|v: Vec<char>| v@) == ops_part + rule_names_used(rv, k as int),
        decreases raw.rules.len() - k,
    {
        assert(rv[k as int] == types::rule_view(raw.rules@[k as int]));
        match &raw.rules[k].emit {
            RawEmit::Op { opcode } => {
                let n = names::normalized_chars(opcode.as_str());
                let ghost before = used@;
                used.push(n);
                proof {
                    assert(used@.map_values(|v: Vec<char>| v@) =~= before.map_values(|v: Vec<char>| v@).push(n@));
                    assert(rv[k as int].emit == EmitView::Op { opcode: opcode@ });
                    assert(rule_names_used(rv, k + 1) == rule_names_used(rv, k as int).push(
                        names::normalize(opcode@),
                    ));
                    assert(used@.map_values(|v: Vec<char>| v@) =~= ops_part + rule_names_used(
                        rv,
                        k + 1,
                    ));
                }
            },
            _ => {},
        }
        k = k + 1;
    }
    let ghost used_v = used@.map_values(|v: Vec<char>| v@);
    assert(used_v == names_used(raw@));
    // The names no entry maps, joined with ", ".
    let mut missing_text = String::new();
    let mut missing_count: usize = 0;
    let mut i: usize = 0;
    while i < OPCODE_COUNT
        invariant
            i <= OPCODE_COUNT,
            used_v == used@.map_values(|v: Vec<char>| v@),
            missing_count as nat == missing_names(used_v, i as int).len(),
            missing_text@ == join_names(missing_names(used_v, i as int)),
            missing_count <= i,
        decreases OPCODE_COUNT - i,
    {
        let name = opcode_name_chars(opcode_at_index(i));
        if !contains_name(&used, &name) {
            if missing_count > 0 {
                push_str(&mut missing_text, ", ");
            }
            push_chars(&mut missing_text, &name);
            proof {
                let prev = missing_names(used_v, i as int);
                let next = missing_names(used_v, i + 1);
                assert(next == prev.push(names::name_at(i as int)));
                assert(next.drop_last() =~= prev);
                if prev.len() == 0 {
                    assert(missing_text@ =~= join_names(next));
                }
            }
            missing_count = missing_count + 1;
        }
        i = i + 1;
    }
    if missing_count > 0 {
        let mut w = String::new();
        push_str(&mut w, "unmapped opcodes (set partial_coverage = true to suppress): ");
        push_str(&mut w, missing_text.as_str());
        warnings.push(w);
        proof {
            assert(strings_view(warnings@) =~= strings_view(old(warnings)@) + validate_warnings(
                raw@,
            ));
        }
    } else {
        proof {
            assert(strings_view(warnings@) =~= strings_view(old(warnings)@) + validate_warnings(
                raw@,
            ));
        }
    }
}

/// Reports notes that two sources map: an exact note named twice, then exact notes
/// inside the value range.
fn check_overlaps(raw: &RawTuningFile, errors: &mut Vec<TuningError>)
    ensures
        errors_view(final(errors)@) == errors_view(old(errors)@) + overlap_errors(raw@),
{
    let ghost e0 = errors_view(errors@);
    let src = collect_sources(raw);
    duplicate_check(&src, errors);
    let ghost e4 = errors_view(errors@);
    match &raw.values {
        Some(values) => {
            range_check(&src, values.range[0], values.range[1], errors);
        },
        None => {
            assert(errors_view(errors@) =~= e4 + Seq::<TuningErrorView>::empty());
        },
    }
    assert(errors_view(errors@) =~= e0 + overlap_errors(raw@));
}

/// Checks a tuning file and reports every error and warning in one pass: value range,
/// then each `[operations]` entry, then each rule, then overlapping notes. The
/// `[operations]` entries come in ascending key order, as the table's map yields them.
pub fn validate(raw: &RawTuningFile) -> (result: ValidationResult)
    requires
        types::well_keyed(raw@),
    ensures
        errors_view(result.errors@) == validate_errors(raw@),
        strings_view(result.warnings@) == validate_warnings(raw@),
{
    let mut errors: Vec<TuningError> = Vec::new();
    let mut warnings: Vec<String> = Vec::new();
    assert(errors_view(errors@) =~= Seq::<TuningErrorView>::empty());
    assert(strings_view(warnings@) =~= Seq::<Seq<char>>::empty());
    values_check(&raw.values, &mut errors);
    let ghost e1 = errors_view(errors@);
    match &raw.operations {
        Some(ops) => {
            ops_check(ops, &mut errors);
        },
        None => {
            assert(errors_view(errors@) =~= e1 + Seq::<TuningErrorView>::empty());
        },
    }
    let ghost e2 = errors_view(errors@);
    rules_check(&raw.rules, &mut errors);
    check_overlaps(raw, &mut errors);
    proof {
        assert(errors_view(errors@) =~= validate_errors(raw@));
    }
    if !raw.metadata.partial_coverage {
        check_coverage(raw, &mut warnings);
    }
    proof {
        assert(strings_view(warnings@) =~= validate_warnings(raw@));
    }
    ValidationResult { errors, warnings }
}

} // verus!
