//! What a compiled tuning does with notes.
use vstd::prelude::*;

use crate::tuning::engine::{action_event, first_match, rule_matches, CompiledRule, Trigger};
use crate::tuning::types::RawTuningView;
use crate::vm::types::{Event, Opcode};

verus! {

broadcast use vstd::seq_lib::group_filter_ensures;

/// Every note of the value range pushes its distance from the root note, whatever other
/// rules the file has and whatever note came before.
pub proof fn law_value_zone(raw: RawTuningView, last: Option<u8>, note: u8)
    requires
        raw.values matches Some((lo, hi)) && lo <= note <= hi,
    ensures
        first_match(crate::tuning::engine::compiled_rules(raw), last, note, 0) == Some(
            Event::Push((note - raw.metadata.root_note) as i64),
        ),
{
}

/// An interval trigger needs a previous note: with none (at the start, or after `reset`)
/// it matches nothing.
pub proof fn law_interval_needs_previous_note(semitones: i8, note: u8)
    ensures
        !rule_matches(Trigger::Interval(semitones), None, note),
{
}

proof fn lemma_first_match_skip(rules: Seq<CompiledRule>, last: Option<u8>, note: u8, i: int, j: int)
    requires
        0 <= i <= j <= rules.len(),
        forall|k: int| i <= k < j ==> !rule_matches(#[trigger] rules[k].trigger, last, note),
    ensures
        first_match(rules, last, note, i) == first_match(rules, last, note, j),
    decreases j - i,
{
    if i < j {
        lemma_first_match_skip(rules, last, note, i + 1, j);
    }
}

proof fn lemma_filter_from(s: Seq<(u8, Opcode)>, n: int, i: int)
    requires
        0 <= i < crate::tuning::engine::with_note(s, n).len(),
    ensures
        s.contains(crate::tuning::engine::with_note(s, n)[i]),
    decreases s.len(),
{
    reveal_with_fuel(Seq::<(u8, Opcode)>::filter, 1);
    let w = crate::tuning::engine::with_note(s, n);
    if s.len() > 0 {
        let p = crate::tuning::engine::with_note(s.drop_last(), n);
        if i < p.len() {
            assert(w[i] == p[i]);
            lemma_filter_from(s.drop_last(), n, i);
            let k = choose|k: int| 0 <= k < s.drop_last().len() && s.drop_last()[k] == p[i];
            assert(s[k] == w[i]);
        } else {
            assert(w[i] == s.last());
            assert(s[s.len() - 1] == w[i]);
        }
    }
}

proof fn lemma_sorted_split(e: Seq<(u8, Opcode)>, m: int) -> (pre: Seq<(u8, Opcode)>)
    requires
        0 <= m <= 256,
    ensures
        crate::tuning::engine::sorted_from(e, 0) == pre + crate::tuning::engine::sorted_from(e, m),
        forall|i: int| 0 <= i < pre.len() ==> (#[trigger] pre[i]).0 < m,
    decreases m,
{
    if m == 0 {
        assert(Seq::<(u8, Opcode)>::empty() + crate::tuning::engine::sorted_from(e, 0) =~= crate::tuning::engine::sorted_from(e, 0));
        Seq::empty()
    } else {
        let p = lemma_sorted_split(e, m - 1);
        let w = crate::tuning::engine::with_note(e, m - 1);
        let pre = p + w;
        assert(crate::tuning::engine::sorted_from(e, m - 1) == w + crate::tuning::engine::sorted_from(e, m));
        assert(p + (w + crate::tuning::engine::sorted_from(e, m)) =~= pre + crate::tuning::engine::sorted_from(e, m));
        assert forall|i: int| 0 <= i < pre.len() implies (#[trigger] pre[i]).0 < m by {
            if i >= p.len() {
                assert(pre[i] == w[i - p.len()]);
            }
        }
        pre
    }
}

/// Whether some entry has note `n`.
spec fn has_note_entry(s: Seq<(u8, Opcode)>, n: u8) -> bool {
    exists|i: int| 0 <= i < s.len() && (#[trigger] s[i]).0 == n
}

/// Whether some source has note `n`.
spec fn has_note_source(s: Seq<(u8, Seq<char>)>, n: u8) -> bool {
    exists|i: int| 0 <= i < s.len() && (#[trigger] s[i]).0 == n
}

spec fn distinct_entries(s: Seq<(u8, Opcode)>) -> bool {
    forall|i: int, j: int| 0 <= i < j < s.len() ==> (#[trigger] s[i]).0 != (#[trigger] s[j]).0
}

spec fn distinct_sources(s: Seq<(u8, Seq<char>)>) -> bool {
    forall|i: int, j: int| 0 <= i < j < s.len() ==> (#[trigger] s[i]).0 != (#[trigger] s[j]).0
}

proof fn lemma_first_with_note_none(src: Seq<(u8, Seq<char>)>, note: u8, m: int)
    requires
        0 <= m <= src.len(),
        crate::tuning::validate::first_with_note(src, note, m) is None,
    ensures
        forall|i: int| 0 <= i < m ==> (#[trigger] src[i]).0 != note,
    decreases m,
{
    if m > 0 {
        lemma_first_with_note_none(src, note, m - 1);
    }
}

proof fn lemma_no_duplicate_errors(src: Seq<(u8, Seq<char>)>, m: int)
    requires
        0 <= m <= src.len(),
        crate::tuning::validate::duplicate_errors(src, m).len() == 0,
    ensures
        distinct_sources(src.subrange(0, m)),
    decreases m,
{
    if m > 0 {
        let prev = crate::tuning::validate::duplicate_errors(src, m - 1);
        assert(crate::tuning::validate::first_with_note(src, src[m - 1].0, m - 1) is None);
        lemma_no_duplicate_errors(src, m - 1);
        lemma_first_with_note_none(src, src[m - 1].0, m - 1);
        let t = src.subrange(0, m);
        assert forall|i: int, j: int| 0 <= i < j < t.len() implies (#[trigger] t[i]).0 != (
        #[trigger] t[j]).0 by {
            if j < m - 1 {
                assert(src.subrange(0, m - 1)[i] == t[i]);
                assert(src.subrange(0, m - 1)[j] == t[j]);
            }
        }
    }
}

proof fn lemma_no_range_errors(src: Seq<(u8, Seq<char>)>, lo: u8, hi: u8, m: int)
    requires
        0 <= m <= src.len(),
        crate::tuning::validate::range_errors(src, lo, hi, m).len() == 0,
    ensures
        forall|i: int| 0 <= i < m ==> !(lo <= (#[trigger] src[i]).0 <= hi),
    decreases m,
{
    if m > 0 {
        lemma_no_range_errors(src, lo, hi, m - 1);
    }
}

proof fn lemma_entries_from_sources(ops: Seq<(Seq<char>, Seq<char>)>, m: int)
    requires
        0 <= m <= ops.len(),
        distinct_sources(crate::tuning::validate::op_sources(ops, m)),
    ensures
        distinct_entries(crate::tuning::engine::op_entries(ops, m)),
        forall|n: u8|
            has_note_entry(crate::tuning::engine::op_entries(ops, m), n) ==> has_note_source(
                crate::tuning::validate::op_sources(ops, m),
                n,
            ),
    decreases m,
{
    if m > 0 {
        let src = crate::tuning::validate::op_sources(ops, m);
        let src0 = crate::tuning::validate::op_sources(ops, m - 1);
        let ent = crate::tuning::engine::op_entries(ops, m);
        let ent0 = crate::tuning::engine::op_entries(ops, m - 1);
        match crate::tuning::validate::parse_u8_spec(ops[m - 1].0) {
            Some(note) => {
                assert(src == src0.push((note, "operations["@ + ops[m - 1].0 + "]"@)));
                assert(distinct_sources(src0)) by {
                    assert forall|i: int, j: int| 0 <= i < j < src0.len() implies (
                    #[trigger] src0[i]).0 != (#[trigger] src0[j]).0 by {
                        assert(src[i] == src0[i]);
                        assert(src[j] == src0[j]);
                    }
                }
                lemma_entries_from_sources(ops, m - 1);
                assert forall|i: int| 0 <= i < src0.len() implies (#[trigger] src0[i]).0 != note by {
                    assert(src[i] == src0[i]);
                    assert(src[src0.len() as int] == (note, "operations["@ + ops[m - 1].0 + "]"@));
                }
                assert(!has_note_entry(ent0, note)) by {
                    if has_note_entry(ent0, note) {
                        assert(has_note_source(src0, note));
                        let i = choose|i: int| 0 <= i < src0.len() && (#[trigger] src0[i]).0 == note;
                        assert(src0[i].0 != note);
                    }
                }
                assert forall|n: u8| has_note_entry(ent, n) implies has_note_source(src, n) by {
                    let i = choose|i: int| 0 <= i < ent.len() && (#[trigger] ent[i]).0 == n;
                    if i < ent0.len() {
                        assert(ent[i] == ent0[i]);
                        assert(has_note_entry(ent0, n));
                        assert(has_note_source(src0, n));
                        let j = choose|j: int| 0 <= j < src0.len() && (#[trigger] src0[j]).0 == n;
                        assert(src[j] == src0[j]);
                    } else {
                        assert(src[src0.len() as int].0 == note);
                    }
                }
                assert forall|i: int, j: int| 0 <= i < j < ent.len() implies (#[trigger] ent[i]).0 != (
                #[trigger] ent[j]).0 by {
                    if j < ent0.len() {
                        assert(ent[i] == ent0[i]);
                        assert(ent[j] == ent0[j]);
                    } else {
                        assert(ent[i] == ent0[i]);
                        if ent0[i].0 == note {
                            assert(has_note_entry(ent0, note));
                        }
                    }
                }
            },
            None => {
                assert(src == src0);
                assert(ent == ent0);
                lemma_entries_from_sources(ops, m - 1);
            },
        }
    }
}

proof fn lemma_entry_present(ops: Seq<(Seq<char>, Seq<char>)>, k: int, m: int, n: u8, op: Opcode)
    requires
        0 <= k < m <= ops.len(),
        crate::tuning::validate::parse_u8_spec(ops[k].0) == Some(n),
        crate::tuning::names::parse_opcode_spec(ops[k].1) == Ok::<
            Opcode,
            crate::tuning::error::TuningErrorView,
        >(op),
    ensures
        crate::tuning::engine::op_entries(ops, m).contains((n, op)),
        has_note_source(crate::tuning::validate::op_sources(ops, m), n),
    decreases m,
{
    let ent = crate::tuning::engine::op_entries(ops, m);
    let src = crate::tuning::validate::op_sources(ops, m);
    if m == k + 1 {
        assert(ent[ent.len() - 1] == (n, op));
        assert(src[src.len() - 1].0 == n);
    } else {
        lemma_entry_present(ops, k, m - 1, n, op);
        let ent0 = crate::tuning::engine::op_entries(ops, m - 1);
        let src0 = crate::tuning::validate::op_sources(ops, m - 1);
        let i = choose|i: int| 0 <= i < ent0.len() && ent0[i] == (n, op);
        assert(ent[i] == ent0[i]);
        let j = choose|j: int| 0 <= j < src0.len() && (#[trigger] src0[j]).0 == n;
        assert(src[j] == src0[j]);
    }
}

/// In a tuning file without errors, the note of an `[operations]` entry runs that entry's
/// opcode, whatever note came before.
pub proof fn law_operation_entry(raw: RawTuningView, k: int, n: u8, op: Opcode, last: Option<u8>)
    requires
        crate::tuning::validate::validate_errors(raw).len() == 0,
        raw.operations matches Some(ops) && 0 <= k < ops.len()
            && crate::tuning::validate::parse_u8_spec(ops[k].0) == Some(n)
            && crate::tuning::names::parse_opcode_spec(ops[k].1) == Ok::<
            Opcode,
            crate::tuning::error::TuningErrorView,
        >(op),
    ensures
        first_match(crate::tuning::engine::compiled_rules(raw), last, n, 0) == Some(Event::Op(op)),
{
    let ops = raw.operations->0;
    let len = ops.len() as int;
    let src_ops = crate::tuning::validate::op_sources(ops, len);
    let src = crate::tuning::validate::note_sources(raw);
    assert(src == src_ops + crate::tuning::validate::rule_sources(raw.rules, raw.rules.len() as int));
    assert(crate::tuning::validate::overlap_errors(raw).len() == 0);
    assert(crate::tuning::validate::duplicate_errors(src, src.len() as int).len() == 0);
    lemma_no_duplicate_errors(src, src.len() as int);
    assert(src.subrange(0, src.len() as int) =~= src);
    assert(distinct_sources(src_ops)) by {
        assert forall|i: int, j: int| 0 <= i < j < src_ops.len() implies (#[trigger] src_ops[i]).0
            != (#[trigger] src_ops[j]).0 by {
            assert(src[i] == src_ops[i]);
            assert(src[j] == src_ops[j]);
        }
    }
    lemma_entries_from_sources(ops, len);
    lemma_entry_present(ops, k, len, n, op);
    let e = crate::tuning::engine::op_entries(ops, len);
    // The value range does not hold the note.
    let vr = crate::tuning::engine::value_rules(raw);
    assert forall|q: int| 0 <= q < vr.len() implies !rule_matches(#[trigger] vr[q].trigger, last, n) by {
        let (lo, hi) = raw.values->0;
        assert(crate::tuning::validate::range_errors(src, lo, hi, src.len() as int).len() == 0);
        lemma_no_range_errors(src, lo, hi, src.len() as int);
        let j = choose|j: int| 0 <= j < src_ops.len() && (#[trigger] src_ops[j]).0 == n;
        assert(src[j] == src_ops[j]);
    }
    // The sorted operation rules before the note's own concern lower notes.
    let pre = lemma_sorted_split(e, n as int);
    let w = crate::tuning::engine::with_note(e, n as int);
    assert(crate::tuning::engine::sorted_from(e, n as int) == w + crate::tuning::engine::sorted_from(
        e,
        n + 1,
    ));
    let i = choose|i: int| 0 <= i < e.len() && e[i] == (n, op);
    assert(w.contains(e[i]));
    assert(w.len() > 0);
    lemma_filter_from(e, n as int, 0);
    assert(w[0] == (n, op)) by {
        let a = choose|a: int| 0 <= a < e.len() && e[a] == w[0];
        assert(w[0].0 == n);
        if a != i {
            if a < i {
                assert(e[a].0 != e[i].0);
            } else {
                assert(e[i].0 != e[a].0);
            }
        }
    }
    let g = |x: (u8, Opcode)| crate::tuning::engine::op_rule(x);
    let rest = crate::tuning::engine::sorted_from(e, n + 1);
    let sorted = crate::tuning::engine::sorted_from(e, 0);
    assert(sorted == pre + (w + rest));
    assert(sorted.map_values(g) =~= pre.map_values(g) + (w.map_values(g) + rest.map_values(g)));
    let rules = crate::tuning::engine::compiled_rules(raw);
    let tail = crate::tuning::engine::raw_rules(raw.rules, raw.metadata.root_note, raw.rules.len() as int);
    assert(crate::tuning::engine::op_rules(raw) == sorted.map_values(g));
    assert(rules =~= vr + pre.map_values(g) + (w.map_values(g) + rest.map_values(g)) + tail);
    let at: int = (vr.len() + pre.len()) as int;
    assert forall|q: int| 0 <= q < at implies !rule_matches(#[trigger] rules[q].trigger, last, n) by {
        if q < vr.len() {
            assert(rules[q] == vr[q]);
        } else {
            assert(rules[q] == g(pre[q - vr.len()]));
        }
    }
    lemma_first_match_skip(rules, last, n, 0, at);
    assert(rules[at] == g(w[0]));
}

/// What each trigger answers to: an exact note to that note alone; a range to the notes
/// from its low end up to its high end; an interval of `s` semitones to a note exactly `s`
/// semitones above the previous note (below it when `s` is negative), never to one `s`
/// semitones the other way, and to nothing when there is no previous note.
pub proof fn law_trigger_meaning(t: Trigger, last: Option<u8>, note: u8)
    ensures
        t matches Trigger::ExactNote(n) ==> (rule_matches(t, last, note) <==> note == n),
        t matches Trigger::NoteRange { from, to } ==> (rule_matches(t, last, note) <==> from <= note
            && note <= to),
        t matches Trigger::Interval(st) ==> (rule_matches(t, last, note) <==> (last matches Some(l)
            && note as int - l as int == st as int)),
{
}

proof fn lemma_first_match_from(rules: Seq<CompiledRule>, last: Option<u8>, note: u8, i: int)
    requires
        0 <= i <= rules.len(),
    ensures
        match first_match(rules, last, note, i) {
            Some(e) => exists|k: int|
                i <= k < rules.len() && rule_matches(#[trigger] rules[k].trigger, last, note) && e
                    == action_event(rules[k].action, note) && forall|j: int|
                    i <= j < k ==> !rule_matches(#[trigger] rules[j].trigger, last, note),
            None => forall|k: int|
                i <= k < rules.len() ==> !rule_matches(#[trigger] rules[k].trigger, last, note),
        },
    decreases rules.len() - i,
{
    if i < rules.len() {
        lemma_first_match_from(rules, last, note, i + 1);
        if rule_matches(rules[i].trigger, last, note) {
            assert(forall|j: int| i <= j < i ==> !rule_matches(#[trigger] rules[j].trigger, last, note));
        } else {
            match first_match(rules, last, note, i + 1) {
                Some(e) => {
                    let k = choose|k: int|
                        i + 1 <= k < rules.len() && rule_matches(#[trigger] rules[k].trigger, last, note)
                            && e == action_event(rules[k].action, note) && forall|j: int|
                            i + 1 <= j < k ==> !rule_matches(#[trigger] rules[j].trigger, last, note);
                    assert forall|j: int| i <= j < k implies !rule_matches(
                        #[trigger] rules[j].trigger,
                        last,
                        note,
                    ) by {
                        if j > i {
                        }
                    }
                },
                None => {},
            }
        }
    }
}

/// The first matching rule wins: a note gives the event of the first rule, in order,
/// whose trigger answers to it (no earlier rule does), and no event when no rule does.
pub proof fn law_first_matching_rule_wins(rules: Seq<CompiledRule>, last: Option<u8>, note: u8)
    ensures
        match first_match(rules, last, note, 0) {
            Some(e) => exists|k: int|
                0 <= k < rules.len() && rule_matches(#[trigger] rules[k].trigger, last, note) && e
                    == action_event(rules[k].action, note) && forall|j: int|
                    0 <= j < k ==> !rule_matches(#[trigger] rules[j].trigger, last, note),
            None => forall|k: int|
                0 <= k < rules.len() ==> !rule_matches(#[trigger] rules[k].trigger, last, note),
        },
{
    lemma_first_match_from(rules, last, note, 0);
}

/// What a matching rule gives for a note: a push of its value, a push of the note's
/// distance from the root note, or its opcode.
pub proof fn law_action_event(a: crate::tuning::engine::Action, note: u8)
    ensures
        a matches crate::tuning::engine::Action::Push(v) ==> action_event(a, note) == Event::Push(v),
        a matches crate::tuning::engine::Action::PushOffset { root_note } ==> action_event(a, note)
            == Event::Push((note as int - root_note as int) as i64),
        a matches crate::tuning::engine::Action::Op(op) ==> action_event(a, note) == Event::Op(op),
{
}

} // verus!
