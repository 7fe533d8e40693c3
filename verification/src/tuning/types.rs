use vstd::prelude::*;

verus! {

/// The `[metadata]` section of a tuning file.
#[derive(Debug, Clone)]
pub struct Metadata {
    pub name: String,
    pub root_note: u8,
    pub instrument: String,
    pub author: Option<String>,
    pub partial_coverage: bool,
}

/// The `[values]` section: an inclusive note range whose notes push their offset
/// from the root note.
#[derive(Debug, Clone)]
pub struct ValuesSection {
    pub range: [u8; 2],
}

/// A rule trigger.
#[derive(Debug, Clone, Copy, PartialEq, Eq, Structural)]
pub enum RawTrigger {
    Note { note: u8 },
    Range { from: u8, to: u8 },
    Interval { semitones: i8 },
}

/// What a rule emits.
#[derive(Debug, Clone)]
pub enum RawEmit {
    Push { value: i64 },
    PushOffset,
    Op { opcode: String },
}

/// One `[[rules]]` entry.
#[derive(Debug, Clone)]
pub struct RawRule {
    pub trigger: RawTrigger,
    pub emit: RawEmit,
}

/// A tuning file as read, before validation.
///
/// `operations` holds the `[operations]` table as (key, opcode name) entries in strictly
/// ascending key order (so each key once), the order in which the table's map yields
/// them; validation and compilation require it (`well_keyed`).
#[derive(Debug, Clone)]
pub struct RawTuningFile {
    pub metadata: Metadata,
    pub values: Option<ValuesSection>,
    pub operations: Option<Vec<(String, String)>>,
    pub rules: Vec<RawRule>,
}

/// The mathematical content of a `RawEmit`.
pub enum EmitView {
    Push { value: i64 },
    PushOffset,
    Op { opcode: Seq<char> },
}

pub open spec fn emit_view(e: RawEmit) -> EmitView {
    match e {
        RawEmit::Push { value } => EmitView::Push { value },
        RawEmit::PushOffset => EmitView::PushOffset,
        RawEmit::Op { opcode } => EmitView::Op { opcode: opcode@ },
    }
}

/// The mathematical content of a `RawRule`.
pub struct RuleView {
    pub trigger: RawTrigger,
    pub emit: EmitView,
}

pub open spec fn rule_view(r: RawRule) -> RuleView {
    RuleView { trigger: r.trigger, emit: emit_view(r.emit) }
}

/// The entries of an `[operations]` table as character sequences.
pub open spec fn ops_view(ops: Seq<(String, String)>) -> Seq<(Seq<char>, Seq<char>)> {
    ops.map_values(|e: (String, String)| (e.0@, e.1@))
}

/// The mathematical content of a `Metadata`.
pub struct MetadataView {
    pub name: Seq<char>,
    pub root_note: u8,
    pub instrument: Seq<char>,
    pub author: Option<Seq<char>>,
    pub partial_coverage: bool,
}

impl View for Metadata {
    type V = MetadataView;

    open spec fn view(&self) -> MetadataView {
        MetadataView {
            name: self.name@,
            root_note: self.root_note,
            instrument: self.instrument@,
            author: match self.author {
                Some(a) => Some(a@),
                None => None,
            },
            partial_coverage: self.partial_coverage,
        }
    }
}

/// A copy of a string.
pub fn copy_string(s: &String) -> (r: String)
    ensures
        r@ == s@,
{
    let mut r = String::new();
    crate::text::push_str(&mut r, s.as_str());
    r
}

impl Metadata {
    /// A field-by-field copy.
    pub fn copy(&self) -> (r: Metadata)
        ensures
            r@ == self@,
    {
        Metadata {
            name: copy_string(&self.name),
            root_note: self.root_note,
            instrument: copy_string(&self.instrument),
            author: match &self.author {
                Some(a) => Some(copy_string(a)),
                None => None,
            },
            partial_coverage: self.partial_coverage,
        }
    }
}

/// The mathematical content of a `RawTuningFile`.
pub struct RawTuningView {
    pub metadata: MetadataView,
    pub values: Option<(u8, u8)>,
    pub operations: Option<Seq<(Seq<char>, Seq<char>)>>,
    pub rules: Seq<RuleView>,
}

impl View for RawTuningFile {
    type V = RawTuningView;

    open spec fn view(&self) -> RawTuningView {
        RawTuningView {
            metadata: self.metadata@,
            values: match self.values {
                Some(v) => Some((v.range[0], v.range[1])),
                None => None,
            },
            operations: match self.operations {
                Some(o) => Some(ops_view(o@)),
                None => None,
            },
            rules: self.rules@.map_values(|r: RawRule| rule_view(r)),
        }
    }
}

/// Whether `a` comes before `b` in the order of `String`: character by character, a
/// proper prefix first.
pub open spec fn chars_less(a: Seq<char>, b: Seq<char>) -> bool
    decreases a.len(),
{
    if b.len() == 0 {
        false
    } else if a.len() == 0 {
        true
    } else if (a[0] as u32) < (b[0] as u32) {
        true
    } else if a[0] == b[0] {
        chars_less(a.drop_first(), b.drop_first())
    } else {
        false
    }
}

/// Whether the keys of `[operations]` entries are strictly ascending, as a map with string
/// keys yields them.
pub open spec fn keys_ascending(ops: Seq<(Seq<char>, Seq<char>)>) -> bool {
    forall|i: int, j: int| 0 <= i < j < ops.len() ==> chars_less(#[trigger] ops[i].0, #[trigger] ops[j].0)
}

/// Whether a tuning file's `[operations]` entries come as a map yields them.
pub open spec fn well_keyed(raw: RawTuningView) -> bool {
    raw.operations matches Some(o) ==> keys_ascending(o)
}

} // verus!
