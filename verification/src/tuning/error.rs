use vstd::prelude::*;

use crate::text::{push_str, push_u64};

verus! {

/// The error type of the `toml` crate's deserializer.
#[verifier::external_type_specification]
#[verifier::external_body]
pub struct ExTomlDeError(toml::de::Error);

/// The error type of std's I/O operations.
#[verifier::external_type_specification]
#[verifier::external_body]
pub struct ExIoError(std::io::Error);

/// Everything that can be wrong with a tuning file.
#[derive(Debug)]
pub enum TuningError {
    Parse(toml::de::Error),
    Validation { section: String, message: String },
    UnknownOpcode { found: String, suggestion: Option<String> },
    Overlap { rule_a: String, rule_b: String, note: u8 },
    NoteOutOfRange { note: u8 },
    Io(std::io::Error),
}

/// The mathematical content of a `TuningError`; the wrapped parse and I/O errors
/// are opaque.
pub enum TuningErrorView {
    Parse,
    Validation { section: Seq<char>, message: Seq<char> },
    UnknownOpcode { found: Seq<char>, suggestion: Option<Seq<char>> },
    Overlap { rule_a: Seq<char>, rule_b: Seq<char>, note: u8 },
    NoteOutOfRange { note: u8 },
    Io,
}

pub open spec fn opt_string_view(o: Option<String>) -> Option<Seq<char>> {
    match o {
        Some(s) => Some(s@),
        None => None,
    }
}

impl View for TuningError {
    type V = TuningErrorView;

    open spec fn view(&self) -> TuningErrorView {
        match self {
            TuningError::Parse(_) => TuningErrorView::Parse,
            TuningError::Validation { section, message } => TuningErrorView::Validation {
                section: section@,
                message: message@,
            },
            TuningError::UnknownOpcode { found, suggestion } => TuningErrorView::UnknownOpcode {
                found: found@,
                suggestion: opt_string_view(*suggestion),
            },
            TuningError::Overlap { rule_a, rule_b, note } => TuningErrorView::Overlap {
                rule_a: rule_a@,
                rule_b: rule_b@,
                note: *note,
            },
            TuningError::NoteOutOfRange { note } => TuningErrorView::NoteOutOfRange { note: *note },
            TuningError::Io(_) => TuningErrorView::Io,
        }
    }
}

/// The message of a tuning error, for the variants whose text the library writes.
pub open spec fn error_text(e: TuningErrorView) -> Seq<char> {
    match e {
        TuningErrorView::Validation { section, message } => "in ["@ + section + "]: "@ + message,
        TuningErrorView::UnknownOpcode { found, suggestion } => "unknown opcode '"@ + found + "'"@
            + match suggestion {
            Some(s) => " — did you mean '"@ + s + "'?"@,
            None => Seq::empty(),
        },
        TuningErrorView::Overlap { rule_a, rule_b, note } => "overlapping rules: "@ + rule_a
            + " and "@ + rule_b + " both match note "@ + crate::text::decimal_nat_chars(
            note as nat,
        ),
        TuningErrorView::NoteOutOfRange { note } => "note "@ + crate::text::decimal_nat_chars(
            note as nat,
        ) + " out of MIDI range (0-127)"@,
        _ => Seq::empty(),
    }
}

/// `Display` of `toml::de::Error`: the message the `toml` crate writes for a
/// deserialization error. Nothing is stated of the text, since the error value is opaque
/// to the library.
#[verifier::external_body]
fn toml_error_message(e: &toml::de::Error) -> String {
    format!("{}", e)
}

/// `Display` of `std::io::Error`: the message std writes for an I/O error. Nothing is
/// stated of the text, since the error value is opaque to the library.
#[verifier::external_body]
fn io_error_message(e: &std::io::Error) -> String {
    format!("{}", e)
}

impl TuningError {
    /// The message of this error.
    pub fn to_string(&self) -> (r: String)
        ensures
            match self@ {
                TuningErrorView::Parse => r@.len() >= "TOML parse error: "@.len() && r@.subrange(
                    0,
                    "TOML parse error: "@.len() as int,
                ) == "TOML parse error: "@,
                TuningErrorView::Io => true,
                _ => r@ == error_text(self@),
            },
    {
        let mut s = String::new();
        match self {
            TuningError::Parse(e) => {
                push_str(&mut s, "TOML parse error: ");
                let ghost prefix = s@;
                let m = toml_error_message(e);
                push_str(&mut s, m.as_str());
                proof {
                    assert(s@.subrange(0, prefix.len() as int) =~= prefix);
                }
            },
            TuningError::Validation { section, message } => {
                push_str(&mut s, "in [");
                push_str(&mut s, section.as_str());
                push_str(&mut s, "]: ");
                push_str(&mut s, message.as_str());
            },
            TuningError::UnknownOpcode { found, suggestion } => {
                push_str(&mut s, "unknown opcode '");
                push_str(&mut s, found.as_str());
                push_str(&mut s, "'");
                match suggestion {
                    Some(sug) => {
                        push_str(&mut s, " — did you mean '");
                        push_str(&mut s, sug.as_str());
                        push_str(&mut s, "'?");
                    },
                    None => {
                        proof {
                            assert(s@ + Seq::<char>::empty() =~= s@);
                        }
                    },
                }
            },
            TuningError::Overlap { rule_a, rule_b, note } => {
                push_str(&mut s, "overlapping rules: ");
                push_str(&mut s, rule_a.as_str());
                push_str(&mut s, " and ");
                push_str(&mut s, rule_b.as_str());
                push_str(&mut s, " both match note ");
                push_u64(&mut s, *note as u64);
            },
            TuningError::NoteOutOfRange { note } => {
                push_str(&mut s, "note ");
                push_u64(&mut s, *note as u64);
                push_str(&mut s, " out of MIDI range (0-127)");
            },
            TuningError::Io(e) => {
                s = io_error_message(e);
            },
        }
        s
    }
}

/// All errors of a tuning file, with warnings that do not prevent its use.
pub struct ValidationResult {
    pub errors: Vec<TuningError>,
    pub warnings: Vec<String>,
}

} // verus!
