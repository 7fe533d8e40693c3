//! Tuning files: how musical notes map to machine events.
pub mod types;
pub mod error;
pub mod names;
pub mod validate;
pub mod engine;
pub mod defaults;
pub mod laws;

pub use types::{Metadata, ValuesSection, RawTrigger, RawEmit, RawRule, RawTuningFile};
pub use error::{TuningError, ValidationResult};
pub use engine::TuningEngine;
pub use names::parse_opcode;
pub use validate::validate;
pub use defaults::default_piano_tuning;
