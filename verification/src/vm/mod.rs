//! The Haydn stack machine.
pub mod types;
pub mod spec;
pub mod machine;
pub mod loops;
pub mod opcodes;
pub mod laws;

pub use types::{Opcode, Event, EdgeCase, Operation, StepResult, LoopState, LoopFrame, ReplayFrame};
pub use machine::HaydnVm;
