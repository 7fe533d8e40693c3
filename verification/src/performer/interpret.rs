//! Playing a score through a tuning and the machine alongside playback.
use vstd::prelude::*;

use crate::tuning::engine::TuningEngine;
use crate::tuning::types::copy_string;
use crate::vm::machine::HaydnVm;
use crate::vm::types::StepResult;

verus! {

/// A tuning engine and a machine fed by the notes of a score, with the tuning's name.
pub struct InterpretState {
    pub engine: TuningEngine,
    pub vm: HaydnVm,
    pub tuning_name: String,
}

impl InterpretState {
    /// Starts interpreting with a compiled tuning and a fresh machine.
    pub fn new(engine: TuningEngine) -> (r: InterpretState)
        ensures
            r.engine@ == engine@,
            r.vm@ == crate::vm::spec::initial_spec(),
            r.tuning_name@ == engine@.metadata.name,
    {
        let tuning_name = copy_string(&engine.metadata().name);
        let vm = HaydnVm::new();
        InterpretState { engine, vm, tuning_name }
    }

    /// Feeds one note: when the tuning maps it, the event runs through the machine until
    /// it is idle and the steps are returned; an unmapped note gives no step.
    pub fn process_note(&mut self, midi_note: u8) -> (r: Vec<StepResult>)
        ensures
            final(self).engine@ == (crate::tuning::engine::EngineView {
                last_note: Some(midi_note),
                ..old(self).engine@
            }),
            final(self).tuning_name@ == old(self).tuning_name@,
            match crate::tuning::engine::first_match(
                old(self).engine@.rules,
                old(self).engine@.last_note,
                midi_note,
                0,
            ) {
                None => final(self).vm@ == old(self).vm@ && r@.len() == 0,
                Some(e) => crate::vm::spec::call_spec(
                    old(self).vm@,
                    crate::vm::spec::VmCall::ProcessEvent(e),
                ).1 == final(self).vm@ && crate::vm::spec::call_spec(
                    old(self).vm@,
                    crate::vm::spec::VmCall::ProcessEvent(e),
                ).0 =~= r@.map_values(|s: StepResult| s@),
            },
    {
        match self.engine.map_note(midi_note) {
            Some(event) => self.vm.process_event(event),
            None => Vec::new(),
        }
    }
}

} // verus!
