use vstd::prelude::*;

use crate::vm::machine;
use crate::vm::machine::HaydnVm;
use crate::vm::spec;
use crate::vm::spec::{VmView, MAX_LOOP_DEPTH};
use crate::vm::types::{Opcode, Event, EdgeCase, Operation, StepResult, StepView, LoopState, LoopFrame, ReplayFrame, ReplayView};

verus! {

impl HaydnVm {
    /// `loop_start`: peeks the top; zero (or an empty stack) enters skip mode,
    /// nonzero opens a recording frame unless loops are already nested too deep.
    pub(crate) fn handle_loop_start(&mut self, event: Event) -> (r: StepResult)
        ensures
            final(self)@ == spec::loop_start_spec(old(self)@, event).0,
            r@ == spec::loop_start_spec(old(self)@, event).1,
    {
        let n = self.stack.len();
        let empty_stack = n == 0;
        let top: i64 = if n > 0 {
            self.stack[n - 1]
        } else {
            0
        };
        if top == 0 {
            self.skip_depth = 1;
            self.record_event(event);
            let edge = if empty_stack {
                Some(EdgeCase::EmptyStackDefault)
            } else {
                None
            };
            self.make_result(event, Operation::LoopSkipped, None, edge)
        } else {
            if self.loop_stack.len() >= MAX_LOOP_DEPTH {
                return self.make_result(
                    event,
                    Operation::Noop,
                    None,
                    Some(EdgeCase::MaxLoopDepthExceeded),
                );
            }
            self.record_event(event);
            let ghost before = self.loop_stack@;
            self.loop_stack.push(LoopFrame { buffer: Vec::new() });
            proof {
                assert(machine::frames_view(self.loop_stack@) =~= machine::frames_view(before).push(Seq::empty()));
            }
            self.loop_state = LoopState::Recording;
            self.make_result(event, Operation::LoopEntered, None, None)
        }
    }

    /// `loop_end`: pops the top; nonzero replays the innermost recording,
    /// zero closes the innermost loop; with no open loop it does nothing.
    pub(crate) fn handle_loop_end(&mut self, event: Event) -> (r: StepResult)
        ensures
            final(self)@ == spec::loop_end_spec(old(self)@, event).0,
            r@ == spec::loop_end_spec(old(self)@, event).1,
    {
        if self.loop_stack.len() == 0 {
            return self.make_result(
                event,
                Operation::Noop,
                None,
                Some(EdgeCase::UnmatchedLoopEnd),
            );
        }
        let ghost s0 = self@;
        let base = self.recording_base();
        let last = self.loop_stack.len() - 1;
        self.record_frames(base, last, event);
        let ghost frames = self@.loop_stack;
        let top = match self.stack.pop() {
            Some(v) => v,
            None => 0,
        };
        let frame = match self.loop_stack.pop() {
            Some(f) => f,
            None => {
                return self.make_result(event, Operation::Noop, None, None);
            },
        };
        proof {
            assert(machine::frames_view(self.loop_stack@) =~= frames.drop_last());
            assert(frame.buffer@ == frames[last as int]);
        }
        if top != 0 {
            let depth = self.loop_stack.len();
            let ghost before = self.replay_stack@;
            self.replay_stack.push(
                ReplayFrame { buffer: frame.buffer, position: 0, parent_loop_depth: depth },
            );
            proof {
                assert(machine::replays_view(self.replay_stack@) =~= machine::replays_view(before).push(
                    ReplayView { buffer: frames[last as int], position: 0, parent_loop_depth: depth as nat },
                ));
            }
            self.loop_state = LoopState::Replaying;
            self.make_result(event, Operation::LoopReplaying, None, None)
        } else {
            if self.loop_stack.len() > 0 {
                self.loop_state = LoopState::Recording;
            } else if self.replay_stack.len() > 0 {
                self.loop_state = LoopState::Replaying;
            } else {
                self.loop_state = LoopState::Normal;
            }
            self.make_result(event, Operation::LoopExited, None, None)
        }
    }

    /// The innermost replay has read its whole buffer: pops the top;
    /// nonzero replays the buffer again, zero leaves the replay.
    pub(crate) fn handle_end_of_buffer(&mut self) -> (r: StepResult)
        requires
            old(self).replay_stack.len() > 0,
        ensures
            final(self)@ == spec::end_of_buffer_spec(old(self)@).0,
            r@ == spec::end_of_buffer_spec(old(self)@).1,
    {
        let event = Event::Op(Opcode::LoopEnd);
        let top = match self.stack.pop() {
            Some(v) => v,
            None => 0,
        };
        let r = self.replay_stack.len();
        if top != 0 {
            let ghost before = self.replay_stack@;
            self.replay_stack[r - 1].reset();
            proof {
                let old_top = machine::replays_view(before)[r - 1];
                assert(machine::replays_view(self.replay_stack@) =~= machine::replays_view(before).update(
                    r - 1,
                    ReplayView { position: 0, ..old_top },
                )) by {
                    assert(forall|k: int|
                        0 <= k < before.len() && k != r - 1 ==> self.replay_stack@[k]
                            == before[k]);
                }
            }
            self.make_result(event, Operation::EndOfBufferReplay, None, None)
        } else {
            let ghost before = self.replay_stack@;
            self.replay_stack.pop();
            proof {
                assert(machine::replays_view(self.replay_stack@) =~= machine::replays_view(before).drop_last());
            }
            if self.replay_stack.len() > 0 {
                self.loop_state = LoopState::Replaying;
            } else if self.loop_stack.len() > 0 {
                self.loop_state = LoopState::Recording;
            } else {
                self.loop_state = LoopState::Normal;
            }
            self.make_result(event, Operation::EndOfBufferExit, None, None)
        }
    }

    /// An event met while skipping a loop body: recorded, not executed.
    pub(crate) fn handle_skip(&mut self, event: Event) -> (r: StepResult)
        requires
            old(self).skip_depth > 0,
        ensures
            final(self)@ == spec::skip_spec(old(self)@, event).0,
            r@ == spec::skip_spec(old(self)@, event).1,
    {
        self.record_event(event);
        match event {
            Event::Op(Opcode::LoopStart) => {
                self.skip_depth = self.skip_depth.saturating_add(1);
            },
            Event::Op(Opcode::LoopEnd) => {
                self.skip_depth = self.skip_depth - 1;
                if self.skip_depth == 0 {
                    if self.loop_stack.len() > 0 {
                        self.loop_state = LoopState::Recording;
                    } else if self.replay_stack.len() > 0 {
                        self.loop_state = LoopState::Replaying;
                    } else {
                        self.loop_state = LoopState::Normal;
                    }
                }
            },
            _ => {},
        }
        self.make_result(event, Operation::Noop, None, None)
    }
}

} // verus!
