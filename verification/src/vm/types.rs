use vstd::prelude::*;

verus! {

/// The nineteen opcodes of the Haydn instruction set.
#[derive(Debug, Clone, Copy, PartialEq, Eq, Hash, Structural)]
pub enum Opcode {
    Dup,
    Swap,
    Drop,
    Rotate,
    Add,
    Sub,
    Mul,
    Div,
    Mod,
    Eq,
    Gt,
    Lt,
    LoopStart,
    LoopEnd,
    PrintNum,
    PrintChar,
    Read,
    Store,
    Load,
}

/// Events are the only way to drive the machine: push a value or run an opcode.
#[derive(Debug, Clone, Copy, PartialEq, Eq, Structural)]
pub enum Event {
    Push(i64),
    Op(Opcode),
}

/// Situations that are reported with a step but never stop the machine.
#[derive(Debug, Clone, Copy, PartialEq, Eq, Structural)]
pub enum EdgeCase {
    StackUnderflow,
    DivisionByZero,
    ModuloByZero,
    NegativeAddress,
    MaxLoopDepthExceeded,
    UnmatchedLoopEnd,
    EmptyStackDefault,
}

/// What the machine did in response to one step.
#[derive(Debug, Clone, Copy, PartialEq, Eq, Structural)]
pub enum Operation {
    Pushed(i64),
    Executed(Opcode),
    LoopEntered,
    LoopSkipped,
    LoopExited,
    LoopReplaying,
    ReplayStep(Event),
    EndOfBufferReplay,
    EndOfBufferExit,
    Noop,
}

/// The record of a single step: the event, what was done, the stack afterwards,
/// the bytes written by this step and any edge case met.
#[derive(Debug, Clone, PartialEq)]
pub struct StepResult {
    pub event: Event,
    pub operation: Operation,
    pub stack_snapshot: Vec<i64>,
    pub output: Option<Vec<u8>>,
    pub edge_case: Option<EdgeCase>,
}

/// The mathematical content of a `StepResult`.
pub struct StepView {
    pub event: Event,
    pub operation: Operation,
    pub stack: Seq<i64>,
    pub output: Option<Seq<u8>>,
    pub edge_case: Option<EdgeCase>,
}

pub open spec fn opt_bytes_view(o: Option<Vec<u8>>) -> Option<Seq<u8>> {
    match o {
        Some(v) => Some(v@),
        None => None,
    }
}

impl View for StepResult {
    type V = StepView;

    open spec fn view(&self) -> StepView {
        StepView {
            event: self.event,
            operation: self.operation,
            stack: self.stack_snapshot@,
            output: opt_bytes_view(self.output),
            edge_case: self.edge_case,
        }
    }
}

/// Loop bookkeeping state of the machine.
#[derive(Debug, Clone, Copy, PartialEq, Eq, Structural)]
pub enum LoopState {
    Normal,
    Recording,
    Replaying,
}

/// The recording buffer of one open loop.
#[derive(Debug, Clone)]
pub struct LoopFrame {
    pub buffer: Vec<Event>,
}

/// A recorded buffer being replayed, with the read position and the number of
/// loop frames that were open below it when the replay began.
#[derive(Debug, Clone)]
pub struct ReplayFrame {
    pub buffer: Vec<Event>,
    pub position: usize,
    pub parent_loop_depth: usize,
}

/// The mathematical content of a `ReplayFrame`.
pub struct ReplayView {
    pub buffer: Seq<Event>,
    pub position: nat,
    pub parent_loop_depth: nat,
}

impl View for ReplayFrame {
    type V = ReplayView;

    open spec fn view(&self) -> ReplayView {
        ReplayView {
            buffer: self.buffer@,
            position: self.position as nat,
            parent_loop_depth: self.parent_loop_depth as nat,
        }
    }
}

impl ReplayFrame {
    /// The event at the read position, if the position is inside the buffer.
    pub fn current(&self) -> (r: Option<&Event>)
        ensures
            self.position < self.buffer.len() ==> r == Some(&self.buffer@[self.position as int]),
            self.position >= self.buffer.len() ==> r.is_none(),
    {
        if self.position < self.buffer.len() {
            Some(&self.buffer[self.position])
        } else {
            None
        }
    }

    /// Moves the read position one event forward.
    pub fn advance(&mut self)
        requires
            old(self).position < usize::MAX,
        ensures
            final(self).position == old(self).position + 1,
            final(self).buffer@ == old(self).buffer@,
            final(self).parent_loop_depth == old(self).parent_loop_depth,
    {
        self.position = self.position + 1;
    }

    /// Moves the read position back to the start of the buffer.
    pub fn reset(&mut self)
        ensures
            final(self).position == 0,
            final(self).buffer@ == old(self).buffer@,
            final(self).parent_loop_depth == old(self).parent_loop_depth,
    {
        self.position = 0;
    }

    /// Whether every event of the buffer has been read.
    pub fn at_end(&self) -> (r: bool)
        ensures
            r == (self.position >= self.buffer.len()),
    {
        self.position >= self.buffer.len()
    }
}

} // verus!
