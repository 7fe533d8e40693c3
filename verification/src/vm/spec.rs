use vstd::prelude::*;

use crate::vm::types::{Opcode, Event, EdgeCase, Operation, StepResult, StepView, LoopState, LoopFrame, ReplayFrame, ReplayView};

verus! {

/// Loops nest to at most this depth.
pub const MAX_LOOP_DEPTH: usize = 256;

/// The complete mathematical state of the machine.
pub struct VmView {
    pub stack: Seq<i64>,
    pub memory: Map<i64, i64>,
    pub loop_state: LoopState,
    pub loop_stack: Seq<Seq<Event>>,
    pub replay_stack: Seq<ReplayView>,
    pub input: Seq<u8>,
    pub output: Seq<u8>,
    pub queue: Seq<Event>,
    pub skip_depth: nat,
}

/// A fresh machine: everything empty, no loop open.
pub open spec fn initial_spec() -> VmView {
    VmView {
        stack: Seq::empty(),
        memory: Map::empty(),
        loop_state: LoopState::Normal,
        loop_stack: Seq::empty(),
        replay_stack: Seq::empty(),
        input: Seq::empty(),
        output: Seq::empty(),
        queue: Seq::empty(),
        skip_depth: 0,
    }
}

/// Quotient of truncating (toward zero) integer division.
pub open spec fn trunc_div(x: int, d: int) -> int {
    if x == 0 {
        0
    } else if x > 0 && d > 0 {
        x / d
    } else if x < 0 && d < 0 {
        (-x) / (-d)
    } else if x < 0 {
        -((-x) / d)
    } else {
        -(x / (-d))
    }
}

/// Remainder of truncating integer division: it has the sign of the dividend.
pub open spec fn trunc_rem(x: int, d: int) -> int {
    if x == 0 {
        0
    } else if x > 0 && d > 0 {
        x % d
    } else if x < 0 && d < 0 {
        -((-x) % (-d))
    } else if x < 0 {
        -((-x) % d)
    } else {
        x % (-d)
    }
}

/// Two's complement wrapping division (the one overflowing case, MIN / -1, gives MIN).
pub open spec fn wrap_div(a: i64, b: i64) -> i64
    recommends
        b != 0,
{
    if a == i64::MIN && b == -1 {
        i64::MIN
    } else {
        trunc_div(a as int, b as int) as i64
    }
}

/// Two's complement wrapping remainder (MIN % -1 gives 0).
pub open spec fn wrap_rem(a: i64, b: i64) -> i64
    recommends
        b != 0,
{
    if a == i64::MIN && b == -1 {
        0
    } else {
        trunc_rem(a as int, b as int) as i64
    }
}

/// Two's complement wrapping addition.
pub open spec fn wrap_add(a: i64, b: i64) -> i64 {
    vstd::wrapping::i64_specs::wrapping_add(a, b)
}

/// Two's complement wrapping subtraction.
pub open spec fn wrap_sub(a: i64, b: i64) -> i64 {
    vstd::wrapping::i64_specs::wrapping_sub(a, b)
}

/// Two's complement wrapping multiplication.
pub open spec fn wrap_mul(a: i64, b: i64) -> i64 {
    vstd::wrapping::i64_specs::wrapping_mul(a, b)
}

pub open spec fn bool_value(b: bool) -> i64 {
    if b {
        1
    } else {
        0
    }
}

/// The byte that `print_char` writes for a value: the value modulo 256.
pub open spec fn char_byte(v: i64) -> u8 {
    (v % 256) as u8
}

/// The top of the stack, or 0 when the stack is empty.
pub open spec fn top_or_zero(stack: Seq<i64>) -> i64 {
    if stack.len() > 0 {
        stack.last()
    } else {
        0
    }
}

/// The stack after popping one value (unchanged when empty).
pub open spec fn pop_one(stack: Seq<i64>) -> Seq<i64> {
    if stack.len() > 0 {
        stack.drop_last()
    } else {
        stack
    }
}

/// Popping two operands `(a, b)` with `b` on top: missing operands read as 0.
/// Returns the operands, the remaining stack and the edge case met.
pub open spec fn pop_two_spec(stack: Seq<i64>) -> (i64, i64, Seq<i64>, Option<EdgeCase>) {
    if stack.len() == 0 {
        (0, 0, stack, Some(EdgeCase::EmptyStackDefault))
    } else if stack.len() == 1 {
        (0, stack[0], Seq::empty(), Some(EdgeCase::StackUnderflow))
    } else {
        (stack[stack.len() - 2], stack[stack.len() - 1], stack.subrange(0, stack.len() - 2), None)
    }
}

/// The value stored at an address (0 where nothing is stored).
pub open spec fn mem_read(memory: Map<i64, i64>, addr: i64) -> i64 {
    if memory.dom().contains(addr) {
        memory[addr]
    } else {
        0
    }
}

/// Memory after storing `val` at `addr`: storing 0 removes the entry.
pub open spec fn mem_write(memory: Map<i64, i64>, addr: i64, val: i64) -> Map<i64, i64> {
    if val == 0 {
        memory.remove(addr)
    } else {
        memory.insert(addr, val)
    }
}

/// The outcome of one opcode other than the two loop opcodes:
/// the new state, the operation, the bytes written and the edge case.
pub open spec fn op_spec(s: VmView, op: Opcode) -> (VmView, Option<Seq<u8>>, Option<EdgeCase>) {
    let st = s.stack;
    let (a, b, rest, edge) = pop_two_spec(st);
    match op {
        Opcode::Dup => {
            if st.len() > 0 {
                (VmView { stack: st.push(st.last()), ..s }, None, None)
            } else {
                (VmView { stack: st.push(0), ..s }, None, Some(EdgeCase::EmptyStackDefault))
            }
        },
        Opcode::Swap => {
            if st.len() >= 2 {
                let n = st.len() as int;
                (
                    VmView { stack: st.update(n - 1, st[n - 2]).update(n - 2, st[n - 1]), ..s },
                    None,
                    None,
                )
            } else {
                (s, None, None)
            }
        },
        Opcode::Drop => (VmView { stack: pop_one(st), ..s }, None, None),
        Opcode::Rotate => {
            if st.len() >= 3 {
                let n = st.len() as int;
                (VmView { stack: st.remove(n - 3).push(st[n - 3]), ..s }, None, None)
            } else {
                (s, None, None)
            }
        },
        Opcode::Add => (VmView { stack: rest.push(wrap_add(a, b)), ..s }, None, edge),
        Opcode::Sub => (VmView { stack: rest.push(wrap_sub(a, b)), ..s }, None, edge),
        Opcode::Mul => (VmView { stack: rest.push(wrap_mul(a, b)), ..s }, None, edge),
        Opcode::Div => {
            if b == 0 {
                (VmView { stack: rest.push(0), ..s }, None, Some(EdgeCase::DivisionByZero))
            } else {
                (VmView { stack: rest.push(wrap_div(a, b)), ..s }, None, edge)
            }
        },
        Opcode::Mod => {
            if b == 0 {
                (VmView { stack: rest.push(0), ..s }, None, Some(EdgeCase::ModuloByZero))
            } else {
                (VmView { stack: rest.push(wrap_rem(a, b)), ..s }, None, edge)
            }
        },
        Opcode::Eq => (VmView { stack: rest.push(bool_value(a == b)), ..s }, None, edge),
        Opcode::Gt => (VmView { stack: rest.push(bool_value(a > b)), ..s }, None, edge),
        Opcode::Lt => (VmView { stack: rest.push(bool_value(a < b)), ..s }, None, edge),
        Opcode::Store => {
            // `a` is the value and `b` the address.
            if b < 0 {
                (VmView { stack: rest, ..s }, None, Some(EdgeCase::NegativeAddress))
            } else {
                (VmView { stack: rest, memory: mem_write(s.memory, b, a), ..s }, None, edge)
            }
        },
        Opcode::Load => {
            let addr = top_or_zero(st);
            let e = if st.len() > 0 {
                None
            } else {
                Some(EdgeCase::EmptyStackDefault)
            };
            if addr < 0 {
                (
                    VmView { stack: pop_one(st).push(0), ..s },
                    None,
                    Some(EdgeCase::NegativeAddress),
                )
            } else {
                (VmView { stack: pop_one(st).push(mem_read(s.memory, addr)), ..s }, None, e)
            }
        },
        Opcode::PrintNum => {
            let bytes = crate::text::decimal_i64(top_or_zero(st));
            (VmView { stack: pop_one(st), output: s.output + bytes, ..s }, Some(bytes), None)
        },
        Opcode::PrintChar => {
            if st.len() > 0 {
                let byte = char_byte(st.last());
                (
                    VmView { stack: st.drop_last(), output: s.output.push(byte), ..s },
                    Some(seq![byte]),
                    None,
                )
            } else {
                (s, None, None)
            }
        },
        Opcode::Read => {
            if s.input.len() > 0 {
                (
                    VmView { stack: st.push(s.input[0] as i64), input: s.input.drop_first(), ..s },
                    None,
                    None,
                )
            } else {
                (VmView { stack: st.push(0), ..s }, None, None)
            }
        },
        Opcode::LoopStart | Opcode::LoopEnd => (s, None, None),
    }
}

/// The step record built from a state and the parts of a step.
pub open spec fn make_step(
    s: VmView,
    event: Event,
    operation: Operation,
    output: Option<Seq<u8>>,
    edge: Option<EdgeCase>,
) -> StepView {
    StepView { event, operation, stack: s.stack, output, edge_case: edge }
}

/// Executing an event that is not a loop opcode.
pub open spec fn execute_spec(s: VmView, e: Event) -> (VmView, StepView) {
    match e {
        Event::Push(v) => {
            let s2 = VmView { stack: s.stack.push(v), ..s };
            (s2, make_step(s2, e, Operation::Pushed(v), None, None))
        },
        Event::Op(Opcode::LoopStart) | Event::Op(Opcode::LoopEnd) => (
            s,
            make_step(s, e, Operation::Noop, None, None),
        ),
        Event::Op(op) => {
            let (s2, out, edge) = op_spec(s, op);
            (s2, make_step(s2, e, Operation::Executed(op), out, edge))
        },
    }
}

/// Index of the lowest loop frame that records events: during a replay, the frames that
/// were already open when the replay began hold these events from the first pass.
pub open spec fn recording_base_spec(s: VmView) -> int {
    if s.replay_stack.len() > 0 {
        s.replay_stack.last().parent_loop_depth as int
    } else {
        0
    }
}

/// Appends `e` to every frame whose index lies in `[lo, hi)`.
pub open spec fn record_range(frames: Seq<Seq<Event>>, lo: int, hi: int, e: Event) -> Seq<
    Seq<Event>,
> {
    Seq::new(frames.len(), |i: int| if lo <= i < hi { frames[i].push(e) } else { frames[i] })
}

pub proof fn lemma_record_range_index(frames: Seq<Seq<Event>>, lo: int, hi: int, e: Event, k: int)
    requires
        0 <= k < frames.len(),
    ensures
        record_range(frames, lo, hi, e).len() == frames.len(),
        record_range(frames, lo, hi, e)[k] == if lo <= k < hi {
            frames[k].push(e)
        } else {
            frames[k]
        },
{
}

/// Appends `e` to every recording frame from the recording base up.
pub open spec fn record_all(s: VmView, e: Event) -> Seq<Seq<Event>> {
    record_range(s.loop_stack, recording_base_spec(s), s.loop_stack.len() as int, e)
}

/// `loop_start`: peek the top; zero (or empty) skips to the matching `loop_end`,
/// nonzero opens a new recording frame unless the nesting limit is reached.
pub open spec fn loop_start_spec(s: VmView, e: Event) -> (VmView, StepView) {
    let top = top_or_zero(s.stack);
    if top == 0 {
        let s2 = VmView { skip_depth: 1, loop_stack: record_all(s, e), ..s };
        let edge = if s.stack.len() == 0 {
            Some(EdgeCase::EmptyStackDefault)
        } else {
            None
        };
        (s2, make_step(s2, e, Operation::LoopSkipped, None, edge))
    } else if s.loop_stack.len() >= MAX_LOOP_DEPTH {
        (s, make_step(s, e, Operation::Noop, None, Some(EdgeCase::MaxLoopDepthExceeded)))
    } else {
        let s2 = VmView {
            loop_stack: record_all(s, e).push(Seq::empty()),
            loop_state: LoopState::Recording,
            ..s
        };
        (s2, make_step(s2, e, Operation::LoopEntered, None, None))
    }
}

/// `loop_end`: pops the top; nonzero turns the innermost recording into a replay,
/// zero closes the innermost loop.
pub open spec fn loop_end_spec(s: VmView, e: Event) -> (VmView, StepView) {
    if s.loop_stack.len() == 0 {
        (s, make_step(s, e, Operation::Noop, None, Some(EdgeCase::UnmatchedLoopEnd)))
    } else {
        let n = s.loop_stack.len() as int;
        let frames = record_range(s.loop_stack, recording_base_spec(s), n - 1, e);
        let top = top_or_zero(s.stack);
        let stack = pop_one(s.stack);
        if top != 0 {
            let replay = ReplayView {
                buffer: frames[n - 1],
                position: 0,
                parent_loop_depth: (n - 1) as nat,
            };
            let s2 = VmView {
                stack,
                loop_stack: frames.drop_last(),
                replay_stack: s.replay_stack.push(replay),
                loop_state: LoopState::Replaying,
                ..s
            };
            (s2, make_step(s2, e, Operation::LoopReplaying, None, None))
        } else {
            let state = if n - 1 > 0 {
                LoopState::Recording
            } else if s.replay_stack.len() > 0 {
                LoopState::Replaying
            } else {
                LoopState::Normal
            };
            let s2 = VmView { stack, loop_stack: frames.drop_last(), loop_state: state, ..s };
            (s2, make_step(s2, e, Operation::LoopExited, None, None))
        }
    }
}

/// The end of a replayed buffer: pop the top; nonzero replays the buffer again,
/// zero leaves the replay.
pub open spec fn end_of_buffer_spec(s: VmView) -> (VmView, StepView) {
    let e = Event::Op(Opcode::LoopEnd);
    let top = top_or_zero(s.stack);
    let stack = pop_one(s.stack);
    let r = s.replay_stack.len() as int;
    if top != 0 {
        let frame = ReplayView { position: 0, ..s.replay_stack[r - 1] };
        let s2 = VmView { stack, replay_stack: s.replay_stack.update(r - 1, frame), ..s };
        (s2, make_step(s2, e, Operation::EndOfBufferReplay, None, None))
    } else {
        let state = if r - 1 > 0 {
            LoopState::Replaying
        } else if s.loop_stack.len() > 0 {
            LoopState::Recording
        } else {
            LoopState::Normal
        };
        let s2 = VmView {
            stack,
            replay_stack: s.replay_stack.drop_last(),
            loop_state: state,
            ..s
        };
        (s2, make_step(s2, e, Operation::EndOfBufferExit, None, None))
    }
}

/// An event met while skipping a loop body: it is recorded but not executed;
/// nested loop opcodes only move the skip depth.
pub open spec fn skip_spec(s: VmView, e: Event) -> (VmView, StepView) {
    let frames = record_all(s, e);
    let s1 = VmView { loop_stack: frames, ..s };
    let s2 = match e {
        Event::Op(Opcode::LoopStart) => {
            let d = if s.skip_depth < usize::MAX {
                s.skip_depth + 1
            } else {
                s.skip_depth
            };
            VmView { skip_depth: d, ..s1 }
        },
        Event::Op(Opcode::LoopEnd) => {
            let d = (s.skip_depth - 1) as nat;
            if d == 0 {
                let state = if frames.len() > 0 {
                    LoopState::Recording
                } else if s.replay_stack.len() > 0 {
                    LoopState::Replaying
                } else {
                    LoopState::Normal
                };
                VmView { skip_depth: d, loop_state: state, ..s1 }
            } else {
                VmView { skip_depth: d, ..s1 }
            }
        },
        _ => s1,
    };
    (s2, make_step(s2, e, Operation::Noop, None, None))
}

/// Whether the machine has nothing left to do: no replay in progress and no queued event.
pub open spec fn is_idle(s: VmView) -> bool {
    s.replay_stack.len() == 0 && s.queue.len() == 0
}

/// The next event to read and the state after reading it: from the innermost replay
/// when one is in progress, else from the front of the queue.
pub open spec fn next_event_spec(s: VmView) -> (Event, VmView)
    recommends
        !is_idle(s),
{
    if s.replay_stack.len() > 0 {
        let r = s.replay_stack.len() as int;
        let top = s.replay_stack[r - 1];
        (
            top.buffer[top.position as int],
            VmView {
                replay_stack: s.replay_stack.update(
                    r - 1,
                    ReplayView { position: top.position + 1, ..top },
                ),
                ..s
            },
        )
    } else {
        (s.queue[0], VmView { queue: s.queue.drop_first(), ..s })
    }
}

/// Whether the innermost replay has read its whole buffer.
pub open spec fn replay_at_end(s: VmView) -> bool {
    s.replay_stack.len() > 0 && s.replay_stack.last().position >= s.replay_stack.last().buffer.len()
}

/// One step of the machine. `None` when it is idle.
pub open spec fn step_spec(s: VmView) -> Option<(VmView, StepView)> {
    if replay_at_end(s) {
        Some(end_of_buffer_spec(s))
    } else if is_idle(s) {
        None
    } else {
        let (e, s1) = next_event_spec(s);
        if s1.skip_depth > 0 {
            Some(skip_spec(s1, e))
        } else {
            match e {
                Event::Op(Opcode::LoopStart) => Some(loop_start_spec(s1, e)),
                Event::Op(Opcode::LoopEnd) => Some(loop_end_spec(s1, e)),
                _ => Some(execute_spec(VmView { loop_stack: record_all(s1, e), ..s1 }, e)),
            }
        }
    }
}

/// The state after `feed`.
pub open spec fn feed_spec(s: VmView, e: Event) -> VmView {
    VmView { queue: s.queue.push(e), ..s }
}

/// The steps taken and the state reached by running at most `n` steps from `s`,
/// stopping early when the machine becomes idle.
pub open spec fn run_spec(s: VmView, n: nat) -> (Seq<StepView>, VmView)
    decreases n,
{
    if n == 0 {
        (Seq::empty(), s)
    } else {
        match step_spec(s) {
            None => (Seq::empty(), s),
            Some((s1, r)) => {
                let (rs, s2) = run_spec(s1, (n - 1) as nat);
                (seq![r] + rs, s2)
            },
        }
    }
}

/// Well-formedness of a machine state: loops nest at most `MAX_LOOP_DEPTH` deep,
/// replay positions lie inside their buffers, and the skip depth is a machine integer
/// (nested loop starts met while skipping saturate at `usize::MAX`).
pub open spec fn wf_spec(s: VmView) -> bool {
    &&& s.loop_stack.len() <= MAX_LOOP_DEPTH
    &&& forall|i: int|
        0 <= i < s.replay_stack.len() ==> #[trigger] s.replay_stack[i].position
            <= s.replay_stack[i].buffer.len()
    &&& s.skip_depth <= usize::MAX
}

/// The state after `provide_input`: the bytes are appended to the unread input.
pub open spec fn provide_input_spec(s: VmView, bytes: Seq<u8>) -> VmView {
    VmView { input: s.input + bytes, ..s }
}

/// The state after `close`: open recordings and replays are discarded, everything else stays.
pub open spec fn close_spec(s: VmView) -> VmView {
    VmView {
        loop_stack: Seq::empty(),
        replay_stack: Seq::empty(),
        loop_state: LoopState::Normal,
        skip_depth: 0,
        ..s
    }
}

/// One call a user makes on a machine.
pub enum VmCall {
    Feed(Event),
    Step,
    ProcessEvent(Event),
    ProvideInput(Seq<u8>),
    Close,
}

/// The step records a call returns and the state it leaves. `step` returns at most one
/// record; `process_event` runs the fed event until the machine is idle, at most
/// `usize::MAX` steps.
pub open spec fn call_spec(s: VmView, c: VmCall) -> (Seq<StepView>, VmView) {
    match c {
        VmCall::Feed(e) => (Seq::empty(), feed_spec(s, e)),
        VmCall::Step => run_spec(s, 1),
        VmCall::ProcessEvent(e) => run_spec(feed_spec(s, e), usize::MAX as nat),
        VmCall::ProvideInput(b) => (Seq::empty(), provide_input_spec(s, b)),
        VmCall::Close => (Seq::empty(), close_spec(s)),
    }
}

/// Every step record returned by a sequence of calls, in order, and the state after them.
pub open spec fn session_spec(s: VmView, calls: Seq<VmCall>) -> (Seq<StepView>, VmView)
    decreases calls.len(),
{
    if calls.len() == 0 {
        (Seq::empty(), s)
    } else {
        let (rs, s1) = session_spec(s, calls.drop_last());
        let (rs2, s2) = call_spec(s1, calls.last());
        (rs + rs2, s2)
    }
}

} // verus!
