use std::collections::HashMap;
use std::collections::VecDeque;

use vstd::prelude::*;

use crate::vm::spec;
use crate::vm::spec::{VmView, MAX_LOOP_DEPTH};
use crate::vm::types::{Opcode, Event, EdgeCase, Operation, StepResult, StepView, LoopState, LoopFrame, ReplayFrame, ReplayView};

verus! {

broadcast use vstd::std_specs::hash::group_hash_axioms;

/// The Haydn stack machine: it consumes a stream of events and never panics.
pub struct HaydnVm {
    pub(crate) stack: Vec<i64>,
    pub(crate) memory: HashMap<i64, i64>,
    pub(crate) loop_state: LoopState,
    pub(crate) loop_stack: Vec<LoopFrame>,
    pub(crate) replay_stack: Vec<ReplayFrame>,
    pub(crate) input_buffer: VecDeque<u8>,
    pub(crate) output_buffer: Vec<u8>,
    pub(crate) event_queue: VecDeque<Event>,
    pub(crate) skip_depth: usize,
}

pub open spec fn frames_view(frames: Seq<LoopFrame>) -> Seq<Seq<Event>> {
    frames.map_values(|f: LoopFrame| f.buffer@)
}

pub open spec fn replays_view(frames: Seq<ReplayFrame>) -> Seq<ReplayView> {
    frames.map_values(|f: ReplayFrame| f@)
}

impl View for HaydnVm {
    type V = VmView;

    open(crate) spec fn view(&self) -> VmView {
        VmView {
            stack: self.stack@,
            memory: self.memory@,
            loop_state: self.loop_state,
            loop_stack: frames_view(self.loop_stack@),
            replay_stack: replays_view(self.replay_stack@),
            input: self.input_buffer@,
            output: self.output_buffer@,
            queue: self.event_queue@,
            skip_depth: self.skip_depth as nat,
        }
    }
}

/// A copy of a stack.
pub(crate) fn copy_stack(v: &Vec<i64>) -> (out: Vec<i64>)
    ensures
        out@ == v@,
{
    let mut out: Vec<i64> = Vec::new();
    let mut i: usize = 0;
    while i < v.len()
        invariant
            i <= v.len(),
            out@ == v@.subrange(0, i as int),
        decreases v.len() - i,
    {
        proof {
            assert(v@.subrange(0, i + 1) =~= v@.subrange(0, i as int).push(v@[i as int]));
        }
        out.push(v[i]);
        i = i + 1;
    }
    proof {
        assert(v@.subrange(0, i as int) =~= v@);
    }
    out
}

impl HaydnVm {
    /// A machine with an empty stack, memory, input, output and event queue.
    pub fn new() -> (vm: Self)
        ensures
            vm@ == spec::initial_spec(),
    {
        let vm = HaydnVm {
            stack: Vec::new(),
            memory: HashMap::new(),
            loop_state: LoopState::Normal,
            loop_stack: Vec::new(),
            replay_stack: Vec::new(),
            input_buffer: VecDeque::new(),
            output_buffer: Vec::new(),
            event_queue: VecDeque::new(),
            skip_depth: 0,
        };
        proof {
            assert(frames_view(vm.loop_stack@) =~= Seq::empty());
            assert(replays_view(vm.replay_stack@) =~= Seq::empty());
        }
        vm
    }

    /// Queues an event; it is executed by later steps.
    pub fn feed(&mut self, event: Event)
        ensures
            final(self)@ == spec::feed_spec(old(self)@, event),
    {
        self.event_queue.push_back(event);
    }

    /// Appends bytes to the input that `read` consumes.
    pub fn provide_input(&mut self, bytes: &[u8])
        ensures
            final(self)@ == spec::provide_input_spec(old(self)@, bytes@),
    {
        let ghost start = self@;
        let mut i: usize = 0;
        while i < bytes.len()
            invariant
                i <= bytes.len(),
                self@ == (VmView { input: start.input + bytes@.subrange(0, i as int), ..start }),
            decreases bytes.len() - i,
        {
            proof {
                assert(start.input + bytes@.subrange(0, i + 1) =~= (start.input + bytes@.subrange(
                    0,
                    i as int,
                )).push(bytes@[i as int]));
            }
            self.input_buffer.push_back(bytes[i]);
            i = i + 1;
        }
        proof {
            assert(bytes@.subrange(0, i as int) =~= bytes@);
        }
    }

    /// Every byte written so far.
    pub fn output(&self) -> (r: &[u8])
        ensures
            r@ == self@.output,
    {
        self.output_buffer.as_slice()
    }

    /// The stack, bottom first.
    pub fn stack(&self) -> (r: &[i64])
        ensures
            r@ == self@.stack,
    {
        self.stack.as_slice()
    }

    /// The memory: addresses that hold a nonzero value.
    pub fn memory(&self) -> (r: &HashMap<i64, i64>)
        ensures
            r@ == self@.memory,
    {
        &self.memory
    }

    /// The input not yet read.
    pub fn input_buffer(&self) -> (r: &VecDeque<u8>)
        ensures
            r@ == self@.input,
    {
        &self.input_buffer
    }

    /// The loop bookkeeping state.
    pub fn loop_state(&self) -> (r: LoopState)
        ensures
            r == self@.loop_state,
    {
        self.loop_state
    }

    /// The open recording frames, outermost first.
    pub fn loop_stack(&self) -> (r: &[LoopFrame])
        ensures
            frames_view(r@) == self@.loop_stack,
    {
        self.loop_stack.as_slice()
    }

    /// The replays in progress, outermost first.
    pub fn replay_stack(&self) -> (r: &[ReplayFrame])
        ensures
            replays_view(r@) == self@.replay_stack,
    {
        self.replay_stack.as_slice()
    }

    /// How deep the machine is inside skipped loop bodies.
    pub fn skip_depth(&self) -> (r: usize)
        ensures
            r as nat == self@.skip_depth,
    {
        self.skip_depth
    }

    /// The name of the loop state: `Normal`, `Recording` or `Replaying`.
    pub fn loop_state_name(&self) -> (r: &'static str)
        ensures
            r@ == match self@.loop_state {
                LoopState::Normal => "Normal"@,
                LoopState::Recording => "Recording"@,
                LoopState::Replaying => "Replaying"@,
            },
    {
        match self.loop_state {
            LoopState::Normal => "Normal",
            LoopState::Recording => "Recording",
            LoopState::Replaying => "Replaying",
        }
    }

    /// Ends the event stream: open recordings and replays are discarded;
    /// stack, memory, input, output and queue stay as they are.
    pub fn close(&mut self)
        ensures
            final(self)@ == spec::close_spec(old(self)@),
    {
        self.loop_stack.clear();
        self.replay_stack.clear();
        self.loop_state = LoopState::Normal;
        self.skip_depth = 0;
        proof {
            assert(frames_view(self.loop_stack@) =~= Seq::empty());
            assert(replays_view(self.replay_stack@) =~= Seq::empty());
        }
    }

    /// Index of the lowest loop frame that records events.
    pub(crate) fn recording_base(&self) -> (r: usize)
        ensures
            r as int == spec::recording_base_spec(self@),
    {
        let n = self.replay_stack.len();
        if n > 0 {
            self.replay_stack[n - 1].parent_loop_depth
        } else {
            0
        }
    }

    /// Appends `e` to every loop frame with index in `[lo, hi)`.
    pub(crate) fn record_frames(&mut self, lo: usize, hi: usize, e: Event)
        requires
            hi <= old(self).loop_stack.len(),
        ensures
            final(self)@ == (VmView {
                loop_stack: spec::record_range(old(self)@.loop_stack, lo as int, hi as int, e),
                ..old(self)@
            }),
    {
        let ghost start = self@;
        let mut i: usize = lo;
        if i < hi {
            proof {
                assert(spec::record_range(start.loop_stack, lo as int, lo as int, e) =~= start.loop_stack);
            }
            while i < hi
                invariant
                    lo <= i <= hi,
                    hi <= self.loop_stack.len(),
                    self@ == (VmView {
                        loop_stack: spec::record_range(start.loop_stack, lo as int, i as int, e),
                        ..start
                    }),
                decreases hi - i,
            {
                let ghost before = self.loop_stack@;
                let ghost before_view = self@;
                self.loop_stack[i].buffer.push(e);
                proof {
                    assert(self.loop_stack@.len() == before.len());
                    assert(before_view.loop_stack == spec::record_range(start.loop_stack, lo as int, i as int, e));
                    assert(before_view.loop_stack.len() == start.loop_stack.len());
                    assert(frames_view(before).len() == before.len());
                    assert(before.len() == start.loop_stack.len());
                    assert(self.loop_stack@[i as int].buffer@ == before[i as int].buffer@.push(e));
                    assert forall|k: int| 0 <= k < before.len() && k != i implies self.loop_stack@[k]
                        == before[k] by {}
                    assert(frames_view(before) == spec::record_range(start.loop_stack, lo as int, i as int, e));
                    assert forall|k: int| 0 <= k < before.len() implies #[trigger] frames_view(self.loop_stack@)[k]
                        == spec::record_range(start.loop_stack, lo as int, i + 1, e)[k] by {
                        assert(frames_view(before)[k] == before[k].buffer@);
                        assert(frames_view(self.loop_stack@)[k] == self.loop_stack@[k].buffer@);
                        assert(frames_view(before)[k] == spec::record_range(start.loop_stack, lo as int, i as int, e)[k]);
                        spec::lemma_record_range_index(start.loop_stack, lo as int, i as int, e, k);
                        spec::lemma_record_range_index(start.loop_stack, lo as int, i + 1, e, k);
                        if k == i {
                        } else {
                            assert(self.loop_stack@[k] == before[k]);
                        }
                    }
                    assert(frames_view(self.loop_stack@) =~= spec::record_range(
                        start.loop_stack,
                        lo as int,
                        i + 1,
                        e,
                    ));
                }
                i = i + 1;
            }
        } else {
            proof {
                assert(spec::record_range(start.loop_stack, lo as int, hi as int, e) =~= start.loop_stack);
            }
        }
    }

    /// Appends `e` to every recording frame from the recording base up.
    pub(crate) fn record_event(&mut self, e: Event)
        ensures
            final(self)@ == (VmView { loop_stack: spec::record_all(old(self)@, e), ..old(self)@ }),
    {
        let base = self.recording_base();
        let n = self.loop_stack.len();
        self.record_frames(base, n, e);
    }

    /// A step record holding a copy of the current stack.
    pub(crate) fn make_result(
        &self,
        event: Event,
        operation: Operation,
        output: Option<Vec<u8>>,
        edge_case: Option<EdgeCase>,
    ) -> (r: StepResult)
        ensures
            r@ == spec::make_step(self@, event, operation, crate::vm::types::opt_bytes_view(output), edge_case),
    {
        StepResult { event, operation, stack_snapshot: copy_stack(&self.stack), output, edge_case }
    }

    /// Runs one step: end of a replayed buffer, an event met while skipping,
    /// a loop opcode, or the execution of any other event. `None` when idle.
    pub fn step(&mut self) -> (r: Option<StepResult>)
        ensures
            match spec::step_spec(old(self)@) {
                None => r.is_none() && final(self)@ == old(self)@,
                Some((s2, sv)) => r.is_some() && r.unwrap()@ == sv && final(self)@ == s2,
            },
            spec::call_spec(old(self)@, spec::VmCall::Step) == (
                match r {
                    Some(x) => seq![x@],
                    None => Seq::<StepView>::empty(),
                },
                final(self)@,
            ),
    {
        proof {
            crate::vm::laws::lemma_step_is_run_of_one(self@);
        }
        let rlen = self.replay_stack.len();
        if rlen > 0 && self.replay_stack[rlen - 1].at_end() {
            return Some(self.handle_end_of_buffer());
        }
        let ghost s0 = self@;
        let event = if rlen > 0 {
            let pos = self.replay_stack[rlen - 1].position;
            let e = self.replay_stack[rlen - 1].buffer[pos];
            let ghost before = self.replay_stack@;
            self.replay_stack[rlen - 1].advance();
            proof {
                let (ne, s1) = spec::next_event_spec(s0);
                assert(replays_view(self.replay_stack@) =~= s1.replay_stack) by {
                    assert(forall|k: int|
                        0 <= k < before.len() && k != rlen - 1 ==> self.replay_stack@[k]
                            == before[k]);
                }
                assert(ne == e);
            }
            e
        } else {
            match self.event_queue.pop_front() {
                Some(e) => e,
                None => {
                    return None;
                },
            }
        };
        proof {
            let (ne, s1) = spec::next_event_spec(s0);
            assert(ne == event);
            assert(self@ == s1);
        }
        if self.skip_depth > 0 {
            return Some(self.handle_skip(event));
        }
        match event {
            Event::Op(Opcode::LoopStart) => {
                return Some(self.handle_loop_start(event));
            },
            Event::Op(Opcode::LoopEnd) => {
                return Some(self.handle_loop_end(event));
            },
            _ => {},
        }
        self.record_event(event);
        Some(self.execute_event(event))
    }

    /// Queues an event and runs steps until the machine is idle, returning every step.
    /// Whenever the run reaches an idle machine within `usize::MAX` steps, the machine is
    /// idle afterwards, so every replay the event set off has finished; a replay that never
    /// ends is cut at `usize::MAX` steps. On an idle machine the first step is the event
    /// itself.
    pub fn process_event(&mut self, event: Event) -> (results: Vec<StepResult>)
        ensures
            spec::call_spec(old(self)@, spec::VmCall::ProcessEvent(event)).1 == final(self)@,
            spec::call_spec(old(self)@, spec::VmCall::ProcessEvent(event)).0 =~= results@.map_values(
                |r: StepResult| r@,
            ),
            (exists|m: nat|
                m <= usize::MAX && spec::is_idle(
                    #[trigger] spec::run_spec(spec::feed_spec(old(self)@, event), m).1,
                )) ==> spec::is_idle(final(self)@),
            spec::is_idle(old(self)@) ==> results@.len() >= 1 && results@[0].event == event,
    {
        self.feed(event);
        let ghost start = self@;
        assert(start == spec::feed_spec(old(self)@, event));
        let mut results: Vec<StepResult> = Vec::new();
        let mut count: usize = 0;
        proof {
            assert(results@.map_values(|r: StepResult| r@) =~= Seq::empty());
        }
        while count < usize::MAX
            invariant
                spec::run_spec(start, count as nat).1 == self@,
                start == spec::feed_spec(old(self)@, event),
                spec::run_spec(start, count as nat).0 =~= results@.map_values(|r: StepResult| r@),
            decreases usize::MAX - count,
        {
            let ghost before = self@;
            match self.step() {
                Some(r) => {
                    proof {
                        lemma_run_snoc(start, count as nat);
                        assert(results@.push(r).map_values(|x: StepResult| x@) =~= results@.map_values(
                            |x: StepResult| x@,
                        ).push(r@));
                    }
                    results.push(r);
                    count = count + 1;
                },
                None => {
                    proof {
                        assert(spec::step_spec(before) is None);
                        assert(spec::is_idle(self@));
                        crate::vm::laws::law_run_stops_when_idle(start, count as nat, usize::MAX as nat);
                        if exists|m: nat|
                            m <= usize::MAX && spec::is_idle(
                                #[trigger] spec::run_spec(spec::feed_spec(old(self)@, event), m).1,
                            ) {
                            let m = choose|m: nat|
                                m <= usize::MAX && spec::is_idle(
                                    #[trigger] spec::run_spec(spec::feed_spec(old(self)@, event), m).1,
                                );
                            crate::vm::laws::law_run_stops_when_idle(start, m, usize::MAX as nat);
                        }
                        if spec::is_idle(old(self)@) {
                            assert(!spec::is_idle(start));
                            assert(count >= 1);
                            crate::vm::laws::law_run_starts_with_fed_event(old(self)@, event, count as nat);
                            assert(results@.map_values(|r: StepResult| r@)[0] == results@[0]@);
                        }
                    }
                    return results;
                },
            }
        }
        proof {
            if exists|m: nat|
                m <= usize::MAX && spec::is_idle(
                    #[trigger] spec::run_spec(spec::feed_spec(old(self)@, event), m).1,
                ) {
                let m = choose|m: nat|
                    m <= usize::MAX && spec::is_idle(
                        #[trigger] spec::run_spec(spec::feed_spec(old(self)@, event), m).1,
                    );
                crate::vm::laws::law_run_stops_when_idle(start, m, usize::MAX as nat);
            }
            if spec::is_idle(old(self)@) {
                crate::vm::laws::law_run_starts_with_fed_event(old(self)@, event, count as nat);
                assert(results@.map_values(|r: StepResult| r@)[0] == results@[0]@);
            }
        }
        results
    }
}

/// Running `n + 1` steps is running `n` steps and then one more.
pub proof fn lemma_run_snoc(s: VmView, n: nat)
    ensures
        match spec::step_spec(spec::run_spec(s, n).1) {
            None => spec::run_spec(s, n + 1) == spec::run_spec(s, n),
            Some((s2, r)) => spec::run_spec(s, n + 1).1 == s2 && spec::run_spec(s, n + 1).0 == spec::run_spec(
                s,
                n,
            ).0.push(r),
        },
    decreases n,
{
    if n == 0 {
        match spec::step_spec(s) {
            None => {},
            Some((s1, r)) => {
                assert(spec::run_spec(s1, 0).0 =~= Seq::<StepView>::empty());
                assert(seq![r] + Seq::<StepView>::empty() =~= Seq::<StepView>::empty().push(r));
            },
        }
    } else {
        match spec::step_spec(s) {
            None => {},
            Some((s1, r)) => {
                lemma_run_snoc(s1, (n - 1) as nat);
                match spec::step_spec(spec::run_spec(s1, (n - 1) as nat).1) {
                    None => {},
                    Some((s2, r2)) => {
                        assert(seq![r] + spec::run_spec(s1, (n - 1) as nat).0.push(r2) =~= (seq![r]
                            + spec::run_spec(s1, (n - 1) as nat).0).push(r2));
                    },
                }
            },
        }
    }
}

impl Default for HaydnVm {
    fn default() -> (vm: Self)
        ensures
            vm@ == (VmView {
                stack: Seq::empty(),
                memory: Map::empty(),
                loop_state: LoopState::Normal,
                loop_stack: Seq::empty(),
                replay_stack: Seq::empty(),
                input: Seq::empty(),
                output: Seq::empty(),
                queue: Seq::empty(),
                skip_depth: 0,
            }),
    {
        HaydnVm::new()
    }
}

} // verus!
