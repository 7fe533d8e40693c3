use vstd::prelude::*;

use crate::vm::spec;
use crate::vm::spec::VmView;
use crate::vm::types::{Event, Opcode, StepView};

verus! {

/// A value stored at a non-negative address is what a later load of that address
/// pushes: `[.. v a] store`, then `a load`, leaves `[.. v]`.
pub proof fn law_store_then_load(s: VmView, v: i64, a: i64)
    requires
        a >= 0,
        s.stack.len() >= 2,
        s.stack[s.stack.len() - 2] == v,
        s.stack[s.stack.len() - 1] == a,
    ensures
        ({
            let stored = spec::op_spec(s, Opcode::Store).0;
            let pushed = VmView { stack: stored.stack.push(a), ..stored };
            let loaded = spec::op_spec(pushed, Opcode::Load);
            &&& loaded.0.stack == s.stack.subrange(0, s.stack.len() - 2).push(v)
            &&& loaded.2.is_none()
        }),
{
    let stored = spec::op_spec(s, Opcode::Store).0;
    assert(stored.stack =~= s.stack.subrange(0, s.stack.len() - 2));
    let pushed = VmView { stack: stored.stack.push(a), ..stored };
    assert(spec::pop_one(pushed.stack) =~= stored.stack);
}

/// Storing at one address leaves every other address as it was.
pub proof fn law_store_keeps_other_addresses(m: spec::VmView, a: i64, b: i64, v: i64)
    requires
        a != b,
    ensures
        spec::mem_read(spec::mem_write(m.memory, a, v), b) == spec::mem_read(m.memory, b),
{
}

/// Pushing a value and dropping it gives back the stack it was pushed on.
pub proof fn law_push_then_drop(s: VmView, v: i64)
    ensures
        ({
            let pushed = spec::execute_spec(s, Event::Push(v)).0;
            spec::op_spec(pushed, Opcode::Drop).0.stack == s.stack
        }),
{
    let pushed = spec::execute_spec(s, Event::Push(v)).0;
    assert(pushed.stack.drop_last() =~= s.stack);
}

/// The machine steps exactly when it is not idle.
pub proof fn law_idle_iff_no_step(s: VmView)
    ensures
        spec::step_spec(s).is_none() <==> spec::is_idle(s),
{
}

/// The bytes written by a step.
pub open spec fn step_bytes(r: StepView) -> Seq<u8> {
    match r.output {
        Some(b) => b,
        None => Seq::empty(),
    }
}

/// Output is append-only: a step adds exactly the bytes its record reports.
pub proof fn law_output_append_only(s: VmView)
    requires
        spec::step_spec(s).is_some(),
    ensures
        ({
            let (s2, r) = spec::step_spec(s).unwrap();
            s2.output == s.output + step_bytes(r)
        }),
{
    let (s2, r) = spec::step_spec(s).unwrap();
    if spec::replay_at_end(s) {
        assert(s.output + Seq::<u8>::empty() =~= s.output);
    } else {
        let (e, s1) = spec::next_event_spec(s);
        if s1.skip_depth > 0 {
            assert(s.output + Seq::<u8>::empty() =~= s.output);
        } else {
            match e {
                Event::Op(Opcode::LoopStart) => {
                    assert(s.output + Seq::<u8>::empty() =~= s.output);
                },
                Event::Op(Opcode::LoopEnd) => {
                    assert(s.output + Seq::<u8>::empty() =~= s.output);
                },
                Event::Push(_) => {
                    assert(s.output + Seq::<u8>::empty() =~= s.output);
                },
                Event::Op(op) => {
                    let s3 = VmView { loop_stack: spec::record_all(s1, e), ..s1 };
                    if op == Opcode::PrintChar && s3.stack.len() > 0 {
                        assert(s.output.push(spec::char_byte(s3.stack.last())) =~= s.output + seq![
                            spec::char_byte(s3.stack.last()),
                        ]);
                    } else if op == Opcode::PrintNum {
                    } else {
                        assert(s.output + Seq::<u8>::empty() =~= s.output);
                    }
                },
            }
        }
    }
}

/// Every step keeps the machine well formed: in particular loops never nest
/// deeper than `MAX_LOOP_DEPTH` and replay positions stay inside their buffers.
pub proof fn law_step_keeps_wf(s: VmView)
    requires
        spec::wf_spec(s),
        spec::step_spec(s).is_some(),
    ensures
        spec::wf_spec(spec::step_spec(s).unwrap().0),
{
    let (s2, r) = spec::step_spec(s).unwrap();
    if spec::replay_at_end(s) {
        let n = s.replay_stack.len() as int;
        assert forall|i: int| 0 <= i < s2.replay_stack.len() implies #[trigger] s2.replay_stack[i].position
            <= s2.replay_stack[i].buffer.len() by {
            if i != n - 1 {
                assert(s2.replay_stack[i] == s.replay_stack[i]);
            }
        }
    } else {
        let (e, s1) = spec::next_event_spec(s);
        assert(spec::wf_spec(s1)) by {
            if s.replay_stack.len() > 0 {
                let n = s.replay_stack.len() as int;
                assert forall|i: int| 0 <= i < s1.replay_stack.len() implies #[trigger] s1.replay_stack[i].position
                    <= s1.replay_stack[i].buffer.len() by {
                    if i != n - 1 {
                        assert(s1.replay_stack[i] == s.replay_stack[i]);
                    }
                }
            }
        }
        if s1.skip_depth > 0 {
        } else {
            match e {
                Event::Op(Opcode::LoopStart) => {},
                Event::Op(Opcode::LoopEnd) => {
                    if s1.loop_stack.len() > 0 {
                        let n = s1.replay_stack.len();
                        assert forall|i: int| 0 <= i < s2.replay_stack.len() implies #[trigger] s2.replay_stack[i].position
                            <= s2.replay_stack[i].buffer.len() by {
                            if i < n {
                                assert(s2.replay_stack[i] == s1.replay_stack[i]);
                            }
                        }
                    }
                },
                _ => {},
            }
        }
    }
}

/// While a loop body is being skipped, a step touches neither the stack, the memory,
/// the input nor the output.
pub proof fn law_skipped_events_have_no_effect(s: VmView)
    requires
        s.skip_depth > 0,
        !spec::replay_at_end(s),
        !spec::is_idle(s),
    ensures
        ({
            let s2 = spec::step_spec(s).unwrap().0;
            &&& s2.stack == s.stack
            &&& s2.memory == s.memory
            &&& s2.input == s.input
            &&& s2.output == s.output
        }),
{
}

/// `loop_start` only peeks: it never changes the stack, memory, input or output.
pub proof fn law_loop_start_peeks(s: VmView, e: Event)
    ensures
        ({
            let s2 = spec::loop_start_spec(s, e).0;
            &&& s2.stack == s.stack
            &&& s2.memory == s.memory
            &&& s2.output == s.output
            &&& s2.input == s.input
        }),
{
}

/// `loop_end` with an open loop pops exactly the top of the stack (nothing when empty).
pub proof fn law_loop_end_pops(s: VmView, e: Event)
    requires
        s.loop_stack.len() > 0,
    ensures
        spec::loop_end_spec(s, e).0.stack == spec::pop_one(s.stack),
{
}

/// On an idle machine outside any loop, feeding a push and stepping pushes the value.
pub proof fn law_feed_push_on_idle(s: VmView, v: i64)
    requires
        spec::is_idle(s),
        s.skip_depth == 0,
        s.loop_stack.len() == 0,
    ensures
        ({
            let (s2, r) = spec::step_spec(spec::feed_spec(s, Event::Push(v))).unwrap();
            &&& s2.stack == s.stack.push(v)
            &&& r.stack == s.stack.push(v)
            &&& r.operation == crate::vm::types::Operation::Pushed(v)
            &&& spec::is_idle(s2)
        }),
{
    let f = spec::feed_spec(s, Event::Push(v));
    assert(f.queue =~= seq![Event::Push(v)]);
    let (e, s1) = spec::next_event_spec(f);
    assert(s1.queue =~= Seq::<Event>::empty());
}

/// A store to a negative address changes no memory.
pub proof fn law_negative_store_is_noop(s: VmView)
    requires
        s.stack.len() >= 2,
        s.stack.last() < 0,
    ensures
        spec::op_spec(s, Opcode::Store).0.memory == s.memory,
{
}

/// A load from a negative address pushes zero in place of the address.
pub proof fn law_negative_load_reads_zero(s: VmView)
    requires
        s.stack.len() >= 1,
        s.stack.last() < 0,
    ensures
        spec::op_spec(s, Opcode::Load).0.stack == s.stack.drop_last().push(0),
{
}

proof fn lemma_feed_op(s: VmView, e: Event, op: Opcode)
    ensures
        ({
            let (a, out, ec) = spec::op_spec(s, op);
            spec::op_spec(spec::feed_spec(s, e), op) == (spec::feed_spec(a, e), out, ec)
        }),
{
}

proof fn lemma_feed_execute(s: VmView, e: Event, ev: Event)
    ensures
        ({
            let (a, r) = spec::execute_spec(s, ev);
            spec::execute_spec(spec::feed_spec(s, e), ev) == (spec::feed_spec(a, e), r)
        }),
{
    match ev {
        Event::Op(op) => lemma_feed_op(s, e, op),
        _ => {},
    }
}

proof fn lemma_feed_loops(s: VmView, e: Event, ev: Event)
    ensures
        ({
            let (a, r) = spec::loop_start_spec(s, ev);
            spec::loop_start_spec(spec::feed_spec(s, e), ev) == (spec::feed_spec(a, e), r)
        }),
        ({
            let (a, r) = spec::loop_end_spec(s, ev);
            spec::loop_end_spec(spec::feed_spec(s, e), ev) == (spec::feed_spec(a, e), r)
        }),
        ({
            let (a, r) = spec::skip_spec(s, ev);
            spec::skip_spec(spec::feed_spec(s, e), ev) == (spec::feed_spec(a, e), r)
        }),
        ({
            let (a, r) = spec::end_of_buffer_spec(s);
            spec::end_of_buffer_spec(spec::feed_spec(s, e)) == (spec::feed_spec(a, e), r)
        }),
        spec::record_all(spec::feed_spec(s, e), ev) == spec::record_all(s, ev),
{
}

/// Live input is queued during replay: an event fed while a loop replays does not change
/// the next step, it only waits at the back of the queue.
pub proof fn law_live_input_queued_during_replay(s: VmView, e: Event)
    requires
        s.replay_stack.len() > 0,
    ensures
        spec::step_spec(s) matches Some((s2, r)) && spec::step_spec(spec::feed_spec(s, e)) == Some(
            (spec::feed_spec(s2, e), r),
        ),
{
    let f = spec::feed_spec(s, e);
    if spec::replay_at_end(s) {
        lemma_feed_loops(s, e, e);
    } else {
        let (ev, s1) = spec::next_event_spec(s);
        assert(spec::next_event_spec(f) == (ev, spec::feed_spec(s1, e)));
        lemma_feed_loops(s1, e, ev);
        let s3 = VmView { loop_stack: spec::record_all(s1, ev), ..s1 };
        assert(VmView { loop_stack: spec::record_all(spec::feed_spec(s1, e), ev), ..spec::feed_spec(s1, e) }
            == spec::feed_spec(s3, e));
        lemma_feed_execute(s3, e, ev);
    }
}

/// Feeding an event to a busy machine changes nothing of its next step: the step is the
/// same, and the event waits at the back of the queue.
pub proof fn law_feed_waits_one_step(s: VmView, e: Event)
    requires
        !spec::is_idle(s),
    ensures
        spec::step_spec(s) matches Some((s2, r)) && spec::step_spec(spec::feed_spec(s, e)) == Some(
            (spec::feed_spec(s2, e), r),
        ),
{
    if s.replay_stack.len() > 0 {
        law_live_input_queued_during_replay(s, e);
    } else {
        let (ev, s1) = spec::next_event_spec(s);
        let f = spec::feed_spec(s, e);
        assert(f.queue.drop_first() =~= s.queue.drop_first().push(e));
        assert(spec::next_event_spec(f) == (ev, spec::feed_spec(s1, e)));
        lemma_feed_loops(s1, e, ev);
        let s3 = VmView { loop_stack: spec::record_all(s1, ev), ..s1 };
        assert(VmView { loop_stack: spec::record_all(spec::feed_spec(s1, e), ev), ..spec::feed_spec(s1, e) }
            == spec::feed_spec(s3, e));
        lemma_feed_execute(s3, e, ev);
    }
}

/// Live input is never interleaved: while the machine still has `n` steps of earlier work
/// (queued events and replays) to do, an event fed now changes none of those steps; it
/// is still waiting at the back of the queue after them.
pub proof fn law_fed_event_waits_for_pending_work(s: VmView, e: Event, n: nat)
    requires
        spec::run_spec(s, n).0.len() == n,
    ensures
        spec::run_spec(spec::feed_spec(s, e), n) == (
            spec::run_spec(s, n).0,
            spec::feed_spec(spec::run_spec(s, n).1, e),
        ),
    decreases n,
{
    if n > 0 {
        assert(spec::step_spec(s) is Some);
        law_feed_waits_one_step(s, e);
        let (s2, r) = spec::step_spec(s).unwrap();
        let rest = spec::run_spec(s2, (n - 1) as nat);
        assert(spec::run_spec(s, n) == (seq![r] + rest.0, rest.1));
        assert(rest.0.len() == n - 1);
        law_fed_event_waits_for_pending_work(s2, e, (n - 1) as nat);
    }
}

/// On an idle machine a fed event is the very next one to run.
pub proof fn law_idle_machine_runs_fed_event(s: VmView, e: Event)
    requires
        spec::is_idle(s),
    ensures
        spec::step_spec(spec::feed_spec(s, e)) matches Some((_, r)) && r.event == e,
{
    let f = spec::feed_spec(s, e);
    assert(f.queue =~= seq![e]);
}

/// Events run in the order they were fed: once the earlier work of `m` steps is done, the
/// next step runs the event fed behind it.
pub proof fn law_fed_event_runs_after_pending_work(s: VmView, e: Event, m: nat)
    requires
        spec::run_spec(s, m).0.len() == m,
        spec::is_idle(spec::run_spec(s, m).1),
    ensures
        ({
            let run = spec::run_spec(spec::feed_spec(s, e), m + 1).0;
            &&& run.len() == m + 1
            &&& run.subrange(0, m as int) == spec::run_spec(s, m).0
            &&& run[m as int].event == e
        }),
{
    let f = spec::feed_spec(s, e);
    law_fed_event_waits_for_pending_work(s, e, m);
    law_idle_machine_runs_fed_event(spec::run_spec(s, m).1, e);
    crate::vm::machine::lemma_run_snoc(f, m);
    assert(spec::run_spec(f, m + 1).0.subrange(0, m as int) =~= spec::run_spec(s, m).0);
}

/// Running an event fed to an idle machine starts with that event.
pub proof fn law_run_starts_with_fed_event(s: VmView, e: Event, n: nat)
    requires
        spec::is_idle(s),
        n >= 1,
    ensures
        spec::run_spec(spec::feed_spec(s, e), n).0.len() >= 1,
        spec::run_spec(spec::feed_spec(s, e), n).0[0].event == e,
{
    law_idle_machine_runs_fed_event(s, e);
}

/// Once a run reaches an idle machine it stops: running for longer changes nothing.
pub proof fn law_run_stops_when_idle(s: VmView, m: nat, n: nat)
    requires
        m <= n,
        spec::is_idle(spec::run_spec(s, m).1),
    ensures
        spec::run_spec(s, n) == spec::run_spec(s, m),
    decreases m,
{
    if m > 0 {
        match spec::step_spec(s) {
            None => {},
            Some((s1, r)) => {
                law_run_stops_when_idle(s1, (m - 1) as nat, (n - 1) as nat);
            },
        }
    }
}

/// One step is a run of length one.
pub proof fn lemma_step_is_run_of_one(s: VmView)
    ensures
        match spec::step_spec(s) {
            None => spec::run_spec(s, 1) == (Seq::<StepView>::empty(), s),
            Some((s2, r)) => spec::run_spec(s, 1) == (seq![r], s2),
        },
{
    match spec::step_spec(s) {
        None => {},
        Some((s2, r)) => {
            assert(spec::run_spec(s2, 0).0 =~= Seq::<StepView>::empty());
            assert(seq![r] + Seq::<StepView>::empty() =~= seq![r]);
        },
    }
}

/// The bytes reported by a sequence of step records, in order.
pub open spec fn reported_bytes(rs: Seq<StepView>) -> Seq<u8>
    decreases rs.len(),
{
    if rs.len() == 0 {
        Seq::empty()
    } else {
        reported_bytes(rs.drop_last()) + step_bytes(rs.last())
    }
}

proof fn lemma_reported_bytes_concat(a: Seq<StepView>, b: Seq<StepView>)
    ensures
        reported_bytes(a + b) == reported_bytes(a) + reported_bytes(b),
    decreases b.len(),
{
    if b.len() == 0 {
        assert(a + b =~= a);
        assert(reported_bytes(a) + Seq::<u8>::empty() =~= reported_bytes(a));
    } else {
        assert((a + b).drop_last() =~= a + b.drop_last());
        assert((a + b).last() == b.last());
        lemma_reported_bytes_concat(a, b.drop_last());
        assert(reported_bytes(a) + reported_bytes(b.drop_last()) + step_bytes(b.last())
            =~= reported_bytes(a) + (reported_bytes(b.drop_last()) + step_bytes(b.last())));
    }
}

proof fn lemma_reported_bytes_cons(r: StepView, rs: Seq<StepView>)
    ensures
        reported_bytes(seq![r] + rs) == step_bytes(r) + reported_bytes(rs),
{
    lemma_reported_bytes_concat(seq![r], rs);
    assert(seq![r].drop_last() =~= Seq::<StepView>::empty());
    assert(seq![r].last() == r);
    assert(reported_bytes(Seq::<StepView>::empty()) == Seq::<u8>::empty());
    assert(reported_bytes(seq![r]) == reported_bytes(seq![r].drop_last()) + step_bytes(r));
    assert(Seq::<u8>::empty() + step_bytes(r) =~= step_bytes(r));
}

/// Output is the history of the steps: running any number of steps adds to the output
/// exactly the bytes that the returned records report, in order.
pub proof fn law_run_output(s: VmView, n: nat)
    ensures
        spec::run_spec(s, n).1.output == s.output + reported_bytes(spec::run_spec(s, n).0),
    decreases n,
{
    if n == 0 {
        assert(s.output + Seq::<u8>::empty() =~= s.output);
    } else {
        match spec::step_spec(s) {
            None => {
                assert(s.output + Seq::<u8>::empty() =~= s.output);
            },
            Some((s1, r)) => {
                law_output_append_only(s);
                law_run_output(s1, (n - 1) as nat);
                let rest = spec::run_spec(s1, (n - 1) as nat);
                lemma_reported_bytes_cons(r, rest.0);
                assert(s.output + step_bytes(r) + reported_bytes(rest.0) =~= s.output + (step_bytes(r)
                    + reported_bytes(rest.0)));
            },
        }
    }
}

/// Only `step` and `process_event` write output, and they add exactly the bytes their
/// returned records report; feeding, providing input and closing leave it as it is.
pub proof fn law_call_output(s: VmView, c: spec::VmCall)
    ensures
        spec::call_spec(s, c).1.output == s.output + reported_bytes(spec::call_spec(s, c).0),
{
    match c {
        spec::VmCall::Step => {
            law_run_output(s, 1);
        },
        spec::VmCall::ProcessEvent(e) => {
            law_run_output(spec::feed_spec(s, e), usize::MAX as nat);
        },
        _ => {
            assert(s.output + Seq::<u8>::empty() =~= s.output);
        },
    }
}

/// After any sequence of calls, the output has grown by exactly the bytes of every
/// returned step record, in the order the records were returned.
pub proof fn law_session_output(s: VmView, calls: Seq<spec::VmCall>)
    ensures
        spec::session_spec(s, calls).1.output == s.output + reported_bytes(
            spec::session_spec(s, calls).0,
        ),
    decreases calls.len(),
{
    if calls.len() == 0 {
        assert(s.output + Seq::<u8>::empty() =~= s.output);
    } else {
        let (rs, s1) = spec::session_spec(s, calls.drop_last());
        let (rs2, s2) = spec::call_spec(s1, calls.last());
        law_session_output(s, calls.drop_last());
        law_call_output(s1, calls.last());
        lemma_reported_bytes_concat(rs, rs2);
        assert(s.output + reported_bytes(rs) + reported_bytes(rs2) =~= s.output + (reported_bytes(rs)
            + reported_bytes(rs2)));
    }
}

/// The whole output of a machine is everything its step records reported: after any
/// sequence of calls on a new machine, the output is the concatenation, in order, of the
/// bytes of every record that `step` and `process_event` returned.
pub proof fn law_output_history(calls: Seq<spec::VmCall>)
    ensures
        spec::session_spec(spec::initial_spec(), calls).1.output == reported_bytes(
            spec::session_spec(spec::initial_spec(), calls).0,
        ),
{
    law_session_output(spec::initial_spec(), calls);
    assert(Seq::<u8>::empty() + reported_bytes(spec::session_spec(spec::initial_spec(), calls).0)
        =~= reported_bytes(spec::session_spec(spec::initial_spec(), calls).0));
}

/// The machine after feeding opcode `op` to it and taking one step.
pub open spec fn state_after_op(s: VmView, op: Opcode) -> VmView {
    spec::step_spec(spec::feed_spec(s, Event::Op(op))).unwrap().0
}

/// The stack after feeding opcode `op` to a machine and taking one step.
pub open spec fn stack_after_op(s: VmView, op: Opcode) -> Seq<i64> {
    state_after_op(s, op).stack
}

proof fn lemma_op_on_plain_machine(s: VmView, op: Opcode)
    requires
        spec::is_idle(s),
        s.skip_depth == 0,
        s.loop_stack.len() == 0,
        op != Opcode::LoopStart,
        op != Opcode::LoopEnd,
    ensures
        state_after_op(s, op) == spec::op_spec(VmView { queue: Seq::empty(), ..s }, op).0,
{
    let f = spec::feed_spec(s, Event::Op(op));
    assert(f.queue =~= seq![Event::Op(op)]);
    let (e, s1) = spec::next_event_spec(f);
    assert(s1.queue =~= Seq::<Event>::empty());
    assert(spec::record_all(s1, e) =~= s1.loop_stack);
    assert(VmView { loop_stack: spec::record_all(s1, e), ..s1 } == VmView { queue: Seq::empty(), ..s });
}

proof fn lemma_pop_two(st: Seq<i64>, a: i64, b: i64)
    ensures
        spec::pop_two_spec(st.push(a).push(b)) == (a, b, st, Option::<crate::vm::types::EdgeCase>::None),
{
    assert(st.push(a).push(b).subrange(0, st.len() as int) =~= st);
}

proof fn lemma_trunc_div_rem(x: int, d: int)
    requires
        d != 0,
    ensures
        spec::trunc_div(x, d) * d + spec::trunc_rem(x, d) == x,
        d > 0 ==> -d < spec::trunc_rem(x, d) < d,
        d < 0 ==> d < spec::trunc_rem(x, d) < -d,
        spec::trunc_rem(x, d) == 0 || (spec::trunc_rem(x, d) > 0) == (x > 0),
        x >= 0 ==> -x <= spec::trunc_div(x, d) <= x,
        x < 0 ==> x <= spec::trunc_div(x, d) <= -x,
        d == 1 ==> spec::trunc_div(x, d) == x,
        d == -1 ==> spec::trunc_div(x, d) == -x,
        (d > 1 || d < -1) && x > 0 ==> -x < spec::trunc_div(x, d) < x,
        (d > 1 || d < -1) && x < 0 ==> x < spec::trunc_div(x, d) < -x,
{
    let n = if x >= 0 { x } else { -x };
    let m = if d > 0 { d } else { -d };
    vstd::arithmetic::div_mod::lemma_fundamental_div_mod(n, m);
    vstd::arithmetic::div_mod::lemma_mod_pos_bound(n, m);
    vstd::arithmetic::div_mod::lemma_div_nonincreasing(n, m);
    vstd::arithmetic::div_mod::lemma_div_pos_is_pos(n, m);
    if m > 1 && n > 0 {
        vstd::arithmetic::div_mod::lemma_div_decreases(n, m);
    }
    if m == 1 {
        assert(n / 1 == n) by (nonlinear_arith);
    }
    let q = n / m;
    let r = n % m;
    assert(m * q == q * m) by (nonlinear_arith);
    assert(q * d == if d > 0 { q * m } else { -(q * m) }) by (nonlinear_arith)
        requires
            m == if d > 0 { d } else { -d },
    ;
    assert((-q) * d == -(q * d)) by (nonlinear_arith);
}

/// The arithmetic and comparison opcodes on a machine outside any loop, with `a` below
/// `b` on top of the stack: comparisons push 1 when the relation holds between `a` and
/// `b` and 0 otherwise; `add`, `sub` and `mul` push the exact result when it fits in 64
/// bits (`add` and `sub` wrap by 2^64 when it does not); `div` and `mod` truncate toward
/// zero, the remainder taking the sign of `a`, and give 0 for a zero divisor; `drop`,
/// `dup` and `swap` act on the top.
pub proof fn law_opcodes_on_two_values(s: VmView, st: Seq<i64>, a: i64, b: i64)
    requires
        spec::is_idle(s),
        s.skip_depth == 0,
        s.loop_stack.len() == 0,
        s.stack == st.push(a).push(b),
    ensures
        stack_after_op(s, Opcode::Lt) == st.push(if a < b { 1 } else { 0 }),
        stack_after_op(s, Opcode::Gt) == st.push(if a > b { 1 } else { 0 }),
        stack_after_op(s, Opcode::Eq) == st.push(if a == b { 1 } else { 0 }),
        i64::MIN <= a + b <= i64::MAX ==> stack_after_op(s, Opcode::Add) == st.push((a + b) as i64),
        a + b > i64::MAX ==> stack_after_op(s, Opcode::Add) == st.push(
            (a + b - 0x1_0000_0000_0000_0000) as i64,
        ),
        a + b < i64::MIN ==> stack_after_op(s, Opcode::Add) == st.push(
            (a + b + 0x1_0000_0000_0000_0000) as i64,
        ),
        i64::MIN <= a - b <= i64::MAX ==> stack_after_op(s, Opcode::Sub) == st.push((a - b) as i64),
        a - b > i64::MAX ==> stack_after_op(s, Opcode::Sub) == st.push(
            (a - b - 0x1_0000_0000_0000_0000) as i64,
        ),
        a - b < i64::MIN ==> stack_after_op(s, Opcode::Sub) == st.push(
            (a - b + 0x1_0000_0000_0000_0000) as i64,
        ),
        b == 0 ==> stack_after_op(s, Opcode::Div) == st.push(0) && stack_after_op(s, Opcode::Mod)
            == st.push(0),
        b != 0 && !(a == i64::MIN && b == -1) ==> ({
            let q = stack_after_op(s, Opcode::Div);
            let r = stack_after_op(s, Opcode::Mod);
            &&& q.len() == st.len() + 1 && q.subrange(0, st.len() as int) == st
            &&& r.len() == st.len() + 1 && r.subrange(0, st.len() as int) == st
            &&& q.last() * b + r.last() == a
            &&& (b > 0 ==> -b < r.last() < b)
            &&& (b < 0 ==> b < r.last() < -b)
            &&& (r.last() == 0 || (r.last() > 0) == (a > 0))
        }),
        i64::MIN <= a * b <= i64::MAX ==> stack_after_op(s, Opcode::Mul) == st.push((a * b) as i64),
        stack_after_op(s, Opcode::Drop) == st.push(a),
        stack_after_op(s, Opcode::Dup) == st.push(a).push(b).push(b),
        stack_after_op(s, Opcode::Swap) == st.push(b).push(a),
{
    lemma_pop_two(st, a, b);
    lemma_op_on_plain_machine(s, Opcode::Lt);
    lemma_op_on_plain_machine(s, Opcode::Gt);
    lemma_op_on_plain_machine(s, Opcode::Eq);
    lemma_op_on_plain_machine(s, Opcode::Add);
    lemma_op_on_plain_machine(s, Opcode::Sub);
    lemma_op_on_plain_machine(s, Opcode::Div);
    lemma_op_on_plain_machine(s, Opcode::Mod);
    lemma_op_on_plain_machine(s, Opcode::Mul);
    lemma_op_on_plain_machine(s, Opcode::Drop);
    lemma_op_on_plain_machine(s, Opcode::Dup);
    lemma_op_on_plain_machine(s, Opcode::Swap);
    assert(spec::pop_one(st.push(a).push(b)) =~= st.push(a));
    assert(st.push(a).push(b).update(st.len() + 1 as int, a).update(st.len() as int, b) =~= st.push(b).push(a));
    if i64::MIN <= a * b <= i64::MAX {
        let p: int = a * b;
        if p >= 0 {
            vstd::arithmetic::div_mod::lemma_small_mod(p as nat, 0x1_0000_0000_0000_0000nat);
        } else {
            vstd::arithmetic::div_mod::lemma_fundamental_div_mod_converse_mod(
                p,
                0x1_0000_0000_0000_0000int,
                -1,
                p + 0x1_0000_0000_0000_0000int,
            );
        }
        assert(spec::wrap_mul(a, b) == p);
    }
    if b != 0 && !(a == i64::MIN && b == -1) {
        lemma_trunc_div_rem(a as int, b as int);
        let qi = spec::trunc_div(a as int, b as int);
        let ri = spec::trunc_rem(a as int, b as int);
        assert(i64::MIN <= qi <= i64::MAX);
        assert(i64::MIN <= ri <= i64::MAX);
        assert(spec::wrap_div(a, b) == qi);
        assert(spec::wrap_rem(a, b) == ri);
        let q = stack_after_op(s, Opcode::Div);
        let r = stack_after_op(s, Opcode::Mod);
        assert(q.subrange(0, st.len() as int) =~= st);
        assert(r.subrange(0, st.len() as int) =~= st);
    }
}

/// The opcodes that work on the top value, on a machine outside any loop with `v` on top
/// of the stack: `print_char` takes `v` off and writes the byte equal to `v` modulo 256;
/// `print_num` takes it off; `read` pushes the next input byte and consumes it, or pushes
/// 0 when the input is used up; `load` replaces a non-negative address by the value stored
/// there (0 when nothing is); `drop` removes `v`; `dup` doubles it.
pub proof fn law_opcodes_on_one_value(s: VmView, st: Seq<i64>, v: i64)
    requires
        spec::is_idle(s),
        s.skip_depth == 0,
        s.loop_stack.len() == 0,
        s.stack == st.push(v),
    ensures
        ({
            let p = state_after_op(s, Opcode::PrintChar);
            &&& p.stack == st
            &&& p.output.len() == s.output.len() + 1
            &&& p.output.subrange(0, s.output.len() as int) == s.output
            &&& (p.output.last() as int - v as int) % 256 == 0
            &&& p.memory == s.memory && p.input == s.input
        }),
        state_after_op(s, Opcode::PrintNum).stack == st,
        s.input.len() > 0 ==> state_after_op(s, Opcode::Read).stack == st.push(v).push(s.input[0] as i64)
            && state_after_op(s, Opcode::Read).input == s.input.subrange(1, s.input.len() as int),
        s.input.len() == 0 ==> state_after_op(s, Opcode::Read).stack == st.push(v).push(0),
        v >= 0 ==> stack_after_op(s, Opcode::Load) == st.push(
            if s.memory.dom().contains(v) { s.memory[v] } else { 0 },
        ),
        v < 0 ==> stack_after_op(s, Opcode::Load) == st.push(0),
        stack_after_op(s, Opcode::Drop) == st,
        stack_after_op(s, Opcode::Dup) == st.push(v).push(v),
{
    lemma_op_on_plain_machine(s, Opcode::PrintChar);
    lemma_op_on_plain_machine(s, Opcode::PrintNum);
    lemma_op_on_plain_machine(s, Opcode::Read);
    lemma_op_on_plain_machine(s, Opcode::Load);
    lemma_op_on_plain_machine(s, Opcode::Drop);
    lemma_op_on_plain_machine(s, Opcode::Dup);
    assert(st.push(v).drop_last() =~= st);
    assert(spec::pop_one(st.push(v)) =~= st);
    let p = state_after_op(s, Opcode::PrintChar);
    assert(p.output.subrange(0, s.output.len() as int) =~= s.output);
    let b = spec::char_byte(v);
    assert((b as int - v as int) % 256 == 0) by {
        let r = (v as int) % 256;
        vstd::arithmetic::div_mod::lemma_fundamental_div_mod(v as int, 256);
        vstd::arithmetic::div_mod::lemma_mod_bound(v as int, 256);
        assert(b as int == r);
        vstd::arithmetic::div_mod::lemma_fundamental_div_mod_converse_mod(
            r - v as int,
            256,
            -((v as int) / 256),
            0,
        );
    }
    if s.input.len() > 0 {
        assert(s.input.drop_first() =~= s.input.subrange(1, s.input.len() as int));
    }
}

/// `rotate` brings the third value from the top up to the top: `x y z` becomes `y z x`.
pub proof fn law_rotate(s: VmView, st: Seq<i64>, x: i64, y: i64, z: i64)
    requires
        spec::is_idle(s),
        s.skip_depth == 0,
        s.loop_stack.len() == 0,
        s.stack == st.push(x).push(y).push(z),
    ensures
        stack_after_op(s, Opcode::Rotate) == st.push(y).push(z).push(x),
{
    lemma_op_on_plain_machine(s, Opcode::Rotate);
    assert(st.push(x).push(y).push(z).remove(st.len() as int) =~= st.push(y).push(z));
}

/// `loop_start` decides on the top of the stack, which it leaves in place: a zero top (or
/// an empty stack) skips the body, so the machine skips one loop level and opens no
/// recording; any other value, negative ones included, opens a new recording below the
/// nesting limit.
pub proof fn law_loop_start_decides(s: VmView, e: Event)
    requires
        s.skip_depth == 0,
    ensures
        ({
            let s2 = spec::loop_start_spec(s, e).0;
            let top: int = if s.stack.len() > 0 { s.stack.last() as int } else { 0 };
            &&& top == 0 ==> s2.skip_depth == 1 && s2.loop_stack.len() == s.loop_stack.len()
            &&& top != 0 && s.loop_stack.len() < spec::MAX_LOOP_DEPTH ==> s2.skip_depth == 0
                && s2.loop_stack.len() == s.loop_stack.len() + 1 && s2.loop_stack.last() == Seq::<
                Event,
            >::empty() && s2.loop_state == crate::vm::types::LoopState::Recording
        }),
{
}

/// `loop_end` of an open loop decides on the value it pops: any nonzero value, negative
/// ones included, starts replaying the body recorded since the loop began, from its first
/// event; zero ends the loop without a replay. Either way the loop's recording closes.
pub proof fn law_loop_end_decides(s: VmView, e: Event)
    requires
        s.loop_stack.len() > 0,
        s.replay_stack.len() == 0,
    ensures
        ({
            let s2 = spec::loop_end_spec(s, e).0;
            let top: int = if s.stack.len() > 0 { s.stack.last() as int } else { 0 };
            &&& s2.loop_stack.len() == s.loop_stack.len() - 1
            &&& top != 0 ==> s2.replay_stack.len() == 1 && s2.replay_stack[0].buffer
                == s.loop_stack.last() && s2.replay_stack[0].position == 0
            &&& top == 0 ==> s2.replay_stack.len() == 0
        }),
{
    let n = s.loop_stack.len() as int;
    spec::lemma_record_range_index(s.loop_stack, spec::recording_base_spec(s), n - 1, e, n - 1);
}

/// At the end of a replayed body the machine pops a value: nonzero replays the body again
/// from its first event, zero leaves the replay.
pub proof fn law_end_of_body_decides(s: VmView)
    requires
        s.replay_stack.len() > 0,
    ensures
        ({
            let s2 = spec::end_of_buffer_spec(s).0;
            let r = s.replay_stack.len() as int;
            let top: int = if s.stack.len() > 0 { s.stack.last() as int } else { 0 };
            &&& s2.stack == spec::pop_one(s.stack)
            &&& top != 0 ==> s2.replay_stack.len() == r && s2.replay_stack[r - 1].position == 0
                && s2.replay_stack[r - 1].buffer == s.replay_stack[r - 1].buffer
            &&& top == 0 ==> s2.replay_stack == s.replay_stack.drop_last()
        }),
{
}

} // verus!
