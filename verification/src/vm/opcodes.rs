use vstd::prelude::*;

use crate::text::i64_to_decimal;
use crate::vm::machine;
use crate::vm::machine::HaydnVm;
use crate::vm::spec;
use crate::vm::spec::{VmView, MAX_LOOP_DEPTH};
use crate::vm::types::{Opcode, Event, EdgeCase, Operation, StepResult, StepView, LoopState, LoopFrame, ReplayFrame, ReplayView};

verus! {

broadcast use vstd::std_specs::hash::group_hash_axioms;

/// Pops the operands `(a, b)` of a binary opcode, `b` being the top;
/// missing operands read as 0 and are reported.
pub(crate) fn pop_two(stack: &mut Vec<i64>) -> (r: (i64, i64, Option<EdgeCase>))
    ensures
        (r.0, r.1, final(stack)@, r.2) == spec::pop_two_spec(old(stack)@),
{
    let n = stack.len();
    if n == 0 {
        (0, 0, Some(EdgeCase::EmptyStackDefault))
    } else if n == 1 {
        let b = stack[0];
        stack.pop();
        proof {
            assert(stack@ =~= Seq::<i64>::empty());
        }
        (0, b, Some(EdgeCase::StackUnderflow))
    } else {
        let b = stack[n - 1];
        let a = stack[n - 2];
        stack.pop();
        stack.pop();
        proof {
            assert(stack@ =~= old(stack)@.subrange(0, n - 2));
        }
        (a, b, None)
    }
}

/// Truncating division that wraps on `i64::MIN / -1`.
pub(crate) fn wrapping_div_i64(a: i64, b: i64) -> (r: i64)
    requires
        b != 0,
    ensures
        r == spec::wrap_div(a, b),
{
    match a.checked_div(b) {
        Some(q) => q,
        None => {
            proof {
                lemma_div_overflow(a, b);
            }
            i64::MIN
        },
    }
}

/// Remainder that is 0 on `i64::MIN % -1`.
pub(crate) fn wrapping_rem_i64(a: i64, b: i64) -> (r: i64)
    requires
        b != 0,
    ensures
        r == spec::wrap_rem(a, b),
{
    match a.checked_rem(b) {
        Some(q) => q,
        None => 0,
    }
}

/// The only overflowing truncating division is `i64::MIN / -1`.
proof fn lemma_div_overflow(a: i64, b: i64)
    requires
        b != 0,
        !(i64::MIN <= spec::trunc_div(a as int, b as int) <= i64::MAX),
    ensures
        a == i64::MIN && b == -1,
{
    let x = a as int;
    let d = b as int;
    if x > 0 && d > 0 {
        assert(0 <= x / d <= x) by (nonlinear_arith)
            requires
                x > 0,
                d > 0,
        ;
    } else if x < 0 && d < 0 {
        assert(0 <= (-x) / (-d) <= -x) by (nonlinear_arith)
            requires
                x < 0,
                d < 0,
        ;
        if (-x) / (-d) == -x {
            assert(d == -1) by (nonlinear_arith)
                requires
                    x < 0,
                    d < 0,
                    (-x) / (-d) == -x,
            ;
        }
    } else if x < 0 {
        assert(0 <= (-x) / d <= -x) by (nonlinear_arith)
            requires
                x < 0,
                d > 0,
        ;
    } else if x > 0 {
        assert(0 <= x / (-d) <= x) by (nonlinear_arith)
            requires
                x > 0,
                d < 0,
        ;
    }
}

/// The byte `print_char` writes: the value modulo 256.
pub(crate) fn char_byte_of(v: i64) -> (r: u8)
    ensures
        r == spec::char_byte(v),
{
    match v.checked_rem_euclid(256) {
        Some(m) => m as u8,
        None => 0,
    }
}

/// Runs one opcode other than the two loop opcodes.
pub(crate) fn execute_opcode(vm: &mut HaydnVm, opcode: Opcode) -> (r: (
    Operation,
    Option<Vec<u8>>,
    Option<EdgeCase>,
))
    requires
        opcode != Opcode::LoopStart,
        opcode != Opcode::LoopEnd,
    ensures
        r.0 == Operation::Executed(opcode),
        final(vm)@ == spec::op_spec(old(vm)@, opcode).0,
        crate::vm::types::opt_bytes_view(r.1) == spec::op_spec(old(vm)@, opcode).1,
        r.2 == spec::op_spec(old(vm)@, opcode).2,
{
    let ghost s = vm@;
    match opcode {
        Opcode::Dup => {
            let n = vm.stack.len();
            if n > 0 {
                let v = vm.stack[n - 1];
                vm.stack.push(v);
                (Operation::Executed(Opcode::Dup), None, None)
            } else {
                vm.stack.push(0);
                (Operation::Executed(Opcode::Dup), None, Some(EdgeCase::EmptyStackDefault))
            }
        },
        Opcode::Swap => {
            let n = vm.stack.len();
            if n >= 2 {
                let x = vm.stack[n - 1];
                let y = vm.stack[n - 2];
                vm.stack[n - 1] = y;
                vm.stack[n - 2] = x;
                proof {
                    assert(vm.stack@ =~= s.stack.update(n - 1, s.stack[n - 2]).update(
                        n - 2,
                        s.stack[n - 1],
                    ));
                }
            }
            (Operation::Executed(Opcode::Swap), None, None)
        },
        Opcode::Drop => {
            vm.stack.pop();
            (Operation::Executed(Opcode::Drop), None, None)
        },
        Opcode::Rotate => {
            let n = vm.stack.len();
            if n >= 3 {
                let third = vm.stack.remove(n - 3);
                vm.stack.push(third);
            }
            (Operation::Executed(Opcode::Rotate), None, None)
        },
        Opcode::Add => {
            let (a, b, edge) = pop_two(&mut vm.stack);
            vm.stack.push(a.wrapping_add(b));
            (Operation::Executed(Opcode::Add), None, edge)
        },
        Opcode::Sub => {
            let (a, b, edge) = pop_two(&mut vm.stack);
            vm.stack.push(a.wrapping_sub(b));
            (Operation::Executed(Opcode::Sub), None, edge)
        },
        Opcode::Mul => {
            let (a, b, edge) = pop_two(&mut vm.stack);
            vm.stack.push(a.wrapping_mul(b));
            (Operation::Executed(Opcode::Mul), None, edge)
        },
        Opcode::Div => {
            let (a, b, edge) = pop_two(&mut vm.stack);
            if b == 0 {
                vm.stack.push(0);
                (Operation::Executed(Opcode::Div), None, Some(EdgeCase::DivisionByZero))
            } else {
                vm.stack.push(wrapping_div_i64(a, b));
                (Operation::Executed(Opcode::Div), None, edge)
            }
        },
        Opcode::Mod => {
            let (a, b, edge) = pop_two(&mut vm.stack);
            if b == 0 {
                vm.stack.push(0);
                (Operation::Executed(Opcode::Mod), None, Some(EdgeCase::ModuloByZero))
            } else {
                vm.stack.push(wrapping_rem_i64(a, b));
                (Operation::Executed(Opcode::Mod), None, edge)
            }
        },
        Opcode::Eq => {
            let (a, b, edge) = pop_two(&mut vm.stack);
            vm.stack.push(
                if a == b {
                    1
                } else {
                    0
                },
            );
            (Operation::Executed(Opcode::Eq), None, edge)
        },
        Opcode::Gt => {
            let (a, b, edge) = pop_two(&mut vm.stack);
            vm.stack.push(
                if a > b {
                    1
                } else {
                    0
                },
            );
            (Operation::Executed(Opcode::Gt), None, edge)
        },
        Opcode::Lt => {
            let (a, b, edge) = pop_two(&mut vm.stack);
            vm.stack.push(
                if a < b {
                    1
                } else {
                    0
                },
            );
            (Operation::Executed(Opcode::Lt), None, edge)
        },
        Opcode::Store => {
            let (val, addr, edge) = pop_two(&mut vm.stack);
            if addr < 0 {
                (Operation::Executed(Opcode::Store), None, Some(EdgeCase::NegativeAddress))
            } else {
                if val == 0 {
                    vm.memory.remove(&addr);
                } else {
                    vm.memory.insert(addr, val);
                }
                (Operation::Executed(Opcode::Store), None, edge)
            }
        },
        Opcode::Load => {
            let (addr, edge) = match vm.stack.pop() {
                Some(a) => (a, None),
                None => (0, Some(EdgeCase::EmptyStackDefault)),
            };
            if addr < 0 {
                vm.stack.push(0);
                (Operation::Executed(Opcode::Load), None, Some(EdgeCase::NegativeAddress))
            } else {
                let val = match vm.memory.get(&addr) {
                    Some(v) => *v,
                    None => 0,
                };
                vm.stack.push(val);
                (Operation::Executed(Opcode::Load), None, edge)
            }
        },
        Opcode::PrintNum => {
            let val = match vm.stack.pop() {
                Some(v) => v,
                None => 0,
            };
            let bytes = i64_to_decimal(val);
            let mut i: usize = 0;
            let ghost out0 = vm.output_buffer@;
            while i < bytes.len()
                invariant
                    i <= bytes.len(),
                    vm.output_buffer@ == out0 + bytes@.subrange(0, i as int),
                    vm.stack@ == spec::pop_one(s.stack),
                    vm.memory@ == s.memory,
                    vm.loop_state == s.loop_state,
                    machine::frames_view(vm.loop_stack@) == s.loop_stack,
                    machine::replays_view(vm.replay_stack@) == s.replay_stack,
                    vm.input_buffer@ == s.input,
                    vm.event_queue@ == s.queue,
                    vm.skip_depth == s.skip_depth,
                    out0 == s.output,
                decreases bytes.len() - i,
            {
                proof {
                    assert(out0 + bytes@.subrange(0, i + 1) =~= (out0 + bytes@.subrange(
                        0,
                        i as int,
                    )).push(bytes@[i as int]));
                }
                vm.output_buffer.push(bytes[i]);
                i = i + 1;
            }
            proof {
                assert(bytes@.subrange(0, i as int) =~= bytes@);
            }
            (Operation::Executed(Opcode::PrintNum), Some(bytes), None)
        },
        Opcode::PrintChar => {
            match vm.stack.pop() {
                Some(val) => {
                    let byte = char_byte_of(val);
                    vm.output_buffer.push(byte);
                    let mut out: Vec<u8> = Vec::new();
                    out.push(byte);
                    proof {
                        assert(out@ =~= seq![byte]);
                    }
                    (Operation::Executed(Opcode::PrintChar), Some(out), None)
                },
                None => (Operation::Executed(Opcode::PrintChar), None, None),
            }
        },
        Opcode::Read => {
            let val: i64 = match vm.input_buffer.pop_front() {
                Some(b) => b as i64,
                None => 0,
            };
            vm.stack.push(val);
            (Operation::Executed(Opcode::Read), None, None)
        },
        Opcode::LoopStart | Opcode::LoopEnd => (Operation::Noop, None, None),
    }
}

impl HaydnVm {
    /// Executes an event that is not a loop opcode.
    pub(crate) fn execute_event(&mut self, event: Event) -> (r: StepResult)
        ensures
            final(self)@ == spec::execute_spec(old(self)@, event).0,
            r@ == spec::execute_spec(old(self)@, event).1,
    {
        match event {
            Event::Push(value) => {
                self.stack.push(value);
                self.make_result(event, Operation::Pushed(value), None, None)
            },
            Event::Op(Opcode::LoopStart) | Event::Op(Opcode::LoopEnd) => {
                self.make_result(event, Operation::Noop, None, None)
            },
            Event::Op(opcode) => {
                let (operation, output, edge_case) = execute_opcode(self, opcode);
                self.make_result(event, operation, output, edge_case)
            },
        }
    }
}

} // verus!
