//! The virtual machine: sequential decode-dispatch-execute over a flat byte
//! buffer, against a fixed-capacity operand stack and a fixed-capacity
//! control stack of signed 32-bit integers.
//!
//! The meaning of execution is given by a small-step machine over
//! [`MachineState`]: [`spec_step`] is one instruction, [`spec_run`] iterates
//! it under a fuel bound. [`Vm::execute`] is proved to return exactly what
//! some finite number of those steps yields.

use crate::inst::Inst;
use crate::int32::{div_wrap, mod_wrap, read_i32_le, spec_i32_from_le_bytes, vm_div, vm_mod};
use vstd::pervasive::VecAdditionalExecFns;
use vstd::prelude::*;
use vstd::wrapping::i32_specs;

verus! {

/// The ways execution can fail. Each is a precise, distinguishable
/// condition; any of them stops the dispatch loop at once.
#[derive(Clone, Copy, Debug, PartialEq, Eq, Structural)]
pub enum VmError {
    /// A byte decoded to no known instruction.
    InvalidOpcode,
    /// The end of the program was hit while reading an operand.
    UnexpectedProgramEnd,
    /// The operand stack would have grown past its capacity.
    StackOverflow,
    /// The operand stack held fewer values than the instruction pops.
    StackUnderflow,
    /// The control stack would have grown past its capacity.
    ControlStackOverflow,
    /// The control stack was empty where a value was needed.
    ControlStackUnderflow,
    /// `div` or `mod` with a zero divisor. Division is otherwise wrapping:
    /// the one overflowing case, `i32::MIN / -1`, yields `i32::MIN`.
    DivisionByZero,
    /// The step budget handed to [`Vm::execute`] ran out before the
    /// program halted or failed.
    FuelExhausted,
}

/// The observable state of a running machine: the byte cursor, the live
/// values of both stacks (bottom first), and the values printed so far.
pub struct MachineState {
    pub pc: int,
    pub stack: Seq<i32>,
    pub control: Seq<i32>,
    pub output: Seq<i32>,
}

/// What one instruction does to the machine.
pub enum StepResult {
    /// The machine continues at the new state.
    Next(MachineState),
    /// A `halt` executed: the loop ends successfully in this state.
    Halted(MachineState),
    /// The instruction failed; the observable state is unchanged, since
    /// every check precedes every visible effect.
    Failed(VmError),
}

/// Where the cursor lands after a transfer of control to byte offset
/// `target` of a program of `n` bytes: a target outside the program ends
/// the run, which the machine expresses as a cursor at the end.
pub open spec fn landing(target: int, n: nat) -> int {
    if 0 <= target <= n {
        target
    } else {
        n as int
    }
}

/// The 4-byte little-endian operand following the opcode byte at `pc`.
pub open spec fn spec_operand(prog: Seq<u8>, pc: int) -> i32
    recommends
        0 <= pc && pc + 5 <= prog.len(),
{
    spec_i32_from_le_bytes(prog.subrange(pc + 1, pc + 5))
}

/// One instruction's effect after the uniform depth checks have passed.
/// `s.pc` still points at the opcode byte of `inst`.
pub open spec fn spec_step_inst(
    prog: Seq<u8>,
    control_cap: nat,
    s: MachineState,
    inst: Inst,
) -> StepResult
    recommends
        0 <= s.pc < prog.len(),
        inst.spec_stack_args() <= s.stack.len(),
{
    let n = prog.len();
    let d = s.stack.len() as int;
    match inst {
        Inst::Nop => StepResult::Next(MachineState { pc: s.pc + 1, ..s }),
        Inst::Print => StepResult::Next(
            MachineState {
                pc: s.pc + 1,
                stack: s.stack.drop_last(),
                output: s.output.push(s.stack.last()),
                ..s
            },
        ),
        Inst::Halt => StepResult::Halted(MachineState { pc: s.pc + 1, ..s }),
        Inst::Push => if s.pc + 5 <= n {
            StepResult::Next(
                MachineState { pc: s.pc + 5, stack: s.stack.push(spec_operand(prog, s.pc)), ..s },
            )
        } else {
            StepResult::Failed(VmError::UnexpectedProgramEnd)
        },
        Inst::Dup => StepResult::Next(
            MachineState { pc: s.pc + 1, stack: s.stack.push(s.stack.last()), ..s },
        ),
        Inst::Pop => StepResult::Next(
            MachineState { pc: s.pc + 1, stack: s.stack.drop_last(), ..s },
        ),
        Inst::Swap => StepResult::Next(
            MachineState {
                pc: s.pc + 1,
                stack: s.stack.update(d - 2, s.stack[d - 1]).update(d - 1, s.stack[d - 2]),
                ..s
            },
        ),
        Inst::Add => StepResult::Next(
            MachineState {
                pc: s.pc + 1,
                stack: s.stack.drop_last().update(
                    d - 2,
                    i32_specs::wrapping_add(s.stack[d - 2], s.stack[d - 1]),
                ),
                ..s
            },
        ),
        Inst::Sub => StepResult::Next(
            MachineState {
                pc: s.pc + 1,
                stack: s.stack.drop_last().update(
                    d - 2,
                    i32_specs::wrapping_sub(s.stack[d - 2], s.stack[d - 1]),
                ),
                ..s
            },
        ),
        Inst::Mul => StepResult::Next(
            MachineState {
                pc: s.pc + 1,
                stack: s.stack.drop_last().update(
                    d - 2,
                    i32_specs::wrapping_mul(s.stack[d - 2], s.stack[d - 1]),
                ),
                ..s
            },
        ),
        Inst::Div => if s.stack[d - 1] == 0 {
            StepResult::Failed(VmError::DivisionByZero)
        } else {
            StepResult::Next(
                MachineState {
                    pc: s.pc + 1,
                    stack: s.stack.drop_last().update(
                        d - 2,
                        vm_div(s.stack[d - 2], s.stack[d - 1]),
                    ),
                    ..s
                },
            )
        },
        Inst::Mod => if s.stack[d - 1] == 0 {
            StepResult::Failed(VmError::DivisionByZero)
        } else {
            StepResult::Next(
                MachineState {
                    pc: s.pc + 1,
                    stack: s.stack.drop_last().update(
                        d - 2,
                        vm_mod(s.stack[d - 2], s.stack[d - 1]),
                    ),
                    ..s
                },
            )
        },
        Inst::Eq => StepResult::Next(
            MachineState {
                pc: s.pc + 1,
                stack: s.stack.drop_last().update(
                    d - 2,
                    if s.stack[d - 2] == s.stack[d - 1] {
                        1i32
                    } else {
                        0i32
                    },
                ),
                ..s
            },
        ),
        Inst::Lt => StepResult::Next(
            MachineState {
                pc: s.pc + 1,
                stack: s.stack.drop_last().update(
                    d - 2,
                    if s.stack[d - 2] < s.stack[d - 1] {
                        1i32
                    } else {
                        0i32
                    },
                ),
                ..s
            },
        ),
        Inst::Lte => StepResult::Next(
            MachineState {
                pc: s.pc + 1,
                stack: s.stack.drop_last().update(
                    d - 2,
                    if s.stack[d - 2] <= s.stack[d - 1] {
                        1i32
                    } else {
                        0i32
                    },
                ),
                ..s
            },
        ),
        Inst::Gt => StepResult::Next(
            MachineState {
                pc: s.pc + 1,
                stack: s.stack.drop_last().update(
                    d - 2,
                    if s.stack[d - 2] > s.stack[d - 1] {
                        1i32
                    } else {
                        0i32
                    },
                ),
                ..s
            },
        ),
        Inst::Gte => StepResult::Next(
            MachineState {
                pc: s.pc + 1,
                stack: s.stack.drop_last().update(
                    d - 2,
                    if s.stack[d - 2] >= s.stack[d - 1] {
                        1i32
                    } else {
                        0i32
                    },
                ),
                ..s
            },
        ),
        Inst::Jz => if s.pc + 5 <= n {
            StepResult::Next(
                MachineState {
                    pc: if s.stack[d - 1] == 0 {
                        landing(s.pc + 1 + spec_operand(prog, s.pc), n)
                    } else {
                        s.pc + 5
                    },
                    stack: s.stack.drop_last(),
                    ..s
                },
            )
        } else {
            StepResult::Failed(VmError::UnexpectedProgramEnd)
        },
        Inst::Jnz => if s.pc + 5 <= n {
            StepResult::Next(
                MachineState {
                    pc: if s.stack[d - 1] != 0 {
                        landing(s.pc + 1 + spec_operand(prog, s.pc), n)
                    } else {
                        s.pc + 5
                    },
                    stack: s.stack.drop_last(),
                    ..s
                },
            )
        } else {
            StepResult::Failed(VmError::UnexpectedProgramEnd)
        },
        Inst::Jump => if s.pc + 5 <= n {
            StepResult::Next(
                MachineState { pc: landing(s.pc + 1 + spec_operand(prog, s.pc), n), ..s },
            )
        } else {
            StepResult::Failed(VmError::UnexpectedProgramEnd)
        },
        Inst::Call => if s.control.len() >= control_cap {
            StepResult::Failed(VmError::ControlStackOverflow)
        } else if s.pc + 5 <= n {
            StepResult::Next(
                MachineState {
                    pc: landing(s.pc + 1 + spec_operand(prog, s.pc), n),
                    control: s.control.push((s.pc + 5) as i32),
                    ..s
                },
            )
        } else {
            StepResult::Failed(VmError::UnexpectedProgramEnd)
        },
        Inst::Ret => if s.control.len() == 0 {
            StepResult::Failed(VmError::ControlStackUnderflow)
        } else {
            StepResult::Next(
                MachineState {
                    pc: landing(s.control.last() as int, n),
                    control: s.control.drop_last(),
                    ..s
                },
            )
        },
        Inst::CPush => if s.control.len() >= control_cap {
            StepResult::Failed(VmError::ControlStackOverflow)
        } else {
            StepResult::Next(
                MachineState {
                    pc: s.pc + 1,
                    stack: s.stack.drop_last(),
                    control: s.control.push(s.stack.last()),
                    ..s
                },
            )
        },
        Inst::CPop => if s.control.len() == 0 {
            StepResult::Failed(VmError::ControlStackUnderflow)
        } else {
            StepResult::Next(
                MachineState {
                    pc: s.pc + 1,
                    stack: s.stack.push(s.control.last()),
                    control: s.control.drop_last(),
                    ..s
                },
            )
        },
        Inst::CDup => if s.control.len() == 0 {
            StepResult::Failed(VmError::ControlStackUnderflow)
        } else {
            StepResult::Next(
                MachineState { pc: s.pc + 1, stack: s.stack.push(s.control.last()), ..s },
            )
        },
    }
}

/// One full dispatch step at `s.pc`: decode the opcode byte, apply the two
/// uniform depth checks, then the instruction's own effect. The underflow
/// check precedes the overflow check; both precede everything else.
pub open spec fn spec_step(
    prog: Seq<u8>,
    stack_cap: nat,
    control_cap: nat,
    s: MachineState,
) -> StepResult
    recommends
        0 <= s.pc < prog.len(),
{
    match Inst::spec_decode(prog[s.pc]) {
        None => StepResult::Failed(VmError::InvalidOpcode),
        Some(inst) => {
            if s.stack.len() < inst.spec_stack_args() {
                StepResult::Failed(VmError::StackUnderflow)
            } else if s.stack.len() + inst.spec_effect() > stack_cap {
                StepResult::Failed(VmError::StackOverflow)
            } else {
                spec_step_inst(prog, control_cap, s, inst)
            }
        },
    }
}

/// What a run reaches from `s` within `fuel` steps.
pub enum RunResult {
    /// The fuel ran out with the machine still going, in this state.
    Running(MachineState),
    /// The run ended successfully: a `halt` executed, or the cursor
    /// reached the end of the program.
    Done(MachineState),
    /// A step failed with this error; the state is the one the failing
    /// instruction was attempted from, since a failing instruction makes
    /// no visible change.
    Faulted(MachineState, VmError),
}

/// Iterate [`spec_step`] from `s` until the run ends, at most `fuel` steps.
pub open spec fn spec_run(
    prog: Seq<u8>,
    stack_cap: nat,
    control_cap: nat,
    s: MachineState,
    fuel: nat,
) -> RunResult
    decreases fuel,
{
    if s.pc >= prog.len() {
        RunResult::Done(s)
    } else if fuel == 0 {
        RunResult::Running(s)
    } else {
        match spec_step(prog, stack_cap, control_cap, s) {
            StepResult::Next(s2) => spec_run(prog, stack_cap, control_cap, s2, (fuel - 1) as nat),
            StepResult::Halted(s2) => RunResult::Done(s2),
            StepResult::Failed(e) => RunResult::Faulted(s, e),
        }
    }
}

/// A virtual machine: both stacks with their cursors. The caller supplies
/// the stack storage; capacities are the vectors' lengths and are never
/// changed by execution. Slots at or above a cursor are garbage and are
/// never read.
#[derive(Debug)]
pub struct Vm {
    pub stack: Vec<i32>,
    pub stack_idx: usize,
    pub control_stack: Vec<i32>,
    pub control_stack_idx: usize,
}

impl Vm {
    /// Each cursor stays within its stack's capacity.
    pub open spec fn wf(self) -> bool {
        self.stack_idx <= self.stack.len() && self.control_stack_idx <= self.control_stack.len()
    }

    /// The observable state: the live prefixes of both stacks, a cursor,
    /// and the output emitted so far.
    pub open spec fn snapshot(self, pc: int, emitted: Seq<i32>) -> MachineState {
        MachineState {
            pc,
            stack: self.stack@.take(self.stack_idx as int),
            control: self.control_stack@.take(self.control_stack_idx as int),
            output: emitted,
        }
    }

    /// A machine with the given stack capacities, both stacks empty.
    pub fn new(stack_capacity: usize, control_capacity: usize) -> (vm: Vm)
        ensures
            vm.wf(),
            vm.stack@.len() == stack_capacity,
            vm.control_stack@.len() == control_capacity,
            vm.stack_idx == 0,
            vm.control_stack_idx == 0,
    {
        Vm {
            stack: vec![0i32; stack_capacity],
            stack_idx: 0,
            control_stack: vec![0i32; control_capacity],
            control_stack_idx: 0,
        }
    }

    /// Execute `program` from its first byte until a `halt`, the end of the
    /// buffer, the first error, or `fuel` executed instructions, whichever
    /// comes first. Values printed by `print` are appended to `output` in
    /// instruction order.
    ///
    /// The result is exactly what `fuel` steps of the small-step machine
    /// reach from the starting state: `Ok` for a completed run, the error
    /// of the first failing step otherwise, with the stacks left as that
    /// step found them; a program still going after `fuel` instructions
    /// fails `FuelExhausted`.
    ///
    /// The program must be addressable by the 32-bit return addresses the
    /// control stack holds; hence the length bound.
    pub fn execute(&mut self, program: &[u8], output: &mut Vec<i32>, fuel: u64) -> (r: Result<
        (),
        VmError,
    >)
        requires
            old(self).wf(),
            program@.len() + 5 <= i32::MAX,
        ensures
            final(self).wf(),
            final(self).stack@.len() == old(self).stack@.len(),
            final(self).control_stack@.len() == old(self).control_stack@.len(),
            final(output)@.len() >= old(output)@.len(),
            final(output)@.subrange(0, old(output)@.len() as int) == old(output)@,
            ({
                let sc = old(self).stack@.len() as nat;
                let cc = old(self).control_stack@.len() as nat;
                let s0 = old(self).snapshot(0, Seq::empty());
                let emitted = final(output)@.skip(old(output)@.len() as int);
                let reached = spec_run(program@, sc, cc, s0, fuel as nat);
                let m = match reached {
                    RunResult::Running(m) => m,
                    RunResult::Done(m) => m,
                    RunResult::Faulted(m, e) => m,
                };
                &&& r == (match reached {
                    RunResult::Running(_) => Err::<(), VmError>(VmError::FuelExhausted),
                    RunResult::Done(_) => Ok::<(), VmError>(()),
                    RunResult::Faulted(_, e) => Err::<(), VmError>(e),
                })
                &&& m.stack == final(self).stack@.take(final(self).stack_idx as int)
                &&& m.control == final(self).control_stack@.take(
                    final(self).control_stack_idx as int,
                )
                &&& m.output == emitted
            }),
    {
        let ghost sc: nat = self.stack@.len() as nat;
        let ghost cc: nat = self.control_stack@.len() as nat;
        let ghost s0: MachineState = self.snapshot(0, Seq::empty());
        let ghost out0: Seq<i32> = output@;
        let ghost base: int = output@.len() as int;
        let n = program.len();
        let mut pc: usize = 0;
        let mut remaining: u64 = fuel;

        proof {
            assert(output@.skip(base) =~= Seq::<i32>::empty());
        }
        while remaining > 0 && pc < n
            invariant
                sc == old(self).stack@.len(),
                cc == old(self).control_stack@.len(),
                s0 == old(self).snapshot(0, Seq::empty()),
                out0 == old(output)@,
                self.wf(),
                self.stack@.len() == sc,
                self.control_stack@.len() == cc,
                n == program@.len(),
                n + 5 <= i32::MAX,
                pc <= n,
                base == out0.len(),
                base <= output@.len(),
                output@.subrange(0, base) == out0,
                spec_run(program@, sc, cc, s0, fuel as nat) == spec_run(
                    program@,
                    sc,
                    cc,
                    self.snapshot(pc as int, output@.skip(base)),
                    remaining as nat,
                ),
            decreases remaining,
        {
            let ghost pre: MachineState = self.snapshot(pc as int, output@.skip(base));
            remaining = remaining - 1;
            let opcode: u8 = program[pc];
            let inst = match Inst::from_u8(opcode) {
                Some(i) => i,
                None => {
                    return Err(VmError::InvalidOpcode);
                },
            };
            let args = inst.num_stack_args();
            let eff = inst.stack_effect();
            if self.stack_idx < args as usize {
                return Err(VmError::StackUnderflow);
            }
            if eff == 1 && self.stack_idx == self.stack.len() {
                proof {
                    assert(pre.stack.len() + inst.spec_effect() > sc);
                }
                return Err(VmError::StackOverflow);
            }
            proof {
                assert(inst.spec_effect() <= 1);
                assert(!(pre.stack.len() + inst.spec_effect() > sc));
            }
            let ghost d: int = self.stack_idx as int;
            match inst {
                Inst::Nop => {
                    pc = pc + 1;
                },
                Inst::Print => {
                    let v = self.stack[self.stack_idx - 1];
                    output.push(v);
                    self.stack_idx = self.stack_idx - 1;
                    proof {
                        assert(output@.skip(base) =~= pre.output.push(v));
                        assert(output@.subrange(0, base) =~= out0);
                        assert(self.stack@.take(self.stack_idx as int) =~= pre.stack.drop_last());
                    }
                    pc = pc + 1;
                },
                Inst::Halt => {
                    proof {
                        assert(output@ =~= output@.subrange(0, base) + output@.skip(base));
                    }
                    return Ok(());
                },
                Inst::Push => {
                    if pc + 5 > n {
                        return Err(VmError::UnexpectedProgramEnd);
                    }
                    let v = read_i32_le(program, pc + 1);
                    self.stack.set(self.stack_idx, v);
                    self.stack_idx = self.stack_idx + 1;
                    pc = pc + 5;
                    proof {
                        assert(self.stack@.take(self.stack_idx as int) =~= pre.stack.push(v));
                    }
                },
                Inst::Dup => {
                    let v = self.stack[self.stack_idx - 1];
                    self.stack.set(self.stack_idx, v);
                    self.stack_idx = self.stack_idx + 1;
                    proof {
                        assert(self.stack@.take(self.stack_idx as int) =~= pre.stack.push(
                            pre.stack.last(),
                        ));
                    }
                    pc = pc + 1;
                },
                Inst::Pop => {
                    self.stack_idx = self.stack_idx - 1;
                    proof {
                        assert(self.stack@.take(self.stack_idx as int) =~= pre.stack.drop_last());
                    }
                    pc = pc + 1;
                },
                Inst::Swap => {
                    let a = self.stack[self.stack_idx - 2];
                    let b = self.stack[self.stack_idx - 1];
                    self.stack.set(self.stack_idx - 2, b);
                    self.stack.set(self.stack_idx - 1, a);
                    proof {
                        assert(self.stack@.take(self.stack_idx as int) =~= pre.stack.update(
                            d - 2,
                            pre.stack[d - 1],
                        ).update(d - 1, pre.stack[d - 2]));
                    }
                    pc = pc + 1;
                },
                Inst::Add => {
                    let a = self.stack[self.stack_idx - 2];
                    let b = self.stack[self.stack_idx - 1];
                    self.stack.set(self.stack_idx - 2, a.wrapping_add(b));
                    self.stack_idx = self.stack_idx - 1;
                    proof {
                        assert(self.stack@.take(self.stack_idx as int)
                            =~= pre.stack.drop_last().update(
                            d - 2,
                            i32_specs::wrapping_add(pre.stack[d - 2], pre.stack[d - 1]),
                        ));
                    }
                    pc = pc + 1;
                },
                Inst::Sub => {
                    let a = self.stack[self.stack_idx - 2];
                    let b = self.stack[self.stack_idx - 1];
                    self.stack.set(self.stack_idx - 2, a.wrapping_sub(b));
                    self.stack_idx = self.stack_idx - 1;
                    proof {
                        assert(self.stack@.take(self.stack_idx as int)
                            =~= pre.stack.drop_last().update(
                            d - 2,
                            i32_specs::wrapping_sub(pre.stack[d - 2], pre.stack[d - 1]),
                        ));
                    }
                    pc = pc + 1;
                },
                Inst::Mul => {
                    let a = self.stack[self.stack_idx - 2];
                    let b = self.stack[self.stack_idx - 1];
                    self.stack.set(self.stack_idx - 2, a.wrapping_mul(b));
                    self.stack_idx = self.stack_idx - 1;
                    proof {
                        assert(self.stack@.take(self.stack_idx as int)
                            =~= pre.stack.drop_last().update(
                            d - 2,
                            i32_specs::wrapping_mul(pre.stack[d - 2], pre.stack[d - 1]),
                        ));
                    }
                    pc = pc + 1;
                },
                Inst::Div => {
                    let a = self.stack[self.stack_idx - 2];
                    let b = self.stack[self.stack_idx - 1];
                    if b == 0 {
                        return Err(VmError::DivisionByZero);
                    }
                    self.stack.set(self.stack_idx - 2, div_wrap(a, b));
                    self.stack_idx = self.stack_idx - 1;
                    proof {
                        assert(self.stack@.take(self.stack_idx as int)
                            =~= pre.stack.drop_last().update(
                            d - 2,
                            vm_div(pre.stack[d - 2], pre.stack[d - 1]),
                        ));
                    }
                    pc = pc + 1;
                },
                Inst::Mod => {
                    let a = self.stack[self.stack_idx - 2];
                    let b = self.stack[self.stack_idx - 1];
                    if b == 0 {
                        return Err(VmError::DivisionByZero);
                    }
                    self.stack.set(self.stack_idx - 2, mod_wrap(a, b));
                    self.stack_idx = self.stack_idx - 1;
                    proof {
                        assert(self.stack@.take(self.stack_idx as int)
                            =~= pre.stack.drop_last().update(
                            d - 2,
                            vm_mod(pre.stack[d - 2], pre.stack[d - 1]),
                        ));
                    }
                    pc = pc + 1;
                },
                Inst::Eq => {
                    let a = self.stack[self.stack_idx - 2];
                    let b = self.stack[self.stack_idx - 1];
                    self.stack.set(self.stack_idx - 2, if a == b { 1 } else { 0 });
                    self.stack_idx = self.stack_idx - 1;
                    proof {
                        assert(self.stack@.take(self.stack_idx as int)
                            =~= pre.stack.drop_last().update(
                            d - 2,
                            if pre.stack[d - 2] == pre.stack[d - 1] {
                                1i32
                            } else {
                                0i32
                            },
                        ));
                    }
                    pc = pc + 1;
                },
                Inst::Lt => {
                    let a = self.stack[self.stack_idx - 2];
                    let b = self.stack[self.stack_idx - 1];
                    self.stack.set(self.stack_idx - 2, if a < b { 1 } else { 0 });
                    self.stack_idx = self.stack_idx - 1;
                    proof {
                        assert(self.stack@.take(self.stack_idx as int)
                            =~= pre.stack.drop_last().update(
                            d - 2,
                            if pre.stack[d - 2] < pre.stack[d - 1] {
                                1i32
                            } else {
                                0i32
                            },
                        ));
                    }
                    pc = pc + 1;
                },
                Inst::Lte => {
                    let a = self.stack[self.stack_idx - 2];
                    let b = self.stack[self.stack_idx - 1];
                    self.stack.set(self.stack_idx - 2, if a <= b { 1 } else { 0 });
                    self.stack_idx = self.stack_idx - 1;
                    proof {
                        assert(self.stack@.take(self.stack_idx as int)
                            =~= pre.stack.drop_last().update(
                            d - 2,
                            if pre.stack[d - 2] <= pre.stack[d - 1] {
                                1i32
                            } else {
                                0i32
                            },
                        ));
                    }
                    pc = pc + 1;
                },
                Inst::Gt => {
                    let a = self.stack[self.stack_idx - 2];
                    let b = self.stack[self.stack_idx - 1];
                    self.stack.set(self.stack_idx - 2, if a > b { 1 } else { 0 });
                    self.stack_idx = self.stack_idx - 1;
                    proof {
                        assert(self.stack@.take(self.stack_idx as int)
                            =~= pre.stack.drop_last().update(
                            d - 2,
                            if pre.stack[d - 2] > pre.stack[d - 1] {
                                1i32
                            } else {
                                0i32
                            },
                        ));
                    }
                    pc = pc + 1;
                },
                Inst::Gte => {
                    let a = self.stack[self.stack_idx - 2];
                    let b = self.stack[self.stack_idx - 1];
                    self.stack.set(self.stack_idx - 2, if a >= b { 1 } else { 0 });
                    self.stack_idx = self.stack_idx - 1;
                    proof {
                        assert(self.stack@.take(self.stack_idx as int)
                            =~= pre.stack.drop_last().update(
                            d - 2,
                            if pre.stack[d - 2] >= pre.stack[d - 1] {
                                1i32
                            } else {
                                0i32
                            },
                        ));
                    }
                    pc = pc + 1;
                },
                Inst::Jz => {
                    if pc + 5 > n {
                        return Err(VmError::UnexpectedProgramEnd);
                    }
                    let c = self.stack[self.stack_idx - 1];
                    let delta = read_i32_le(program, pc + 1);
                    self.stack_idx = self.stack_idx - 1;
                    proof {
                        assert(self.stack@.take(self.stack_idx as int) =~= pre.stack.drop_last());
                    }
                    pc = if c == 0 {
                        branch_target(pc, delta, n)
                    } else {
                        pc + 5
                    };
                },
                Inst::Jnz => {
                    if pc + 5 > n {
                        return Err(VmError::UnexpectedProgramEnd);
                    }
                    let c = self.stack[self.stack_idx - 1];
                    let delta = read_i32_le(program, pc + 1);
                    self.stack_idx = self.stack_idx - 1;
                    proof {
                        assert(self.stack@.take(self.stack_idx as int) =~= pre.stack.drop_last());
                    }
                    pc = if c != 0 {
                        branch_target(pc, delta, n)
                    } else {
                        pc + 5
                    };
                },
                Inst::Jump => {
                    if pc + 5 > n {
                        return Err(VmError::UnexpectedProgramEnd);
                    }
                    let delta = read_i32_le(program, pc + 1);
                    pc = branch_target(pc, delta, n);
                },
                Inst::Call => {
                    if self.control_stack_idx >= self.control_stack.len() {
                        return Err(VmError::ControlStackOverflow);
                    }
                    if pc + 5 > n {
                        return Err(VmError::UnexpectedProgramEnd);
                    }
                    let delta = read_i32_le(program, pc + 1);
                    let ret = (pc + 5) as i32;
                    self.control_stack.set(self.control_stack_idx, ret);
                    self.control_stack_idx = self.control_stack_idx + 1;
                    proof {
                        assert(self.control_stack@.take(self.control_stack_idx as int)
                            =~= pre.control.push(ret));
                    }
                    pc = branch_target(pc, delta, n);
                },
                Inst::Ret => {
                    if self.control_stack_idx == 0 {
                        return Err(VmError::ControlStackUnderflow);
                    }
                    let a = self.control_stack[self.control_stack_idx - 1];
                    self.control_stack_idx = self.control_stack_idx - 1;
                    proof {
                        assert(self.control_stack@.take(self.control_stack_idx as int)
                            =~= pre.control.drop_last());
                    }
                    pc = if a < 0 {
                        n
                    } else if a as usize > n {
                        n
                    } else {
                        a as usize
                    };
                },
                Inst::CPush => {
                    if self.control_stack_idx >= self.control_stack.len() {
                        return Err(VmError::ControlStackOverflow);
                    }
                    let v = self.stack[self.stack_idx - 1];
                    self.control_stack.set(self.control_stack_idx, v);
                    self.control_stack_idx = self.control_stack_idx + 1;
                    self.stack_idx = self.stack_idx - 1;
                    proof {
                        assert(self.control_stack@.take(self.control_stack_idx as int)
                            =~= pre.control.push(pre.stack.last()));
                        assert(self.stack@.take(self.stack_idx as int) =~= pre.stack.drop_last());
                    }
                    pc = pc + 1;
                },
                Inst::CPop => {
                    if self.control_stack_idx == 0 {
                        return Err(VmError::ControlStackUnderflow);
                    }
                    let v = self.control_stack[self.control_stack_idx - 1];
                    self.stack.set(self.stack_idx, v);
                    self.stack_idx = self.stack_idx + 1;
                    self.control_stack_idx = self.control_stack_idx - 1;
                    proof {
                        assert(self.stack@.take(self.stack_idx as int) =~= pre.stack.push(
                            pre.control.last(),
                        ));
                        assert(self.control_stack@.take(self.control_stack_idx as int)
                            =~= pre.control.drop_last());
                    }
                    pc = pc + 1;
                },
                Inst::CDup => {
                    if self.control_stack_idx == 0 {
                        return Err(VmError::ControlStackUnderflow);
                    }
                    let v = self.control_stack[self.control_stack_idx - 1];
                    self.stack.set(self.stack_idx, v);
                    self.stack_idx = self.stack_idx + 1;
                    proof {
                        assert(self.stack@.take(self.stack_idx as int) =~= pre.stack.push(
                            pre.control.last(),
                        ));
                    }
                    pc = pc + 1;
                },
            }
            proof {
                assert(spec_run(program@, sc, cc, s0, fuel as nat) == spec_run(
                    program@,
                    sc,
                    cc,
                    self.snapshot(pc as int, output@.skip(base)),
                    remaining as nat,
                ));
            }
        }
        proof {
            assert(output@ =~= output@.subrange(0, base) + output@.skip(base));
        }
        if pc < n {
            return Err(VmError::FuelExhausted);
        }
        Ok(())
    }
}

/// The cursor after a taken branch: the displacement is measured from the
/// operand's own offset, `pc + 1`; see [`landing`] for out-of-range targets.
fn branch_target(pc: usize, delta: i32, n: usize) -> (t: usize)
    requires
        pc + 5 <= n,
        n + 5 <= i32::MAX,
    ensures
        t == landing(pc + 1 + delta, n as nat),
        t <= n,
{
    let use_site = pc + 1;
    if delta >= 0 {
        let t = use_site + (delta as usize);
        if t > n {
            n
        } else {
            t
        }
    } else {
        let mag = (-(delta as i64)) as usize;
        if mag > use_site {
            n
        } else {
            use_site - mag
        }
    }
}

} // verus!
