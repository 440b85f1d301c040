//! The laws the library promises, proved against the specifications in
//! [`crate::inst`], [`crate::assembler`] and [`crate::vm`].

use crate::assembler::{
    spec_assemble, spec_find_label, spec_parse_i32, spec_pass1, spec_pass2, spec_patch,
    spec_skip_spaces, spec_statement, spec_stmt_end, spec_token_end, AsmState, AsmErrorSpec,
    is_sep, is_space, lemma_stmt_end_bounds,
};
use crate::inst::Inst;
use crate::int32::{lemma_i32_le_bytes_roundtrip, spec_i32_to_le_bytes};
use crate::vm::{spec_operand, spec_run, spec_step, MachineState, RunResult, StepResult, VmError};
use vstd::prelude::*;

verus! {

/// Stack-effect invariant: an instruction decoded from the program,
/// given enough stack arguments, enough headroom, its operand where it
/// takes one, a workable control stack where it uses one, and a nonzero
/// divisor where it divides, executes without error and changes the
/// operand-stack depth by exactly its stack effect.
pub proof fn lemma_stack_effect(
    prog: Seq<u8>,
    stack_cap: nat,
    control_cap: nat,
    s: MachineState,
    inst: Inst,
)
    requires
        0 <= s.pc < prog.len(),
        Inst::spec_decode(prog[s.pc]) == Some(inst),
        s.stack.len() >= inst.spec_stack_args(),
        s.stack.len() + inst.spec_effect() <= stack_cap,
        inst.spec_operands() == 1 ==> s.pc + 5 <= prog.len(),
        (inst == Inst::Call || inst == Inst::CPush) ==> s.control.len() < control_cap,
        (inst == Inst::Ret || inst == Inst::CPop || inst == Inst::CDup) ==> s.control.len() > 0,
        (inst == Inst::Div || inst == Inst::Mod) ==> s.stack[s.stack.len() - 1] != 0,
    ensures
        match spec_step(prog, stack_cap, control_cap, s) {
            StepResult::Next(s2) => s2.stack.len() == s.stack.len() + inst.spec_effect(),
            StepResult::Halted(s2) => s2.stack.len() == s.stack.len() + inst.spec_effect(),
            StepResult::Failed(e) => false,
        },
{
}

/// Underflow: an instruction that pops more values than the operand
/// stack holds fails `StackUnderflow` at once, and the failing run leaves
/// every part of the machine state exactly as it was.
pub proof fn lemma_underflow(
    prog: Seq<u8>,
    stack_cap: nat,
    control_cap: nat,
    s: MachineState,
    inst: Inst,
    fuel: nat,
)
    requires
        0 <= s.pc < prog.len(),
        Inst::spec_decode(prog[s.pc]) == Some(inst),
        s.stack.len() < inst.spec_stack_args(),
        fuel >= 1,
    ensures
        spec_run(prog, stack_cap, control_cap, s, fuel) == RunResult::Faulted(
            s,
            VmError::StackUnderflow,
        ),
{
}

/// Overflow: `push` with the operand stack already at capacity fails
/// `StackOverflow` at once, leaving the state as it was.
pub proof fn lemma_push_overflow(
    prog: Seq<u8>,
    stack_cap: nat,
    control_cap: nat,
    s: MachineState,
    fuel: nat,
)
    requires
        0 <= s.pc < prog.len(),
        Inst::spec_decode(prog[s.pc]) == Some(Inst::Push),
        s.stack.len() == stack_cap,
        fuel >= 1,
    ensures
        spec_run(prog, stack_cap, control_cap, s, fuel) == RunResult::Faulted(
            s,
            VmError::StackOverflow,
        ),
{
}

/// A taken `jump` whose displacement was computed as `target` minus the
/// operand's own offset lands the cursor exactly at `target`.
pub proof fn lemma_jump_lands(
    prog: Seq<u8>,
    stack_cap: nat,
    control_cap: nat,
    s: MachineState,
    target: int,
)
    requires
        0 <= s.pc,
        s.pc + 5 <= prog.len(),
        Inst::spec_decode(prog[s.pc]) == Some(Inst::Jump),
        spec_operand(prog, s.pc) as int == target - (s.pc + 1),
        0 <= target <= prog.len(),
        s.stack.len() <= stack_cap,
    ensures
        spec_step(prog, stack_cap, control_cap, s) == StepResult::Next(
            MachineState { pc: target, ..s },
        ),
{
}

/// The reserved operand slots the first pass records: within the bytes
/// built so far, four bytes each, in order and disjoint, and each right
/// after its instruction's opcode byte.
pub open spec fn uses_wf(uses: Seq<(Seq<u8>, int)>, len: int) -> bool {
    &&& forall|a: int, b: int|
        #![trigger uses[a], uses[b]]
        0 <= a < b < uses.len() ==> uses[a].1 + 4 <= uses[b].1
    &&& forall|a: int| 0 <= a < uses.len() ==> 1 <= #[trigger] uses[a].1
    &&& forall|a: int| 0 <= a < uses.len() ==> #[trigger] uses[a].1 + 4 <= len
}

/// The label offsets the first pass records lie within the bytes built.
pub open spec fn labels_wf(labels: Seq<(Seq<u8>, int)>, len: int) -> bool {
    forall|a: int| 0 <= a < labels.len() ==> 0 <= #[trigger] labels[a].1 <= len
}

proof fn lemma_statement_uses(src: Seq<u8>, i: int, end: int, st: AsmState, st1: AsmState)
    requires
        spec_statement(src, i, end, st) == Ok::<AsmState, AsmErrorSpec>(st1),
        uses_wf(st.uses, st.code.len() as int),
        labels_wf(st.labels, st.code.len() as int),
    ensures
        uses_wf(st1.uses, st1.code.len() as int),
        labels_wf(st1.labels, st1.code.len() as int),
        st.code.len() <= st1.code.len(),
{
    let a = spec_skip_spaces(src, i, end);
    if a < end {
        let b = spec_token_end(src, a, end);
        let tok = src.subrange(a, b);
        if tok.last() == 58 {
            let name = tok.drop_last();
            let stm = AsmState { labels: st.labels.push((name, st.code.len() as int)), ..st };
            let a2 = spec_skip_spaces(src, b, end);
            if a2 < end {
                lemma_instruction_uses(src, a2, end, stm, st1);
            }
        } else {
            lemma_instruction_uses(src, a, end, st, st1);
        }
    }
}

proof fn lemma_instruction_uses(src: Seq<u8>, a: int, end: int, st: AsmState, st1: AsmState)
    requires
        crate::assembler::spec_instruction(src, a, end, st) == Ok::<AsmState, AsmErrorSpec>(st1),
        uses_wf(st.uses, st.code.len() as int),
        labels_wf(st.labels, st.code.len() as int),
    ensures
        uses_wf(st1.uses, st1.code.len() as int),
        labels_wf(st1.labels, st1.code.len() as int),
        st.code.len() <= st1.code.len(),
{
    let b = spec_token_end(src, a, end);
    let mn = src.subrange(a, b);
    match Inst::spec_lookup(mn) {
        None => {},
        Some(inst) => {
            let stm = AsmState { code: st.code.push(inst.spec_opcode()), ..st };
            if inst.spec_operands() == 0 {
            } else {
                let c = spec_skip_spaces(src, b, end);
                if c < end {
                    let d = spec_token_end(src, c, end);
                    let op = src.subrange(c, d);
                    if op[0] == 64 {
                        assert(st1.uses == stm.uses.push((op.drop_first(), stm.code.len() as int)));
                        assert forall|x: int, y: int|
                            #![trigger st1.uses[x], st1.uses[y]]
                            0 <= x < y < st1.uses.len() implies st1.uses[x].1 + 4
                            <= st1.uses[y].1 by {
                            if y < st1.uses.len() - 1 {
                                assert(st1.uses[x] == st.uses[x]);
                                assert(st1.uses[y] == st.uses[y]);
                            } else {
                                assert(st1.uses[x] == st.uses[x]);
                                assert(st.uses[x].1 + 4 <= st.code.len());
                            }
                        }
                    } else {
                        match spec_parse_i32(op) {
                            Some(v) => {
                                lemma_i32_le_bytes_roundtrip(v);
                            },
                            None => {},
                        }
                    }
                }
            }
        },
    }
}

proof fn lemma_pass1_uses(src: Seq<u8>, i: int, st: AsmState, st1: AsmState)
    requires
        0 <= i,
        spec_pass1(src, i, st) == Ok::<AsmState, AsmErrorSpec>(st1),
        uses_wf(st.uses, st.code.len() as int),
        labels_wf(st.labels, st.code.len() as int),
    ensures
        uses_wf(st1.uses, st1.code.len() as int),
        labels_wf(st1.labels, st1.code.len() as int),
    decreases src.len() + 1 - i,
{
    if i <= src.len() {
        let e = spec_stmt_end(src, i);
        lemma_stmt_end_bounds(src, i);
        match spec_statement(src, i, e, st) {
            Ok(stm) => {
                lemma_statement_uses(src, i, e, st, stm);
                lemma_pass1_uses(src, e + 1, stm, st1);
            },
            Err(_) => {},
        }
    }
}

/// Whether no reserved slot from the `k`-th use on covers position `x`.
pub open spec fn untouched(uses: Seq<(Seq<u8>, int)>, k: int, x: int) -> bool {
    forall|j: int| k <= j < uses.len() ==> !(#[trigger] uses[j].1 <= x < uses[j].1 + 4)
}

proof fn lemma_pass2_patches(
    labels: Seq<(Seq<u8>, int)>,
    uses: Seq<(Seq<u8>, int)>,
    code: Seq<u8>,
    k: int,
    out: Seq<u8>,
)
    requires
        0 <= k,
        spec_pass2(labels, uses, code, k) == Ok::<Seq<u8>, AsmErrorSpec>(out),
        uses_wf(uses, code.len() as int),
    ensures
        out.len() == code.len(),
        forall|x: int| 0 <= x < code.len() && untouched(uses, k, x) ==> out[x] == code[x],
        forall|j: int|
            k <= j < uses.len() ==> match spec_find_label(labels, #[trigger] uses[j].0) {
                Some(t) => out.subrange(uses[j].1, uses[j].1 + 4) == spec_i32_to_le_bytes(
                    (t - uses[j].1) as i32,
                ),
                None => false,
            },
    decreases uses.len() - k,
{
    if k < uses.len() {
        match spec_find_label(labels, uses[k].0) {
            None => {},
            Some(t) => {
                let delta = (t - uses[k].1) as i32;
                let at = uses[k].1;
                lemma_i32_le_bytes_roundtrip(delta);
                let code2 = spec_patch(code, at, delta);
                assert(code2.len() == code.len());
                lemma_pass2_patches(labels, uses, code2, k + 1, out);
                // the fresh patch itself, seen through all later patches
                assert forall|x: int| at <= x < at + 4 implies out[x] == spec_i32_to_le_bytes(
                    delta,
                )[x - at] by {
                    assert(untouched(uses, k + 1, x));
                    assert(code2[x] == spec_i32_to_le_bytes(delta)[x - at]);
                }
                assert(out.subrange(at, at + 4) =~= spec_i32_to_le_bytes(delta));
                // bytes no later patch covers keep their pre-patch value
                assert forall|x: int| 0 <= x < code.len() && untouched(uses, k, x) implies out[x]
                    == code[x] by {
                    assert(untouched(uses, k + 1, x));
                    assert(!(at <= x < at + 4));
                    assert(code2[x] == code[x]);
                }
            },
        }
    }
}

/// Label resolution: in a successfully assembled program, every label
/// use site holds exactly the displacement `target offset - use offset`,
/// little-endian, whatever else was patched around it.
pub proof fn lemma_label_resolution(src: Seq<u8>, st: AsmState, out: Seq<u8>, k: int)
    requires
        spec_pass1(
            src,
            0,
            AsmState {
                code: Seq::<u8>::empty(),
                labels: Seq::<(Seq<u8>, int)>::empty(),
                uses: Seq::<(Seq<u8>, int)>::empty(),
            },
        ) == Ok::<AsmState, AsmErrorSpec>(st),
        spec_assemble(src) == Ok::<Seq<u8>, AsmErrorSpec>(out),
        0 <= k < st.uses.len(),
    ensures
        out.len() == st.code.len(),
        1 <= st.uses[k].1 && st.uses[k].1 + 4 <= out.len(),
        match spec_find_label(st.labels, st.uses[k].0) {
            Some(t) => 0 <= t <= out.len() && out.subrange(st.uses[k].1, st.uses[k].1 + 4)
                == spec_i32_to_le_bytes((t - st.uses[k].1) as i32),
            None => false,
        },
{
    let init = AsmState {
        code: Seq::<u8>::empty(),
        labels: Seq::<(Seq<u8>, int)>::empty(),
        uses: Seq::<(Seq<u8>, int)>::empty(),
    };
    lemma_pass1_uses(src, 0, init, st);
    lemma_pass2_patches(st.labels, st.uses, st.code, 0, out);
    crate::assembler::lemma_find_label_bound(st.labels, st.uses[k].0, st.code.len() as int);
}

proof fn lemma_stmt_end_no_sep(src: Seq<u8>, i: int)
    requires
        0 <= i <= src.len(),
        forall|x: int| i <= x < src.len() ==> !is_sep(#[trigger] src[x]),
    ensures
        spec_stmt_end(src, i) == src.len(),
    decreases src.len() - i,
{
    if i < src.len() {
        lemma_stmt_end_no_sep(src, i + 1);
    }
}

proof fn lemma_token_end_no_space(src: Seq<u8>, i: int, end: int)
    requires
        0 <= i <= end <= src.len(),
        forall|x: int| i <= x < end ==> !is_space(#[trigger] src[x]),
    ensures
        spec_token_end(src, i, end) == end,
    decreases end - i,
{
    if i < end {
        lemma_token_end_no_space(src, i + 1, end);
    }
}

/// Every byte of a token that parses as a decimal literal is a sign or a
/// digit: never a separator, whitespace, `@`, or a trailing colon.
proof fn lemma_literal_token_bytes(tok: Seq<u8>, v: i32, x: int)
    requires
        spec_parse_i32(tok) == Some(v),
        0 <= x < tok.len(),
    ensures
        tok[x] == 43 || tok[x] == 45 || (48 <= tok[x] <= 57),
{
    let signed = tok.len() > 0 && (tok[0] == 43 || tok[0] == 45);
    if signed {
        if x > 0 {
            assert(tok.drop_first()[x - 1] == tok[x]);
        }
    }
}

/// Push-literal round trip: assembling `push <lit>` for any valid
/// signed 32-bit decimal literal and running the result from any state
/// with one free slot ends the run with exactly that value pushed and
/// nothing printed.
pub proof fn lemma_push_literal(
    tok: Seq<u8>,
    v: i32,
    stack0: Seq<i32>,
    control0: Seq<i32>,
    stack_cap: nat,
    control_cap: nat,
    fuel: nat,
)
    requires
        spec_parse_i32(tok) == Some(v),
        stack0.len() < stack_cap,
        fuel >= 1,
    ensures
        ({
            let src = seq![112u8, 117u8, 115u8, 104u8, 32u8] + tok;
            let s0 = MachineState { pc: 0, stack: stack0, control: control0, output: Seq::empty() };
            &&& spec_assemble(src) == Ok::<Seq<u8>, AsmErrorSpec>(
                seq![3u8] + spec_i32_to_le_bytes(v),
            )
            &&& spec_run(
                seq![3u8] + spec_i32_to_le_bytes(v),
                stack_cap,
                control_cap,
                s0,
                fuel,
            ) == RunResult::Done(
                MachineState { pc: 5, stack: stack0.push(v), control: control0, output: Seq::empty() },
            )
        }),
{
    let src = seq![112u8, 117u8, 115u8, 104u8, 32u8] + tok;
    let n = src.len() as int;
    assert(n == 5 + tok.len());
    assert(tok.len() > 0);

    // no separators anywhere, no whitespace but the single space at 4
    assert forall|x: int| 0 <= x < n implies !is_sep(#[trigger] src[x]) by {
        if x >= 5 {
            lemma_literal_token_bytes(tok, v, x - 5);
        }
    }
    assert forall|x: int| 5 <= x < n implies !is_space(#[trigger] src[x]) by {
        lemma_literal_token_bytes(tok, v, x - 5);
    }
    lemma_stmt_end_no_sep(src, 0);
    assert(spec_stmt_end(src, 0) == n);

    // the mnemonic token is src[0..4]
    assert(!is_space(src[0]));
    assert(spec_skip_spaces(src, 0, n) == 0);
    assert(spec_token_end(src, 4, n) == 4) by {
        assert(is_space(src[4]));
    }
    assert(spec_token_end(src, 3, n) == 4);
    assert(spec_token_end(src, 2, n) == 4);
    assert(spec_token_end(src, 1, n) == 4);
    assert(spec_token_end(src, 0, n) == 4);
    let mn = src.subrange(0, 4);
    assert(mn =~= Inst::Push.spec_mnemonic());
    crate::inst::lemma_table_roundtrip(Inst::Push);
    assert(Inst::spec_lookup(mn) == Some(Inst::Push));

    // the operand token is src[5..n]
    assert(spec_skip_spaces(src, 5, n) == 5) by {
        assert(!is_space(src[5]));
    }
    assert(spec_skip_spaces(src, 4, n) == 5);
    lemma_token_end_no_space(src, 5, n);
    let op = src.subrange(5, n);
    assert(op =~= tok);
    lemma_literal_token_bytes(tok, v, 0);
    assert(op[0] != 64);
    assert(mn.last() != 58);

    // hence pass one yields exactly the push encoding, with no labels
    let init = AsmState {
        code: Seq::<u8>::empty(),
        labels: Seq::<(Seq<u8>, int)>::empty(),
        uses: Seq::<(Seq<u8>, int)>::empty(),
    };
    let prog = seq![3u8] + spec_i32_to_le_bytes(v);
    lemma_i32_le_bytes_roundtrip(v);
    assert(Inst::Push.spec_opcode() == 3);
    let st1 = AsmState { code: Seq::<u8>::empty().push(3u8) + spec_i32_to_le_bytes(v), ..init };
    assert(spec_statement(src, 0, n, init) == Ok::<AsmState, AsmErrorSpec>(st1));
    assert(st1.code =~= prog);
    assert(spec_pass1(src, n + 1, st1) == Ok::<AsmState, AsmErrorSpec>(st1));
    assert(spec_pass1(src, 0, init) == Ok::<AsmState, AsmErrorSpec>(st1));
    assert(spec_pass2(st1.labels, st1.uses, st1.code, 0) == Ok::<Seq<u8>, AsmErrorSpec>(st1.code));
    assert(spec_assemble(src) == Ok::<Seq<u8>, AsmErrorSpec>(prog));

    // and running it pushes v
    let s0 = MachineState { pc: 0, stack: stack0, control: control0, output: Seq::empty() };
    assert(prog[0] == 3);
    assert(Inst::spec_decode(3) == Some(Inst::Push));
    assert(prog.subrange(1, 5) =~= spec_i32_to_le_bytes(v));
    assert(spec_operand(prog, 0) == v);
    let s1 = MachineState { pc: 5, stack: stack0.push(v), control: control0, output: Seq::empty() };
    assert(spec_step(prog, stack_cap, control_cap, s0) == StepResult::Next(s1));
    assert(spec_run(prog, stack_cap, control_cap, s1, (fuel - 1) as nat) == RunResult::Done(s1));
}

/// Label resolution, end to end: where a successfully assembled program
/// holds a `jump` whose operand slot is the `k`-th recorded label use,
/// taking that jump lands the cursor exactly at the label's offset.
pub proof fn lemma_resolved_jump_lands(
    src: Seq<u8>,
    st: AsmState,
    out: Seq<u8>,
    k: int,
    stack_cap: nat,
    control_cap: nat,
    s: MachineState,
)
    requires
        spec_pass1(
            src,
            0,
            AsmState {
                code: Seq::<u8>::empty(),
                labels: Seq::<(Seq<u8>, int)>::empty(),
                uses: Seq::<(Seq<u8>, int)>::empty(),
            },
        ) == Ok::<AsmState, AsmErrorSpec>(st),
        spec_assemble(src) == Ok::<Seq<u8>, AsmErrorSpec>(out),
        out.len() <= i32::MAX,
        0 <= k < st.uses.len(),
        s.pc == st.uses[k].1 - 1,
        Inst::spec_decode(out[s.pc]) == Some(Inst::Jump),
        s.stack.len() <= stack_cap,
    ensures
        match spec_find_label(st.labels, st.uses[k].0) {
            Some(target) => spec_step(out, stack_cap, control_cap, s) == StepResult::Next(
                MachineState { pc: target, ..s },
            ),
            None => false,
        },
{
    lemma_label_resolution(src, st, out, k);
    let at = st.uses[k].1;
    let target = spec_find_label(st.labels, st.uses[k].0)->Some_0;
    let delta = (target - at) as i32;
    lemma_i32_le_bytes_roundtrip(delta);
    assert(out.subrange(s.pc + 1, s.pc + 5) == spec_i32_to_le_bytes(delta));
    assert(spec_operand(out, s.pc) == delta);
    lemma_jump_lands(out, stack_cap, control_cap, s, target);
}

} // verus!
