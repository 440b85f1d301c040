use stackvm::inst::Inst;
use stackvm::vm::{Vm, VmError};

const FUEL: u64 = 1_000_000;

fn run_ok(source: &str, stack_cap: usize, control_cap: usize) -> (Vm, Vec<i32>) {
    let program = stackvm::assembler::assemble(source).expect("assembly failed");
    let mut vm = Vm::new(stack_cap, control_cap);
    let mut out: Vec<i32> = Vec::new();
    vm.execute(&program, &mut out, FUEL).expect("execution failed");
    (vm, out)
}

fn run_err(source: &str, stack_cap: usize, control_cap: usize) -> VmError {
    let program = stackvm::assembler::assemble(source).expect("assembly failed");
    let mut vm = Vm::new(stack_cap, control_cap);
    let mut out: Vec<i32> = Vec::new();
    vm.execute(&program, &mut out, FUEL).expect_err("execution succeeded")
}

#[test]
fn opcode_byte_roundtrip_all() {
    let all = vec![
        Inst::Nop,
        Inst::Print,
        Inst::Halt,
        Inst::Push,
        Inst::Dup,
        Inst::Pop,
        Inst::Swap,
        Inst::Add,
        Inst::Sub,
        Inst::Mul,
        Inst::Div,
        Inst::Mod,
        Inst::Eq,
        Inst::Lt,
        Inst::Lte,
        Inst::Gt,
        Inst::Gte,
        Inst::Jz,
        Inst::Jnz,
        Inst::Jump,
        Inst::Call,
        Inst::Ret,
        Inst::CPush,
        Inst::CPop,
        Inst::CDup,
    ];
    for (k, inst) in all.iter().enumerate() {
        assert_eq!(inst.to_u8() as usize, k);
        assert_eq!(Inst::from_u8(inst.to_u8()), Some(*inst));
        let name = inst.mnemonic_bytes();
        assert_eq!(Inst::from_bytes(&name), Some(*inst));
    }
    assert_eq!(Inst::from_u8(25), None);
    assert_eq!(Inst::from_u8(255), None);
    assert_eq!(Inst::from_bytes(b"PUSH"), None);
    assert_eq!(Inst::from_bytes(b""), None);
}

#[test]
fn stack_effect_metadata_consistent() {
    // stack_effect == pushes - pops for a few representative opcodes
    assert_eq!(Inst::Push.num_operands(), 1);
    assert_eq!(Inst::Push.num_stack_args(), 0);
    assert_eq!(Inst::Push.stack_effect(), 1);
    assert_eq!(Inst::Add.num_stack_args(), 2);
    assert_eq!(Inst::Add.stack_effect(), -1);
    assert_eq!(Inst::Swap.num_stack_args(), 2);
    assert_eq!(Inst::Swap.stack_effect(), 0);
    assert_eq!(Inst::Jz.num_operands(), 1);
    assert_eq!(Inst::Jz.stack_effect(), -1);
    assert_eq!(Inst::CPop.stack_effect(), 1);
}

#[test]
fn stack_effect_observed_on_execution() {
    // executing from a state with enough arguments and headroom moves the
    // cursor by exactly the stack effect
    let cases = vec![
        ("nop", 0i64),
        ("push 7", 1),
        ("push 1\npush 2\nadd", 1),
        ("push 1\npush 2\nswap", 2),
        ("push 1\ndup", 2),
        ("push 1\npop", 0),
        ("push 1\ncpush", 0),
        ("push 1\ncpush\ncpop", 1),
        ("push 1\ncpush\ncdup", 1),
    ];
    for (src, depth) in cases {
        let (vm, _) = run_ok(src, 16, 16);
        assert_eq!(vm.stack_idx as i64, depth, "{}", src);
    }
}

#[test]
fn scenario_add_dup_print() {
    let (vm, out) = run_ok("push 1\npush 2\nadd\ndup\nprint\nhalt", 8, 8);
    assert_eq!(out, vec![3]);
    assert_eq!(vm.stack_idx, 1);
    assert_eq!(vm.stack[0], 3);
}

#[test]
fn scenario_factorial_of_ten() {
    let source = "
        push 10
        call @fact
        print
        halt

fact:   push 1
        swap
loop:   dup; jz @done
        dup; cpush
        mul
        cpop; push 1; sub
        jump @loop
done:   pop
        ret
    ";
    let (_, out) = run_ok(source, 256, 256);
    assert_eq!(out, vec![3628800]);
}

#[test]
fn scenario_pop_on_empty_underflows() {
    assert_eq!(run_err("pop\nhalt", 8, 8), VmError::StackUnderflow);
}

#[test]
fn underflow_leaves_stack_untouched() {
    let program = stackvm::assembler::assemble("add").unwrap();
    let mut vm = Vm::new(8, 8);
    vm.stack[0] = 42;
    vm.stack_idx = 1;
    let mut out: Vec<i32> = Vec::new();
    let r = vm.execute(&program, &mut out, FUEL);
    assert_eq!(r, Err(VmError::StackUnderflow));
    assert_eq!(vm.stack_idx, 1);
    assert_eq!(vm.stack[0], 42);
    assert!(out.is_empty());
}

#[test]
fn push_at_capacity_overflows() {
    let program = stackvm::assembler::assemble("push 0").unwrap();
    let mut vm = Vm::new(2, 2);
    vm.stack_idx = 2;
    let mut out: Vec<i32> = Vec::new();
    assert_eq!(vm.execute(&program, &mut out, FUEL), Err(VmError::StackOverflow));
    assert_eq!(vm.stack_idx, 2);
}

#[test]
fn push_then_halt_any_literal() {
    for v in vec![0i32, 1, -1, 7, 2147483647, -2147483648] {
        let src = format!("push {}\nhalt", v);
        let (vm, _) = run_ok(&src, 4, 4);
        assert_eq!(vm.stack_idx, 1);
        assert_eq!(vm.stack[0], v);
    }
}

#[test]
fn arithmetic_in_stack_order() {
    // for `a; b; op` the result is `a op b`
    let (vm, _) = run_ok("push 5\npush 3\nsub", 4, 4);
    assert_eq!(vm.stack[0], 2);
    let (vm, _) = run_ok("push 7\npush 3\ndiv", 4, 4);
    assert_eq!(vm.stack[0], 2);
    let (vm, _) = run_ok("push -7\npush 2\ndiv", 4, 4);
    assert_eq!(vm.stack[0], -3, "division truncates toward zero");
    let (vm, _) = run_ok("push -7\npush 2\nmod", 4, 4);
    assert_eq!(vm.stack[0], -1, "remainder keeps the dividend's sign");
    let (vm, _) = run_ok("push 6\npush 7\nmul", 4, 4);
    assert_eq!(vm.stack[0], 42);
}

#[test]
fn arithmetic_wraps() {
    let (vm, _) = run_ok("push 2147483647\npush 1\nadd", 4, 4);
    assert_eq!(vm.stack[0], -2147483648);
    let (vm, _) = run_ok("push -2147483648\npush 1\nsub", 4, 4);
    assert_eq!(vm.stack[0], 2147483647);
    let (vm, _) = run_ok("push -2147483648\npush -1\ndiv", 4, 4);
    assert_eq!(vm.stack[0], -2147483648);
    let (vm, _) = run_ok("push -2147483648\npush -1\nmod", 4, 4);
    assert_eq!(vm.stack[0], 0);
}

#[test]
fn division_by_zero_is_an_error() {
    assert_eq!(run_err("push 1\npush 0\ndiv", 4, 4), VmError::DivisionByZero);
    assert_eq!(run_err("push 1\npush 0\nmod", 4, 4), VmError::DivisionByZero);
}

#[test]
fn comparisons_produce_one_or_zero() {
    let cases = vec![
        ("push 1\npush 1\neq", 1),
        ("push 1\npush 2\neq", 0),
        ("push 1\npush 2\nlt", 1),
        ("push 2\npush 2\nlt", 0),
        ("push 2\npush 2\nlte", 1),
        ("push 3\npush 2\ngt", 1),
        ("push 2\npush 3\ngte", 0),
    ];
    for (src, expect) in cases {
        let (vm, _) = run_ok(src, 4, 4);
        assert_eq!(vm.stack[0], expect, "{}", src);
    }
}

#[test]
fn swap_exchanges_top_two() {
    let (vm, out) = run_ok("push 1\npush 2\nswap\nprint\nprint", 4, 4);
    assert_eq!(out, vec![1, 2]);
    assert_eq!(vm.stack_idx, 0);
}

#[test]
fn conditional_jumps_pop_and_test() {
    // jz taken on zero, jnz taken on non-zero; the condition is consumed
    let (_, out) = run_ok("push 0\njz @skip\npush 9\nprint\nskip: push 7\nprint", 4, 4);
    assert_eq!(out, vec![7]);
    let (_, out) = run_ok("push 1\njz @skip\npush 9\nprint\nskip: push 7\nprint", 4, 4);
    assert_eq!(out, vec![9, 7]);
    let (_, out) = run_ok("push 1\njnz @skip\npush 9\nprint\nskip: push 7\nprint", 4, 4);
    assert_eq!(out, vec![7]);
}

#[test]
fn call_and_ret_roundtrip() {
    let (_, out) = run_ok("call @sub\npush 2\nprint\nhalt\nsub: push 1\nprint\nret", 8, 8);
    assert_eq!(out, vec![1, 2]);
}

#[test]
fn control_stack_moves() {
    // cpush moves to the control stack, cpop moves back, cdup copies
    let (vm, out) = run_ok("push 5\ncpush\ncdup\nprint\ncpop\nprint", 8, 8);
    assert_eq!(out, vec![5, 5]);
    assert_eq!(vm.stack_idx, 0);
    assert_eq!(vm.control_stack_idx, 0);
}

#[test]
fn control_stack_bounds() {
    assert_eq!(run_err("ret", 4, 4), VmError::ControlStackUnderflow);
    assert_eq!(run_err("cpop", 4, 4), VmError::ControlStackUnderflow);
    assert_eq!(run_err("cdup", 4, 4), VmError::ControlStackUnderflow);
    assert_eq!(run_err("push 1\ncpush", 4, 0), VmError::ControlStackOverflow);
    assert_eq!(run_err("call @x\nx: nop", 4, 0), VmError::ControlStackOverflow);
}

#[test]
fn invalid_opcode_detected() {
    let mut vm = Vm::new(4, 4);
    let mut out: Vec<i32> = Vec::new();
    assert_eq!(vm.execute(&[255u8], &mut out, FUEL), Err(VmError::InvalidOpcode));
    assert_eq!(vm.execute(&[25u8], &mut out, FUEL), Err(VmError::InvalidOpcode));
}

#[test]
fn truncated_operand_detected() {
    let mut vm = Vm::new(4, 4);
    let mut out: Vec<i32> = Vec::new();
    // push with only three operand bytes
    assert_eq!(vm.execute(&[3u8, 1, 0, 0], &mut out, FUEL), Err(VmError::UnexpectedProgramEnd));
    // jump with no operand at all
    assert_eq!(vm.execute(&[19u8], &mut out, FUEL), Err(VmError::UnexpectedProgramEnd));
}

#[test]
fn end_of_buffer_ends_the_run() {
    // no halt: reaching the end of the program is a successful stop
    let (vm, _) = run_ok("push 3", 4, 4);
    assert_eq!(vm.stack_idx, 1);
}

#[test]
fn halt_stops_before_later_instructions() {
    let (_, out) = run_ok("push 1\nprint\nhalt\npush 2\nprint", 4, 4);
    assert_eq!(out, vec![1]);
}

#[test]
fn fuel_exhaustion_reported() {
    let program = stackvm::assembler::assemble("loop: jump @loop").unwrap();
    let mut vm = Vm::new(4, 4);
    let mut out: Vec<i32> = Vec::new();
    assert_eq!(vm.execute(&program, &mut out, 10), Err(VmError::FuelExhausted));
}

#[test]
fn initial_stack_depth_respected() {
    // the caller supplies the initial stack contents and depth
    let program = stackvm::assembler::assemble("add\nprint").unwrap();
    let mut vm = Vm::new(8, 8);
    vm.stack[0] = 30;
    vm.stack[1] = 12;
    vm.stack_idx = 2;
    let mut out: Vec<i32> = Vec::new();
    vm.execute(&program, &mut out, FUEL).unwrap();
    assert_eq!(out, vec![42]);
    assert_eq!(vm.stack_idx, 0);
}
