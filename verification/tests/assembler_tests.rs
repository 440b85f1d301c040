use stackvm::assembler::{assemble, AsmError};

#[test]
fn encodes_opcodes_and_operands_little_endian() {
    assert_eq!(assemble("nop").unwrap(), vec![0]);
    assert_eq!(assemble("push 1").unwrap(), vec![3, 1, 0, 0, 0]);
    assert_eq!(assemble("push -5").unwrap(), vec![3, 251, 255, 255, 255]);
    assert_eq!(assemble("push 2147483647").unwrap(), vec![3, 255, 255, 255, 127]);
    assert_eq!(assemble("push -2147483648").unwrap(), vec![3, 0, 0, 0, 128]);
    assert_eq!(assemble("push +42").unwrap(), vec![3, 42, 0, 0, 0]);
    assert_eq!(assemble("push 258\nhalt").unwrap(), vec![3, 2, 1, 0, 0, 2]);
}

#[test]
fn statements_split_on_newline_and_semicolon() {
    assert_eq!(assemble("nop;nop\nnop").unwrap(), vec![0, 0, 0]);
    assert_eq!(assemble("").unwrap(), vec![]);
    assert_eq!(assemble("\n\n;;\n  \t \n").unwrap(), vec![]);
    assert_eq!(assemble("  pop  ").unwrap(), vec![5]);
}

#[test]
fn forward_reference_resolves_to_relative_displacement() {
    // use site at offset 1, target at offset 5: displacement 4
    let program = assemble("jump @end\nend:").unwrap();
    assert_eq!(program, vec![19, 4, 0, 0, 0]);
    // executing it lands the cursor exactly at the target offset
    let mut vm = stackvm::vm::Vm::new(4, 4);
    let mut out: Vec<i32> = Vec::new();
    assert_eq!(vm.execute(&program, &mut out, 100), Ok(()));
}

#[test]
fn backward_reference_resolves_negatively() {
    // the use site is at offset 7, the target at offset 0: displacement -7
    let program = assemble("start: nop\npush 1\njz @start").unwrap();
    assert_eq!(program[6], 17);
    assert_eq!(&program[7..11], &[249, 255, 255, 255]);
}

#[test]
fn label_alone_and_label_with_instruction() {
    assert_eq!(assemble("here:\nnop").unwrap(), vec![0]);
    assert_eq!(assemble("here: nop").unwrap(), vec![0]);
    // a label use may come before or after the definition
    let program = assemble("a: jump @b\nb: jump @a").unwrap();
    assert_eq!(program, vec![19, 4, 0, 0, 0, 19, 250, 255, 255, 255]);
}

#[test]
fn undefined_label_fails_assembly() {
    let e = assemble("jump @nowhere").unwrap_err();
    assert_eq!(e, AsmError::UndefinedLabel(b"nowhere".to_vec()));
}

#[test]
fn duplicate_label_fails_assembly() {
    let e = assemble("x: nop\nx: nop").unwrap_err();
    assert_eq!(e, AsmError::DuplicateLabel(b"x".to_vec()));
}

#[test]
fn unknown_mnemonic_fails_assembly() {
    let e = assemble("frobnicate").unwrap_err();
    assert_eq!(e, AsmError::UnknownInstruction(b"frobnicate".to_vec()));
    // mnemonics are case-sensitive
    let e = assemble("NOP").unwrap_err();
    assert_eq!(e, AsmError::UnknownInstruction(b"NOP".to_vec()));
}

#[test]
fn missing_operand_fails_assembly() {
    let e = assemble("push").unwrap_err();
    assert_eq!(e, AsmError::MissingOperand(b"push".to_vec()));
    let e = assemble("jump\nnop").unwrap_err();
    assert_eq!(e, AsmError::MissingOperand(b"jump".to_vec()));
}

#[test]
fn malformed_operand_fails_assembly() {
    assert_eq!(assemble("push x7").unwrap_err(), AsmError::InvalidOperand(b"x7".to_vec()));
    assert_eq!(assemble("push -").unwrap_err(), AsmError::InvalidOperand(b"-".to_vec()));
    assert_eq!(assemble("push 1.5").unwrap_err(), AsmError::InvalidOperand(b"1.5".to_vec()));
    // one past i32::MAX, and far past it
    assert_eq!(
        assemble("push 2147483648").unwrap_err(),
        AsmError::InvalidOperand(b"2147483648".to_vec()),
    );
    assert_eq!(
        assemble("push 99999999999999999999").unwrap_err(),
        AsmError::InvalidOperand(b"99999999999999999999".to_vec()),
    );
    assert_eq!(
        assemble("push -2147483649").unwrap_err(),
        AsmError::InvalidOperand(b"-2147483649".to_vec()),
    );
}

#[test]
fn leading_zeros_and_signs_accepted() {
    assert_eq!(assemble("push 007").unwrap(), vec![3, 7, 0, 0, 0]);
    assert_eq!(assemble("push -0").unwrap(), vec![3, 0, 0, 0, 0]);
}

#[test]
fn first_failure_wins() {
    // the unknown mnemonic on the first statement is reported, not the
    // missing label later
    let e = assemble("bogus\njump @nowhere").unwrap_err();
    assert_eq!(e, AsmError::UnknownInstruction(b"bogus".to_vec()));
}

#[test]
fn empty_label_name_is_a_name() {
    // a bare colon defines the empty label; `@` with nothing after it
    // references it
    let program = assemble(": nop\njump @").unwrap();
    assert_eq!(program, vec![0, 19, 254, 255, 255, 255]);
}

#[test]
fn tokens_after_a_statement_are_ignored() {
    assert_eq!(assemble("nop extra words").unwrap(), vec![0]);
    assert_eq!(assemble("push 1 extra").unwrap(), vec![3, 1, 0, 0, 0]);
}

#[test]
fn label_must_open_the_statement() {
    // only the first token can define a label: a colon-ended token in
    // mnemonic position is looked up as a mnemonic, colon included
    let e = assemble("x: here: nop").unwrap_err();
    assert_eq!(e, AsmError::UnknownInstruction(b"here:".to_vec()));
}
