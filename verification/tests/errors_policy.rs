use asmvm::run::{run_lines, Outcome, RunResult};
use asmvm::instr::ExecError;

fn lines_of(script: &str) -> Vec<Vec<u8>> {
    script.lines().map(|l| l.as_bytes().to_vec()).collect()
}

fn run_batch(script: &str) -> RunResult {
    run_lines(&lines_of(script), true)
}

fn first_batch_error(script: &str) -> Outcome {
    run_batch(script).outcome
}

#[test]
fn scenario_add_and_print() {
    let script = "MOV r1, #5\nMOV r2, #10\nADD r3, r1, r2\nPRINT r3\nEXIT\n";
    let r = run_batch(script);
    assert_eq!(r.outputs, vec![b"r3 = 15".to_vec()]);
    assert_eq!(r.outcome, Outcome::HaltedNormally);
}

#[test]
fn scenario_store_load_register_indirect() {
    let script = "MOV r0, #20\nMOV r1, #789\nSTR r1, [r0]\nLDR r2, [r0]\nPRINT r2\nEXIT\n";
    let r = run_batch(script);
    assert_eq!(r.outputs, vec![b"r2 = 789".to_vec()]);
    assert_eq!(r.outcome, Outcome::HaltedNormally);
}

#[test]
fn scenario_store_load_register_offset() {
    let script = "MOV r0, #30\nMOV r1, #101\nSTR r1, [r0,#4]\nLDR r2, [r0,#4]\nPRINT r2\nEXIT\n";
    let r = run_batch(script);
    assert_eq!(r.outputs, vec![b"r2 = 101".to_vec()]);
    assert_eq!(r.outcome, Outcome::HaltedNormally);
}

#[test]
fn scenario_unknown_opcode_batch_aborts_interactive_continues() {
    let script = "MOV r1, #1\nFROB r1, #2\nMOV r2, #3\nPRINT r2\nEXIT\n";
    // batch: the unknown opcode ends the run; no later line is executed
    let b = run_batch(script);
    assert_eq!(b.outcome, Outcome::UnknownInstructionBatchAbort);
    assert!(b.outputs.is_empty());
    // interactive: the error is reported and the rest of the script runs
    let i = run_lines(&lines_of(script), false);
    assert_eq!(i.outcome, Outcome::HaltedNormally);
    assert_eq!(i.reported, vec![ExecError::UnknownInstruction]);
    assert_eq!(i.outputs, vec![b"r2 = 3".to_vec()]);
}

#[test]
fn batch_fatal_error_executes_no_later_line() {
    let script = "MOV r1, #5\nMOV r20, #1\nPRINT r1\nEXIT\n";
    let r = run_batch(script);
    assert_eq!(r.outcome, Outcome::FatalError(ExecError::BadRegister));
    assert!(r.outputs.is_empty());
}

#[test]
fn wrong_operand_count_is_rejected() {
    assert_eq!(
        first_batch_error("MOV r1\nEXIT\n"),
        Outcome::FatalError(ExecError::WrongOperandCount)
    );
}

#[test]
fn missing_comma_is_rejected() {
    assert_eq!(
        first_batch_error("MOV r1 #5\nEXIT\n"),
        Outcome::FatalError(ExecError::MissingComma)
    );
}

#[test]
fn bad_register_is_rejected() {
    assert_eq!(
        first_batch_error("MOV r16, #5\nEXIT\n"),
        Outcome::FatalError(ExecError::BadRegister)
    );
}

#[test]
fn bad_immediate_is_rejected() {
    assert_eq!(
        first_batch_error("MOV r1, #5x\nEXIT\n"),
        Outcome::FatalError(ExecError::BadValue)
    );
}

#[test]
fn bad_address_operand_form_is_rejected() {
    // the offset of the register-offset form must carry the immediate marker
    assert_eq!(
        first_batch_error("MOV r0, #0\nLDR r1, [r0,4]\nEXIT\n"),
        Outcome::FatalError(ExecError::BadAddressOperand)
    );
}

#[test]
fn negative_absolute_address_is_rejected() {
    assert_eq!(
        first_batch_error("MOV r1, #5\nSTR r1, #-4\nEXIT\n"),
        Outcome::FatalError(ExecError::NegativeAddress)
    );
}

#[test]
fn undefined_label_is_rejected() {
    assert_eq!(
        first_batch_error("LDR r1, nowhere\nEXIT\n"),
        Outcome::FatalError(ExecError::UndefinedLabel)
    );
}

#[test]
fn out_of_bounds_address_is_rejected() {
    assert_eq!(
        first_batch_error("MOV r1, #5\nSTR r1, #1024\nEXIT\n"),
        Outcome::FatalError(ExecError::AddressOutOfBounds)
    );
}

#[test]
fn duplicate_label_is_rejected_in_batch() {
    assert_eq!(
        first_batch_error("a:\na:\nEXIT\n"),
        Outcome::FatalError(ExecError::DuplicateLabel)
    );
}

#[test]
fn bad_label_data_is_rejected() {
    assert_eq!(
        first_batch_error("a: #notanumber\nEXIT\n"),
        Outcome::FatalError(ExecError::BadLabelData)
    );
}

#[test]
fn label_table_fills_at_memory_bound() {
    // 1024 labels fill the table; the next definition is rejected
    let mut lines: Vec<Vec<u8>> = Vec::new();
    for i in 0..1025 {
        lines.push(format!("label{}:", i).into_bytes());
    }
    lines.push(b"EXIT".to_vec());
    let r = run_lines(&lines, false);
    assert_eq!(r.outcome, Outcome::HaltedNormally);
    assert_eq!(r.reported, vec![ExecError::LabelTableFull]);
}

#[test]
fn interactive_keeps_state_across_reported_errors() {
    let script = "MOV r1, #8\nBLORP\nADD r2, r1, r1\nPRINT r2\nEXIT\n";
    let r = run_lines(&lines_of(script), false);
    assert_eq!(r.outcome, Outcome::HaltedNormally);
    assert_eq!(r.reported, vec![ExecError::UnknownInstruction]);
    assert_eq!(r.outputs, vec![b"r2 = 16".to_vec()]);
}

#[test]
fn end_of_input_halts_normally() {
    let r = run_batch("MOV r1, #1\nPRINT r1\n");
    assert_eq!(r.outcome, Outcome::HaltedNormally);
    assert_eq!(r.outputs, vec![b"r1 = 1".to_vec()]);
}

#[test]
fn exit_is_case_insensitive_and_stops_the_run() {
    let r = run_batch("MOV r1, #1\nexit\nPRINT r1\n");
    assert_eq!(r.outcome, Outcome::HaltedNormally);
    assert!(r.outputs.is_empty());
}

#[test]
fn error_descriptions_name_the_failure() {
    assert_eq!(
        ExecError::UnknownInstruction.describe(),
        "unknown instruction"
    );
    assert_eq!(
        ExecError::DuplicateLabel.describe(),
        "duplicate label definition"
    );
}
