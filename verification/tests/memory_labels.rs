use asmvm::run::{run_lines, Outcome, RunResult};

fn lines_of(script: &str) -> Vec<Vec<u8>> {
    script.lines().map(|l| l.as_bytes().to_vec()).collect()
}

fn run_batch(script: &str) -> RunResult {
    run_lines(&lines_of(script), true)
}

fn assert_single_output(script: &str, expected: &str) {
    let r = run_batch(script);
    assert_eq!(r.outcome, Outcome::HaltedNormally);
    assert!(r.reported.is_empty());
    assert_eq!(r.outputs.len(), 1);
    assert_eq!(r.outputs[0], expected.as_bytes().to_vec());
}

#[test]
fn test_ldr_str_label() {
    let script = "data_val:\nMOV r0, #123\nSTR r0, data_val\nMOV r1, #0\nLDR r1, data_val\nPRINT r1\nEXIT\n";
    assert_single_output(script, "r1 = 123");
}

#[test]
fn test_ldr_str_immediate_address() {
    let script = "MOV r0, #456\nSTR r0, #10\nMOV r1, #0\nLDR r1, #10\nPRINT r1\nEXIT\n";
    assert_single_output(script, "r1 = 456");
}

#[test]
fn test_ldr_str_register_indirect() {
    let script = "MOV r0, #20\nMOV r1, #789\nSTR r1, [r0]\nMOV r2, #0\nLDR r2, [r0]\nPRINT r2\nEXIT\n";
    assert_single_output(script, "r2 = 789");
}

#[test]
fn test_ldr_str_register_indirect_offset() {
    let script = "MOV r0, #30\nMOV r1, #101\nSTR r1, [r0,#4]\nMOV r2, #0\nLDR r2, [r0,#4]\nPRINT r2\nEXIT\n";
    assert_single_output(script, "r2 = 101");
}

#[test]
fn test_ldr_str_register_indirect_negative_offset() {
    let script = "MOV r0, #40\nMOV r1, #202\nSTR r1, [r0,#-2]\nMOV r2, #0\nLDR r2, [r0,#-2]\nPRINT r2\nEXIT\n";
    assert_single_output(script, "r2 = 202");
}

#[test]
fn test_comments_and_labels() {
    let script = "// This is a full line comment\ndata_start: // This is a label\nMOV r0, #10 // Move 10 to r0\n// Another comment\nSTR r0, data_start // Store r0 to data_start\nLDR r1, data_start // Load from data_start to r1\nPRINT r1 // Should print 10\nEXIT\n";
    assert_single_output(script, "r1 = 10");
}

#[test]
fn test_empty_lines_and_whitespace_with_comments() {
    let script = "\n// Comment after empty line\nMOV r5, #55\n\nPRINT r5 // Expect 55\n// Comment at end of file\nEXIT\n";
    assert_single_output(script, "r5 = 55");
}

#[test]
fn labels_take_sequential_addresses_from_zero() {
    // first label at address 0, second at address 1: the initialized word of
    // the second label is readable both by name and by absolute address 1
    let script = "first:\nsecond: #77\nLDR r1, second\nPRINT r1\nLDR r2, #1\nPRINT r2\nLDR r3, #0\nPRINT r3\nEXIT\n";
    let r = run_batch(script);
    assert_eq!(r.outcome, Outcome::HaltedNormally);
    assert_eq!(r.outputs.len(), 3);
    assert_eq!(r.outputs[0], b"r1 = 77".to_vec());
    assert_eq!(r.outputs[1], b"r2 = 77".to_vec());
    assert_eq!(r.outputs[2], b"r3 = 0".to_vec());
}

#[test]
fn label_with_hex_initializer() {
    let script = "word: #0x1F\nLDR r1, word\nPRINT r1\nEXIT\n";
    assert_single_output(script, "r1 = 31");
}

#[test]
fn label_followed_by_instruction_on_same_line() {
    let script = "here: MOV r1, #9\nPRINT r1\nEXIT\n";
    assert_single_output(script, "r1 = 9");
}

#[test]
fn duplicate_label_keeps_original_mapping_and_memory() {
    // interactively the redefinition is reported and everything stays as it was
    let script = "v: #5\nv: #9\nLDR r1, v\nPRINT r1\nEXIT\n";
    let r = run_lines(&lines_of(script), false);
    assert_eq!(r.outcome, Outcome::HaltedNormally);
    assert_eq!(r.reported, vec![asmvm::instr::ExecError::DuplicateLabel]);
    assert_eq!(r.outputs.len(), 1);
    assert_eq!(r.outputs[0], b"r1 = 5".to_vec());
}

#[test]
fn malformed_label_data_rolls_back_registration() {
    // the bad initializer rejects the whole definition; the name stays free
    // and is accepted afterwards
    let script = "w: #zz\nw: #3\nLDR r1, w\nPRINT r1\nEXIT\n";
    let r = run_lines(&lines_of(script), false);
    assert_eq!(r.outcome, Outcome::HaltedNormally);
    assert_eq!(r.reported, vec![asmvm::instr::ExecError::BadLabelData]);
    assert_eq!(r.outputs[0], b"r1 = 3".to_vec());
}

#[test]
fn negative_offset_saturates_at_address_zero() {
    // base 1 with offset -5 saturates to address 0 rather than wrapping
    let script = "MOV r0, #1\nMOV r1, #42\nSTR r1, [r0,#-5]\nLDR r2, #0\nPRINT r2\nEXIT\n";
    assert_single_output(script, "r2 = 42");
}

#[test]
fn store_then_load_through_all_four_address_forms() {
    let script = "slot: \nMOV r0, #0\nMOV r1, #11\nSTR r1, slot\nLDR r2, #0\nPRINT r2\nMOV r3, #12\nSTR r3, [r0]\nLDR r4, [r0,#0]\nPRINT r4\nEXIT\n";
    let r = run_batch(script);
    assert_eq!(r.outcome, Outcome::HaltedNormally);
    assert_eq!(r.outputs.len(), 2);
    assert_eq!(r.outputs[0], b"r2 = 11".to_vec());
    assert_eq!(r.outputs[1], b"r4 = 12".to_vec());
}
