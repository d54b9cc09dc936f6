use asmvm::run::{run_lines, Outcome, RunResult};

fn lines_of(script: &str) -> Vec<Vec<u8>> {
    script.lines().map(|l| l.as_bytes().to_vec()).collect()
}

fn run_batch(script: &str) -> RunResult {
    run_lines(&lines_of(script), true)
}

fn assert_single_output(script: &str, expected: &str) {
    let r = run_batch(script);
    assert_eq!(r.outcome, Outcome::HaltedNormally);
    assert!(r.reported.is_empty());
    assert_eq!(r.outputs.len(), 1);
    assert_eq!(r.outputs[0], expected.as_bytes().to_vec());
}

#[test]
fn test_add_instruction() {
    let script = "MOV r1, #5\nMOV r2, #10\nADD r3, r1, r2\nPRINT r3\nEXIT\n";
    assert_single_output(script, "r3 = 15");
}

#[test]
fn test_sub_instruction() {
    let script = "MOV r1, #20\nMOV r2, #7\nSUB r3, r1, r2\nPRINT r3\nEXIT\n";
    assert_single_output(script, "r3 = 13");
}

#[test]
fn test_adc_instruction() {
    let script = "MOV r1, #5\nMOV r2, #10\nADC r3, r1, r2\nPRINT r3\nEXIT\n";
    assert_single_output(script, "r3 = 15");
}

#[test]
fn test_sbc_instruction() {
    // carry starts clear, so one extra unit is borrowed: 20 - 7 - 1
    let script = "MOV r1, #20\nMOV r2, #7\nSBC r3, r1, r2\nPRINT r3\nEXIT\n";
    assert_single_output(script, "r3 = 12");
}

#[test]
fn test_mul_instruction() {
    let script = "MOV r1, #3\nMOV r2, #4\nMUL r3, r1, r2\nPRINT r3\nEXIT\n";
    assert_single_output(script, "r3 = 12");
}

#[test]
fn test_and_instruction() {
    let script = "MOV r1, #12\nMOV r2, #10\nAND r3, r1, r2\nPRINT r3\nEXIT\n";
    assert_single_output(script, "r3 = 8");
}

#[test]
fn test_orr_instruction() {
    let script = "MOV r1, #4\nMOV r2, #2\nORR r3, r1, r2\nPRINT r3\nEXIT\n";
    assert_single_output(script, "r3 = 6");
}

#[test]
fn test_bic_instruction() {
    let script = "MOV r1, #7\nMOV r2, #6\nBIC r3, r1, r2\nPRINT r3\nEXIT\n";
    assert_single_output(script, "r3 = 1");
}

#[test]
fn test_eor_instruction() {
    let script = "MOV r1, #5\nMOV r2, #3\nEOR r3, r1, r2\nPRINT r3\nEXIT\n";
    assert_single_output(script, "r3 = 6");
}

#[test]
fn test_lsl_instruction() {
    let script = "MOV r1, #1\nLSL r2, r1, #3\nPRINT r2\nEXIT\n";
    assert_single_output(script, "r2 = 8");
}

#[test]
fn test_lsr_instruction() {
    let script = "MOV r1, #16\nLSR r2, r1, #2\nPRINT r2\nEXIT\n";
    assert_single_output(script, "r2 = 4");
}

#[test]
fn test_asr_instruction() {
    let script = "MOV r1, #-32\nASR r2, r1, #2\nPRINT r2\nEXIT\n";
    assert_single_output(script, "r2 = -8");
}

#[test]
fn test_ror_instruction() {
    let script = "MOV r1, #4\nROR r2, r1, #1\nPRINT r2\nEXIT\n";
    assert_single_output(script, "r2 = 2");
}

#[test]
fn test_rrx_instruction() {
    let script = "MOV r1, #8\nRRX r2, r1\nPRINT r2\nEXIT\n";
    assert_single_output(script, "r2 = 4");
}

#[test]
fn mov_hex_literal_prints_decimal() {
    let script = "MOV r1, #0xFF\nPRINT r1\nEXIT\n";
    assert_single_output(script, "r1 = 255");
}

#[test]
fn mov_hex_literal_high_bit_reinterprets_as_signed() {
    // the hex pattern is read unsigned and reinterpreted as a signed word
    let script = "MOV r1, #0xFFFFFFFF\nPRINT r1\nEXIT\n";
    assert_single_output(script, "r1 = -1");
}

#[test]
fn mov_negative_decimal_roundtrips() {
    let script = "MOV r4, #-2147483648\nPRINT r4\nEXIT\n";
    assert_single_output(script, "r4 = -2147483648");
}

#[test]
fn add_wraps_to_thirty_two_bits() {
    // 0x7FFFFFFF + 1 wraps to the smallest signed word
    let script = "MOV r1, #0x7FFFFFFF\nMOV r2, #1\nADD r3, r1, r2\nPRINT r3\nEXIT\n";
    assert_single_output(script, "r3 = -2147483648");
}

#[test]
fn mul_wraps_to_thirty_two_bits() {
    // 65536 * 65536 = 2^32 wraps to zero
    let script = "MOV r1, #65536\nMUL r3, r1, r1\nPRINT r3\nEXIT\n";
    assert_single_output(script, "r3 = 0");
}

#[test]
fn lsl_by_thirty_one_reaches_sign_bit() {
    let script = "MOV r1, #1\nLSL r2, r1, #31\nPRINT r2\nEXIT\n";
    assert_single_output(script, "r2 = -2147483648");
}

#[test]
fn lsr_fills_high_bits_with_zero() {
    // -1 shifted right logically by 28 leaves only the low four bits set
    let script = "MOV r1, #-1\nLSR r2, r1, #28\nPRINT r2\nEXIT\n";
    assert_single_output(script, "r2 = 15");
}

#[test]
fn asr_preserves_sign_to_minus_one() {
    let script = "MOV r1, #-1\nASR r2, r1, #31\nPRINT r2\nEXIT\n";
    assert_single_output(script, "r2 = -1");
}

#[test]
fn ror_by_zero_and_thirty_two_is_identity() {
    let script = "MOV r1, #-19\nROR r2, r1, #0\nPRINT r2\nROR r3, r1, #32\nPRINT r3\nEXIT\n";
    let r = run_batch(script);
    assert_eq!(r.outcome, Outcome::HaltedNormally);
    assert_eq!(r.outputs.len(), 2);
    assert_eq!(r.outputs[0], b"r2 = -19".to_vec());
    assert_eq!(r.outputs[1], b"r3 = -19".to_vec());
}

#[test]
fn adc_sets_carry_on_unsigned_overflow() {
    // unsigned 0xFFFFFFFF + 0xFFFFFFFF overflows: the sum truncates and the
    // carry is set; a following ADC of two zero registers adds the carry in
    let script = "MOV r1, #-1\nADC r2, r1, r1\nPRINT r2\nADC r3, r0, r0\nPRINT r3\nEXIT\n";
    let r = run_batch(script);
    assert_eq!(r.outcome, Outcome::HaltedNormally);
    assert_eq!(r.outputs.len(), 2);
    assert_eq!(r.outputs[0], b"r2 = -2".to_vec());
    assert_eq!(r.outputs[1], b"r3 = 1".to_vec());
}

#[test]
fn sbc_treats_no_borrow_as_carry_one() {
    // an overflowing ADC sets the carry; with carry 1 ("no borrow") a
    // following SBC computes the plain difference
    let script = "MOV r1, #-1\nADC r2, r1, r1\nMOV r3, #20\nMOV r4, #7\nSBC r5, r3, r4\nPRINT r5\nEXIT\n";
    let r = run_batch(script);
    assert_eq!(r.outcome, Outcome::HaltedNormally);
    assert_eq!(r.outputs[0], b"r5 = 13".to_vec());
}

#[test]
fn value_operand_may_be_a_register() {
    let script = "MOV r1, #5\nMOV r2, r1\nPRINT r2\nEXIT\n";
    assert_single_output(script, "r2 = 5");
}

#[test]
fn print_echoes_register_token_as_typed() {
    let script = "MOV r1, #7\nPRINT R1\nEXIT\n";
    assert_single_output(script, "R1 = 7");
}
