use asmvm::bits32::{binop_exec, adc32_exec, sbc32_exec, ror32_exec, rrx32_exec, BinOp};
use asmvm::parse::{parse_register, parse_literal, parse_sdec, i32_to_dec};
use asmvm::machine::Machine;
use asmvm::exec::{step_line, LineOutcome};

#[test]
fn register_tokens_parse_to_indices() {
    assert_eq!(parse_register(b"r0"), Some(0));
    assert_eq!(parse_register(b"R15"), Some(15));
    assert_eq!(parse_register(b"r007"), Some(7));
    assert_eq!(parse_register(b"r16"), None);
    assert_eq!(parse_register(b"r"), None);
    assert_eq!(parse_register(b"x3"), None);
    assert_eq!(parse_register(b"r-1"), None);
}

#[test]
fn literals_parse_decimal_and_hex() {
    assert_eq!(parse_literal(b"15", 0), Some(15));
    assert_eq!(parse_literal(b"-15", 0), Some(-15));
    assert_eq!(parse_literal(b"0x10", 0), Some(16));
    assert_eq!(parse_literal(b"0XFF", 0), Some(255));
    assert_eq!(parse_literal(b"0xFFFFFFFF", 0), Some(-1));
    assert_eq!(parse_literal(b"0x100000000", 0), None);
    assert_eq!(parse_literal(b"2147483647", 0), Some(i32::MAX));
    assert_eq!(parse_literal(b"-2147483648", 0), Some(i32::MIN));
    assert_eq!(parse_literal(b"2147483648", 0), None);
    assert_eq!(parse_literal(b"", 0), None);
    assert_eq!(parse_literal(b"0x", 0), None);
    assert_eq!(parse_literal(b"12a", 0), None);
}

#[test]
fn decimal_rendering_matches_parsing_back() {
    assert_eq!(i32_to_dec(0), b"0".to_vec());
    assert_eq!(i32_to_dec(15), b"15".to_vec());
    assert_eq!(i32_to_dec(-123), b"-123".to_vec());
    assert_eq!(i32_to_dec(i32::MIN), b"-2147483648".to_vec());
    assert_eq!(i32_to_dec(i32::MAX), b"2147483647".to_vec());
    let rendered = i32_to_dec(-90210);
    assert_eq!(parse_sdec(rendered.as_slice(), 0), Some(-90210));
}

#[test]
fn arithmetic_operations_wrap_as_native_words() {
    assert_eq!(binop_exec(BinOp::Add, i32::MAX, 1, 0), (i32::MIN, 0));
    assert_eq!(binop_exec(BinOp::Sub, i32::MIN, 1, 0), (i32::MAX, 0));
    assert_eq!(binop_exec(BinOp::Mul, 65536, 65536, 0), (0, 0));
    assert_eq!(binop_exec(BinOp::And, 12, 10, 0), (8, 0));
    assert_eq!(binop_exec(BinOp::Orr, 4, 2, 0), (6, 0));
    assert_eq!(binop_exec(BinOp::Eor, 5, 3, 0), (6, 0));
    assert_eq!(binop_exec(BinOp::Bic, 7, 6, 0), (1, 0));
}

#[test]
fn shifts_truncate_amounts_to_word_width() {
    assert_eq!(binop_exec(BinOp::Lsl, 1, 3, 0).0, 8);
    assert_eq!(binop_exec(BinOp::Lsl, 1, 32, 0).0, 1);
    assert_eq!(binop_exec(BinOp::Lsr, -1, 28, 0).0, 15);
    assert_eq!(binop_exec(BinOp::Asr, -32, 2, 0).0, -8);
    assert_eq!(binop_exec(BinOp::Asr, -1, 31, 0).0, -1);
}

#[test]
fn rotation_is_circular() {
    assert_eq!(ror32_exec(4, 1), 2);
    assert_eq!(ror32_exec(1, 1), 0x8000_0000);
    assert_eq!(ror32_exec(0xDEAD_BEEF, 0), 0xDEAD_BEEF);
    assert_eq!(ror32_exec(0xDEAD_BEEF, 32), 0xDEAD_BEEF);
    assert_eq!(ror32_exec(ror32_exec(0xDEAD_BEEF, 12), 20), 0xDEAD_BEEF);
}

#[test]
fn rrx_is_a_plain_unsigned_shift_by_one() {
    assert_eq!(rrx32_exec(8), 4);
    assert_eq!(rrx32_exec(-2), i32::MAX);
}

#[test]
fn adc_and_sbc_carry_discipline() {
    // carry out of the unsigned sum
    assert_eq!(adc32_exec(-1, -1, 0), (-2, 1));
    assert_eq!(adc32_exec(1, 2, 0), (3, 0));
    assert_eq!(adc32_exec(1, 2, 1), (4, 0));
    // carry 1 means no borrow pending: plain difference
    assert_eq!(sbc32_exec(20, 7, 1), (13, 1));
    // carry 0 borrows one more
    assert_eq!(sbc32_exec(20, 7, 0), (12, 1));
    // borrowing past zero clears the carry
    assert_eq!(sbc32_exec(3, 5, 1), (-2, 0));
}

#[test]
fn step_line_runs_one_line_against_the_machine() {
    let mut m = Machine::new();
    match step_line(&mut m, b"MOV r3, #21") {
        LineOutcome::Continue => {}
        _ => panic!("expected the move to succeed"),
    }
    match step_line(&mut m, b"PRINT r3") {
        LineOutcome::Emitted(out) => assert_eq!(out, b"r3 = 21".to_vec()),
        _ => panic!("expected a printed line"),
    }
    match step_line(&mut m, b"EXIT") {
        LineOutcome::Halted => {}
        _ => panic!("expected the halt token to halt"),
    }
}

#[test]
fn blank_and_comment_lines_are_skipped() {
    let mut m = Machine::new();
    for line in [&b"   "[..], b"// only a comment", b"", b"  // indented comment"] {
        match step_line(&mut m, line) {
            LineOutcome::Continue => {}
            _ => panic!("expected the line to be skipped"),
        }
    }
}
