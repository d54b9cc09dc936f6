//! Execution dispatch, first half: the error taxonomy, the address-operand
//! resolver, and the decoder that turns the tokens of a line into a typed
//! instruction with its operands already resolved against the machine state.

use vstd::prelude::*;
use crate::scan::{to_upper, to_upper_exec, strip_commas, strip_commas_exec, find_byte_from,
    find_byte, copy_range, views_of, B_COMMA, B_HASH, B_LBRACKET, B_RBRACKET};
use crate::parse::{parse_register_spec, parse_register, parse_value_spec, parse_value,
    parse_literal_spec, parse_literal};
use crate::machine::{Machine, MachineView, find_label, MEMORY_SIZE, NUM_REGISTERS};
use crate::bits32::BinOp;

verus! {

/// Everything a line can be rejected for. Wrong operand counts and missing
/// separators are syntax errors; bad registers, literals, address forms and
/// undefined labels are operand errors; exceeded memory or label capacity are
/// bounds errors; duplicate labels and unknown opcodes are semantic errors.
#[derive(Clone, Copy, PartialEq, Eq, Structural, Debug)]
pub enum ExecError {
    WrongOperandCount,
    MissingComma,
    BadRegister,
    BadValue,
    BadAddressOperand,
    NegativeAddress,
    UndefinedLabel,
    AddressOutOfBounds,
    DuplicateLabel,
    LabelTableFull,
    BadLabelData,
    UnknownInstruction,
}

/// The report text of each error.
pub open spec fn describe_spec(e: ExecError) -> Seq<char> {
    match e {
        ExecError::WrongOperandCount => "wrong number of operands for this instruction"@,
        ExecError::MissingComma => "syntax error: missing comma after an operand"@,
        ExecError::BadRegister => "invalid register name: use r0 through r15"@,
        ExecError::BadValue => "invalid immediate or register operand"@,
        ExecError::BadAddressOperand => "invalid address operand format"@,
        ExecError::NegativeAddress => "memory address cannot be negative"@,
        ExecError::UndefinedLabel => "undefined label"@,
        ExecError::AddressOutOfBounds => "memory access out of bounds"@,
        ExecError::DuplicateLabel => "duplicate label definition"@,
        ExecError::LabelTableFull => "out of memory for new labels/data"@,
        ExecError::BadLabelData => "invalid value for label data initialization"@,
        ExecError::UnknownInstruction => "unknown instruction"@,
    }
}

impl ExecError {
    /// A one-line description of the error, for reporting.
    pub fn describe(&self) -> (r: &'static str)
        ensures
            r@ == describe_spec(*self),
    {
        match self {
            ExecError::WrongOperandCount => "wrong number of operands for this instruction",
            ExecError::MissingComma => "syntax error: missing comma after an operand",
            ExecError::BadRegister => "invalid register name: use r0 through r15",
            ExecError::BadValue => "invalid immediate or register operand",
            ExecError::BadAddressOperand => "invalid address operand format",
            ExecError::NegativeAddress => "memory address cannot be negative",
            ExecError::UndefinedLabel => "undefined label",
            ExecError::AddressOutOfBounds => "memory access out of bounds",
            ExecError::DuplicateLabel => "duplicate label definition",
            ExecError::LabelTableFull => "out of memory for new labels/data",
            ExecError::BadLabelData => "invalid value for label data initialization",
            ExecError::UnknownInstruction => "unknown instruction",
        }
    }
}

/// Where an address operand resolves to, before the bounds check: the
/// register-indirect forms demand a nonnegative base, an offset saturates at
/// address zero, a bare immediate must be nonnegative, and a bare identifier
/// is a label lookup.
pub open spec fn resolve_addr_spec(t: Seq<u8>, regs: Seq<i32>, labels: Seq<Seq<u8>>) -> Result<
    int,
    ExecError,
> {
    if t.len() >= 1 && t[0] == B_LBRACKET && t.last() == B_RBRACKET {
        let inner = t.subrange(1, t.len() - 1);
        match find_byte_from(inner, B_COMMA, 0) {
            None => match parse_register_spec(inner) {
                Some(r) => {
                    if regs[r] < 0 {
                        Err(ExecError::AddressOutOfBounds)
                    } else {
                        Ok(regs[r] as int)
                    }
                },
                None => Err(ExecError::BadRegister),
            },
            Some(c) => {
                let rtok = inner.subrange(0, c);
                let otok = inner.subrange(c + 1, inner.len() as int);
                if find_byte_from(otok, B_COMMA, 0) is Some {
                    Err(ExecError::BadAddressOperand)
                } else {
                    match parse_register_spec(rtok) {
                        Some(r) => {
                            if otok.len() > 0 && otok[0] == B_HASH {
                                match parse_literal_spec(otok.drop_first()) {
                                    Some(off) => {
                                        if regs[r] < 0 {
                                            Err(ExecError::AddressOutOfBounds)
                                        } else if regs[r] + off < 0 {
                                            Ok(0)
                                        } else {
                                            Ok(regs[r] + off)
                                        }
                                    },
                                    None => Err(ExecError::BadValue),
                                }
                            } else {
                                Err(ExecError::BadAddressOperand)
                            }
                        },
                        None => Err(ExecError::BadRegister),
                    }
                }
            },
        }
    } else if t.len() > 0 && t[0] == B_HASH {
        match parse_literal_spec(t.drop_first()) {
            Some(v) => {
                if v < 0 {
                    Err(ExecError::NegativeAddress)
                } else {
                    Ok(v as int)
                }
            },
            None => Err(ExecError::BadValue),
        }
    } else {
        match find_label(labels, t, 0) {
            Some(a) => Ok(a),
            None => Err(ExecError::UndefinedLabel),
        }
    }
}

pub fn resolve_addr(t: &[u8], m: &Machine) -> (r: Result<usize, ExecError>)
    requires
        m@.wf(),
    ensures
        match r {
            Ok(a) => resolve_addr_spec(t@, m@.regs, m@.labels) == Ok::<int, ExecError>(a as int),
            Err(e) => resolve_addr_spec(t@, m@.regs, m@.labels) == Err::<int, ExecError>(e),
        },
{
    if t.len() >= 1 && t[0] == B_LBRACKET && t[t.len() - 1] == B_RBRACKET {
        let inner = copy_range(t, 1, t.len() - 1);
        match find_byte(inner.as_slice(), B_COMMA) {
            None => {
                match parse_register(inner.as_slice()) {
                    Some(r) => {
                        let base = m.get_reg(r);
                        if base < 0 {
                            Err(ExecError::AddressOutOfBounds)
                        } else {
                            Ok(base as usize)
                        }
                    },
                    None => Err(ExecError::BadRegister),
                }
            },
            Some(c) => {
                let rtok = copy_range(inner.as_slice(), 0, c);
                let otok = copy_range(inner.as_slice(), c + 1, inner.len());
                if find_byte(otok.as_slice(), B_COMMA).is_some() {
                    return Err(ExecError::BadAddressOperand);
                }
                match parse_register(rtok.as_slice()) {
                    Some(r) => {
                        if otok.len() > 0 && otok[0] == B_HASH {
                            proof {
                                assert(otok@.drop_first() =~= otok@.subrange(
                                    1,
                                    otok@.len() as int,
                                ));
                            }
                            match parse_literal(otok.as_slice(), 1) {
                                Some(off) => {
                                    let base = m.get_reg(r);
                                    if base < 0 {
                                        Err(ExecError::AddressOutOfBounds)
                                    } else {
                                        let a: i64 = (base as i64) + (off as i64);
                                        if a < 0 {
                                            Ok(0)
                                        } else {
                                            Ok(a as usize)
                                        }
                                    }
                                },
                                None => Err(ExecError::BadValue),
                            }
                        } else {
                            Err(ExecError::BadAddressOperand)
                        }
                    },
                    None => Err(ExecError::BadRegister),
                }
            },
        }
    } else if t.len() > 0 && t[0] == B_HASH {
        proof {
            assert(t@.drop_first() =~= t@.subrange(1, t@.len() as int));
        }
        match parse_literal(t, 1) {
            Some(v) => {
                if v < 0 {
                    Err(ExecError::NegativeAddress)
                } else {
                    Ok(v as usize)
                }
            },
            None => Err(ExecError::BadValue),
        }
    } else {
        match m.lookup_label(t) {
            Some(a) => {
                proof {
                    crate::machine::lemma_find_label_valid(m@.labels, t@, 0);
                }
                Ok(a)
            },
            None => Err(ExecError::UndefinedLabel),
        }
    }
}

/// A decoded instruction: one variant per opcode shape, operands already
/// resolved to register indices, values and addresses.
#[derive(Clone, Copy, PartialEq, Eq, Structural, Debug)]
pub enum Instr {
    Mov { dest: usize, val: i32 },
    Binary { op: BinOp, dest: usize, lhs: i32, rhs: i32 },
    Rrx { dest: usize, src: i32 },
    Ldr { dest: usize, addr: usize },
    Str { addr: usize, val: i32 },
    Print { reg: usize },
}

/// Register indices below the register count, addresses below the memory
/// bound: what decoding guarantees and execution relies on.
pub open spec fn instr_wf(i: Instr) -> bool {
    match i {
        Instr::Mov { dest, .. } => dest < NUM_REGISTERS,
        Instr::Binary { dest, .. } => dest < NUM_REGISTERS,
        Instr::Rrx { dest, .. } => dest < NUM_REGISTERS,
        Instr::Ldr { dest, addr } => dest < NUM_REGISTERS && addr < MEMORY_SIZE,
        Instr::Str { addr, .. } => addr < MEMORY_SIZE,
        Instr::Print { reg } => reg < NUM_REGISTERS,
    }
}

/// Case-insensitive match of a token against a three-byte upper-case keyword.
pub open spec fn kw3(t: Seq<u8>, a: u8, b: u8, c: u8) -> bool {
    t.len() == 3 && to_upper(t[0]) == a && to_upper(t[1]) == b && to_upper(t[2]) == c
}

pub open spec fn kw5(t: Seq<u8>, a: u8, b: u8, c: u8, d: u8, e: u8) -> bool {
    t.len() == 5 && to_upper(t[0]) == a && to_upper(t[1]) == b && to_upper(t[2]) == c && to_upper(
        t[3],
    ) == d && to_upper(t[4]) == e
}

pub fn is_kw3(t: &[u8], a: u8, b: u8, c: u8) -> (r: bool)
    ensures
        r == kw3(t@, a, b, c),
{
    t.len() == 3 && to_upper_exec(t[0]) == a && to_upper_exec(t[1]) == b && to_upper_exec(t[2])
        == c
}

pub fn is_kw5(t: &[u8], a: u8, b: u8, c: u8, d: u8, e: u8) -> (r: bool)
    ensures
        r == kw5(t@, a, b, c, d, e),
{
    t.len() == 5 && to_upper_exec(t[0]) == a && to_upper_exec(t[1]) == b && to_upper_exec(t[2])
        == c && to_upper_exec(t[3]) == d && to_upper_exec(t[4]) == e
}

/// An operand token carries its trailing comma separator.
pub open spec fn ends_comma(t: Seq<u8>) -> bool {
    t.len() > 0 && t.last() == B_COMMA
}

fn ends_comma_exec(t: &[u8]) -> (r: bool)
    ensures
        r == ends_comma(t@),
{
    t.len() > 0 && t[t.len() - 1] == B_COMMA
}

/// Move: a destination register with its comma, then a value operand.
pub open spec fn decode_mov_spec(toks: Seq<Seq<u8>>, regs: Seq<i32>) -> Result<Instr, ExecError> {
    if toks.len() != 3 {
        Err(ExecError::WrongOperandCount)
    } else if !ends_comma(toks[1]) {
        Err(ExecError::MissingComma)
    } else {
        match parse_register_spec(strip_commas(toks[1])) {
            Some(d) => match parse_value_spec(toks[2], regs) {
                Some(v) => Ok(Instr::Mov { dest: d as usize, val: v }),
                None => Err(ExecError::BadValue),
            },
            None => Err(ExecError::BadRegister),
        }
    }
}

/// The shared shape of the three-operand operations: destination register and
/// first operand register, each with its comma, then a value operand.
pub open spec fn decode_binary_spec(op: BinOp, toks: Seq<Seq<u8>>, regs: Seq<i32>) -> Result<
    Instr,
    ExecError,
> {
    if toks.len() != 4 {
        Err(ExecError::WrongOperandCount)
    } else if !ends_comma(toks[1]) || !ends_comma(toks[2]) {
        Err(ExecError::MissingComma)
    } else {
        match parse_register_spec(strip_commas(toks[1])) {
            Some(d) => match parse_register_spec(strip_commas(toks[2])) {
                Some(s1) => match parse_value_spec(toks[3], regs) {
                    Some(v) => Ok(
                        Instr::Binary { op, dest: d as usize, lhs: regs[s1], rhs: v },
                    ),
                    None => Err(ExecError::BadValue),
                },
                None => Err(ExecError::BadRegister),
            },
            None => Err(ExecError::BadRegister),
        }
    }
}

/// Rotate-without-carry: destination with its comma, then a bare source
/// register.
pub open spec fn decode_rrx_spec(toks: Seq<Seq<u8>>, regs: Seq<i32>) -> Result<Instr, ExecError> {
    if toks.len() != 3 {
        Err(ExecError::WrongOperandCount)
    } else if !ends_comma(toks[1]) {
        Err(ExecError::MissingComma)
    } else {
        match parse_register_spec(strip_commas(toks[1])) {
            Some(d) => match parse_register_spec(toks[2]) {
                Some(s1) => Ok(Instr::Rrx { dest: d as usize, src: regs[s1] }),
                None => Err(ExecError::BadRegister),
            },
            None => Err(ExecError::BadRegister),
        }
    }
}

/// Load: destination register with its comma, then an address operand that
/// must resolve within the memory bound.
pub open spec fn decode_ldr_spec(toks: Seq<Seq<u8>>, regs: Seq<i32>, labels: Seq<Seq<u8>>) -> Result<
    Instr,
    ExecError,
> {
    if toks.len() != 3 {
        Err(ExecError::WrongOperandCount)
    } else if !ends_comma(toks[1]) {
        Err(ExecError::MissingComma)
    } else {
        match parse_register_spec(strip_commas(toks[1])) {
            Some(d) => match resolve_addr_spec(toks[2], regs, labels) {
                Ok(a) => {
                    if a < MEMORY_SIZE {
                        Ok(Instr::Ldr { dest: d as usize, addr: a as usize })
                    } else {
                        Err(ExecError::AddressOutOfBounds)
                    }
                },
                Err(e) => Err(e),
            },
            None => Err(ExecError::BadRegister),
        }
    }
}

/// Store: source register with its comma, then an address operand that must
/// resolve within the memory bound.
pub open spec fn decode_str_spec(toks: Seq<Seq<u8>>, regs: Seq<i32>, labels: Seq<Seq<u8>>) -> Result<
    Instr,
    ExecError,
> {
    if toks.len() != 3 {
        Err(ExecError::WrongOperandCount)
    } else if !ends_comma(toks[1]) {
        Err(ExecError::MissingComma)
    } else {
        match parse_register_spec(strip_commas(toks[1])) {
            Some(s1) => match resolve_addr_spec(toks[2], regs, labels) {
                Ok(a) => {
                    if a < MEMORY_SIZE {
                        Ok(Instr::Str { addr: a as usize, val: regs[s1] })
                    } else {
                        Err(ExecError::AddressOutOfBounds)
                    }
                },
                Err(e) => Err(e),
            },
            None => Err(ExecError::BadRegister),
        }
    }
}

/// Print: one bare register operand.
pub open spec fn decode_print_spec(toks: Seq<Seq<u8>>) -> Result<Instr, ExecError> {
    if toks.len() != 2 {
        Err(ExecError::WrongOperandCount)
    } else {
        match parse_register_spec(toks[1]) {
            Some(rg) => Ok(Instr::Print { reg: rg as usize }),
            None => Err(ExecError::BadRegister),
        }
    }
}

/// The decoder: the first token, uppercased, names the opcode; each opcode
/// then enforces its own operand count and separator syntax and resolves its
/// operands. An unrecognized opcode is the unknown-instruction error.
pub open spec fn decode_spec(toks: Seq<Seq<u8>>, regs: Seq<i32>, labels: Seq<Seq<u8>>) -> Result<
    Instr,
    ExecError,
>
    recommends
        toks.len() > 0,
{
    let op = toks[0];
    if kw3(op, 77, 79, 86) {  // MOV
        decode_mov_spec(toks, regs)
    } else if kw3(op, 65, 68, 68) {  // ADD
        decode_binary_spec(BinOp::Add, toks, regs)
    } else if kw3(op, 83, 85, 66) {  // SUB
        decode_binary_spec(BinOp::Sub, toks, regs)
    } else if kw3(op, 65, 68, 67) {  // ADC
        decode_binary_spec(BinOp::Adc, toks, regs)
    } else if kw3(op, 83, 66, 67) {  // SBC
        decode_binary_spec(BinOp::Sbc, toks, regs)
    } else if kw3(op, 76, 83, 76) {  // LSL
        decode_binary_spec(BinOp::Lsl, toks, regs)
    } else if kw3(op, 76, 83, 82) {  // LSR
        decode_binary_spec(BinOp::Lsr, toks, regs)
    } else if kw3(op, 65, 83, 82) {  // ASR
        decode_binary_spec(BinOp::Asr, toks, regs)
    } else if kw3(op, 82, 79, 82) {  // ROR
        decode_binary_spec(BinOp::Ror, toks, regs)
    } else if kw3(op, 82, 82, 88) {  // RRX
        decode_rrx_spec(toks, regs)
    } else if kw3(op, 77, 85, 76) {  // MUL
        decode_binary_spec(BinOp::Mul, toks, regs)
    } else if kw3(op, 65, 78, 68) {  // AND
        decode_binary_spec(BinOp::And, toks, regs)
    } else if kw3(op, 79, 82, 82) {  // ORR
        decode_binary_spec(BinOp::Orr, toks, regs)
    } else if kw3(op, 69, 79, 82) {  // EOR
        decode_binary_spec(BinOp::Eor, toks, regs)
    } else if kw3(op, 66, 73, 67) {  // BIC
        decode_binary_spec(BinOp::Bic, toks, regs)
    } else if kw3(op, 76, 68, 82) {  // LDR
        decode_ldr_spec(toks, regs, labels)
    } else if kw3(op, 83, 84, 82) {  // STR
        decode_str_spec(toks, regs, labels)
    } else if kw5(op, 80, 82, 73, 78, 84) {  // PRINT
        decode_print_spec(toks)
    } else {
        Err(ExecError::UnknownInstruction)
    }
}

fn decode_mov(toks: &Vec<Vec<u8>>, m: &Machine) -> (r: Result<Instr, ExecError>)
    requires
        m@.wf(),
        views_of(toks@).len() > 0,
    ensures
        r == decode_mov_spec(views_of(toks@), m@.regs),
        r matches Ok(i) ==> instr_wf(i),
{
    proof {
        lemma_views_index(toks@);
    }
    if toks.len() != 3 {
        Err(ExecError::WrongOperandCount)
    } else if !ends_comma_exec(toks[1].as_slice()) {
        Err(ExecError::MissingComma)
    } else {
        let rtok = strip_commas_exec(toks[1].as_slice());
        match parse_register(rtok.as_slice()) {
            Some(d) => match parse_value(toks[2].as_slice(), &m.regs) {
                Some(v) => Ok(Instr::Mov { dest: d, val: v }),
                None => Err(ExecError::BadValue),
            },
            None => Err(ExecError::BadRegister),
        }
    }
}

fn decode_binary(op: BinOp, toks: &Vec<Vec<u8>>, m: &Machine) -> (r: Result<Instr, ExecError>)
    requires
        m@.wf(),
        views_of(toks@).len() > 0,
    ensures
        r == decode_binary_spec(op, views_of(toks@), m@.regs),
        r matches Ok(i) ==> instr_wf(i),
{
    proof {
        lemma_views_index(toks@);
    }
    if toks.len() != 4 {
        Err(ExecError::WrongOperandCount)
    } else if !ends_comma_exec(toks[1].as_slice()) || !ends_comma_exec(toks[2].as_slice()) {
        Err(ExecError::MissingComma)
    } else {
        let dtok = strip_commas_exec(toks[1].as_slice());
        match parse_register(dtok.as_slice()) {
            Some(d) => {
                let stok = strip_commas_exec(toks[2].as_slice());
                match parse_register(stok.as_slice()) {
                    Some(s1) => match parse_value(toks[3].as_slice(), &m.regs) {
                        Some(v) => Ok(
                            Instr::Binary { op, dest: d, lhs: m.get_reg(s1), rhs: v },
                        ),
                        None => Err(ExecError::BadValue),
                    },
                    None => Err(ExecError::BadRegister),
                }
            },
            None => Err(ExecError::BadRegister),
        }
    }
}

fn decode_rrx(toks: &Vec<Vec<u8>>, m: &Machine) -> (r: Result<Instr, ExecError>)
    requires
        m@.wf(),
        views_of(toks@).len() > 0,
    ensures
        r == decode_rrx_spec(views_of(toks@), m@.regs),
        r matches Ok(i) ==> instr_wf(i),
{
    proof {
        lemma_views_index(toks@);
    }
    if toks.len() != 3 {
        Err(ExecError::WrongOperandCount)
    } else if !ends_comma_exec(toks[1].as_slice()) {
        Err(ExecError::MissingComma)
    } else {
        let dtok = strip_commas_exec(toks[1].as_slice());
        match parse_register(dtok.as_slice()) {
            Some(d) => match parse_register(toks[2].as_slice()) {
                Some(s1) => Ok(Instr::Rrx { dest: d, src: m.get_reg(s1) }),
                None => Err(ExecError::BadRegister),
            },
            None => Err(ExecError::BadRegister),
        }
    }
}

fn decode_ldr(toks: &Vec<Vec<u8>>, m: &Machine) -> (r: Result<Instr, ExecError>)
    requires
        m@.wf(),
        views_of(toks@).len() > 0,
    ensures
        r == decode_ldr_spec(views_of(toks@), m@.regs, m@.labels),
        r matches Ok(i) ==> instr_wf(i),
{
    proof {
        lemma_views_index(toks@);
    }
    if toks.len() != 3 {
        Err(ExecError::WrongOperandCount)
    } else if !ends_comma_exec(toks[1].as_slice()) {
        Err(ExecError::MissingComma)
    } else {
        let dtok = strip_commas_exec(toks[1].as_slice());
        match parse_register(dtok.as_slice()) {
            Some(d) => match resolve_addr(toks[2].as_slice(), m) {
                Ok(a) => {
                    if a < MEMORY_SIZE {
                        Ok(Instr::Ldr { dest: d, addr: a })
                    } else {
                        Err(ExecError::AddressOutOfBounds)
                    }
                },
                Err(e) => Err(e),
            },
            None => Err(ExecError::BadRegister),
        }
    }
}

fn decode_store(toks: &Vec<Vec<u8>>, m: &Machine) -> (r: Result<Instr, ExecError>)
    requires
        m@.wf(),
        views_of(toks@).len() > 0,
    ensures
        r == decode_str_spec(views_of(toks@), m@.regs, m@.labels),
        r matches Ok(i) ==> instr_wf(i),
{
    proof {
        lemma_views_index(toks@);
    }
    if toks.len() != 3 {
        Err(ExecError::WrongOperandCount)
    } else if !ends_comma_exec(toks[1].as_slice()) {
        Err(ExecError::MissingComma)
    } else {
        let stok = strip_commas_exec(toks[1].as_slice());
        match parse_register(stok.as_slice()) {
            Some(s1) => match resolve_addr(toks[2].as_slice(), m) {
                Ok(a) => {
                    if a < MEMORY_SIZE {
                        Ok(Instr::Str { addr: a, val: m.get_reg(s1) })
                    } else {
                        Err(ExecError::AddressOutOfBounds)
                    }
                },
                Err(e) => Err(e),
            },
            None => Err(ExecError::BadRegister),
        }
    }
}

fn decode_print(toks: &Vec<Vec<u8>>) -> (r: Result<Instr, ExecError>)
    requires
        views_of(toks@).len() > 0,
    ensures
        r == decode_print_spec(views_of(toks@)),
        r matches Ok(i) ==> instr_wf(i),
{
    proof {
        lemma_views_index(toks@);
    }
    if toks.len() != 2 {
        Err(ExecError::WrongOperandCount)
    } else {
        match parse_register(toks[1].as_slice()) {
            Some(rg) => Ok(Instr::Print { reg: rg }),
            None => Err(ExecError::BadRegister),
        }
    }
}

/// Decodes the tokens of one line against the current machine state.
pub fn decode(toks: &Vec<Vec<u8>>, m: &Machine) -> (r: Result<Instr, ExecError>)
    requires
        m@.wf(),
        views_of(toks@).len() > 0,
    ensures
        r == decode_spec(views_of(toks@), m@.regs, m@.labels),
        r matches Ok(i) ==> instr_wf(i),
{
    proof {
        lemma_views_index(toks@);
    }
    let op = toks[0].as_slice();
    if is_kw3(op, 77, 79, 86) {  // MOV
        decode_mov(toks, m)
    } else if is_kw3(op, 65, 68, 68) {  // ADD
        decode_binary(BinOp::Add, toks, m)
    } else if is_kw3(op, 83, 85, 66) {  // SUB
        decode_binary(BinOp::Sub, toks, m)
    } else if is_kw3(op, 65, 68, 67) {  // ADC
        decode_binary(BinOp::Adc, toks, m)
    } else if is_kw3(op, 83, 66, 67) {  // SBC
        decode_binary(BinOp::Sbc, toks, m)
    } else if is_kw3(op, 76, 83, 76) {  // LSL
        decode_binary(BinOp::Lsl, toks, m)
    } else if is_kw3(op, 76, 83, 82) {  // LSR
        decode_binary(BinOp::Lsr, toks, m)
    } else if is_kw3(op, 65, 83, 82) {  // ASR
        decode_binary(BinOp::Asr, toks, m)
    } else if is_kw3(op, 82, 79, 82) {  // ROR
        decode_binary(BinOp::Ror, toks, m)
    } else if is_kw3(op, 82, 82, 88) {  // RRX
        decode_rrx(toks, m)
    } else if is_kw3(op, 77, 85, 76) {  // MUL
        decode_binary(BinOp::Mul, toks, m)
    } else if is_kw3(op, 65, 78, 68) {  // AND
        decode_binary(BinOp::And, toks, m)
    } else if is_kw3(op, 79, 82, 82) {  // ORR
        decode_binary(BinOp::Orr, toks, m)
    } else if is_kw3(op, 69, 79, 82) {  // EOR
        decode_binary(BinOp::Eor, toks, m)
    } else if is_kw3(op, 66, 73, 67) {  // BIC
        decode_binary(BinOp::Bic, toks, m)
    } else if is_kw3(op, 76, 68, 82) {  // LDR
        decode_ldr(toks, m)
    } else if is_kw3(op, 83, 84, 82) {  // STR
        decode_store(toks, m)
    } else if is_kw5(op, 80, 82, 73, 78, 84) {  // PRINT
        decode_print(toks)
    } else {
        Err(ExecError::UnknownInstruction)
    }
}

/// Indexing the views of a token list reads the view of the indexed token.
pub proof fn lemma_views_index(vs: Seq<Vec<u8>>)
    ensures
        views_of(vs).len() == vs.len(),
        forall|i: int| 0 <= i < vs.len() ==> views_of(vs)[i] == #[trigger] vs[i]@,
{
}

} // verus!
