//! Execution dispatch, second half, and the line normalizer: executing a
//! decoded instruction against the machine state, handling comments, blank
//! lines, the halt token and label definitions, and the full processing of
//! one source line.

use vstd::prelude::*;
use crate::bits32::{binop_spec, binop_exec, rrx32_spec, rrx32_exec};
use crate::instr::{Instr, ExecError, instr_wf, decode, decode_spec};
use crate::machine::{Machine, MachineView, MEMORY_SIZE};
use crate::parse::{parse_label_data_spec, parse_label_data, dec_render, i32_to_dec};
use crate::scan::{trim_spec, trim_back, trim_front, trim, find_comment_from, find_comment,
    find_byte_from, find_byte, tokens_of, tokenize, views_of, has_space, contains_space,
    copy_range, is_space, to_upper, B_COLON, B_HASH, B_SPACE};

verus! {

/// What executing one instruction does: the successor machine state, and the
/// printed register value if the instruction prints.
pub open spec fn exec_instr_spec(m: MachineView, i: Instr) -> (MachineView, Option<i32>) {
    match i {
        Instr::Mov { dest, val } => (m.with_reg(dest as int, val), None),
        Instr::Binary { op, dest, lhs, rhs } => {
            let (v, c) = binop_spec(op, lhs, rhs, m.carry);
            (m.with_reg(dest as int, v).with_carry(c), None)
        },
        Instr::Rrx { dest, src } => (m.with_reg(dest as int, rrx32_spec(src)), None),
        Instr::Ldr { dest, addr } => (m.with_reg(dest as int, m.mem[addr as int]), None),
        Instr::Str { addr, val } => (m.with_mem(addr as int, val), None),
        Instr::Print { reg } => (m, Some(m.regs[reg as int])),
    }
}

/// Executes one decoded instruction. Only the destination register, the
/// addressed memory word, or the carry flag changes; printing changes
/// nothing.
pub fn exec_instr(m: &mut Machine, i: Instr) -> (out: Option<i32>)
    requires
        old(m)@.wf(),
        instr_wf(i),
    ensures
        final(m)@ == exec_instr_spec(old(m)@, i).0,
        final(m)@.wf(),
        out == exec_instr_spec(old(m)@, i).1,
{
    match i {
        Instr::Mov { dest, val } => {
            m.set_reg(dest, val);
            None
        },
        Instr::Binary { op, dest, lhs, rhs } => {
            let (v, c) = binop_exec(op, lhs, rhs, m.get_carry());
            m.set_reg(dest, v);
            m.set_carry(c);
            None
        },
        Instr::Rrx { dest, src } => {
            let v = rrx32_exec(src);
            m.set_reg(dest, v);
            None
        },
        Instr::Ldr { dest, addr } => {
            let v = m.read_mem(addr);
            m.set_reg(dest, v);
            None
        },
        Instr::Str { addr, val } => {
            m.write_mem(addr, val);
            None
        },
        Instr::Print { reg } => Some(m.get_reg(reg)),
    }
}

/// What the normalizer makes of a line: nothing to run, the halt token, the
/// instruction text that remains, or a rejected label definition.
pub enum NormStep {
    Skip,
    Halt,
    Text(Vec<u8>),
    Fail(ExecError),
}

/// The specification-level mirror of `NormStep`.
pub enum NormStepV {
    Skip,
    Halt,
    Text(Seq<u8>),
    Fail(ExecError),
}

pub open spec fn norm_step_view(r: NormStep) -> NormStepV {
    match r {
        NormStep::Skip => NormStepV::Skip,
        NormStep::Halt => NormStepV::Halt,
        NormStep::Text(v) => NormStepV::Text(v@),
        NormStep::Fail(e) => NormStepV::Fail(e),
    }
}

/// The halt token: the whole comment-stripped line reads EXIT, case blind.
pub open spec fn is_halt_line(t: Seq<u8>) -> bool {
    t.len() == 4 && to_upper(t[0]) == 69 && to_upper(t[1]) == 88 && to_upper(t[2]) == 73
        && to_upper(t[3]) == 84
}

/// Label registration once a candidate is isolated: a known name or a full
/// table is rejected; initializer data is parsed, stored at the fresh
/// label's address and consumes the line; otherwise the rest of the line
/// remains to run.
pub open spec fn spec_handle_label(m: MachineView, cand: Seq<u8>, rest: Seq<u8>) -> (
    MachineView,
    NormStepV,
) {
    if m.has_label(cand) {
        (m, NormStepV::Fail(ExecError::DuplicateLabel))
    } else if m.labels.len() >= MEMORY_SIZE {
        (m, NormStepV::Fail(ExecError::LabelTableFull))
    } else if rest.len() > 0 && rest[0] == B_HASH {
        match parse_label_data_spec(rest) {
            Some(v) => (
                m.with_label(cand).with_mem(m.labels.len() as int, v),
                NormStepV::Skip,
            ),
            None => (m, NormStepV::Fail(ExecError::BadLabelData)),
        }
    } else {
        let m1 = m.with_label(cand);
        if rest.len() == 0 {
            (m1, NormStepV::Skip)
        } else {
            (m1, NormStepV::Text(rest))
        }
    }
}

/// The line normalizer: trim, strip the comment, skip a blank line, stop on
/// the halt token, and process a label definition when the text left of the
/// first colon is a whitespace-free nonempty candidate. Anything else is
/// instruction text as it stands.
pub open spec fn spec_normalize(m: MachineView, line: Seq<u8>) -> (MachineView, NormStepV) {
    let t0 = trim_spec(line);
    let t = match find_comment_from(t0, 0) {
        Some(p) => trim_back(t0.subrange(0, p)),
        None => t0,
    };
    if t.len() == 0 {
        (m, NormStepV::Skip)
    } else if is_halt_line(t) {
        (m, NormStepV::Halt)
    } else {
        match find_byte_from(t, B_COLON, 0) {
            Some(ci) => {
                let cand = trim_spec(t.subrange(0, ci));
                let rest = trim_spec(t.subrange(ci + 1, t.len() as int));
                if cand.len() > 0 && !has_space(cand) {
                    spec_handle_label(m, cand, rest)
                } else {
                    (m, NormStepV::Text(t))
                }
            },
            None => (m, NormStepV::Text(t)),
        }
    }
}

fn is_halt_exec(t: &[u8]) -> (r: bool)
    ensures
        r == is_halt_line(t@),
{
    t.len() == 4 && crate::scan::to_upper_exec(t[0]) == 69 && crate::scan::to_upper_exec(t[1])
        == 88 && crate::scan::to_upper_exec(t[2]) == 73 && crate::scan::to_upper_exec(t[3]) == 84
}

/// Normalizes one raw line, registering or rejecting a label definition on
/// the way.
pub fn normalize_line(m: &mut Machine, line: &[u8]) -> (r: NormStep)
    requires
        old(m)@.wf(),
    ensures
        final(m)@ == spec_normalize(old(m)@, line@).0,
        final(m)@.wf(),
        norm_step_view(r) == spec_normalize(old(m)@, line@).1,
{
    let t0 = trim(line);
    let t: Vec<u8> = match find_comment(t0.as_slice()) {
        Some(p) => {
            let pre = copy_range(t0.as_slice(), 0, p);
            proof {
                crate::scan::lemma_trim_spec_first(line@);
                if pre@.len() > 0 {
                    assert(pre@[0] == t0@[0]);
                    assert(!is_space(t0@[0]));
                }
                assert(trim_front(pre@) == pre@);
            }
            trim(pre.as_slice())
        },
        None => t0,
    };
    if t.len() == 0 {
        return NormStep::Skip;
    }
    if is_halt_exec(t.as_slice()) {
        return NormStep::Halt;
    }
    match find_byte(t.as_slice(), B_COLON) {
        Some(ci) => {
            let candpre = copy_range(t.as_slice(), 0, ci);
            let cand = trim(candpre.as_slice());
            let restpre = copy_range(t.as_slice(), ci + 1, t.len());
            let rest = trim(restpre.as_slice());
            if cand.len() > 0 && !contains_space(cand.as_slice()) {
                if m.lookup_label(cand.as_slice()).is_some() {
                    return NormStep::Fail(ExecError::DuplicateLabel);
                }
                if m.label_count() >= MEMORY_SIZE {
                    return NormStep::Fail(ExecError::LabelTableFull);
                }
                if rest.len() > 0 && rest[0] == B_HASH {
                    match parse_label_data(rest.as_slice()) {
                        Some(v) => {
                            let a = m.push_label(cand);
                            m.write_mem(a, v);
                            NormStep::Skip
                        },
                        None => NormStep::Fail(ExecError::BadLabelData),
                    }
                } else {
                    m.push_label(cand);
                    if rest.len() == 0 {
                        NormStep::Skip
                    } else {
                        NormStep::Text(rest)
                    }
                }
            } else {
                NormStep::Text(t)
            }
        },
        None => NormStep::Text(t),
    }
}

/// What one processed line leaves behind: nothing, a printed line, the halt,
/// or an error for the run loop's policy to judge.
pub enum LineOutcome {
    Continue,
    Emitted(Vec<u8>),
    Halted,
    Failed(ExecError),
}

/// The specification-level mirror of `LineOutcome`.
pub enum LineOutcomeV {
    Continue,
    Emitted(Seq<u8>),
    Halted,
    Failed(ExecError),
}

pub open spec fn line_outcome_view(r: LineOutcome) -> LineOutcomeV {
    match r {
        LineOutcome::Continue => LineOutcomeV::Continue,
        LineOutcome::Emitted(v) => LineOutcomeV::Emitted(v@),
        LineOutcome::Halted => LineOutcomeV::Halted,
        LineOutcome::Failed(e) => LineOutcomeV::Failed(e),
    }
}

/// The printed line of the print instruction: the register token as typed,
/// an equals sign between spaces, and the register value in decimal.
pub open spec fn print_line_spec(name: Seq<u8>, v: i32) -> Seq<u8> {
    name + seq![B_SPACE, 61u8, B_SPACE] + dec_render(v as int)
}

fn build_print_line(name: &[u8], v: i32) -> (r: Vec<u8>)
    ensures
        r@ == print_line_spec(name@, v),
{
    let mut out = copy_range(name, 0, name.len());
    proof {
        assert(out@ =~= name@);
    }
    out.push(B_SPACE);
    out.push(61);
    out.push(B_SPACE);
    let digits = i32_to_dec(v);
    let mut j: usize = 0;
    while j < digits.len()
        invariant
            j <= digits@.len(),
            out@ == name@ + seq![B_SPACE, 61u8, B_SPACE] + digits@.subrange(0, j as int),
        decreases digits@.len() - j,
    {
        out.push(digits[j]);
        proof {
            assert(out@ =~= name@ + seq![B_SPACE, 61u8, B_SPACE] + digits@.subrange(0, j + 1));
        }
        j += 1;
    }
    proof {
        assert(digits@.subrange(0, digits@.len() as int) =~= digits@);
    }
    out
}

/// One full line: normalize, tokenize, decode, execute. The successor state
/// and the outcome of every line the interpreter can read.
#[verifier::opaque]
pub open spec fn spec_step(m: MachineView, line: Seq<u8>) -> (MachineView, LineOutcomeV) {
    let (m1, n) = spec_normalize(m, line);
    match n {
        NormStepV::Skip => (m1, LineOutcomeV::Continue),
        NormStepV::Halt => (m1, LineOutcomeV::Halted),
        NormStepV::Fail(e) => (m1, LineOutcomeV::Failed(e)),
        NormStepV::Text(text) => {
            let toks = tokens_of(text);
            if toks.len() == 0 {
                (m1, LineOutcomeV::Continue)
            } else {
                match decode_spec(toks, m1.regs, m1.labels) {
                    Ok(i) => {
                        let (m2, out) = exec_instr_spec(m1, i);
                        match out {
                            Some(v) => (m2, LineOutcomeV::Emitted(print_line_spec(toks[1], v))),
                            None => (m2, LineOutcomeV::Continue),
                        }
                    },
                    Err(e) => (m1, LineOutcomeV::Failed(e)),
                }
            }
        },
    }
}

/// Processes one source line against the machine state.
pub fn step_line(m: &mut Machine, line: &[u8]) -> (r: LineOutcome)
    requires
        old(m)@.wf(),
    ensures
        final(m)@ == spec_step(old(m)@, line@).0,
        final(m)@.wf(),
        line_outcome_view(r) == spec_step(old(m)@, line@).1,
{
    proof {
        reveal(spec_step);
    }
    match normalize_line(m, line) {
        NormStep::Skip => LineOutcome::Continue,
        NormStep::Halt => LineOutcome::Halted,
        NormStep::Fail(e) => LineOutcome::Failed(e),
        NormStep::Text(text) => {
            let toks = tokenize(text.as_slice());
            if toks.len() == 0 {
                LineOutcome::Continue
            } else {
                proof {
                    crate::instr::lemma_views_index(toks@);
                }
                match decode(&toks, m) {
                    Ok(i) => {
                        let out = exec_instr(m, i);
                        match out {
                            Some(v) => LineOutcome::Emitted(
                                build_print_line(toks[1].as_slice(), v),
                            ),
                            None => LineOutcome::Continue,
                        }
                    },
                    Err(e) => LineOutcome::Failed(e),
                }
            }
        },
    }
}

} // verus!
