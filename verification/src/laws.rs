//! The laws the interpreter obeys, stated over the specification functions
//! that the executable contracts use and proved once and for all: what moving
//! and printing emit, what the arithmetic and bitwise operations compute, the
//! shift and rotate identities, the carry discipline, the store/load round
//! trip, and the label assignment rules.

use vstd::prelude::*;
use crate::bits32::{u_of_i, i_of_u, norm32, binop_spec, adc32_spec, sbc32_spec, ror32_spec, BinOp,
    lemma_u_of_i_is_norm, lemma_i_u_inverse};
use crate::exec::{exec_instr_spec, spec_handle_label, print_line_spec, NormStepV};
use crate::instr::{Instr, ExecError, resolve_addr_spec, decode_spec};
use crate::machine::{MachineView, lemma_find_label_push, NUM_REGISTERS, MEMORY_SIZE};
use crate::parse::{dec_render, dec_digits, dec_val, all_digits, parse_sdec_spec, digit_val,
    parse_register_spec, parse_literal_spec, is_digit};
use crate::scan::strip_commas;
use vstd::arithmetic::div_mod::{lemma_fundamental_div_mod, lemma_mod_add_multiples_vanish,
    lemma_mod_sub_multiples_vanish, lemma_small_mod, lemma_multiply_divide_lt};
use vstd::arithmetic::power2::{pow2, lemma_pow2_adds, lemma_pow2_strictly_increases, lemma2_to64};
use vstd::bits::{lemma_u64_shl_is_mul, lemma_u32_shr_is_div};

verus! {

/// A nonnegative number's decimal numeral reads back as the number: its
/// bytes are digits, and their value is the number itself.
pub proof fn lemma_dec_digits_val(n: int)
    requires
        n >= 0,
    ensures
        all_digits(dec_digits(n)),
        dec_digits(n).len() > 0,
        dec_val(dec_digits(n)) == n,
    decreases n,
{
    if n < 10 {
        assert(dec_digits(n).drop_last() =~= Seq::<u8>::empty());
        assert(dec_val(dec_digits(n)) == dec_val(Seq::<u8>::empty()) * 10 + digit_val(
            (48 + n) as u8,
        ));
    } else {
        lemma_dec_digits_val(n / 10);
        lemma_fundamental_div_mod(n, 10);
        assert(dec_digits(n).drop_last() =~= dec_digits(n / 10));
    }
}

/// Rendering any signed 32-bit value in decimal and reading it back as an
/// immediate literal gives the same value: the textual half of the move-
/// then-print law.
pub proof fn lemma_literal_roundtrip(v: i32)
    ensures
        parse_sdec_spec(dec_render(v as int)) == Some(v),
{
    if v >= 0 {
        lemma_dec_digits_val(v as int);
    } else {
        lemma_dec_digits_val(-(v as int));
        assert(dec_render(v as int).drop_first() =~= dec_digits(-(v as int)));
    }
}

/// Moving a value into a register and then printing that register emits the
/// register token, an equals sign, and exactly that value; no other state
/// changes.
pub proof fn lemma_mov_then_print(m: MachineView, d: usize, v: i32, name: Seq<u8>)
    requires
        m.wf(),
        d < NUM_REGISTERS,
    ensures
        ({
            let m1 = exec_instr_spec(m, Instr::Mov { dest: d, val: v }).0;
            let (m2, out) = exec_instr_spec(m1, Instr::Print { reg: d });
            &&& m1.regs[d as int] == v
            &&& m1.mem == m.mem
            &&& m1.labels == m.labels
            &&& m1.carry == m.carry
            &&& out == Some(v)
            &&& m2 == m1
            &&& print_line_spec(name, v) == name + seq![32u8, 61u8, 32u8] + dec_render(v as int)
        }),
{
}

/// Congruence of the unsigned view: two integers a word apart reduce to the
/// same unsigned word.
proof fn lemma_norm32_shift(v: int)
    ensures
        norm32(v + 0x1_0000_0000) == norm32(v),
        norm32(v - 0x1_0000_0000) == norm32(v),
{
    lemma_mod_add_multiples_vanish(v, 0x1_0000_0000);
    lemma_mod_sub_multiples_vanish(v, 0x1_0000_0000);
}

/// The plain arithmetic and bitwise operations: addition, subtraction and
/// multiplication produce the exact integer result reduced to the 32-bit
/// word, the bitwise operations act bit for bit, and none of them touches
/// the carry flag.
pub proof fn lemma_arith_laws(x: i32, y: i32, c: u32)
    ensures
        u_of_i(binop_spec(BinOp::Add, x, y, c).0) == norm32(x + y),
        u_of_i(binop_spec(BinOp::Sub, x, y, c).0) == norm32(x - y),
        u_of_i(binop_spec(BinOp::Mul, x, y, c).0) == norm32(x * y),
        binop_spec(BinOp::And, x, y, c).0 == x & y,
        binop_spec(BinOp::Orr, x, y, c).0 == x | y,
        binop_spec(BinOp::Eor, x, y, c).0 == x ^ y,
        binop_spec(BinOp::Bic, x, y, c).0 == x & !y,
        binop_spec(BinOp::Add, x, y, c).1 == c,
        binop_spec(BinOp::Sub, x, y, c).1 == c,
        binop_spec(BinOp::Mul, x, y, c).1 == c,
        binop_spec(BinOp::And, x, y, c).1 == c,
        binop_spec(BinOp::Orr, x, y, c).1 == c,
        binop_spec(BinOp::Eor, x, y, c).1 == c,
        binop_spec(BinOp::Bic, x, y, c).1 == c,
{
    let r = 0x1_0000_0000int;
    lemma_u_of_i_is_norm(binop_spec(BinOp::Add, x, y, c).0);
    lemma_u_of_i_is_norm(binop_spec(BinOp::Sub, x, y, c).0);
    lemma_norm32_shift(x + y);
    lemma_norm32_shift(x - y);
    // multiplication: the wrapped product is the product reduced mod 2^32
    let t = (x as int) * (y as int);
    let w = binop_spec(BinOp::Mul, x, y, c).0;
    lemma_u_of_i_is_norm(w);
    if t % r > i32::MAX as int {
        lemma_norm32_shift(t % r - r);
        lemma_small_mod((t % r) as nat, r as nat);
    } else {
        lemma_small_mod((t % r) as nat, r as nat);
    }
}

/// The left-shift law: for an amount below the word width, the shifted word
/// is the unsigned source times 2^k, reduced to 32 bits.
pub proof fn lemma_lsl_is_mul(x: u32, k: u32)
    requires
        k < 32,
    ensures
        ((x << k) as int) == (x as int * pow2(k as nat) as int) % 0x1_0000_0000,
{
    lemma2_to64();
    if k < 31 {
        lemma_pow2_strictly_increases(k as nat, 31);
    }
    vstd::arithmetic::mul::lemma_mul_upper_bound(
        x as int,
        0xffff_ffff,
        pow2(k as nat) as int,
        0x8000_0000,
    );
    lemma_u64_shl_is_mul(x as u64, k as u64);
    assert(((x as u64) << (k as u64)) as u32 == x << k) by (bit_vector)
        requires
            k < 32,
    ;
    let big = (x as u64) << (k as u64);
    assert(big as u32 == big % 0x1_0000_0000) by (bit_vector);
}

/// The logical right-shift law: the result is the unsigned source divided by
/// 2^k, so every vacated high bit is zero.
pub proof fn lemma_lsr_is_div(x: u32, k: u32)
    requires
        k < 32,
    ensures
        (x >> k) == x as nat / pow2(k as nat),
        k > 0 ==> (x >> k) < pow2((32 - k) as nat),
{
    lemma_u32_shr_is_div(x, k);
    if k > 0 {
        lemma_pow2_adds(k as nat, (32 - k) as nat);
        lemma2_to64();
        lemma_multiply_divide_lt(x as int, pow2(k as nat) as int, pow2((32 - k) as nat) as int);
    }
}

/// The arithmetic right-shift law: the sign of the result is the sign of the
/// source, for any shift amount below the word width.
pub proof fn lemma_asr_keeps_sign(x: i32, k: u32)
    requires
        k < 32,
    ensures
        ((x >> k) < 0) == (x < 0),
{
    assert(((x >> k) < 0) == (x < 0)) by (bit_vector)
        requires
            k < 32,
    ;
}

/// Rotation is circular: by zero and by the full word width it is the
/// identity, and in general it is the or of the two complementary shifts.
pub proof fn lemma_ror_identity(x: u32)
    ensures
        ror32_spec(x, 0) == x,
        ror32_spec(x, 32) == x,
        forall|k: u32|
            1 <= k < 32 ==> ror32_spec(x, k) == ((x >> k) | (x << ((32 - k) as u32))),
{
}

/// The shift laws at the instruction level, with the amount taken through
/// the unsigned view of the operand modulo the word width: left shift is
/// multiplication by 2^k reduced to 32 bits, logical right shift is unsigned
/// division by 2^k, arithmetic right shift keeps the sign, and rotation by
/// zero or the full width is the identity.
pub proof fn lemma_shift_laws(x: i32, k: i32, c: u32)
    ensures
        ({
            let e = u_of_i(k) % 32;
            &&& u_of_i(binop_spec(BinOp::Lsl, x, k, c).0) as int == (u_of_i(x) as int * pow2(
                e as nat,
            ) as int) % 0x1_0000_0000
            &&& u_of_i(binop_spec(BinOp::Lsr, x, k, c).0) as nat == u_of_i(x) as nat / pow2(
                e as nat,
            )
            &&& (binop_spec(BinOp::Asr, x, k, c).0 < 0) == (x < 0)
        }),
        binop_spec(BinOp::Ror, x, 0, c).0 == x,
        binop_spec(BinOp::Ror, x, 32, c).0 == x,
{
    let e = u_of_i(k) % 32;
    lemma_lsl_is_mul(u_of_i(x), e);
    lemma_i_u_inverse(u_of_i(x) << e);
    lemma_lsr_is_div(u_of_i(x), e);
    lemma_i_u_inverse(u_of_i(x) >> e);
    lemma_asr_keeps_sign(x, e);
}

/// The textual move law: a move line whose register token names register `d`
/// and whose immediate literal reads as `v` decodes to exactly the move of
/// `v` into `d`.
pub proof fn lemma_mov_decodes(
    name: Seq<u8>,
    lit: Seq<u8>,
    d: int,
    v: i32,
    regs: Seq<i32>,
    labels: Seq<Seq<u8>>,
)
    requires
        parse_register_spec(name) == Some(d),
        parse_literal_spec(lit) == Some(v),
    ensures
        decode_spec(
            seq![seq![77u8, 79u8, 86u8], name.push(44u8), seq![35u8] + lit],
            regs,
            labels,
        ) == Ok::<Instr, ExecError>(Instr::Mov { dest: d as usize, val: v }),
{
    let toks = seq![seq![77u8, 79u8, 86u8], name.push(44u8), seq![35u8] + lit];
    assert(name.len() >= 2);
    assert(is_digit(name.drop_first().last()));
    assert(name.last() == name.drop_first().last());
    assert(toks[1].drop_last() =~= name);
    assert(strip_commas(toks[1]) == strip_commas(name));
    assert(strip_commas(name) == name);
    assert(toks[2].drop_first() =~= lit);
}

/// The textual print law: a print line whose register token names register
/// `rg` decodes to exactly the print of that register — whose execution then
/// emits the register token, an equals sign, and the register's value.
pub proof fn lemma_print_decodes(name: Seq<u8>, rg: int, regs: Seq<i32>, labels: Seq<Seq<u8>>)
    requires
        parse_register_spec(name) == Some(rg),
    ensures
        decode_spec(seq![seq![80u8, 82u8, 73u8, 78u8, 84u8], name], regs, labels) == Ok::<
            Instr,
            ExecError,
        >(Instr::Print { reg: rg as usize }),
{
}

/// The carry law: starting from a clear carry, add-with-carry leaves carry 1
/// exactly when the unsigned sum overflows 32 bits, and the stored word is
/// the unsigned sum reduced to 32 bits.
pub proof fn lemma_adc_carry(x: i32, y: i32)
    ensures
        (adc32_spec(x, y, 0).1 == 1) == (u_of_i(x) + u_of_i(y) >= 0x1_0000_0000),
        (adc32_spec(x, y, 0).1 == 0) == (u_of_i(x) + u_of_i(y) < 0x1_0000_0000),
        u_of_i(adc32_spec(x, y, 0).0) == norm32(u_of_i(x) + u_of_i(y)),
{
    lemma_i_u_inverse(norm32(u_of_i(x) + u_of_i(y) + 0));
}

/// The borrow law: with carry 1 — no borrow pending — subtract-with-carry
/// computes the plain unsigned difference reduced to 32 bits, and leaves
/// carry 1 exactly when no borrow occurred.
pub proof fn lemma_sbc_no_borrow(x: i32, y: i32)
    ensures
        u_of_i(sbc32_spec(x, y, 1).0) == norm32(u_of_i(x) - u_of_i(y)),
        (sbc32_spec(x, y, 1).1 == 1) == (u_of_i(x) >= u_of_i(y)),
{
    lemma_i_u_inverse(norm32(u_of_i(x) - u_of_i(y) - 0));
}

/// The memory round trip: an address operand that resolves in bounds keeps
/// resolving to the same address after the store it steers, and loading
/// through it reads back exactly the stored register value.
pub proof fn lemma_memory_roundtrip(m: MachineView, t: Seq<u8>, s: usize, d: usize, a: usize)
    requires
        m.wf(),
        s < NUM_REGISTERS,
        d < NUM_REGISTERS,
        a < MEMORY_SIZE,
        resolve_addr_spec(t, m.regs, m.labels) == Ok::<int, ExecError>(a as int),
    ensures
        ({
            let m1 = exec_instr_spec(m, Instr::Str { addr: a, val: m.regs[s as int] }).0;
            &&& resolve_addr_spec(t, m1.regs, m1.labels) == Ok::<int, ExecError>(a as int)
            &&& exec_instr_spec(m1, Instr::Ldr { dest: d, addr: a }).0.regs[d as int] == m.regs[
                s as int]
        }),
{
}

/// The label assignment law: a fresh label, in a table with room, is
/// registered at the next sequential address — the number of labels defined
/// before it, counting from zero.
pub proof fn lemma_label_assignment(m: MachineView, cand: Seq<u8>, rest: Seq<u8>)
    requires
        m.wf(),
        !m.has_label(cand),
        m.labels.len() < MEMORY_SIZE,
        rest.len() == 0,
    ensures
        ({
            let (m1, o) = spec_handle_label(m, cand, rest);
            &&& m1.labels.len() == m.labels.len() + 1
            &&& m1.label_addr(cand) == Some(m.labels.len() as int)
            &&& m1.mem == m.mem
            &&& m1.regs == m.regs
            &&& o is Skip
        }),
{
    lemma_find_label_push(m.labels, cand);
}

/// The label redefinition law: defining an already defined name is rejected
/// and leaves the whole machine state — label table and memory included —
/// unchanged.
pub proof fn lemma_label_redefinition_rejected(m: MachineView, cand: Seq<u8>, rest: Seq<u8>)
    requires
        m.has_label(cand),
    ensures
        spec_handle_label(m, cand, rest) == (m, NormStepV::Fail(ExecError::DuplicateLabel)),
{
}

} // verus!
