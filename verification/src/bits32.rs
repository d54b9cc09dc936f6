//! 32-bit word arithmetic: conversions between the signed register value and
//! its unsigned bit pattern, and the semantics of every arithmetic, bitwise,
//! shift and rotate operation of the instruction set.

use vstd::prelude::*;

verus! {

/// The unsigned 32-bit view of a signed word (its bit pattern as a number).
pub open spec fn u_of_i(x: i32) -> u32 {
    if x >= 0 {
        x as u32
    } else {
        (x + 0x1_0000_0000) as u32
    }
}

/// The signed word whose bit pattern is the given unsigned value.
pub open spec fn i_of_u(x: u32) -> i32 {
    if x <= 0x7fff_ffff {
        x as i32
    } else {
        (x - 0x1_0000_0000) as i32
    }
}

/// Reduction of an unbounded integer into the 32-bit unsigned range.
pub open spec fn norm32(v: int) -> u32 {
    (v % 0x1_0000_0000) as u32
}

pub proof fn lemma_i_u_inverse(x: u32)
    ensures
        u_of_i(i_of_u(x)) == x,
{
}

/// The unsigned view of a signed word is its value reduced modulo 2^32.
pub proof fn lemma_u_of_i_is_norm(x: i32)
    ensures
        u_of_i(x) == norm32(x as int),
{
    if x >= 0 {
        vstd::arithmetic::div_mod::lemma_small_mod(x as nat, 0x1_0000_0000nat);
    } else {
        vstd::arithmetic::div_mod::lemma_fundamental_div_mod_converse(
            x as int,
            0x1_0000_0000,
            -1,
            x + 0x1_0000_0000,
        );
    }
}

pub fn u32_of_i32(x: i32) -> (r: u32)
    ensures
        r == u_of_i(x),
{
    if x >= 0 {
        x as u32
    } else {
        ((x as i64) + 0x1_0000_0000i64) as u32
    }
}

pub fn i32_of_u32(x: u32) -> (r: i32)
    ensures
        r == i_of_u(x),
{
    if x <= 0x7fff_ffff {
        x as i32
    } else {
        ((x as i64) - 0x1_0000_0000i64) as i32
    }
}

/// The register-to-register operations: each takes a destination, a first
/// operand read from a register, and a second operand (immediate or register).
#[derive(Clone, Copy, PartialEq, Eq, Structural, Debug)]
pub enum BinOp {
    Add,
    Sub,
    Adc,
    Sbc,
    Mul,
    And,
    Orr,
    Eor,
    Bic,
    Lsl,
    Lsr,
    Asr,
    Ror,
}

/// Circular rotation of a 32-bit word to the right by `k` bit positions;
/// the amount is taken modulo the word width.
pub open spec fn ror32_spec(u: u32, k: u32) -> u32 {
    let e = k % 32;
    if e == 0 {
        u
    } else {
        (u >> e) | (u << ((32 - e) as u32))
    }
}

/// Add with carry: the unsigned sum of both operands and the carry flag,
/// truncated to 32 bits; the new carry records unsigned overflow.
pub open spec fn adc32_spec(x: i32, y: i32, c: u32) -> (i32, u32) {
    let s = u_of_i(x) + u_of_i(y) + c;
    (i_of_u(norm32(s)), if s >= 0x1_0000_0000 {
        1u32
    } else {
        0u32
    })
}

/// Subtract with carry: unsigned first operand minus second operand minus
/// (1 - carry), truncated to 32 bits; the new carry is 1 exactly when no
/// borrow occurred (the exact difference is nonnegative).
pub open spec fn sbc32_spec(x: i32, y: i32, c: u32) -> (i32, u32) {
    let d = u_of_i(x) - u_of_i(y) - (1 - c);
    (i_of_u(norm32(d)), if d >= 0 {
        1u32
    } else {
        0u32
    })
}

/// The result and the new carry flag of each operation. Plain arithmetic
/// wraps to 32 bits and leaves the carry alone; only Adc and Sbc read or
/// write the carry. Shift and rotate amounts act through the unsigned view
/// of the second operand, taken modulo the word width.
pub open spec fn binop_spec(op: BinOp, x: i32, y: i32, c: u32) -> (i32, u32) {
    match op {
        BinOp::Add => (vstd::wrapping::i32_specs::wrapping_add(x, y), c),
        BinOp::Sub => (vstd::wrapping::i32_specs::wrapping_sub(x, y), c),
        BinOp::Mul => (vstd::wrapping::i32_specs::wrapping_mul(x, y), c),
        BinOp::And => (x & y, c),
        BinOp::Orr => (x | y, c),
        BinOp::Eor => (x ^ y, c),
        BinOp::Bic => (x & !y, c),
        BinOp::Adc => adc32_spec(x, y, c),
        BinOp::Sbc => sbc32_spec(x, y, c),
        BinOp::Lsl => (i_of_u(vstd::wrapping::u32_specs::wrapping_shl(u_of_i(x), u_of_i(y))), c),
        BinOp::Lsr => (i_of_u(vstd::wrapping::u32_specs::wrapping_shr(u_of_i(x), u_of_i(y))), c),
        BinOp::Asr => (vstd::wrapping::i32_specs::wrapping_shr(x, u_of_i(y)), c),
        BinOp::Ror => (i_of_u(ror32_spec(u_of_i(x), u_of_i(y))), c),
    }
}

/// Shift-right of the unsigned bit pattern by one position, the semantics of
/// the two-operand rotate-without-carry instruction: the vacated top bit is
/// filled with zero, no carry bit is folded in.
pub open spec fn rrx32_spec(x: i32) -> i32 {
    i_of_u(u_of_i(x) >> 1u32)
}

pub fn ror32_exec(u: u32, k: u32) -> (r: u32)
    ensures
        r == ror32_spec(u, k),
{
    let e = k % 32;
    if e == 0 {
        u
    } else {
        (u >> e) | (u << (32 - e))
    }
}

pub fn adc32_exec(x: i32, y: i32, c: u32) -> (r: (i32, u32))
    requires
        c <= 1,
    ensures
        r == adc32_spec(x, y, c),
{
    let s: u64 = (u32_of_i32(x) as u64) + (u32_of_i32(y) as u64) + (c as u64);
    let carry: u32 = if s >= 0x1_0000_0000u64 {
        1
    } else {
        0
    };
    (i32_of_u32((s % 0x1_0000_0000u64) as u32), carry)
}

pub fn sbc32_exec(x: i32, y: i32, c: u32) -> (r: (i32, u32))
    requires
        c <= 1,
    ensures
        r == sbc32_spec(x, y, c),
{
    let d: i64 = (u32_of_i32(x) as i64) - (u32_of_i32(y) as i64) - ((1 - c) as i64);
    if d >= 0 {
        proof {
            vstd::arithmetic::div_mod::lemma_small_mod(d as nat, 0x1_0000_0000nat);
        }
        (i32_of_u32(d as u32), 1)
    } else {
        proof {
            vstd::arithmetic::div_mod::lemma_fundamental_div_mod_converse(
                d as int,
                0x1_0000_0000,
                -1,
                d + 0x1_0000_0000,
            );
        }
        (i32_of_u32((d + 0x1_0000_0000i64) as u32), 0)
    }
}

pub fn rrx32_exec(x: i32) -> (r: i32)
    ensures
        r == rrx32_spec(x),
{
    i32_of_u32(u32_of_i32(x) >> 1u32)
}

pub fn binop_exec(op: BinOp, x: i32, y: i32, c: u32) -> (r: (i32, u32))
    requires
        c <= 1,
    ensures
        r == binop_spec(op, x, y, c),
        r.1 <= 1,
{
    match op {
        BinOp::Add => (x.wrapping_add(y), c),
        BinOp::Sub => (x.wrapping_sub(y), c),
        BinOp::Mul => (x.wrapping_mul(y), c),
        BinOp::And => (x & y, c),
        BinOp::Orr => (x | y, c),
        BinOp::Eor => (x ^ y, c),
        BinOp::Bic => (x & !y, c),
        BinOp::Adc => adc32_exec(x, y, c),
        BinOp::Sbc => sbc32_exec(x, y, c),
        BinOp::Lsl => (i32_of_u32(u32_of_i32(x).wrapping_shl(u32_of_i32(y))), c),
        BinOp::Lsr => (i32_of_u32(u32_of_i32(x).wrapping_shr(u32_of_i32(y))), c),
        BinOp::Asr => (x.wrapping_shr(u32_of_i32(y)), c),
        BinOp::Ror => (i32_of_u32(ror32_exec(u32_of_i32(x), u32_of_i32(y))), c),
    }
}

} // verus!
