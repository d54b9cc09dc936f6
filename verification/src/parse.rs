//! The operand resolver: register names, immediate literals (signed decimal,
//! or hexadecimal after the `0x` prefix), register-or-immediate value
//! operands, and label-initializer data.

use vstd::prelude::*;
use crate::scan::{B_HASH, B_MINUS};
use crate::bits32::i_of_u;

verus! {

pub open spec fn is_digit(b: u8) -> bool {
    48 <= b && b <= 57
}

pub open spec fn digit_val(b: u8) -> int {
    b - 48
}

pub open spec fn is_hex_digit(b: u8) -> bool {
    is_digit(b) || (97 <= b && b <= 102) || (65 <= b && b <= 70)
}

pub open spec fn hex_digit_val(b: u8) -> int {
    if is_digit(b) {
        b - 48
    } else if 97 <= b {
        b - 87
    } else {
        b - 55
    }
}

pub open spec fn all_digits(s: Seq<u8>) -> bool {
    forall|i: int| 0 <= i < s.len() ==> is_digit(s[i])
}

pub open spec fn all_hex(s: Seq<u8>) -> bool {
    forall|i: int| 0 <= i < s.len() ==> is_hex_digit(s[i])
}

/// The value of a decimal digit string.
pub open spec fn dec_val(s: Seq<u8>) -> int
    decreases s.len(),
{
    if s.len() == 0 {
        0
    } else {
        dec_val(s.drop_last()) * 10 + digit_val(s.last())
    }
}

/// The value of a hexadecimal digit string.
pub open spec fn hex_val(s: Seq<u8>) -> int
    decreases s.len(),
{
    if s.len() == 0 {
        0
    } else {
        hex_val(s.drop_last()) * 16 + hex_digit_val(s.last())
    }
}

pub proof fn lemma_dec_val_nonneg(s: Seq<u8>)
    requires
        all_digits(s),
    ensures
        dec_val(s) >= 0,
    decreases s.len(),
{
    if s.len() > 0 {
        lemma_dec_val_nonneg(s.drop_last());
    }
}

pub proof fn lemma_hex_val_nonneg(s: Seq<u8>)
    requires
        all_hex(s),
    ensures
        hex_val(s) >= 0,
    decreases s.len(),
{
    if s.len() > 0 {
        lemma_hex_val_nonneg(s.drop_last());
    }
}

/// A longer digit string never names a smaller value.
pub proof fn lemma_dec_val_prefix(s: Seq<u8>, i: int)
    requires
        all_digits(s),
        0 <= i <= s.len(),
    ensures
        dec_val(s.subrange(0, i)) <= dec_val(s),
    decreases s.len(),
{
    if i == s.len() {
        assert(s.subrange(0, i) =~= s);
    } else {
        assert(s.subrange(0, i) =~= s.drop_last().subrange(0, i));
        lemma_dec_val_prefix(s.drop_last(), i);
        lemma_dec_val_nonneg(s.drop_last());
    }
}

pub proof fn lemma_hex_val_prefix(s: Seq<u8>, i: int)
    requires
        all_hex(s),
        0 <= i <= s.len(),
    ensures
        hex_val(s.subrange(0, i)) <= hex_val(s),
    decreases s.len(),
{
    if i == s.len() {
        assert(s.subrange(0, i) =~= s);
    } else {
        assert(s.subrange(0, i) =~= s.drop_last().subrange(0, i));
        lemma_hex_val_prefix(s.drop_last(), i);
        lemma_hex_val_nonneg(s.drop_last());
    }
}

/// A nonempty all-digit run, the shape of an unsigned decimal numeral.
pub open spec fn is_dec_string(s: Seq<u8>) -> bool {
    s.len() > 0 && all_digits(s)
}

pub open spec fn is_hex_string(s: Seq<u8>) -> bool {
    s.len() > 0 && all_hex(s)
}

/// Reads the decimal numeral in `s` from position `from` on, bounded at
/// 32 bits: a malformed or too large numeral gives nothing.
pub fn parse_dec_digits(s: &[u8], from: usize) -> (r: Option<u32>)
    requires
        from <= s@.len(),
    ensures
        ({
            let d = s@.subrange(from as int, s@.len() as int);
            match r {
                Some(v) => is_dec_string(d) && dec_val(d) == v,
                None => !is_dec_string(d) || dec_val(d) > u32::MAX,
            }
        }),
{
    let ghost d = s@.subrange(from as int, s@.len() as int);
    if from == s.len() {
        return None;
    }
    let mut acc: u64 = 0;
    let mut i: usize = from;
    proof {
        assert(d.subrange(0, 0) =~= Seq::<u8>::empty());
    }
    while i < s.len()
        invariant
            from <= i <= s@.len(),
            d == s@.subrange(from as int, s@.len() as int),
            forall|j: int| 0 <= j < i - from ==> is_digit(d[j]),
            acc == dec_val(d.subrange(0, i - from)),
            acc <= u32::MAX,
        decreases s@.len() - i,
    {
        let b = s[i];
        proof {
            assert(d[i - from] == s@[i as int]);
        }
        if b < 48 || b > 57 {
            return None;
        }
        acc = acc * 10 + ((b - 48) as u64);
        proof {
            assert(d.subrange(0, i + 1 - from).drop_last() =~= d.subrange(0, i - from));
            assert(d.subrange(0, i + 1 - from).last() == d[i - from]);
        }
        i += 1;
        if acc > 0xffff_ffffu64 {
            proof {
                if all_digits(d) {
                    lemma_dec_val_prefix(d, i - from);
                }
            }
            return None;
        }
    }
    proof {
        assert(d.subrange(0, s@.len() - from) =~= d);
    }
    Some(acc as u32)
}

/// Reads the hexadecimal numeral in `s` from position `from` on, bounded at
/// 32 bits.
pub fn parse_hex_digits(s: &[u8], from: usize) -> (r: Option<u32>)
    requires
        from <= s@.len(),
    ensures
        ({
            let d = s@.subrange(from as int, s@.len() as int);
            match r {
                Some(v) => is_hex_string(d) && hex_val(d) == v,
                None => !is_hex_string(d) || hex_val(d) > u32::MAX,
            }
        }),
{
    let ghost d = s@.subrange(from as int, s@.len() as int);
    if from == s.len() {
        return None;
    }
    let mut acc: u64 = 0;
    let mut i: usize = from;
    proof {
        assert(d.subrange(0, 0) =~= Seq::<u8>::empty());
    }
    while i < s.len()
        invariant
            from <= i <= s@.len(),
            d == s@.subrange(from as int, s@.len() as int),
            forall|j: int| 0 <= j < i - from ==> is_hex_digit(d[j]),
            acc == hex_val(d.subrange(0, i - from)),
            acc <= u32::MAX,
        decreases s@.len() - i,
    {
        let b = s[i];
        proof {
            assert(d[i - from] == s@[i as int]);
        }
        let dv: u64 = if 48 <= b && b <= 57 {
            (b - 48) as u64
        } else if 97 <= b && b <= 102 {
            (b - 87) as u64
        } else if 65 <= b && b <= 70 {
            (b - 55) as u64
        } else {
            return None;
        };
        acc = acc * 16 + dv;
        proof {
            assert(d.subrange(0, i + 1 - from).drop_last() =~= d.subrange(0, i - from));
            assert(d.subrange(0, i + 1 - from).last() == d[i - from]);
        }
        i += 1;
        if acc > 0xffff_ffffu64 {
            proof {
                if all_hex(d) {
                    lemma_hex_val_prefix(d, i - from);
                }
            }
            return None;
        }
    }
    proof {
        assert(d.subrange(0, s@.len() - from) =~= d);
    }
    Some(acc as u32)
}

/// A signed decimal numeral: an optional minus sign, then digits, within the
/// signed 32-bit range.
pub open spec fn parse_sdec_spec(s: Seq<u8>) -> Option<i32> {
    let neg = s.len() > 0 && s[0] == B_MINUS;
    let d = if neg {
        s.drop_first()
    } else {
        s
    };
    if is_dec_string(d) {
        let v = if neg {
            -dec_val(d)
        } else {
            dec_val(d)
        };
        if i32::MIN <= v <= i32::MAX {
            Some(v as i32)
        } else {
            None
        }
    } else {
        None
    }
}

/// Reads the signed decimal numeral in `s` from position `from` on.
pub fn parse_sdec(s: &[u8], from: usize) -> (r: Option<i32>)
    requires
        from <= s@.len(),
    ensures
        r == parse_sdec_spec(s@.subrange(from as int, s@.len() as int)),
{
    let ghost t = s@.subrange(from as int, s@.len() as int);
    let neg = from < s.len() && s[from] == B_MINUS;
    let dfrom = if neg {
        from + 1
    } else {
        from
    };
    proof {
        if neg {
            assert(t.drop_first() =~= s@.subrange(dfrom as int, s@.len() as int));
        }
    }
    let ghost d = s@.subrange(dfrom as int, s@.len() as int);
    match parse_dec_digits(s, dfrom) {
        Some(v) => {
            if neg {
                if v <= 0x8000_0000u32 {
                    Some((-(v as i64)) as i32)
                } else {
                    None
                }
            } else {
                if v <= 0x7fff_ffffu32 {
                    Some(v as i32)
                } else {
                    None
                }
            }
        },
        None => {
            proof {
                if is_dec_string(d) {
                    lemma_dec_val_nonneg(d);
                }
            }
            None
        },
    }
}

/// An immediate operand literal, the text after the marker: with the hex
/// prefix it is an unsigned 32-bit numeral whose bit pattern is reinterpreted
/// as signed; otherwise a signed decimal numeral.
pub open spec fn parse_literal_spec(s: Seq<u8>) -> Option<i32> {
    if s.len() >= 2 && s[0] == 48 && (s[1] == 120 || s[1] == 88) {
        let h = s.subrange(2, s.len() as int);
        if is_hex_string(h) && hex_val(h) <= u32::MAX {
            Some(i_of_u(hex_val(h) as u32))
        } else {
            None
        }
    } else {
        parse_sdec_spec(s)
    }
}

/// Reads the operand literal in `s` from position `from` on.
pub fn parse_literal(s: &[u8], from: usize) -> (r: Option<i32>)
    requires
        from <= s@.len(),
    ensures
        r == parse_literal_spec(s@.subrange(from as int, s@.len() as int)),
{
    let ghost t = s@.subrange(from as int, s@.len() as int);
    if from < s.len() && from + 1 < s.len() && s[from] == 48 && (s[from + 1] == 120 || s[from + 1]
        == 88) {
        proof {
            assert(t.subrange(2, t.len() as int) =~= s@.subrange(from + 2, s@.len() as int));
        }
        match parse_hex_digits(s, from + 2) {
            Some(v) => Some(crate::bits32::i32_of_u32(v)),
            None => None,
        }
    } else {
        parse_sdec(s, from)
    }
}

/// A register token: the register letter, then a decimal numeral naming an
/// index below the register count.
pub open spec fn parse_register_spec(t: Seq<u8>) -> Option<int> {
    if t.len() >= 2 && (t[0] == 114 || t[0] == 82) {
        let d = t.drop_first();
        if all_digits(d) && dec_val(d) < 16 {
            Some(dec_val(d))
        } else {
            None
        }
    } else {
        None
    }
}

pub fn parse_register(t: &[u8]) -> (r: Option<usize>)
    ensures
        match r {
            Some(i) => parse_register_spec(t@) == Some(i as int) && i < 16,
            None => parse_register_spec(t@) is None,
        },
{
    if t.len() < 2 {
        return None;
    }
    let c = t[0];
    if c != 114 && c != 82 {
        return None;
    }
    proof {
        assert(t@.drop_first() =~= t@.subrange(1, t@.len() as int));
        let d = t@.drop_first();
        if all_digits(d) {
            lemma_dec_val_nonneg(d);
        }
    }
    match parse_dec_digits(t, 1) {
        Some(v) => {
            if v < 16 {
                Some(v as usize)
            } else {
                None
            }
        },
        None => None,
    }
}

/// A value operand: with the immediate marker, a literal; otherwise a
/// register, resolving to that register's current value.
pub open spec fn parse_value_spec(t: Seq<u8>, regs: Seq<i32>) -> Option<i32> {
    if t.len() > 0 && t[0] == B_HASH {
        parse_literal_spec(t.drop_first())
    } else {
        match parse_register_spec(t) {
            Some(i) => Some(regs[i]),
            None => None,
        }
    }
}

pub fn parse_value(t: &[u8], regs: &Vec<i32>) -> (r: Option<i32>)
    requires
        regs@.len() == 16,
    ensures
        r == parse_value_spec(t@, regs@),
{
    if t.len() > 0 && t[0] == B_HASH {
        proof {
            assert(t@.drop_first() =~= t@.subrange(1, t@.len() as int));
        }
        parse_literal(t, 1)
    } else {
        match parse_register(t) {
            Some(i) => Some(regs[i]),
            None => None,
        }
    }
}

/// A signed hexadecimal numeral: an optional minus sign, then hex digits,
/// within the signed 32-bit range.
pub open spec fn parse_shex_spec(s: Seq<u8>) -> Option<i32> {
    let neg = s.len() > 0 && s[0] == B_MINUS;
    let d = if neg {
        s.drop_first()
    } else {
        s
    };
    if is_hex_string(d) {
        let v = if neg {
            -hex_val(d)
        } else {
            hex_val(d)
        };
        if i32::MIN <= v <= i32::MAX {
            Some(v as i32)
        } else {
            None
        }
    } else {
        None
    }
}

pub fn parse_shex(s: &[u8], from: usize) -> (r: Option<i32>)
    requires
        from <= s@.len(),
    ensures
        r == parse_shex_spec(s@.subrange(from as int, s@.len() as int)),
{
    let ghost t = s@.subrange(from as int, s@.len() as int);
    let neg = from < s.len() && s[from] == B_MINUS;
    let dfrom = if neg {
        from + 1
    } else {
        from
    };
    proof {
        if neg {
            assert(t.drop_first() =~= s@.subrange(dfrom as int, s@.len() as int));
        }
    }
    let ghost d = s@.subrange(dfrom as int, s@.len() as int);
    match parse_hex_digits(s, dfrom) {
        Some(v) => {
            if neg {
                if v <= 0x8000_0000u32 {
                    Some((-(v as i64)) as i32)
                } else {
                    None
                }
            } else {
                if v <= 0x7fff_ffffu32 {
                    Some(v as i32)
                } else {
                    None
                }
            }
        },
        None => {
            proof {
                if is_hex_string(d) {
                    lemma_hex_val_nonneg(d);
                }
            }
            None
        },
    }
}

/// Label-initializer data, the whole remainder including the immediate
/// marker: with the hex prefix, a signed hexadecimal numeral; otherwise a
/// signed decimal numeral. Either must fit the signed 32-bit range.
pub open spec fn parse_label_data_spec(rest: Seq<u8>) -> Option<i32> {
    if rest.len() >= 3 && rest[1] == 48 && (rest[2] == 120 || rest[2] == 88) {
        parse_shex_spec(rest.subrange(3, rest.len() as int))
    } else {
        parse_sdec_spec(rest.subrange(1, rest.len() as int))
    }
}

pub fn parse_label_data(rest: &[u8]) -> (r: Option<i32>)
    requires
        rest@.len() >= 1,
    ensures
        r == parse_label_data_spec(rest@),
{
    if rest.len() >= 3 && rest[1] == 48 && (rest[2] == 120 || rest[2] == 88) {
        parse_shex(rest, 3)
    } else {
        parse_sdec(rest, 1)
    }
}

/// The decimal numeral of a nonnegative number, most significant digit first.
pub open spec fn dec_digits(n: int) -> Seq<u8>
    decreases n when n >= 0
{
    if n < 10 {
        seq![(48 + n) as u8]
    } else {
        dec_digits(n / 10).push((48 + n % 10) as u8)
    }
}

/// The decimal rendering of a signed number: a minus sign before the
/// magnitude where negative.
pub open spec fn dec_render(v: int) -> Seq<u8> {
    if v < 0 {
        seq![B_MINUS] + dec_digits(-v)
    } else {
        dec_digits(v)
    }
}

/// Renders a register value in decimal.
pub fn i32_to_dec(v: i32) -> (r: Vec<u8>)
    ensures
        r@ == dec_render(v as int),
{
    let mag: u32 = if v < 0 {
        (-(v as i64)) as u32
    } else {
        v as u32
    };
    let mut digs: Vec<u8> = Vec::new();
    let mut cur: u32 = mag;
    while cur >= 10
        invariant
            dec_digits(mag as int) =~= dec_digits(cur as int) + digs@.reverse(),
        decreases cur,
    {
        let ghost pre = digs@;
        digs.push(48 + (cur % 10) as u8);
        proof {
            assert(digs@.reverse() =~= seq![(48 + (cur as int) % 10) as u8] + pre.reverse());
            assert(dec_digits(cur as int) == dec_digits(cur as int / 10).push(
                (48 + (cur as int) % 10) as u8,
            ));
            assert(dec_digits(cur as int / 10) + digs@.reverse() =~= dec_digits(cur as int)
                + pre.reverse());
        }
        cur = cur / 10;
    }
    let ghost pre = digs@;
    digs.push(48 + (cur % 10) as u8);
    proof {
        assert(cur % 10 == cur);
        assert(digs@.reverse() =~= seq![(48 + cur as int) as u8] + pre.reverse());
        assert(dec_digits(mag as int) =~= digs@.reverse());
    }
    let mut out: Vec<u8> = Vec::new();
    let ghost head: Seq<u8> = if v < 0 {
        seq![B_MINUS]
    } else {
        Seq::empty()
    };
    if v < 0 {
        out.push(B_MINUS);
    }
    proof {
        assert(out@ =~= head + digs@.reverse().subrange(0, 0));
    }
    let mut k: usize = digs.len();
    while k > 0
        invariant
            k <= digs@.len(),
            out@ == head + digs@.reverse().subrange(0, digs@.len() - k),
        decreases k,
    {
        k -= 1;
        out.push(digs[k]);
        proof {
            assert(digs@.reverse()[digs@.len() - k - 1] == digs@[k as int]);
            assert(out@ =~= head + digs@.reverse().subrange(0, digs@.len() - k));
        }
    }
    proof {
        assert(digs@.reverse().subrange(0, digs@.len() as int) =~= digs@.reverse());
        assert(out@ =~= head + dec_digits(mag as int));
        if v >= 0 {
            assert(out@ =~= dec_digits(mag as int));
        }
    }
    out
}

} // verus!
