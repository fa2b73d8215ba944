use vstd::prelude::*;
use crate::error::{result_view, string_of, AsmError, ErrV};
use crate::scan::{chars_of, is_word};
use crate::isa::{Arg, ArgV, MAX_REG, REG_FLAGS, REG_IP, REG_SP};

verus! {

/// The value of a digit character in bases up to 16 (both letter cases), or
/// 16 for a character that is no such digit.
pub open spec fn digit_value(c: char) -> nat {
    if '0' <= c && c <= '9' {
        (c as u32 - '0' as u32) as nat
    } else if 'a' <= c && c <= 'f' {
        (c as u32 - 'a' as u32 + 10) as nat
    } else if 'A' <= c && c <= 'F' {
        (c as u32 - 'A' as u32 + 10) as nat
    } else {
        16
    }
}

/// The number that the digits `t` write in base `radix`.
pub open spec fn digits_value(t: Seq<char>, radix: nat) -> nat
    decreases t.len(),
{
    if t.len() == 0 {
        0
    } else {
        digits_value(t.drop_last(), radix) * radix + digit_value(t.last())
    }
}

/// `t` is a nonempty run of digits of base `radix`.
pub open spec fn is_numeral(t: Seq<char>, radix: nat) -> bool {
    t.len() > 0 && forall|i: int| 0 <= i < t.len() ==> digit_value(#[trigger] t[i]) < radix
}

/// The value of the numeral `t` in base `radix` where it is one and fits in 32 bits.
pub open spec fn numeral_u32(t: Seq<char>, radix: nat) -> Option<u32> {
    if is_numeral(t, radix) && digits_value(t, radix) <= u32::MAX {
        Some(digits_value(t, radix) as u32)
    } else {
        None
    }
}

/// The base that a letter after a leading `0` selects, or 0 for none.
pub open spec fn radix_of(c: char) -> nat {
    if c == 'x' {
        16
    } else if c == 'o' {
        8
    } else if c == 'b' {
        2
    } else {
        0
    }
}

/// An immediate from the numeral `d` in base `radix`; `t` is the whole operand text.
pub open spec fn immediate(t: Seq<char>, d: Seq<char>, radix: nat) -> Result<ArgV, ErrV> {
    match numeral_u32(d, radix) {
        Some(v) => Ok(ArgV::Imm(v)),
        None => Err(ErrV::BadNumber(t)),
    }
}

/// What the operand text `t` denotes.
pub open spec fn classify(t: Seq<char>) -> Result<ArgV, ErrV> {
    if t == "ip"@ {
        Ok(ArgV::Reg(125))
    } else if t == "sp"@ {
        Ok(ArgV::Reg(126))
    } else if t == "flgs"@ {
        Ok(ArgV::Reg(127))
    } else if t.len() == 0 {
        Err(ErrV::BadOperand(t))
    } else if t[0] == '.' {
        Ok(ArgV::Label(t.drop_first()))
    } else if t[0] == 'r' {
        match numeral_u32(t.drop_first(), 10) {
            Some(v) if v <= 127 => Ok(ArgV::Reg(v as u16)),
            _ => Err(ErrV::BadNumber(t)),
        }
    } else if t[0] == '0' {
        if t.len() == 1 {
            Ok(ArgV::Imm(0))
        } else if radix_of(t[1]) == 0 {
            Err(ErrV::BadNumber(t))
        } else {
            immediate(t, t.subrange(2, t.len() as int), radix_of(t[1]))
        }
    } else if '1' <= t[0] && t[0] <= '9' {
        immediate(t, t, 10)
    } else {
        Err(ErrV::BadOperand(t))
    }
}

/// A numeral that starts with digits of value at least that of a prefix.
pub proof fn lemma_digits_value_prefix(t: Seq<char>, j: int, radix: nat)
    requires
        0 <= j <= t.len(),
        radix >= 1,
    ensures
        digits_value(t.take(j), radix) <= digits_value(t, radix),
    decreases t.len(),
{
    if j < t.len() {
        let d = t.drop_last();
        assert(t.take(j) =~= d.take(j));
        lemma_digits_value_prefix(d, j, radix);
        let v = digits_value(d, radix);
        assert(v <= v * radix) by (nonlinear_arith)
            requires
                radix >= 1,
        ;
    } else {
        assert(t.take(j) =~= t);
    }
}

/// The names `ip`, `sp` and `flgs` always denote registers 125, 126 and 127.
pub proof fn lemma_reserved_registers()
    ensures
        classify("ip"@) == Ok::<ArgV, ErrV>(ArgV::Reg(125)),
        classify("sp"@) == Ok::<ArgV, ErrV>(ArgV::Reg(126)),
        classify("flgs"@) == Ok::<ArgV, ErrV>(ArgV::Reg(127)),
{
    reveal_strlit("ip");
    reveal_strlit("sp");
    reveal_strlit("flgs");
    assert("sp"@[0] != "ip"@[0]);
    assert("flgs"@.len() != "ip"@.len());
    assert("flgs"@.len() != "sp"@.len());
}

/// An operand whose first character starts no operand kind (neither `.`,
/// `r` nor a decimal digit), and that is no reserved register name, is a
/// syntax error: it never becomes a register, an immediate or a label.
pub proof fn lemma_bad_lead_rejected(t: Seq<char>)
    requires
        t.len() > 0,
        t[0] != '.',
        t[0] != 'r',
        !('0' <= t[0] && t[0] <= '9'),
        t != "ip"@,
        t != "sp"@,
        t != "flgs"@,
    ensures
        classify(t) == Err::<ArgV, ErrV>(ErrV::BadOperand(t)),
{
}

/// The value of a digit character, 16 where it is none.
pub fn digit_of(c: char) -> (r: u32)
    ensures
        r == digit_value(c),
{
    if '0' <= c && c <= '9' {
        c as u32 - '0' as u32
    } else if 'a' <= c && c <= 'f' {
        c as u32 - 'a' as u32 + 10
    } else if 'A' <= c && c <= 'F' {
        c as u32 - 'A' as u32 + 10
    } else {
        16
    }
}

/// Reads the numeral `t[start..]` in base `radix` into 32 bits.
pub fn parse_numeral(t: &Vec<char>, start: usize, radix: u32) -> (r: Option<u32>)
    requires
        start <= t.len(),
        2 <= radix <= 16,
    ensures
        r == numeral_u32(t@.subrange(start as int, t.len() as int), radix as nat),
{
    let ghost d = t@.subrange(start as int, t.len() as int);
    if start == t.len() {
        return None;
    }
    let mut acc: u32 = 0;
    let mut i: usize = start;
    while i < t.len()
        invariant
            start <= i <= t.len(),
            d == t@.subrange(start as int, t.len() as int),
            2 <= radix <= 16,
            acc == digits_value(t@.subrange(start as int, i as int), radix as nat),
            forall|k: int| start <= k < i ==> digit_value(#[trigger] t@[k]) < radix,
        decreases t.len() - i,
    {
        let ghost pre = t@.subrange(start as int, i as int);
        let ghost next = t@.subrange(start as int, i + 1);
        assert(next.drop_last() =~= pre);
        let dv = digit_of(t[i]);
        if dv >= radix {
            assert(d[i - start] == t@[i as int]);
            return None;
        }
        assert(acc as u64 * radix as u64 <= 0xffff_ffff_u64 * 16) by (nonlinear_arith)
            requires
                acc <= 0xffff_ffff_u32,
                radix <= 16,
        ;
        let wide: u64 = acc as u64 * radix as u64 + dv as u64;
        if wide > u32::MAX as u64 {
            proof {
                assert(next =~= d.take(i + 1 - start));
                lemma_digits_value_prefix(d, i + 1 - start, radix as nat);
            }
            return None;
        }
        acc = wide as u32;
        i = i + 1;
    }
    proof {
        assert(t@.subrange(start as int, i as int) =~= d);
        assert forall|k: int| 0 <= k < d.len() implies digit_value(#[trigger] d[k]) < radix by {
            assert(d[k] == t@[start + k]);
        }
    }
    Some(acc)
}

/// The malformed-number error for the operand text `t`.
fn bad_number(t: &Vec<char>) -> (r: AsmError)
    ensures
        r@ == ErrV::BadNumber(t@),
{
    AsmError::BadNumber(string_of(t))
}

/// An immediate from the numeral `t[start..]` in base `radix`.
fn immediate_exec(t: &Vec<char>, start: usize, radix: u32) -> (r: Result<Arg, AsmError>)
    requires
        start <= t.len(),
        2 <= radix <= 16,
    ensures
        result_view(r) == immediate(
            t@,
            t@.subrange(start as int, t.len() as int),
            radix as nat,
        ),
{
    match parse_numeral(t, start, radix) {
        Some(v) => Ok(Arg::Imm(v)),
        None => Err(bad_number(t)),
    }
}

/// Classifies the operand text `t` as a register, an immediate or a label reference.
pub fn classify_chars(t: &Vec<char>) -> (r: Result<Arg, AsmError>)
    ensures
        result_view(r) == classify(t@),
{
    if is_word(t, "ip") {
        return Ok(Arg::Reg(REG_IP));
    }
    if is_word(t, "sp") {
        return Ok(Arg::Reg(REG_SP));
    }
    if is_word(t, "flgs") {
        return Ok(Arg::Reg(REG_FLAGS));
    }
    if t.len() == 0 {
        return Err(AsmError::BadOperand(string_of(t)));
    }
    let c = t[0];
    if c == '.' {
        let mut name: Vec<char> = Vec::new();
        let mut i: usize = 1;
        while i < t.len()
            invariant
                1 <= i <= t.len(),
                name@ == t@.subrange(1, i as int),
            decreases t.len() - i,
        {
            name.push(t[i]);
            i = i + 1;
            assert(name@ =~= t@.subrange(1, i as int));
        }
        assert(name@ =~= t@.drop_first());
        Ok(Arg::Label(string_of(&name)))
    } else if c == 'r' {
        assert(t@.subrange(1, t.len() as int) =~= t@.drop_first());
        match parse_numeral(t, 1, 10) {
            Some(v) => {
                if v <= MAX_REG as u32 {
                    Ok(Arg::Reg(v as u16))
                } else {
                    Err(bad_number(t))
                }
            },
            None => Err(bad_number(t)),
        }
    } else if c == '0' {
        if t.len() == 1 {
            Ok(Arg::Imm(0))
        } else {
            let k = t[1];
            if k == 'x' {
                immediate_exec(t, 2, 16)
            } else if k == 'o' {
                immediate_exec(t, 2, 8)
            } else if k == 'b' {
                immediate_exec(t, 2, 2)
            } else {
                Err(bad_number(t))
            }
        }
    } else if '1' <= c && c <= '9' {
        assert(t@.subrange(0, t.len() as int) =~= t@);
        immediate_exec(t, 0, 10)
    } else {
        Err(AsmError::BadOperand(string_of(t)))
    }
}

/// Classifies an operand as it is written in assembly text.
pub fn parse_arg(arg: &str) -> (r: Result<Arg, AsmError>)
    ensures
        result_view(r) == classify(arg@),
{
    let t = chars_of(arg);
    classify_chars(&t)
}

} // verus!
