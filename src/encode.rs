use vstd::prelude::*;
use vstd::string::StringExecFns;
use crate::error::{push_char, result_view, AsmError, ErrV};
use crate::isa::{arity, slots, Arg, ArgV, Cond, InsnV, Instruction, LabelV, Program};
use crate::layout::{label_addr, total_slots};

verus! {

/// The character of a decimal digit.
pub open spec fn digit_char(d: nat) -> char {
    if d == 0 {
        '0'
    } else if d == 1 {
        '1'
    } else if d == 2 {
        '2'
    } else if d == 3 {
        '3'
    } else if d == 4 {
        '4'
    } else if d == 5 {
        '5'
    } else if d == 6 {
        '6'
    } else if d == 7 {
        '7'
    } else if d == 8 {
        '8'
    } else {
        '9'
    }
}

/// `n` written in decimal, without leading zeros.
pub open spec fn dec(n: nat) -> Seq<char>
    decreases n,
{
    if n < 10 {
        seq![digit_char(n)]
    } else {
        dec(n / 10).push(digit_char(n % 10))
    }
}

/// Each field preceded by a comma and a space.
pub open spec fn fields_text(f: Seq<Seq<char>>) -> Seq<char>
    decreases f.len(),
{
    if f.len() == 0 {
        Seq::empty()
    } else {
        fields_text(f.drop_last()) + ", "@ + f.last()
    }
}

/// One output line: the selector, then each field, ended by a comma and a newline.
pub open spec fn line(sel: Seq<char>, f: Seq<Seq<char>>) -> Seq<char> {
    sel + fields_text(f) + ",\n"@
}

/// The symbolic name that the output gives a condition.
pub open spec fn cond_name(c: Cond) -> Seq<char> {
    match c {
        Cond::EQ => "BranchType.EQ"@,
        Cond::GT => "BranchType.GT"@,
        Cond::LT => "BranchType.LT"@,
        Cond::NEQ => "BranchType.NEQ"@,
    }
}

/// The error for an operand of the wrong kind in slot `slot`.
pub open spec fn kind_err(lname: Seq<char>, idx: usize, slot: usize) -> Result<(Seq<char>, Seq<Seq<char>>), ErrV> {
    Err(ErrV::WrongOperandKind { label: lname, index: idx, slot })
}

/// A selector and fields that end with the address of the label `name`.
pub open spec fn target_fields(labels: Seq<LabelV>, sel: Seq<char>, pre: Seq<Seq<char>>, name: Seq<char>) -> Result<(Seq<char>, Seq<Seq<char>>), ErrV> {
    match label_addr(labels, name) {
        Some(a) => Ok((sel, pre.push(dec(a)))),
        None => Err(ErrV::UndefinedLabel(name)),
    }
}

/// The selector and the fields that the instruction at index `idx` of the
/// label `lname` is encoded as.
pub open spec fn insn_encoding(labels: Seq<LabelV>, lname: Seq<char>, idx: usize, insn: InsnV) -> Result<(Seq<char>, Seq<Seq<char>>), ErrV> {
    match insn {
        InsnV::Mov(d, s) => match d {
            ArgV::Reg(r) => match s {
                ArgV::Imm(v) => Ok(("Op.MOV_CONST"@, seq![dec(r as nat), dec(v as nat)])),
                ArgV::Reg(x) => Ok(("Op.MOV_REG"@, seq![dec(r as nat), dec(x as nat)])),
                ArgV::Label(_) => kind_err(lname, idx, 1),
            },
            _ => kind_err(lname, idx, 0),
        },
        InsnV::Branch(a) => match a {
            ArgV::Label(n) => target_fields(labels, "Op.BRANCH_CONST"@, seq![], n),
            ArgV::Reg(r) => Ok(("Op.BRANCH_REG"@, seq![dec(r as nat)])),
            ArgV::Imm(_) => kind_err(lname, idx, 0),
        },
        InsnV::BranchCond(c, a) => match a {
            ArgV::Label(n) => target_fields(labels, "Op.BRANCH_COND_CONST"@, seq![cond_name(c)], n),
            ArgV::Reg(r) => Ok(("Op.BRANCH_COND_REG"@, seq![cond_name(c), dec(r as nat)])),
            ArgV::Imm(_) => kind_err(lname, idx, 0),
        },
        InsnV::Cmp(a, b) => match a {
            ArgV::Reg(r) => match b {
                ArgV::Imm(v) => Ok(("Op.CMP_REG_CONST"@, seq![dec(r as nat), dec(v as nat)])),
                ArgV::Reg(x) => Ok(("Op.CMP_REG_REG"@, seq![dec(r as nat), dec(x as nat)])),
                ArgV::Label(_) => kind_err(lname, idx, 1),
            },
            _ => kind_err(lname, idx, 0),
        },
        InsnV::Add(d, a, b) => match d {
            ArgV::Reg(r) => match a {
                ArgV::Reg(x) => match b {
                    ArgV::Reg(y) => Ok(("Op.ADD_REG"@, seq![dec(r as nat), dec(x as nat), dec(y as nat)])),
                    ArgV::Imm(v) => Ok(("Op.ADD_CONST"@, seq![dec(r as nat), dec(x as nat), dec(v as nat)])),
                    ArgV::Label(_) => kind_err(lname, idx, 2),
                },
                _ => kind_err(lname, idx, 1),
            },
            _ => kind_err(lname, idx, 0),
        },
        InsnV::Push(a) => match a {
            ArgV::Reg(r) => Ok(("Op.PUSH_REG"@, seq![dec(r as nat)])),
            ArgV::Imm(v) => Ok(("Op.PUSH_CONST"@, seq![dec(v as nat)])),
            ArgV::Label(_) => kind_err(lname, idx, 0),
        },
        InsnV::Str(d, s) => match d {
            ArgV::Reg(r) => match s {
                ArgV::Reg(x) => Ok(("Op.STR_REG_TO_REG"@, seq![dec(r as nat), dec(x as nat)])),
                ArgV::Imm(v) => Ok(("Op.STR_CONST_TO_REG"@, seq![dec(r as nat), dec(v as nat)])),
                ArgV::Label(_) => kind_err(lname, idx, 1),
            },
            ArgV::Imm(w) => match s {
                ArgV::Reg(x) => Ok(("Op.STR_REG_TO_CONST"@, seq![dec(w as nat), dec(x as nat)])),
                ArgV::Imm(v) => Ok(("Op.STR_CONST_TO_CONST"@, seq![dec(w as nat), dec(v as nat)])),
                ArgV::Label(_) => kind_err(lname, idx, 1),
            },
            ArgV::Label(_) => kind_err(lname, idx, 0),
        },
        InsnV::Call(a) => match a {
            ArgV::Reg(r) => Ok(("Op.CALL_REG"@, seq![dec(r as nat)])),
            ArgV::Imm(v) => Ok(("Op.CALL_CONST"@, seq![dec(v as nat)])),
            ArgV::Label(n) => target_fields(labels, "Op.CALL_CONST"@, seq![], n),
        },
        InsnV::Calljs(a) => match a {
            ArgV::Reg(r) => Ok(("Op.CALL_JS_REG"@, seq![dec(r as nat)])),
            ArgV::Imm(v) => Ok(("Op.CALL_JS_CONST"@, seq![dec(v as nat)])),
            ArgV::Label(_) => kind_err(lname, idx, 0),
        },
        InsnV::Inc(a) => match a {
            ArgV::Reg(r) => Ok(("Op.INC"@, seq![dec(r as nat)])),
            _ => kind_err(lname, idx, 0),
        },
        InsnV::Dec(a) => match a {
            ArgV::Reg(r) => Ok(("Op.DEC"@, seq![dec(r as nat)])),
            _ => kind_err(lname, idx, 0),
        },
        InsnV::Cli => Ok(("Op.CLEAR_FLAGS"@, seq![])),
    }
}

/// The output line of the instruction at index `idx` of the label `lname`.
pub open spec fn insn_line(labels: Seq<LabelV>, lname: Seq<char>, idx: usize, insn: InsnV) -> Result<Seq<char>, ErrV> {
    match insn_encoding(labels, lname, idx, insn) {
        Ok((sel, f)) => Ok(line(sel, f)),
        Err(e) => Err(e),
    }
}

/// The encoder and the address model agree: an instruction that encodes is
/// written as its selector and exactly as many fields as its arity, so it
/// fills exactly the slots that the address model gives it.
pub proof fn lemma_encoding_fills_slots(labels: Seq<LabelV>, lname: Seq<char>, idx: usize, insn: InsnV)
    requires
        insn_encoding(labels, lname, idx, insn) is Ok,
    ensures
        insn_encoding(labels, lname, idx, insn)->Ok_0.1.len() == arity(insn),
        1 + insn_encoding(labels, lname, idx, insn)->Ok_0.1.len() == slots(insn),
{
}

/// The output of the instructions `insns` of the label `lname`, or the error
/// of the first one that fails.
pub open spec fn encode_block(labels: Seq<LabelV>, lname: Seq<char>, insns: Seq<InsnV>) -> Result<Seq<char>, ErrV>
    decreases insns.len(),
{
    if insns.len() == 0 {
        Ok(Seq::empty())
    } else {
        match encode_block(labels, lname, insns.drop_last()) {
            Err(e) => Err(e),
            Ok(t) => match insn_line(labels, lname, (insns.len() - 1) as usize, insns.last()) {
                Err(e) => Err(e),
                Ok(l) => Ok(t + l),
            },
        }
    }
}

/// The output of the first `k` labels, or the error of the first instruction that fails.
pub open spec fn encode_labels(labels: Seq<LabelV>, k: int) -> Result<Seq<char>, ErrV>
    decreases k,
{
    if k <= 0 {
        Ok(Seq::empty())
    } else {
        match encode_labels(labels, k - 1) {
            Err(e) => Err(e),
            Ok(t) => match encode_block(labels, labels[k - 1].name, labels[k - 1].insns) {
                Err(e) => Err(e),
                Ok(b) => Ok(t + b),
            },
        }
    }
}

/// The output of a whole program.
pub open spec fn encode(labels: Seq<LabelV>) -> Result<Seq<char>, ErrV> {
    encode_labels(labels, labels.len() as int)
}

/// The character of the decimal digit `d`.
fn digit_exec(d: u64) -> (r: char)
    requires
        d < 10,
    ensures
        r == digit_char(d as nat),
{
    if d == 0 {
        '0'
    } else if d == 1 {
        '1'
    } else if d == 2 {
        '2'
    } else if d == 3 {
        '3'
    } else if d == 4 {
        '4'
    } else if d == 5 {
        '5'
    } else if d == 6 {
        '6'
    } else if d == 7 {
        '7'
    } else if d == 8 {
        '8'
    } else {
        '9'
    }
}

/// Appends `n` in decimal.
fn push_dec(out: &mut String, n: u64)
    ensures
        final(out)@ == old(out)@ + dec(n as nat),
    decreases n,
{
    if n >= 10 {
        push_dec(out, n / 10);
    }
    let ghost mid = out@;
    push_char(out, digit_exec(n % 10));
    assert(out@ =~= old(out)@ + dec(n as nat)) by {
        if n >= 10 {
            assert(mid == old(out)@ + dec((n / 10) as nat));
        }
    }
}

/// `n` in decimal.
pub fn dec_string(n: u64) -> (r: String)
    ensures
        r@ == dec(n as nat),
{
    let mut s = String::new();
    push_dec(&mut s, n);
    assert(s@ =~= dec(n as nat));
    s
}

/// One more field adds a comma, a space and that field.
proof fn lemma_fields_text_push(f: Seq<Seq<char>>, x: Seq<char>)
    ensures
        fields_text(f.push(x)) == fields_text(f) + ", "@ + x,
{
    assert(f.push(x).drop_last() =~= f);
}

/// An output line with no fields.
fn render0(sel: &str) -> (r: String)
    ensures
        r@ == line(sel@, seq![]),
{
    let mut r = String::from_str(sel);
    r.append(",\n");
    assert(r@ =~= line(sel@, seq![]));
    r
}

/// An output line with one field.
fn render1(sel: &str, a: String) -> (r: String)
    ensures
        r@ == line(sel@, seq![a@]),
{
    let mut r = String::from_str(sel);
    r.append(", ");
    r.append(a.as_str());
    r.append(",\n");
    proof {
        lemma_fields_text_push(seq![], a@);
    }
    assert(fields_text(seq![a@]) =~= ", "@ + a@);
    assert(r@ =~= line(sel@, seq![a@]));
    r
}

/// An output line with two fields.
fn render2(sel: &str, a: String, b: String) -> (r: String)
    ensures
        r@ == line(sel@, seq![a@, b@]),
{
    let mut r = String::from_str(sel);
    r.append(", ");
    r.append(a.as_str());
    r.append(", ");
    r.append(b.as_str());
    r.append(",\n");
    proof {
        lemma_fields_text_push(seq![], a@);
    }
    assert(fields_text(seq![a@]) =~= ", "@ + a@);
    proof {
        lemma_fields_text_push(seq![a@], b@);
        assert(seq![a@].push(b@) =~= seq![a@, b@]);
    }
    assert(fields_text(seq![a@, b@]) =~= ", "@ + a@ + ", "@ + b@);
    assert(r@ =~= line(sel@, seq![a@, b@]));
    r
}

/// An output line with three fields.
fn render3(sel: &str, a: String, b: String, c: String) -> (r: String)
    ensures
        r@ == line(sel@, seq![a@, b@, c@]),
{
    let mut r = String::from_str(sel);
    r.append(", ");
    r.append(a.as_str());
    r.append(", ");
    r.append(b.as_str());
    r.append(", ");
    r.append(c.as_str());
    r.append(",\n");
    assert(seq![a@, b@, c@].drop_last() =~= seq![a@, b@]);
    proof {
        lemma_fields_text_push(seq![], a@);
    }
    assert(fields_text(seq![a@]) =~= ", "@ + a@);
    proof {
        lemma_fields_text_push(seq![a@], b@);
        assert(seq![a@].push(b@) =~= seq![a@, b@]);
    }
    assert(fields_text(seq![a@, b@]) =~= ", "@ + a@ + ", "@ + b@);
    proof {
        lemma_fields_text_push(seq![a@, b@], c@);
        assert(seq![a@, b@].push(c@) =~= seq![a@, b@, c@]);
    }
    assert(fields_text(seq![a@, b@, c@]) =~= ", "@ + a@ + ", "@ + b@ + ", "@ + c@);
    assert(r@ =~= line(sel@, seq![a@, b@, c@]));
    r
}

/// The output name of a condition.
fn cond_string(c: Cond) -> (r: String)
    ensures
        r@ == cond_name(c),
{
    match c {
        Cond::EQ => String::from_str("BranchType.EQ"),
        Cond::GT => String::from_str("BranchType.GT"),
        Cond::LT => String::from_str("BranchType.LT"),
        Cond::NEQ => String::from_str("BranchType.NEQ"),
    }
}

/// The error for an operand of the wrong kind.
fn kind_error(lname: &String, idx: usize, slot: usize) -> (r: AsmError)
    ensures
        r@ == (ErrV::WrongOperandKind { label: lname@, index: idx, slot }),
{
    AsmError::WrongOperandKind { label: lname.clone(), index: idx, slot }
}

impl Program {
    /// The address of the label `name` in decimal, or the undefined-label error.
    fn resolve(&self, name: &String) -> (r: Result<String, AsmError>)
        requires
            total_slots(self@) <= usize::MAX,
        ensures
            match label_addr(self@, name@) {
                Some(a) => r matches Ok(t) && t@ == dec(a),
                None => r matches Err(e) && e@ == ErrV::UndefinedLabel(name@),
            },
    {
        match self.find_label_start_index(name) {
            Some(a) => Ok(dec_string(a as u64)),
            None => Err(AsmError::UndefinedLabel(name.clone())),
        }
    }

    /// The output line of `insn`, the instruction at index `idx` of the label `lname`.
    fn encode_insn(&self, lname: &String, idx: usize, insn: &Instruction) -> (r: Result<String, AsmError>)
        requires
            total_slots(self@) <= usize::MAX,
        ensures
            result_view(r) == insn_line(self@, lname@, idx, insn@),
    {
        match insn {
            Instruction::Mov(d, s) => match d {
                Arg::Reg(r) => match s {
                    Arg::Imm(v) => Ok(render2("Op.MOV_CONST", dec_string(*r as u64), dec_string(*v as u64))),
                    Arg::Reg(x) => Ok(render2("Op.MOV_REG", dec_string(*r as u64), dec_string(*x as u64))),
                    Arg::Label(_) => Err(kind_error(lname, idx, 1)),
                },
                _ => Err(kind_error(lname, idx, 0)),
            },
            Instruction::Branch(a) => match a {
                Arg::Label(n) => {
                    let t = self.resolve(n)?;
                    assert(seq![].push(t@) =~= seq![t@]);
                    Ok(render1("Op.BRANCH_CONST", t))
                },
                Arg::Reg(r) => Ok(render1("Op.BRANCH_REG", dec_string(*r as u64))),
                Arg::Imm(_) => Err(kind_error(lname, idx, 0)),
            },
            Instruction::BranchCond(c, a) => match a {
                Arg::Label(n) => {
                    let t = self.resolve(n)?;
                    assert(seq![cond_name(*c)].push(t@) =~= seq![cond_name(*c), t@]);
                    Ok(render2("Op.BRANCH_COND_CONST", cond_string(*c), t))
                },
                Arg::Reg(r) => Ok(render2("Op.BRANCH_COND_REG", cond_string(*c), dec_string(*r as u64))),
                Arg::Imm(_) => Err(kind_error(lname, idx, 0)),
            },
            Instruction::Cmp(a, b) => match a {
                Arg::Reg(r) => match b {
                    Arg::Imm(v) => Ok(render2("Op.CMP_REG_CONST", dec_string(*r as u64), dec_string(*v as u64))),
                    Arg::Reg(x) => Ok(render2("Op.CMP_REG_REG", dec_string(*r as u64), dec_string(*x as u64))),
                    Arg::Label(_) => Err(kind_error(lname, idx, 1)),
                },
                _ => Err(kind_error(lname, idx, 0)),
            },
            Instruction::Add(d, a, b) => match d {
                Arg::Reg(r) => match a {
                    Arg::Reg(x) => match b {
                        Arg::Reg(y) => Ok(render3("Op.ADD_REG", dec_string(*r as u64), dec_string(*x as u64), dec_string(*y as u64))),
                        Arg::Imm(v) => Ok(render3("Op.ADD_CONST", dec_string(*r as u64), dec_string(*x as u64), dec_string(*v as u64))),
                        Arg::Label(_) => Err(kind_error(lname, idx, 2)),
                    },
                    _ => Err(kind_error(lname, idx, 1)),
                },
                _ => Err(kind_error(lname, idx, 0)),
            },
            Instruction::Push(a) => match a {
                Arg::Reg(r) => Ok(render1("Op.PUSH_REG", dec_string(*r as u64))),
                Arg::Imm(v) => Ok(render1("Op.PUSH_CONST", dec_string(*v as u64))),
                Arg::Label(_) => Err(kind_error(lname, idx, 0)),
            },
            Instruction::Str(d, s) => match d {
                Arg::Reg(r) => match s {
                    Arg::Reg(x) => Ok(render2("Op.STR_REG_TO_REG", dec_string(*r as u64), dec_string(*x as u64))),
                    Arg::Imm(v) => Ok(render2("Op.STR_CONST_TO_REG", dec_string(*r as u64), dec_string(*v as u64))),
                    Arg::Label(_) => Err(kind_error(lname, idx, 1)),
                },
                Arg::Imm(w) => match s {
                    Arg::Reg(x) => Ok(render2("Op.STR_REG_TO_CONST", dec_string(*w as u64), dec_string(*x as u64))),
                    Arg::Imm(v) => Ok(render2("Op.STR_CONST_TO_CONST", dec_string(*w as u64), dec_string(*v as u64))),
                    Arg::Label(_) => Err(kind_error(lname, idx, 1)),
                },
                Arg::Label(_) => Err(kind_error(lname, idx, 0)),
            },
            Instruction::Call(a) => match a {
                Arg::Reg(r) => Ok(render1("Op.CALL_REG", dec_string(*r as u64))),
                Arg::Imm(v) => Ok(render1("Op.CALL_CONST", dec_string(*v as u64))),
                Arg::Label(n) => {
                    let t = self.resolve(n)?;
                    assert(seq![].push(t@) =~= seq![t@]);
                    Ok(render1("Op.CALL_CONST", t))
                },
            },
            Instruction::Calljs(a) => match a {
                Arg::Reg(r) => Ok(render1("Op.CALL_JS_REG", dec_string(*r as u64))),
                Arg::Imm(v) => Ok(render1("Op.CALL_JS_CONST", dec_string(*v as u64))),
                Arg::Label(_) => Err(kind_error(lname, idx, 0)),
            },
            Instruction::Inc(a) => match a {
                Arg::Reg(r) => Ok(render1("Op.INC", dec_string(*r as u64))),
                _ => Err(kind_error(lname, idx, 0)),
            },
            Instruction::Dec(a) => match a {
                Arg::Reg(r) => Ok(render1("Op.DEC", dec_string(*r as u64))),
                _ => Err(kind_error(lname, idx, 0)),
            },
            Instruction::Cli() => Ok(render0("Op.CLEAR_FLAGS")),
        }
    }
}

/// Once a prefix of a label body fails, the whole body fails with that error.
pub proof fn lemma_block_error_stays(labels: Seq<LabelV>, lname: Seq<char>, insns: Seq<InsnV>, k: int)
    requires
        0 <= k <= insns.len(),
        encode_block(labels, lname, insns.take(k)) is Err,
    ensures
        encode_block(labels, lname, insns) == encode_block(labels, lname, insns.take(k)),
    decreases insns.len(),
{
    if k < insns.len() {
        assert(insns.take(k) =~= insns.drop_last().take(k));
        lemma_block_error_stays(labels, lname, insns.drop_last(), k);
    } else {
        assert(insns.take(k) =~= insns);
    }
}

/// Once the first `k` labels fail, the whole program fails with that error.
pub proof fn lemma_labels_error_stays(labels: Seq<LabelV>, k: int, n: int)
    requires
        k <= n,
        encode_labels(labels, k) is Err,
    ensures
        encode_labels(labels, n) == encode_labels(labels, k),
    decreases n - k,
{
    if k < n {
        lemma_labels_error_stays(labels, k, n - 1);
    }
}

impl Program {
    /// Encodes the program: one line per instruction, in program order, with
    /// label operands replaced by their addresses. Fails with the error of the
    /// first instruction that cannot be encoded, and then yields no output.
    pub fn assemble(&self) -> (r: Result<String, AsmError>)
        requires
            total_slots(self@) <= usize::MAX,
        ensures
            result_view(r) == encode(self@),
    {
        let mut out = String::new();
        let mut j: usize = 0;
        while j < self.labels.len()
            invariant
                j <= self.labels.len(),
                self@.len() == self.labels.len(),
                total_slots(self@) <= usize::MAX,
                encode_labels(self@, j as int) == Ok::<Seq<char>, ErrV>(out@),
            decreases self.labels.len() - j,
        {
            let label = &self.labels[j];
            let ghost insns = self@[j as int].insns;
            let ghost start = out@;
            let mut k: usize = 0;
            while k < label.instructions.len()
                invariant
                    k <= label.instructions.len(),
                    j < self.labels.len(),
                    label == &self.labels[j as int],
                    insns == self@[j as int].insns,
                    insns.len() == label.instructions.len(),
                    self@.len() == self.labels.len(),
                    total_slots(self@) <= usize::MAX,
                    encode_labels(self@, j as int) == Ok::<Seq<char>, ErrV>(start),
                    encode_block(self@, label.name@, insns.take(k as int)) matches Ok(b) && out@
                        == start + b,
                decreases label.instructions.len() - k,
            {
                assert(insns.take(k + 1).drop_last() =~= insns.take(k as int));
                assert(insns[k as int] == label.instructions@[k as int]@);
                match self.encode_insn(&label.name, k, &label.instructions[k]) {
                    Ok(l) => {
                        out.append(l.as_str());
                    },
                    Err(e) => {
                        proof {
                            lemma_block_error_stays(self@, label.name@, insns, k + 1);
                            lemma_labels_error_stays(self@, j + 1, self@.len() as int);
                        }
                        return Err(e);
                    },
                }
                k = k + 1;
                assert(out@ =~= start + encode_block(self@, label.name@, insns.take(k as int))->Ok_0);
            }
            assert(insns.take(k as int) =~= insns);
            j = j + 1;
        }
        Ok(out)
    }
}

} // verus!
