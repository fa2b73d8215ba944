use vstd::prelude::*;
use vstd::string::StringExecFns;
use crate::encode::{dec, dec_string};
use crate::isa::{Arg, ArgV, Cond, InsnV, Instruction, Label, LabelV, Program};

verus! {

/// How a listing writes an operand: `r` before a register, `#` before an
/// immediate, `.` before a label name.
pub open spec fn arg_text(a: ArgV) -> Seq<char> {
    match a {
        ArgV::Imm(v) => "#"@ + dec(v as nat),
        ArgV::Reg(r) => "r"@ + dec(r as nat),
        ArgV::Label(n) => "."@ + n,
    }
}

/// How a listing writes a condition.
pub open spec fn cond_text(c: Cond) -> Seq<char> {
    match c {
        Cond::EQ => "Cond.EQ"@,
        Cond::NEQ => "Cond.NEQ"@,
        Cond::LT => "Cond.LT"@,
        Cond::GT => "Cond.GT"@,
    }
}

/// The parts joined by a comma and a space.
pub open spec fn joined(f: Seq<Seq<char>>) -> Seq<char>
    decreases f.len(),
{
    if f.len() == 0 {
        Seq::empty()
    } else if f.len() == 1 {
        f[0]
    } else {
        joined(f.drop_last()) + ", "@ + f.last()
    }
}

/// `name(part, part, ...)`.
pub open spec fn call_form(name: Seq<char>, f: Seq<Seq<char>>) -> Seq<char> {
    name + "("@ + joined(f) + ")"@
}

/// How a listing writes an instruction.
pub open spec fn insn_text(i: InsnV) -> Seq<char> {
    match i {
        InsnV::Add(d, a, b) => call_form("Add"@, seq![arg_text(d), arg_text(a), arg_text(b)]),
        InsnV::Mov(d, s) => call_form("Mov"@, seq![arg_text(d), arg_text(s)]),
        InsnV::Str(d, s) => call_form("Str"@, seq![arg_text(d), arg_text(s)]),
        InsnV::BranchCond(c, a) => call_form("BranchCond"@, seq![cond_text(c), arg_text(a)]),
        InsnV::Branch(a) => call_form("B"@, seq![arg_text(a)]),
        InsnV::Cmp(a, b) => call_form("Cmp"@, seq![arg_text(a), arg_text(b)]),
        InsnV::Inc(a) => call_form("Inc"@, seq![arg_text(a)]),
        InsnV::Dec(a) => call_form("Dec"@, seq![arg_text(a)]),
        InsnV::Push(a) => call_form("Push"@, seq![arg_text(a)]),
        InsnV::Calljs(a) => call_form("Calljs"@, seq![arg_text(a)]),
        InsnV::Call(a) => call_form("Call"@, seq![arg_text(a)]),
        InsnV::Cli => call_form("Cli"@, seq![]),
    }
}

/// The listing lines of a run of instructions: a tab, the instruction, a newline.
pub open spec fn insns_listing(is: Seq<InsnV>) -> Seq<char>
    decreases is.len(),
{
    if is.len() == 0 {
        Seq::empty()
    } else {
        insns_listing(is.drop_last()) + "\t"@ + insn_text(is.last()) + "\n"@
    }
}

/// The listing of labels: each name and a colon on a line, then its instructions.
pub open spec fn labels_listing(ls: Seq<LabelV>) -> Seq<char>
    decreases ls.len(),
{
    if ls.len() == 0 {
        Seq::empty()
    } else {
        labels_listing(ls.drop_last()) + ls.last().name + ":\n"@ + insns_listing(ls.last().insns)
    }
}

/// One more part after the first adds a comma, a space and that part.
proof fn lemma_joined_push(f: Seq<Seq<char>>, x: Seq<char>)
    requires
        f.len() > 0,
    ensures
        joined(f.push(x)) == joined(f) + ", "@ + x,
{
    assert(f.push(x).drop_last() =~= f);
}

/// `name(part, part, ...)` from the parts in order.
fn call_text(name: &str, parts: Vec<String>) -> (r: String)
    ensures
        r@ == call_form(name@, parts@.map_values(|p: String| p@)),
{
    let ghost pv = parts@.map_values(|p: String| p@);
    let mut r = String::from_str(name);
    r.append("(");
    let mut k: usize = 0;
    while k < parts.len()
        invariant
            k <= parts.len(),
            pv == parts@.map_values(|p: String| p@),
            r@ == name@ + "("@ + joined(pv.take(k as int)),
        decreases parts.len() - k,
    {
        let ghost before = r@;
        if k > 0 {
            r.append(", ");
        }
        r.append(parts[k].as_str());
        proof {
            if k > 0 {
                assert(pv.take(k + 1) =~= pv.take(k as int).push(pv[k as int]));
                lemma_joined_push(pv.take(k as int), pv[k as int]);
            } else {
                assert(pv.take(1) =~= seq![pv[0]]);
                assert(pv.take(0) =~= Seq::<Seq<char>>::empty());
            }
        }
        k = k + 1;
        assert(r@ =~= name@ + "("@ + joined(pv.take(k as int)));
    }
    assert(pv.take(k as int) =~= pv);
    r.append(")");
    r
}

/// `name(a)`.
fn call1(name: &str, a: String) -> (r: String)
    ensures
        r@ == call_form(name@, seq![a@]),
{
    let ghost av = a@;
    let v = vec![a];
    assert(v@.map_values(|p: String| p@) =~= seq![av]);
    call_text(name, v)
}

/// `name(a, b)`.
fn call2(name: &str, a: String, b: String) -> (r: String)
    ensures
        r@ == call_form(name@, seq![a@, b@]),
{
    let ghost (av, bv) = (a@, b@);
    let v = vec![a, b];
    assert(v@.map_values(|p: String| p@) =~= seq![av, bv]);
    call_text(name, v)
}

/// `name(a, b, c)`.
fn call3(name: &str, a: String, b: String, c: String) -> (r: String)
    ensures
        r@ == call_form(name@, seq![a@, b@, c@]),
{
    let ghost (av, bv, cv) = (a@, b@, c@);
    let v = vec![a, b, c];
    assert(v@.map_values(|p: String| p@) =~= seq![av, bv, cv]);
    call_text(name, v)
}

impl Cond {
    /// How a listing writes this condition.
    pub fn to_text(&self) -> (r: String)
        ensures
            r@ == cond_text(*self),
    {
        match self {
            Cond::EQ => String::from_str("Cond.EQ"),
            Cond::NEQ => String::from_str("Cond.NEQ"),
            Cond::LT => String::from_str("Cond.LT"),
            Cond::GT => String::from_str("Cond.GT"),
        }
    }
}

impl Arg {
    /// How a listing writes this operand.
    pub fn to_text(&self) -> (r: String)
        ensures
            r@ == arg_text(self@),
    {
        match self {
            Arg::Imm(v) => String::from_str("#").concat(dec_string(*v as u64).as_str()),
            Arg::Reg(x) => String::from_str("r").concat(dec_string(*x as u64).as_str()),
            Arg::Label(n) => String::from_str(".").concat(n.as_str()),
        }
    }
}

impl Instruction {
    /// How a listing writes this instruction.
    pub fn to_text(&self) -> (r: String)
        ensures
            r@ == insn_text(self@),
    {
        let r = match self {
            Instruction::Add(d, a, b) => call3("Add", d.to_text(), a.to_text(), b.to_text()),
            Instruction::Mov(d, s) => call2("Mov", d.to_text(), s.to_text()),
            Instruction::Str(d, s) => call2("Str", d.to_text(), s.to_text()),
            Instruction::BranchCond(c, a) => call2("BranchCond", c.to_text(), a.to_text()),
            Instruction::Branch(a) => call1("B", a.to_text()),
            Instruction::Cmp(a, b) => call2("Cmp", a.to_text(), b.to_text()),
            Instruction::Inc(a) => call1("Inc", a.to_text()),
            Instruction::Dec(a) => call1("Dec", a.to_text()),
            Instruction::Push(a) => call1("Push", a.to_text()),
            Instruction::Calljs(a) => call1("Calljs", a.to_text()),
            Instruction::Call(a) => call1("Call", a.to_text()),
            Instruction::Cli() => {
                let v: Vec<String> = Vec::new();
                assert(v@.map_values(|p: String| p@) =~= seq![]);
                call_text("Cli", v)
            },
        };
        r
    }
}

impl Program {
    /// A readable listing of the program: each label's name and a colon on a
    /// line, then each of its instructions on a line of its own after a tab.
    pub fn listing(&self) -> (r: String)
        ensures
            r@ == labels_listing(self@),
    {
        let mut out = String::new();
        let mut j: usize = 0;
        while j < self.labels.len()
            invariant
                j <= self.labels.len(),
                self@.len() == self.labels.len(),
                out@ == labels_listing(self@.take(j as int)),
            decreases self.labels.len() - j,
        {
            let label: &Label = &self.labels[j];
            let ghost is = self@[j as int].insns;
            let ghost start = out@;
            out.append(label.name.as_str());
            out.append(":\n");
            let mut k: usize = 0;
            while k < label.instructions.len()
                invariant
                    k <= label.instructions.len(),
                    is == label@.insns,
                    is.len() == label.instructions.len(),
                    out@ == start + label.name@ + ":\n"@ + insns_listing(is.take(k as int)),
                decreases label.instructions.len() - k,
            {
                assert(is.take(k + 1).drop_last() =~= is.take(k as int));
                assert(is[k as int] == label.instructions@[k as int]@);
                out.append("\t");
                out.append(label.instructions[k].to_text().as_str());
                out.append("\n");
                k = k + 1;
                assert(out@ =~= start + label.name@ + ":\n"@ + insns_listing(is.take(k as int)));
            }
            assert(is.take(k as int) =~= is);
            assert(self@.take(j + 1).drop_last() =~= self@.take(j as int));
            j = j + 1;
            assert(out@ =~= labels_listing(self@.take(j as int)));
        }
        assert(self@.take(j as int) =~= self@);
        out
    }
}

} // verus!
