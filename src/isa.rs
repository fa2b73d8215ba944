use vstd::prelude::*;

verus! {

/// Register index of the instruction pointer.
pub const REG_IP: u16 = 125;

/// Register index of the stack pointer.
pub const REG_SP: u16 = 126;

/// Register index of the flags register.
pub const REG_FLAGS: u16 = 127;

/// Largest register index.
pub const MAX_REG: u16 = 127;

/// The condition tested by a conditional branch.
#[derive(Clone, Copy, Debug, PartialEq, Eq, Structural)]
pub enum Cond {
    LT,
    GT,
    EQ,
    NEQ,
}

/// An operand: a register, an unsigned immediate, or a reference to a label by name.
#[derive(Debug)]
pub enum Arg {
    Reg(u16),
    Imm(u32),
    Label(String),
}

/// The mathematical value of an operand.
pub enum ArgV {
    Reg(u16),
    Imm(u32),
    Label(Seq<char>),
}

impl View for Arg {
    type V = ArgV;

    open spec fn view(&self) -> ArgV {
        match self {
            Arg::Reg(r) => ArgV::Reg(*r),
            Arg::Imm(v) => ArgV::Imm(*v),
            Arg::Label(s) => ArgV::Label(s@),
        }
    }
}

/// One instruction, one variant per mnemonic (`b`, and the four conditional
/// branches `blt`, `bgt`, `beq`, `bneq`, share a variant each).
#[derive(Debug)]
pub enum Instruction {
    Mov(Arg, Arg),
    Cmp(Arg, Arg),
    Branch(Arg),
    BranchCond(Cond, Arg),
    Call(Arg),
    Calljs(Arg),
    Push(Arg),
    Str(Arg, Arg),
    Add(Arg, Arg, Arg),
    Inc(Arg),
    Dec(Arg),
    Cli(),
}

/// The mathematical value of an instruction.
pub enum InsnV {
    Mov(ArgV, ArgV),
    Cmp(ArgV, ArgV),
    Branch(ArgV),
    BranchCond(Cond, ArgV),
    Call(ArgV),
    Calljs(ArgV),
    Push(ArgV),
    Str(ArgV, ArgV),
    Add(ArgV, ArgV, ArgV),
    Inc(ArgV),
    Dec(ArgV),
    Cli,
}

impl View for Instruction {
    type V = InsnV;

    open spec fn view(&self) -> InsnV {
        match self {
            Instruction::Mov(a, b) => InsnV::Mov(a@, b@),
            Instruction::Cmp(a, b) => InsnV::Cmp(a@, b@),
            Instruction::Branch(a) => InsnV::Branch(a@),
            Instruction::BranchCond(c, a) => InsnV::BranchCond(*c, a@),
            Instruction::Call(a) => InsnV::Call(a@),
            Instruction::Calljs(a) => InsnV::Calljs(a@),
            Instruction::Push(a) => InsnV::Push(a@),
            Instruction::Str(a, b) => InsnV::Str(a@, b@),
            Instruction::Add(a, b, c) => InsnV::Add(a@, b@, c@),
            Instruction::Inc(a) => InsnV::Inc(a@),
            Instruction::Dec(a) => InsnV::Dec(a@),
            Instruction::Cli() => InsnV::Cli,
        }
    }
}

/// A named block of instructions.
#[derive(Debug)]
pub struct Label {
    pub name: String,
    pub instructions: Vec<Instruction>,
}

/// The mathematical value of a label.
pub struct LabelV {
    pub name: Seq<char>,
    pub insns: Seq<InsnV>,
}

impl View for Label {
    type V = LabelV;

    open spec fn view(&self) -> LabelV {
        LabelV { name: self.name@, insns: insns_view(self.instructions@) }
    }
}

/// A whole program: its labels in layout order.
#[derive(Debug)]
pub struct Program {
    pub labels: Vec<Label>,
}

impl View for Program {
    type V = Seq<LabelV>;

    open spec fn view(&self) -> Seq<LabelV> {
        labels_view(self.labels@)
    }
}

/// The views of a sequence of operands.
pub open spec fn args_view(v: Seq<Arg>) -> Seq<ArgV> {
    v.map_values(|a: Arg| a@)
}

/// The views of a sequence of instructions.
pub open spec fn insns_view(v: Seq<Instruction>) -> Seq<InsnV> {
    v.map_values(|i: Instruction| i@)
}

/// The views of a sequence of labels.
pub open spec fn labels_view(v: Seq<Label>) -> Seq<LabelV> {
    v.map_values(|l: Label| l@)
}

/// Number of operand tokens an instruction emits after its selector; a
/// conditional branch counts its condition as one of them.
pub open spec fn arity(i: InsnV) -> nat {
    match i {
        InsnV::Add(..) => 3,
        InsnV::Mov(..) | InsnV::Cmp(..) | InsnV::BranchCond(..) | InsnV::Str(..) => 2,
        InsnV::Cli => 0,
        _ => 1,
    }
}

/// Number of slots an instruction occupies: its selector and its operands.
pub open spec fn slots(i: InsnV) -> nat {
    1 + arity(i)
}

/// The operand-token count of an instruction.
pub fn arg_count(insn: &Instruction) -> (r: usize)
    ensures
        r == arity(insn@),
        r <= 3,
{
    match insn {
        Instruction::Add(_, _, _) => 3,
        Instruction::Mov(_, _) | Instruction::Cmp(_, _) | Instruction::BranchCond(_, _)
        | Instruction::Str(_, _) => 2,
        Instruction::Inc(_) | Instruction::Dec(_) | Instruction::Branch(_) | Instruction::Push(_)
        | Instruction::Call(_) | Instruction::Calljs(_) => 1,
        Instruction::Cli() => 0,
    }
}

} // verus!
