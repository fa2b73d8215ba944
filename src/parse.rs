use vstd::prelude::*;
use crate::error::{result_view, string_of, AsmError, ErrV};
use crate::isa::{
    args_view, insns_view, labels_view, slots, Arg, ArgV, Cond, InsnV, Instruction, Label,
    LabelV, Program,
};
use crate::encode::encode;
use crate::layout::{block_slots, slots_before, total_slots, unique_names};
use crate::operand::{classify, classify_chars};
use crate::scan::{find_stop, find_ws, is_word, skip_ws, Scanner};

verus! {

/// The instruction names of the assembly language.
#[derive(Clone, Copy, Debug, PartialEq, Eq, Structural)]
pub enum Mnemonic {
    Add,
    Mov,
    Str,
    Cmp,
    B,
    Blt,
    Bgt,
    Beq,
    Bneq,
    Dec,
    Inc,
    Push,
    Call,
    Calljs,
    Cli,
}

/// The mnemonic that the word `m` names, if any.
pub open spec fn mnemonic_of(m: Seq<char>) -> Option<Mnemonic> {
    if m == "add"@ {
        Some(Mnemonic::Add)
    } else if m == "mov"@ {
        Some(Mnemonic::Mov)
    } else if m == "str"@ {
        Some(Mnemonic::Str)
    } else if m == "cmp"@ {
        Some(Mnemonic::Cmp)
    } else if m == "b"@ {
        Some(Mnemonic::B)
    } else if m == "blt"@ {
        Some(Mnemonic::Blt)
    } else if m == "bgt"@ {
        Some(Mnemonic::Bgt)
    } else if m == "beq"@ {
        Some(Mnemonic::Beq)
    } else if m == "bneq"@ {
        Some(Mnemonic::Bneq)
    } else if m == "dec"@ {
        Some(Mnemonic::Dec)
    } else if m == "inc"@ {
        Some(Mnemonic::Inc)
    } else if m == "push"@ {
        Some(Mnemonic::Push)
    } else if m == "call"@ {
        Some(Mnemonic::Call)
    } else if m == "calljs"@ {
        Some(Mnemonic::Calljs)
    } else if m == "cli"@ {
        Some(Mnemonic::Cli)
    } else {
        None
    }
}

/// How many operands a mnemonic is written with.
pub open spec fn operand_count(mn: Mnemonic) -> nat {
    match mn {
        Mnemonic::Add => 3,
        Mnemonic::Mov | Mnemonic::Str | Mnemonic::Cmp => 2,
        Mnemonic::Cli => 0,
        _ => 1,
    }
}

/// The instruction that the mnemonic `mn` makes of the operands `a`.
pub open spec fn build(mn: Mnemonic, a: Seq<ArgV>) -> InsnV {
    match mn {
        Mnemonic::Add => InsnV::Add(a[0], a[1], a[2]),
        Mnemonic::Mov => InsnV::Mov(a[0], a[1]),
        Mnemonic::Str => InsnV::Str(a[0], a[1]),
        Mnemonic::Cmp => InsnV::Cmp(a[0], a[1]),
        Mnemonic::B => InsnV::Branch(a[0]),
        Mnemonic::Blt => InsnV::BranchCond(Cond::LT, a[0]),
        Mnemonic::Bgt => InsnV::BranchCond(Cond::GT, a[0]),
        Mnemonic::Beq => InsnV::BranchCond(Cond::EQ, a[0]),
        Mnemonic::Bneq => InsnV::BranchCond(Cond::NEQ, a[0]),
        Mnemonic::Dec => InsnV::Dec(a[0]),
        Mnemonic::Inc => InsnV::Inc(a[0]),
        Mnemonic::Push => InsnV::Push(a[0]),
        Mnemonic::Call => InsnV::Call(a[0]),
        Mnemonic::Calljs => InsnV::Calljs(a[0]),
        Mnemonic::Cli => InsnV::Cli,
    }
}

/// Reads one operand at `p`: up to the next comma, or up to the end of the
/// line for the last one; then past that delimiter and any whitespace.
pub open spec fn read_arg(s: Seq<char>, p: int, last: bool) -> (Result<ArgV, ErrV>, int) {
    let e = find_stop(s, p, if last { '\n' } else { ',' });
    let after = if e < s.len() { e + 1 } else { e };
    (classify(s.subrange(p, e)), skip_ws(s, after))
}

/// Reads `n` more operands at `p` after those in `acc`.
pub open spec fn read_args(s: Seq<char>, p: int, n: nat, acc: Seq<ArgV>) -> Result<(Seq<ArgV>, int), ErrV>
    decreases n,
{
    if n == 0 {
        Ok((acc, p))
    } else {
        let (a, q) = read_arg(s, p, n == 1);
        match a {
            Err(e) => Err(e),
            Ok(v) => read_args(s, q, (n - 1) as nat, acc.push(v)),
        }
    }
}

/// Reads one instruction at `p`: its mnemonic, then its operands.
pub open spec fn read_insn(s: Seq<char>, p: int) -> Result<(InsnV, int), ErrV> {
    let p0 = skip_ws(s, p);
    let e = find_ws(s, p0);
    let m = s.subrange(p0, e);
    match mnemonic_of(m) {
        None => Err(ErrV::UnknownMnemonic(m)),
        Some(mn) => match read_args(s, skip_ws(s, e), operand_count(mn), seq![]) {
            Err(e) => Err(e),
            Ok((a, q)) => Ok((build(mn, a), q)),
        },
    }
}

/// Reads the instructions of a label body at `p` after those in `acc`, up to
/// the end of the text or the next `.`.
pub open spec fn parse_body(s: Seq<char>, p: int, acc: Seq<InsnV>) -> Result<(Seq<InsnV>, int), ErrV>
    decreases s.len() - p,
{
    match read_insn(s, p) {
        Err(e) => Err(e),
        Ok((i, q)) => if q >= s.len() || s[q] == '.' || q <= p {
            Ok((acc.push(i), q))
        } else {
            parse_body(s, q, acc.push(i))
        },
    }
}

/// Some label in `acc` is called `name`.
pub open spec fn has_label(acc: Seq<LabelV>, name: Seq<char>) -> bool {
    exists|k: int| 0 <= k < acc.len() && #[trigger] acc[k].name == name
}

/// Reads the labels from `p` on after those in `acc`. Text before a `.` that
/// starts a label is passed over.
pub open spec fn parse_from(s: Seq<char>, p: int, acc: Seq<LabelV>) -> Result<Seq<LabelV>, ErrV>
    decreases s.len() - p,
{
    if p < 0 || p >= s.len() {
        Ok(acc)
    } else if s[p] != '.' {
        parse_from(s, p + 1, acc)
    } else {
        let ne = find_stop(s, p + 1, ':');
        let name = s.subrange(p + 1, ne);
        let b = if ne < s.len() { ne + 1 } else { ne };
        if has_label(acc, name) {
            Err(ErrV::DuplicateLabel(name))
        } else {
            match parse_body(s, b, seq![]) {
                Err(e) => Err(e),
                Ok((insns, q)) => if p < q <= s.len() {
                    parse_from(s, q, acc.push(LabelV { name, insns }))
                } else {
                    Ok(acc)
                },
            }
        }
    }
}

/// The program that the text `s` holds, or the first error in it.
pub open spec fn parse_source(s: Seq<char>) -> Result<Seq<LabelV>, ErrV> {
    parse_from(s, 0, seq![])
}

/// Operand texts that classify are not empty.
proof fn lemma_classified_nonempty(t: Seq<char>)
    requires
        classify(t) is Ok,
    ensures
        t.len() > 0,
{
    if t.len() == 0 {
        reveal_strlit("ip");
        reveal_strlit("sp");
        reveal_strlit("flgs");
    }
}

/// Reads one operand; `last` selects the end of the line as its delimiter
/// instead of a comma.
pub fn next_arg(sc: &mut Scanner, last: bool) -> (r: Result<Arg, AsmError>)
    requires
        old(sc).wf(),
    ensures
        final(sc).wf(),
        final(sc).text() == old(sc).text(),
        result_view(r) == read_arg(old(sc).text(), old(sc).cursor(), last).0,
        final(sc).cursor() == read_arg(old(sc).text(), old(sc).cursor(), last).1,
        r is Ok ==> final(sc).cursor() >= old(sc).cursor() + 1,
{
    let stop = if last {
        '\n'
    } else {
        ','
    };
    let t = sc.scan_until(stop);
    sc.advance();
    sc.skip_whitespace();
    proof {
        let s = old(sc).text();
        let e = find_stop(s, old(sc).cursor(), stop);
        let after = if e < s.len() { e + 1 } else { e };
        crate::scan::lemma_find_stop_bounds(s, old(sc).cursor(), stop);
        crate::scan::lemma_skip_ws_bounds(s, after);
    }
    let r = classify_chars(&t);
    proof {
        if r is Ok {
            lemma_classified_nonempty(t@);
        }
    }
    r
}

/// Reads `n` operands.
fn read_arg_list(sc: &mut Scanner, n: usize) -> (r: Result<Vec<Arg>, AsmError>)
    requires
        old(sc).wf(),
        n <= 3,
    ensures
        final(sc).wf(),
        final(sc).text() == old(sc).text(),
        match read_args(old(sc).text(), old(sc).cursor(), n as nat, seq![]) {
            Ok((a, q)) => r matches Ok(v) && args_view(v@) == a && final(sc).cursor() == q
                && q >= old(sc).cursor() + n,
            Err(e) => r matches Err(x) && x@ == e,
        },
        r matches Ok(v) ==> v.len() == n,
{
    let ghost s = sc.text();
    let ghost p0 = sc.cursor();
    let mut v: Vec<Arg> = Vec::new();
    assert(args_view(v@) =~= seq![]);
    let mut i: usize = 0;
    while i < n
        invariant
            sc.wf(),
            sc.text() == s,
            s == old(sc).text(),
            p0 == old(sc).cursor(),
            i <= n,
            v.len() == i,
            sc.cursor() >= p0 + i,
            read_args(s, p0, n as nat, seq![]) == read_args(
                s,
                sc.cursor(),
                (n - i) as nat,
                args_view(v@),
            ),
        decreases n - i,
    {
        let ghost cur = sc.cursor();
        let a = next_arg(sc, i + 1 == n);
        assert(read_args(s, cur, (n - i) as nat, args_view(v@)) == match read_arg(s, cur, (n - i) == 1).0 {
            Err(e) => Err(e),
            Ok(x) => read_args(s, read_arg(s, cur, (n - i) == 1).1, (n - i - 1) as nat, args_view(v@).push(x)),
        });
        match a {
            Ok(x) => {
                let ghost before = v@;
                v.push(x);
                assert(args_view(v@) =~= args_view(before).push(x@));
            },
            Err(e) => {
                return Err(e);
            },
        }
        i = i + 1;
    }
    Ok(v)
}

/// The mnemonic that the word `m` names, if any.
pub fn lookup_mnemonic(m: &Vec<char>) -> (r: Option<Mnemonic>)
    ensures
        r == mnemonic_of(m@),
{
    if is_word(m, "add") {
        Some(Mnemonic::Add)
    } else if is_word(m, "mov") {
        Some(Mnemonic::Mov)
    } else if is_word(m, "str") {
        Some(Mnemonic::Str)
    } else if is_word(m, "cmp") {
        Some(Mnemonic::Cmp)
    } else if is_word(m, "b") {
        Some(Mnemonic::B)
    } else if is_word(m, "blt") {
        Some(Mnemonic::Blt)
    } else if is_word(m, "bgt") {
        Some(Mnemonic::Bgt)
    } else if is_word(m, "beq") {
        Some(Mnemonic::Beq)
    } else if is_word(m, "bneq") {
        Some(Mnemonic::Bneq)
    } else if is_word(m, "dec") {
        Some(Mnemonic::Dec)
    } else if is_word(m, "inc") {
        Some(Mnemonic::Inc)
    } else if is_word(m, "push") {
        Some(Mnemonic::Push)
    } else if is_word(m, "call") {
        Some(Mnemonic::Call)
    } else if is_word(m, "calljs") {
        Some(Mnemonic::Calljs)
    } else if is_word(m, "cli") {
        Some(Mnemonic::Cli)
    } else {
        None
    }
}

/// How many operands a mnemonic is written with.
pub fn operand_count_exec(mn: Mnemonic) -> (r: usize)
    ensures
        r == operand_count(mn),
        r <= 3,
{
    match mn {
        Mnemonic::Add => 3,
        Mnemonic::Mov | Mnemonic::Str | Mnemonic::Cmp => 2,
        Mnemonic::Cli => 0,
        _ => 1,
    }
}

/// The instruction that the mnemonic `mn` makes of the operands `a`.
pub fn build_instruction(mn: Mnemonic, a: Vec<Arg>) -> (r: Instruction)
    requires
        a.len() == operand_count(mn),
    ensures
        r@ == build(mn, args_view(a@)),
{
    let ghost av = args_view(a@);
    let mut a = a;
    let n = operand_count_exec(mn);
    if n == 0 {
        return Instruction::Cli();
    }
    let z = a.pop().unwrap();
    if n == 1 {
        assert(z@ == av[0]);
        return match mn {
            Mnemonic::B => Instruction::Branch(z),
            Mnemonic::Blt => Instruction::BranchCond(Cond::LT, z),
            Mnemonic::Bgt => Instruction::BranchCond(Cond::GT, z),
            Mnemonic::Beq => Instruction::BranchCond(Cond::EQ, z),
            Mnemonic::Bneq => Instruction::BranchCond(Cond::NEQ, z),
            Mnemonic::Dec => Instruction::Dec(z),
            Mnemonic::Inc => Instruction::Inc(z),
            Mnemonic::Push => Instruction::Push(z),
            Mnemonic::Call => Instruction::Call(z),
            _ => Instruction::Calljs(z),
        };
    }
    let y = a.pop().unwrap();
    if n == 2 {
        assert(y@ == av[0] && z@ == av[1]);
        return match mn {
            Mnemonic::Mov => Instruction::Mov(y, z),
            Mnemonic::Str => Instruction::Str(y, z),
            _ => Instruction::Cmp(y, z),
        };
    }
    let x = a.pop().unwrap();
    assert(x@ == av[0] && y@ == av[1] && z@ == av[2]);
    Instruction::Add(x, y, z)
}

/// A mnemonic and its operands take at least as many characters as the
/// instruction takes slots.
proof fn lemma_mnemonic_width(m: Seq<char>, a: Seq<ArgV>)
    requires
        mnemonic_of(m) is Some,
    ensures
        m.len() + operand_count(mnemonic_of(m)->0) >= slots(build(mnemonic_of(m)->0, a)),
{
    reveal_strlit("add");
    reveal_strlit("mov");
    reveal_strlit("str");
    reveal_strlit("cmp");
    reveal_strlit("b");
    reveal_strlit("blt");
    reveal_strlit("bgt");
    reveal_strlit("beq");
    reveal_strlit("bneq");
    reveal_strlit("dec");
    reveal_strlit("inc");
    reveal_strlit("push");
    reveal_strlit("call");
    reveal_strlit("calljs");
    reveal_strlit("cli");
}

/// Reads one instruction: its mnemonic, then its operands.
pub fn read_instruction(sc: &mut Scanner) -> (r: Result<Instruction, AsmError>)
    requires
        old(sc).wf(),
    ensures
        final(sc).wf(),
        final(sc).text() == old(sc).text(),
        match read_insn(old(sc).text(), old(sc).cursor()) {
            Ok((i, q)) => r matches Ok(x) && x@ == i && final(sc).cursor() == q
                && q >= old(sc).cursor() + slots(i),
            Err(e) => r matches Err(x) && x@ == e,
        },
{
    let ghost s = sc.text();
    sc.skip_whitespace();
    let ghost p0 = sc.cursor();
    proof {
        crate::scan::lemma_skip_ws_bounds(s, old(sc).cursor());
    }
    let m = sc.scan_until_whitespace();
    let ghost e = sc.cursor();
    proof {
        crate::scan::lemma_find_ws_bounds(s, p0);
    }
    sc.skip_whitespace();
    proof {
        crate::scan::lemma_skip_ws_bounds(s, e);
    }
    match lookup_mnemonic(&m) {
        None => Err(AsmError::UnknownMnemonic(string_of(&m))),
        Some(mn) => {
            let n = operand_count_exec(mn);
            match read_arg_list(sc, n) {
                Err(x) => Err(x),
                Ok(a) => {
                    proof {
                        lemma_mnemonic_width(m@, args_view(a@));
                    }
                    Ok(build_instruction(mn, a))
                },
            }
        },
    }
}

/// Reads the instructions of one label body, up to the end of the text or the
/// next `.`.
pub fn read_block(sc: &mut Scanner) -> (r: Result<Vec<Instruction>, AsmError>)
    requires
        old(sc).wf(),
    ensures
        final(sc).wf(),
        final(sc).text() == old(sc).text(),
        match parse_body(old(sc).text(), old(sc).cursor(), seq![]) {
            Ok((is, q)) => r matches Ok(v) && insns_view(v@) == is && final(sc).cursor() == q
                && old(sc).cursor() + block_slots(is) <= q,
            Err(e) => r matches Err(x) && x@ == e,
        },
{
    let ghost s = sc.text();
    let ghost p0 = sc.cursor();
    let mut v: Vec<Instruction> = Vec::new();
    assert(insns_view(v@) =~= seq![]);
    loop
        invariant
            sc.wf(),
            sc.text() == s,
            s == old(sc).text(),
            p0 == old(sc).cursor(),
            p0 + block_slots(insns_view(v@)) <= sc.cursor(),
            parse_body(s, p0, seq![]) == parse_body(s, sc.cursor(), insns_view(v@)),
        decreases s.len() - sc.cursor(),
    {
        let ghost cur = sc.cursor();
        match read_instruction(sc) {
            Err(e) => {
                return Err(e);
            },
            Ok(i) => {
                let ghost before = v@;
                v.push(i);
                assert(insns_view(v@) =~= insns_view(before).push(i@));
                assert(insns_view(v@).drop_last() =~= insns_view(before));
            },
        }
        let stop = match sc.peek() {
            Some(c) => c == '.',
            None => true,
        };
        if stop {
            return Ok(v);
        }
    }
}

/// Whether some label in `labels` is called `name`.
fn has_label_exec(labels: &Vec<Label>, name: &String) -> (r: bool)
    ensures
        r == has_label(labels_view(labels@), name@),
{
    let mut k: usize = 0;
    while k < labels.len()
        invariant
            k <= labels.len(),
            forall|j: int| 0 <= j < k ==> labels_view(labels@)[j].name != name@,
        decreases labels.len() - k,
    {
        if labels[k].name == *name {
            assert(labels_view(labels@)[k as int].name == name@);
            return true;
        }
        k = k + 1;
    }
    false
}

/// A label added at the end leaves the slots before earlier labels as they were.
proof fn lemma_slots_before_push(ls: Seq<LabelV>, x: LabelV, i: int)
    requires
        i <= ls.len(),
    ensures
        slots_before(ls.push(x), i) == slots_before(ls, i),
    decreases i,
{
    if i > 0 {
        lemma_slots_before_push(ls, x, i - 1);
    }
}

impl Program {
    /// Parses assembly text into a program, or fails with the first error in
    /// it; no program comes of text with an error. A program that comes out
    /// has unique label names and takes no more slots than the text has
    /// characters.
    pub fn parse(source: &str) -> (r: Result<Program, AsmError>)
        ensures
            result_view(r) == parse_source(source@),
            r matches Ok(p) ==> p.wf() && total_slots(p@) <= source@.len(),
    {
        let mut sc = Scanner::new(source);
        let ghost s = source@;
        let mut labels: Vec<Label> = Vec::new();
        assert(labels_view(labels@) =~= seq![]);
        while !sc.at_end()
            invariant
                sc.wf(),
                sc.text() == s,
                s == source@,
                parse_source(s) == parse_from(s, sc.cursor(), labels_view(labels@)),
                unique_names(labels_view(labels@)),
                total_slots(labels_view(labels@)) <= sc.cursor(),
            decreases s.len() - sc.cursor(),
        {
            let c = match sc.peek() {
                Some(c) => c,
                None => '.',
            };
            if c != '.' {
                sc.advance();
                continue;
            }
            let ghost p = sc.cursor();
            sc.advance();
            let name_chars = sc.scan_until(':');
            proof {
                crate::scan::lemma_find_stop_bounds(s, p + 1, ':');
            }
            sc.advance();
            let name = string_of(&name_chars);
            if has_label_exec(&labels, &name) {
                return Err(AsmError::DuplicateLabel(name));
            }
            let ghost b = sc.cursor();
            match read_block(&mut sc) {
                Err(e) => {
                    return Err(e);
                },
                Ok(insns) => {
                    let ghost before = labels@;
                    let label = Label { name, instructions: insns };
                    labels.push(label);
                    proof {
                        let lv = labels_view(before);
                        assert(labels_view(labels@) =~= lv.push(label@));
                        lemma_slots_before_push(lv, label@, lv.len() as int);
                        assert(unique_names(labels_view(labels@))) by {
                            assert forall|i: int, j: int|
                                0 <= i < j < labels_view(labels@).len() implies #[trigger] labels_view(
                                labels@,
                            )[i].name != #[trigger] labels_view(labels@)[j].name by {
                                if j == lv.len() {
                                    assert(labels_view(labels@)[i] == lv[i]);
                                }
                            }
                        }
                    }
                },
            }
        }
        Ok(Program { labels })
    }
}

/// What assembling the text `s` yields: the output of the program it holds,
/// or the first error.
pub open spec fn assemble_text(s: Seq<char>) -> Result<Seq<char>, ErrV> {
    match parse_source(s) {
        Ok(ls) => encode(ls),
        Err(e) => Err(e),
    }
}

/// Parses and encodes assembly text in one run; any error aborts it with no output.
pub fn assemble_source(source: &str) -> (r: Result<String, AsmError>)
    ensures
        result_view(r) == assemble_text(source@),
{
    let p = Program::parse(source)?;
    p.assemble()
}

/// `q` is where an instruction starts in the label body that starts at `b`.
pub open spec fn body_reaches(s: Seq<char>, b: int, q: int) -> bool
    decreases s.len() - b,
{
    if q == b {
        true
    } else {
        match read_insn(s, b) {
            Err(_) => false,
            Ok((_, n)) => if n >= s.len() || s[n] == '.' || n <= b {
                false
            } else {
                body_reaches(s, n, q)
            },
        }
    }
}

/// An instruction that cannot be read, such as one with an unknown mnemonic,
/// anywhere in a label body makes the whole body fail with its error.
pub proof fn lemma_body_error_aborts(s: Seq<char>, b: int, q: int, acc: Seq<InsnV>)
    requires
        body_reaches(s, b, q),
        read_insn(s, q) is Err,
    ensures
        parse_body(s, b, acc) == Err::<(Seq<InsnV>, int), ErrV>(read_insn(s, q)->Err_0),
    decreases s.len() - b,
{
    if q != b {
        let (i, n) = read_insn(s, b)->Ok_0;
        lemma_body_error_aborts(s, n, q, acc.push(i));
    }
}

/// An unknown mnemonic in a label body aborts the whole parse from that
/// label on with that error: the labels read before it are no result.
pub proof fn lemma_unknown_mnemonic_aborts(s: Seq<char>, p: int, acc: Seq<LabelV>, q: int)
    requires
        0 <= p < s.len(),
        s[p] == '.',
        !has_label(acc, s.subrange(p + 1, find_stop(s, p + 1, ':'))),
        body_reaches(
            s,
            if find_stop(s, p + 1, ':') < s.len() {
                find_stop(s, p + 1, ':') + 1
            } else {
                find_stop(s, p + 1, ':')
            },
            q,
        ),
        read_insn(s, q) matches Err(ErrV::UnknownMnemonic(_)),
    ensures
        parse_from(s, p, acc) == Err::<Seq<LabelV>, ErrV>(read_insn(s, q)->Err_0),
{
    let ne = find_stop(s, p + 1, ':');
    let b = if ne < s.len() { ne + 1 } else { ne };
    lemma_body_error_aborts(s, b, q, seq![]);
}

/// A text that does not parse yields no output, only the parse error.
pub proof fn lemma_parse_error_no_output(s: Seq<char>)
    requires
        parse_source(s) is Err,
    ensures
        assemble_text(s) == Err::<Seq<char>, ErrV>(parse_source(s)->Err_0),
{
}

/// Assembling the same text twice gives the same result, output or error.
pub proof fn lemma_assemble_deterministic(s1: Seq<char>, s2: Seq<char>)
    requires
        s1 == s2,
    ensures
        assemble_text(s1) == assemble_text(s2),
{
}

} // verus!
