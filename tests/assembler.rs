use assembler::encode::dec_string;
use assembler::error::AsmError;
use assembler::isa::{arg_count, Arg, Cond, Instruction, Label, Program};
use assembler::operand::parse_arg;
use assembler::parse::assemble_source;
use assembler::scan::Scanner;

fn assemble(text: &str) -> String {
    let p = Program::parse(text).expect("parses");
    p.assemble().expect("encodes")
}

#[test]
fn mov_register_source_is_one_line() {
    assert_eq!(assemble(".main:\n    mov r1, r2\n"), "Op.MOV_REG, 1, 2,\n");
}

#[test]
fn mov_immediate_source_is_one_line() {
    assert_eq!(assemble(".main:\n    mov r3, 42\n"), "Op.MOV_CONST, 3, 42,\n");
}

#[test]
fn second_label_after_inc_and_branch_is_at_four() {
    let p = Program::parse(".a:\n    inc r0\n    b .b\n.b:\n    cli\n").unwrap();
    assert_eq!(p.labels.len(), 2);
    assert_eq!(p.find_label_start_index(&"b".to_string()), Some(4));
    assert_eq!(p.find_label_start_index(&"a".to_string()), Some(0));
    assert_eq!(
        p.assemble().unwrap(),
        "Op.INC, 0,\nOp.BRANCH_CONST, 4,\nOp.CLEAR_FLAGS,\n"
    );
}

#[test]
fn first_label_starts_at_zero() {
    let p = Program::parse(".start:\n    add r1, r2, r3\n.end:\n    cli\n").unwrap();
    assert_eq!(p.find_label_start_index(&"start".to_string()), Some(0));
}

#[test]
fn labels_follow_each_other_by_slot_count() {
    let text = ".a:\n    add r1, r2, 7\n    blt .c\n.b:\n    cli\n    push 3\n.c:\n    mov r0, r1\n";
    let p = Program::parse(text).unwrap();
    let a = p.find_label_start_index(&"a".to_string()).unwrap();
    let b = p.find_label_start_index(&"b".to_string()).unwrap();
    let c = p.find_label_start_index(&"c".to_string()).unwrap();
    assert_eq!(a, 0);
    assert_eq!(b, a + 4 + 3);
    assert_eq!(c, b + 1 + 2);
    let mut sum = 0;
    for insn in &p.labels[0].instructions {
        sum += 1 + arg_count(insn);
    }
    assert_eq!(b - a, sum);
    assert_eq!(p.slot_count(), Some(13));
}

#[test]
fn undefined_label_is_none() {
    let p = Program::parse(".a:\n    cli\n").unwrap();
    assert_eq!(p.find_label_start_index(&"nowhere".to_string()), None);
}

#[test]
fn radix_literals() {
    assert!(matches!(parse_arg("0x1A"), Ok(Arg::Imm(26))));
    assert!(matches!(parse_arg("0x1a"), Ok(Arg::Imm(26))));
    assert!(matches!(parse_arg("0o17"), Ok(Arg::Imm(15))));
    assert!(matches!(parse_arg("0b101"), Ok(Arg::Imm(5))));
    assert!(matches!(parse_arg("0"), Ok(Arg::Imm(0))));
    assert!(matches!(parse_arg("1234"), Ok(Arg::Imm(1234))));
    assert!(matches!(parse_arg("4294967295"), Ok(Arg::Imm(4294967295))));
}

#[test]
fn malformed_numbers_are_rejected() {
    assert!(matches!(parse_arg("0x"), Err(AsmError::BadNumber(s)) if s == "0x"));
    assert!(matches!(parse_arg("0q1"), Err(AsmError::BadNumber(s)) if s == "0q1"));
    assert!(matches!(parse_arg("0b102"), Err(AsmError::BadNumber(_))));
    assert!(matches!(parse_arg("0o8"), Err(AsmError::BadNumber(_))));
    assert!(matches!(parse_arg("4294967296"), Err(AsmError::BadNumber(_))));
    assert!(matches!(parse_arg("12a"), Err(AsmError::BadNumber(_))));
    assert!(matches!(parse_arg("r"), Err(AsmError::BadNumber(_))));
    assert!(matches!(parse_arg("r128"), Err(AsmError::BadNumber(_))));
    assert!(matches!(parse_arg("rx"), Err(AsmError::BadNumber(_))));
}

#[test]
fn registers_and_labels() {
    assert!(matches!(parse_arg("r0"), Ok(Arg::Reg(0))));
    assert!(matches!(parse_arg("r127"), Ok(Arg::Reg(127))));
    assert!(matches!(parse_arg(".loop"), Ok(Arg::Label(s)) if s == "loop"));
}

#[test]
fn reserved_register_names() {
    assert!(matches!(parse_arg("ip"), Ok(Arg::Reg(125))));
    assert!(matches!(parse_arg("sp"), Ok(Arg::Reg(126))));
    assert!(matches!(parse_arg("flgs"), Ok(Arg::Reg(127))));
    assert_eq!(
        assemble(".m:\n    mov sp, ip\n    push flgs\n"),
        "Op.MOV_REG, 126, 125,\nOp.PUSH_REG, 127,\n"
    );
}

#[test]
fn unsupported_lead_character_is_a_syntax_error() {
    assert!(matches!(parse_arg("$x"), Err(AsmError::BadOperand(s)) if s == "$x"));
    assert!(matches!(parse_arg("#5"), Err(AsmError::BadOperand(_))));
    assert!(matches!(parse_arg(""), Err(AsmError::BadOperand(s)) if s.is_empty()));
    assert!(matches!(
        Program::parse(".m:\n    mov r1, $x\n"),
        Err(AsmError::BadOperand(s)) if s == "$x"
    ));
}

#[test]
fn same_text_gives_same_output() {
    let text = ".a:\n    mov r1, 0x10\n    beq .a\n    call .b\n.b:\n    dec r2\n";
    let first = assemble_source(text).unwrap();
    let second = assemble_source(text).unwrap();
    assert_eq!(first.as_bytes(), second.as_bytes());
    assert_eq!(
        first,
        "Op.MOV_CONST, 1, 16,\nOp.BRANCH_COND_CONST, BranchType.EQ, 0,\nOp.CALL_CONST, 8,\nOp.DEC, 2,\n"
    );
}

#[test]
fn unknown_mnemonic_aborts_the_run() {
    let text = ".a:\n    mov r1, r2\n.b:\n    frob r1\n";
    assert!(matches!(Program::parse(text), Err(AsmError::UnknownMnemonic(s)) if s == "frob"));
    assert!(matches!(assemble_source(text), Err(AsmError::UnknownMnemonic(_))));
}

#[test]
fn empty_label_body_is_an_unknown_mnemonic() {
    assert!(matches!(Program::parse(".a:\n"), Err(AsmError::UnknownMnemonic(s)) if s.is_empty()));
}

#[test]
fn duplicate_label_is_rejected() {
    let text = ".a:\n    cli\n.a:\n    cli\n";
    assert!(matches!(Program::parse(text), Err(AsmError::DuplicateLabel(s)) if s == "a"));
}

#[test]
fn undefined_label_operand_is_an_error() {
    let p = Program::parse(".a:\n    b .missing\n").unwrap();
    assert!(matches!(p.assemble(), Err(AsmError::UndefinedLabel(s)) if s == "missing"));
}

#[test]
fn wrong_operand_kind_names_instruction_and_slot() {
    let p = Program::parse(".a:\n    cli\n    mov .a, r1\n").unwrap();
    assert!(matches!(
        p.assemble(),
        Err(AsmError::WrongOperandKind { label, index: 1, slot: 0 }) if label == "a"
    ));
    let p = Program::parse(".a:\n    add r1, r2, .a\n").unwrap();
    assert!(matches!(p.assemble(), Err(AsmError::WrongOperandKind { index: 0, slot: 2, .. })));
    let p = Program::parse(".a:\n    b 5\n").unwrap();
    assert!(matches!(p.assemble(), Err(AsmError::WrongOperandKind { slot: 0, .. })));
    let p = Program::parse(".a:\n    calljs .a\n").unwrap();
    assert!(matches!(p.assemble(), Err(AsmError::WrongOperandKind { slot: 0, .. })));
    let p = Program::parse(".a:\n    cmp r1, .a\n").unwrap();
    assert!(matches!(p.assemble(), Err(AsmError::WrongOperandKind { slot: 1, .. })));
}

#[test]
fn every_selector() {
    let text = ".top:\n    cmp r1, 5\n    cmp r1, r2\n    add r1, r2, r3\n    str r1, r2\n    str r1, 9\n    str 8, r2\n    str 8, 9\n    b r4\n    bgt r5\n    bneq .top\n    push 7\n    call r6\n    call 11\n    calljs r7\n    calljs 12\n    inc r8\n";
    let expected = "Op.CMP_REG_CONST, 1, 5,\nOp.CMP_REG_REG, 1, 2,\nOp.ADD_REG, 1, 2, 3,\nOp.STR_REG_TO_REG, 1, 2,\nOp.STR_CONST_TO_REG, 1, 9,\nOp.STR_REG_TO_CONST, 8, 2,\nOp.STR_CONST_TO_CONST, 8, 9,\nOp.BRANCH_REG, 4,\nOp.BRANCH_COND_REG, BranchType.GT, 5,\nOp.BRANCH_COND_CONST, BranchType.NEQ, 0,\nOp.PUSH_CONST, 7,\nOp.CALL_REG, 6,\nOp.CALL_CONST, 11,\nOp.CALL_JS_REG, 7,\nOp.CALL_JS_CONST, 12,\nOp.INC, 8,\n";
    assert_eq!(assemble(text), expected);
}

#[test]
fn conditions_are_kept() {
    let p = Program::parse(".a:\n    blt .a\n    bgt .a\n    beq .a\n    bneq .a\n").unwrap();
    let conds: Vec<bool> = p.labels[0]
        .instructions
        .iter()
        .zip([Cond::LT, Cond::GT, Cond::EQ, Cond::NEQ])
        .map(|(i, c)| matches!(i, Instruction::BranchCond(d, Arg::Label(_)) if *d == c))
        .collect();
    assert_eq!(conds, vec![true, true, true, true]);
    assert_eq!(p.slot_count(), Some(12));
}

#[test]
fn text_before_the_first_label_is_passed_over() {
    assert_eq!(assemble("  \n\n.main:\n    inc r1\n"), "Op.INC, 1,\n");
}

#[test]
fn last_line_may_lack_a_newline() {
    assert_eq!(assemble(".main:\n    dec r3"), "Op.DEC, 3,\n");
    assert_eq!(assemble(".main:\n    cli"), "Op.CLEAR_FLAGS,\n");
}

#[test]
fn empty_text_is_an_empty_program() {
    let p = Program::parse("").unwrap();
    assert!(p.labels.is_empty());
    assert_eq!(p.assemble().unwrap(), "");
    assert_eq!(Program::new().slot_count(), Some(0));
}

#[test]
fn hand_built_program_encodes() {
    let p = Program {
        labels: vec![Label {
            name: "x".to_string(),
            instructions: vec![Instruction::Mov(Arg::Reg(1), Arg::Reg(2))],
        }],
    };
    assert_eq!(p.assemble().unwrap(), "Op.MOV_REG, 1, 2,\n");
}

#[test]
fn decimal_text() {
    assert_eq!(dec_string(0), "0");
    assert_eq!(dec_string(7), "7");
    assert_eq!(dec_string(1234), "1234");
    assert_eq!(dec_string(u64::MAX), "18446744073709551615");
}

#[test]
fn scanner_stops_at_end_of_input() {
    let mut sc = Scanner::new("abc");
    let word = sc.scan_until(',');
    assert_eq!(word, vec!['a', 'b', 'c']);
    assert!(sc.at_end());
    let mut sc = Scanner::new("  ab cd");
    sc.skip_whitespace();
    assert_eq!(sc.scan_until_whitespace(), vec!['a', 'b']);
    assert_eq!(sc.position(), 4);
    sc.skip_whitespace();
    assert_eq!(sc.peek(), Some('c'));
}

#[test]
fn listing_shows_labels_and_instructions() {
    let p = Program::parse(".a:\n    mov r1, 5\n    blt .a\n    cli\n.b:\n    add r1, r2, 0x10\n").unwrap();
    assert_eq!(
        p.listing(),
        "a:\n\tMov(r1, #5)\n\tBranchCond(Cond.LT, .a)\n\tCli()\nb:\n\tAdd(r1, r2, #16)\n"
    );
    assert_eq!(Arg::Label("x".to_string()).to_text(), ".x");
    assert_eq!(Cond::NEQ.to_text(), "Cond.NEQ");
    assert_eq!(Instruction::Push(Arg::Imm(3)).to_text(), "Push(#3)");
}
