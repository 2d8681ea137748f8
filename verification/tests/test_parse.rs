use aca::inst::{ArchReg, Imm, Inst, Label, LabeledInst, MemRef, Pc};
use aca::program::Program;

#[test]
fn labels_address_the_next_instruction() {
    let src = "
        li a0, 1
foo:
        li a1, 2
        add a2, a0, a1 ; comment
        .bar:

        sw a2, 0(zero)
baz5:
        j foo
";
    let prog = Program::from_str(src).expect("program should parse");
    assert_eq!(prog.insts.len(), 5);
    assert_eq!(prog.insts[4], Inst::Jump(Pc(4)));
    assert_eq!(prog.insts[2], Inst::Add(ArchReg::A2, ArchReg::A0, ArchReg::A1));
    assert_eq!(prog.insts[3], Inst::StoreWord(ArchReg::A2, MemRef { base: ArchReg::Zero, offset: Imm(0) }));
}

#[test]
fn program_errors_name_the_line() {
    let err = Program::from_str("li a0, 1\n\nfoo bar:\n").err().expect("bad label");
    assert_eq!(err, "error parsing label on line 3: invalid label name: 'foo bar'");
    let err = Program::from_str("li a0, 1\nfrob a0\n").err().expect("bad instruction");
    assert!(err.starts_with("error parsing instruction 'frob a0' on line 2: "), "{}", err);
}

#[test]
fn crlf_lines_parse() {
    let prog = Program::from_str("li a0, 1\r\nli a1, 2\r\n").expect("program should parse");
    assert_eq!(prog.insts.len(), 2);
    assert_eq!(prog.insts[1], Inst::AddImm(ArchReg::A1, ArchReg::Zero, Imm(2)));
}

#[test]
fn pseudo_instructions_expand() {
    assert_eq!(LabeledInst::from_str("mv a0, a1"), Ok(Inst::AddImm(ArchReg::A0, ArchReg::A1, Imm(0))));
    assert_eq!(LabeledInst::from_str("li t0, -1"), Ok(Inst::AddImm(ArchReg::T0, ArchReg::Zero, Imm(u32::MAX))));
    assert_eq!(LabeledInst::from_str("neg t0, t1"), Ok(Inst::Sub(ArchReg::T0, ArchReg::Zero, ArchReg::T1)));
    assert_eq!(
        LabeledInst::from_str("ble a0, a1, out"),
        Ok(Inst::BranchIfGreaterEqual(ArchReg::A1, ArchReg::A0, Label("out".to_string())))
    );
    assert_eq!(
        LabeledInst::from_str("bgt a0, a1, out"),
        Ok(Inst::BranchIfLess(ArchReg::A1, ArchReg::A0, Label("out".to_string())))
    );
}

#[test]
fn programs_that_would_panic_are_refused() {
    assert!(Program::parse("ret").is_none());
    assert!(Program::parse("li a0, -2147483648").is_none());
    assert!(Program::parse("j nowhere").is_none());
    assert!(matches!(Program::parse("li a0, 5"), Some(Ok(_))));
    assert!(matches!(Program::parse("bogus a0"), Some(Err(_))));
}
