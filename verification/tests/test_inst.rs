use aca::inst::{ArchReg, Imm, Label, MemRef};

#[test]
fn test_reg() {
    assert_eq!(ArchReg::from_str("zero"), Ok(ArchReg::Zero));
    assert_eq!(ArchReg::from_str("sp"), Ok(ArchReg::SP));
    assert_eq!(ArchReg::from_str("ra"), Ok(ArchReg::RA));
    assert_eq!(ArchReg::from_str("a0"), Ok(ArchReg::A0));
    assert_eq!(ArchReg::from_str("a1"), Ok(ArchReg::A1));
    assert_eq!(ArchReg::from_str("a7"), Ok(ArchReg::A7));
    assert_eq!(ArchReg::from_str("t0"), Ok(ArchReg::T0));
    assert_eq!(ArchReg::from_str("t1"), Ok(ArchReg::T1));
    assert!(ArchReg::from_str("0").is_err());
    assert!(ArchReg::from_str("a-0").is_err());
    assert!(ArchReg::from_str("a-1").is_err());
    assert!(ArchReg::from_str("a50").is_err());
}

#[test]
fn test_memref() {
    assert_eq!(MemRef::from_str("0(a1)"), Ok(MemRef { offset: Imm(0), base: ArchReg::A1 }));
    assert_eq!(MemRef::from_str("5(a1)"), Ok(MemRef { offset: Imm(5), base: ArchReg::A1 }));
    assert_eq!(MemRef::from_str("-0(a1)"), Ok(MemRef { offset: Imm(0), base: ArchReg::A1 }));
    assert_eq!(MemRef::from_str("-0(zero)"), Ok(MemRef { offset: Imm(0), base: ArchReg::Zero }));
    assert_eq!(MemRef::from_str("1(a1)"), Ok(MemRef { offset: Imm(1), base: ArchReg::A1 }));
    assert_eq!(MemRef::from_str("0x123(a1)"), Ok(MemRef { offset: Imm(0x123), base: ArchReg::A1 }));
    assert_eq!(MemRef::from_str("-1(a1)"), Ok(MemRef { offset: Imm(u32::MAX), base: ArchReg::A1 }));
    assert_eq!(MemRef::from_str("-2(a1)"), Ok(MemRef { offset: Imm(u32::MAX - 1), base: ArchReg::A1 }));
    assert_eq!(MemRef::from_str("-0x123(a1)"), Ok(MemRef { offset: Imm(u32::MAX - 0x123 + 1), base: ArchReg::A1 }));

    assert!(MemRef::from_str("(a1)").is_err());
    assert!(MemRef::from_str("0").is_err());
    assert!(MemRef::from_str("a1(0)").is_err());
    assert!(MemRef::from_str("()").is_err());
}

#[test]
fn inst_test_label() {
    assert_eq!(Label::from_str("foo"), Ok(Label("foo".to_string())));
    assert_eq!(Label::from_str(".foo"), Ok(Label(".foo".to_string())));
    assert_eq!(Label::from_str(".foo_bar"), Ok(Label(".foo_bar".to_string())));
    assert_eq!(Label::from_str(".foo_bar5"), Ok(Label(".foo_bar5".to_string())));
    assert_eq!(Label::from_str(".foo_BaR5"), Ok(Label(".foo_BaR5".to_string())));
    assert_eq!(Label::from_str("FOO_bar"), Ok(Label("FOO_bar".to_string())));

    assert_ne!(Label::from_str("foo"), Label::from_str("bar"));
    assert_ne!(Label::from_str("FOO_bar"), Label::from_str("foo_BAR"));

    assert!(Label::from_str("foo bar").is_err());
    assert!(Label::from_str("foo-bar").is_err());
    assert!(Label::from_str("[foobar").is_err());
    assert!(Label::from_str("foobar:").is_err());
}
