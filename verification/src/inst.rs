//! The instruction set: registers, operands, instructions at their stages of
//! life (labelled, renamed, ready, executed) and the assembler's operand parsers.
use crate::execution_unit::EuType;
use crate::text::{decimal, usize_to_decimal, char_is_alphanumeric, unicode_alphanumeric, concat3, find_char, find_char_in, is_ws, parse_i64, parse_i64_in, str_chars, trim, trim_range};
use crate::util::Addr;
use vstd::prelude::*;
use vstd::string::*;

verus! {

/// Size of one encoded instruction, in bytes.
pub const INST_SIZE: u32 = 4;

/// An immediate operand, stored as its 32-bit two's complement pattern.
#[derive(Debug, Copy, Clone, PartialEq, Eq, Structural)]
pub struct Imm(pub u32);

/// A label naming a position in the program.
#[derive(Debug, Clone, PartialEq, Eq, Hash)]
pub struct Label(pub String);

impl View for Label {
    type V = Seq<char>;

    open spec fn view(&self) -> Seq<char> {
        self.0@
    }
}

/// A byte address of an instruction.
#[derive(Debug, Copy, Clone, PartialEq, Eq, Hash, Structural)]
pub struct Pc(pub u32);

/// A `base + offset` memory operand.
#[derive(Debug, Copy, Clone, PartialEq, Eq)]
pub struct MemRef<RegType = ArchReg> {
    pub base: RegType,
    pub offset: Imm,
}

/// Architectural registers (RISC-V ABI names).
#[derive(Debug, Copy, Clone, PartialEq, Eq, Hash, Structural)]
pub enum ArchReg {
    Zero,
    RA,
    SP,
    T0,
    T1,
    T2,
    T3,
    T4,
    T5,
    T6,
    A0,
    A1,
    A2,
    A3,
    A4,
    A5,
    A6,
    A7,
    S0,
    S1,
}

/// An instruction whose source registers, destination registers and jump
/// targets have the given types.
#[derive(Debug, Copy, Clone, PartialEq, Eq)]
pub enum Inst<SrcReg = ArchReg, DstReg = ArchReg, JumpType = Pc> {
    LoadByte(DstReg, MemRef<SrcReg>),
    LoadHalfWord(DstReg, MemRef<SrcReg>),
    LoadWord(DstReg, MemRef<SrcReg>),
    StoreByte(SrcReg, MemRef<SrcReg>),
    StoreHalfWord(SrcReg, MemRef<SrcReg>),
    StoreWord(SrcReg, MemRef<SrcReg>),
    Add(DstReg, SrcReg, SrcReg),
    Sub(DstReg, SrcReg, SrcReg),
    AddImm(DstReg, SrcReg, Imm),
    AndImm(DstReg, SrcReg, Imm),
    ShiftLeftLogicalImm(DstReg, SrcReg, Imm),
    Mul(DstReg, SrcReg, SrcReg),
    Rem(DstReg, SrcReg, SrcReg),
    Jump(JumpType),
    JumpAndLink(DstReg, JumpType),
    BranchIfEqual(SrcReg, SrcReg, JumpType),
    BranchIfNotEqual(SrcReg, SrcReg, JumpType),
    BranchIfGreaterEqual(SrcReg, SrcReg, JumpType),
    BranchIfLess(SrcReg, SrcReg, JumpType),
    SetLessThanImmU(DstReg, SrcReg, Imm),
    Halt,
}

/// Program-order sequence number of an instruction in flight.
#[derive(Debug, Copy, Clone, Hash, PartialEq, Eq, PartialOrd, Ord, Structural)]
pub struct Tag(pub u64);

#[derive(Debug, Copy, Clone)]
pub struct Tagged<I> {
    pub tag: Tag,
    pub inst: I,
}

/// A physical register index; negative means "no register".
#[derive(Debug, Copy, Clone, PartialEq, Eq, Structural)]
pub struct PhysReg(pub i32);

#[derive(Debug, Copy, Clone, PartialEq, Eq, Structural)]
pub enum ValueOrReg {
    Value(u32),
    Reg(PhysReg),
}

#[derive(Debug, Copy, Clone, PartialEq, Eq, Structural)]
pub struct BothReg {
    pub arch: ArchReg,
    pub phys: PhysReg,
}

/// Inst with labels not yet resolved to PC values.
pub type LabeledInst = Inst<ArchReg, ArchReg, Label>;

/// Inst with its source operands ready for computation.
pub type ReadyInst = Inst<u32, BothReg>;

/// Inst with its source operands renamed.
pub type RenamedInst = Inst<ValueOrReg, BothReg>;

/// Inst after execution. The source registers are no longer used.
pub type ExecutedInst = Inst<(), BothReg>;

// ---------------------------------------------------------------------------
// Structural relations between instructions of different operand types.
/// `a` and `b` are the same instruction, with their source operands, destination
/// registers and jump targets related by `fs`, `fd` and `fj`, and equal immediates.
pub open spec fn inst_corresponds<S, D, J, S2, D2, J2>(
    a: Inst<S, D, J>,
    b: Inst<S2, D2, J2>,
    fs: spec_fn(S, S2) -> bool,
    fd: spec_fn(D, D2) -> bool,
    fj: spec_fn(J, J2) -> bool,
) -> bool {
    match (a, b) {
        (Inst::LoadByte(d, m), Inst::LoadByte(d2, m2)) => fd(d, d2) && fs(m.base, m2.base)
            && m.offset == m2.offset,
        (Inst::LoadHalfWord(d, m), Inst::LoadHalfWord(d2, m2)) => fd(d, d2) && fs(m.base, m2.base)
            && m.offset == m2.offset,
        (Inst::LoadWord(d, m), Inst::LoadWord(d2, m2)) => fd(d, d2) && fs(m.base, m2.base)
            && m.offset == m2.offset,
        (Inst::StoreByte(s, m), Inst::StoreByte(s2, m2)) => fs(s, s2) && fs(m.base, m2.base)
            && m.offset == m2.offset,
        (Inst::StoreHalfWord(s, m), Inst::StoreHalfWord(s2, m2)) => fs(s, s2) && fs(
            m.base,
            m2.base,
        ) && m.offset == m2.offset,
        (Inst::StoreWord(s, m), Inst::StoreWord(s2, m2)) => fs(s, s2) && fs(m.base, m2.base)
            && m.offset == m2.offset,
        (Inst::Add(d, x, y), Inst::Add(d2, x2, y2)) => fd(d, d2) && fs(x, x2) && fs(y, y2),
        (Inst::Sub(d, x, y), Inst::Sub(d2, x2, y2)) => fd(d, d2) && fs(x, x2) && fs(y, y2),
        (Inst::AddImm(d, x, i), Inst::AddImm(d2, x2, i2)) => fd(d, d2) && fs(x, x2) && i == i2,
        (Inst::AndImm(d, x, i), Inst::AndImm(d2, x2, i2)) => fd(d, d2) && fs(x, x2) && i == i2,
        (Inst::ShiftLeftLogicalImm(d, x, i), Inst::ShiftLeftLogicalImm(d2, x2, i2)) => fd(d, d2)
            && fs(x, x2) && i == i2,
        (Inst::Mul(d, x, y), Inst::Mul(d2, x2, y2)) => fd(d, d2) && fs(x, x2) && fs(y, y2),
        (Inst::Rem(d, x, y), Inst::Rem(d2, x2, y2)) => fd(d, d2) && fs(x, x2) && fs(y, y2),
        (Inst::Jump(j), Inst::Jump(j2)) => fj(j, j2),
        (Inst::JumpAndLink(d, j), Inst::JumpAndLink(d2, j2)) => fd(d, d2) && fj(j, j2),
        (Inst::BranchIfEqual(x, y, j), Inst::BranchIfEqual(x2, y2, j2)) => fs(x, x2) && fs(y, y2)
            && fj(j, j2),
        (Inst::BranchIfNotEqual(x, y, j), Inst::BranchIfNotEqual(x2, y2, j2)) => fs(x, x2) && fs(
            y,
            y2,
        ) && fj(j, j2),
        (Inst::BranchIfGreaterEqual(x, y, j), Inst::BranchIfGreaterEqual(x2, y2, j2)) => fs(x, x2)
            && fs(y, y2) && fj(j, j2),
        (Inst::BranchIfLess(x, y, j), Inst::BranchIfLess(x2, y2, j2)) => fs(x, x2) && fs(y, y2)
            && fj(j, j2),
        (Inst::SetLessThanImmU(d, x, i), Inst::SetLessThanImmU(d2, x2, i2)) => fd(d, d2) && fs(
            x,
            x2,
        ) && i == i2,
        (Inst::Halt, Inst::Halt) => true,
        _ => false,
    }
}

/// Every source operand satisfies `ps`, every destination `pd`, every jump target `pj`.
pub open spec fn inst_fields<S, D, J>(
    a: Inst<S, D, J>,
    ps: spec_fn(S) -> bool,
    pd: spec_fn(D) -> bool,
    pj: spec_fn(J) -> bool,
) -> bool {
    match a {
        Inst::LoadByte(d, m) | Inst::LoadHalfWord(d, m) | Inst::LoadWord(d, m) => pd(d) && ps(
            m.base,
        ),
        Inst::StoreByte(s, m) | Inst::StoreHalfWord(s, m) | Inst::StoreWord(s, m) => ps(s) && ps(
            m.base,
        ),
        Inst::Add(d, x, y) | Inst::Sub(d, x, y) | Inst::Mul(d, x, y) | Inst::Rem(d, x, y) => pd(d)
            && ps(x) && ps(y),
        Inst::AddImm(d, x, _)
        | Inst::AndImm(d, x, _)
        | Inst::ShiftLeftLogicalImm(d, x, _)
        | Inst::SetLessThanImmU(d, x, _) => pd(d) && ps(x),
        Inst::Jump(j) => pj(j),
        Inst::JumpAndLink(d, j) => pd(d) && pj(j),
        Inst::BranchIfEqual(x, y, j)
        | Inst::BranchIfNotEqual(x, y, j)
        | Inst::BranchIfGreaterEqual(x, y, j)
        | Inst::BranchIfLess(x, y, j) => ps(x) && ps(y) && pj(j),
        Inst::Halt => true,
    }
}

/// Weakening the relations of `inst_corresponds`.
pub proof fn lemma_corresponds_weaken<S, D, J, S2, D2, J2>(
    a: Inst<S, D, J>,
    b: Inst<S2, D2, J2>,
    fs: spec_fn(S, S2) -> bool,
    fd: spec_fn(D, D2) -> bool,
    fj: spec_fn(J, J2) -> bool,
    gs: spec_fn(S, S2) -> bool,
    gd: spec_fn(D, D2) -> bool,
    gj: spec_fn(J, J2) -> bool,
)
    requires
        inst_corresponds(a, b, fs, fd, fj),
        forall|x: S, y: S2| #[trigger] fs(x, y) ==> gs(x, y),
        forall|x: D, y: D2| #[trigger] fd(x, y) ==> gd(x, y),
        forall|x: J, y: J2| #[trigger] fj(x, y) ==> gj(x, y),
    ensures
        inst_corresponds(a, b, gs, gd, gj),
{
}

/// Composing two correspondences.
pub proof fn lemma_corresponds_compose<S, D, J, S2, D2, J2, S3, D3, J3>(
    a: Inst<S, D, J>,
    b: Inst<S2, D2, J2>,
    c: Inst<S3, D3, J3>,
    fs: spec_fn(S, S2) -> bool,
    fd: spec_fn(D, D2) -> bool,
    fj: spec_fn(J, J2) -> bool,
    gs: spec_fn(S2, S3) -> bool,
    gd: spec_fn(D2, D3) -> bool,
    gj: spec_fn(J2, J3) -> bool,
    hs: spec_fn(S, S3) -> bool,
    hd: spec_fn(D, D3) -> bool,
    hj: spec_fn(J, J3) -> bool,
)
    requires
        inst_corresponds(a, b, fs, fd, fj),
        inst_corresponds(b, c, gs, gd, gj),
        forall|x: S, y: S2, z: S3| #[trigger] fs(x, y) && #[trigger] gs(y, z) ==> hs(x, z),
        forall|x: D, y: D2, z: D3| #[trigger] fd(x, y) && #[trigger] gd(y, z) ==> hd(x, z),
        forall|x: J, y: J2, z: J3| #[trigger] fj(x, y) && #[trigger] gj(y, z) ==> hj(x, z),
    ensures
        inst_corresponds(a, c, hs, hd, hj),
{
}

/// Mapping with functions that give every value back gives the instruction
/// back: `map_regs` and `map_jumps` with identities are identities.
pub proof fn lemma_corresponds_identity<S, D, J>(
    a: Inst<S, D, J>,
    b: Inst<S, D, J>,
    fs: spec_fn(S, S) -> bool,
    fd: spec_fn(D, D) -> bool,
    fj: spec_fn(J, J) -> bool,
)
    requires
        inst_corresponds(a, b, fs, fd, fj),
        forall|x: S, y: S| #[trigger] fs(x, y) ==> x == y,
        forall|x: D, y: D| #[trigger] fd(x, y) ==> x == y,
        forall|x: J, y: J| #[trigger] fj(x, y) ==> x == y,
    ensures
        a == b,
{
}

/// Mapping is determined by the functions: two instructions that both
/// correspond to `a` through relations that are functions are equal. With
/// `lemma_corresponds_compose`, mapping twice equals mapping once with the
/// composed functions.
pub proof fn lemma_corresponds_unique<S, D, J, S2, D2, J2>(
    a: Inst<S, D, J>,
    b: Inst<S2, D2, J2>,
    c: Inst<S2, D2, J2>,
    fs: spec_fn(S, S2) -> bool,
    fd: spec_fn(D, D2) -> bool,
    fj: spec_fn(J, J2) -> bool,
)
    requires
        inst_corresponds(a, b, fs, fd, fj),
        inst_corresponds(a, c, fs, fd, fj),
        forall|x: S, y: S2, z: S2| #[trigger] fs(x, y) && #[trigger] fs(x, z) ==> y == z,
        forall|x: D, y: D2, z: D2| #[trigger] fd(x, y) && #[trigger] fd(x, z) ==> y == z,
        forall|x: J, y: J2, z: J2| #[trigger] fj(x, y) && #[trigger] fj(x, z) ==> y == z,
    ensures
        b == c,
{
}

/// The destination relation of a correspondence is only ever applied to the
/// register the instruction writes.
pub proof fn lemma_corresponds_at_dst<S2, D2, J, J2>(
    a: Inst<ArchReg, ArchReg, J>,
    b: Inst<S2, D2, J2>,
    fs: spec_fn(ArchReg, S2) -> bool,
    fd: spec_fn(ArchReg, D2) -> bool,
    fj: spec_fn(J, J2) -> bool,
)
    requires
        inst_corresponds(a, b, fs, |x: ArchReg, y: D2| dst_reg(a) == Some(x) ==> fd(x, y), fj),
    ensures
        inst_corresponds(a, b, fs, fd, fj),
{
}

/// Weakening the predicates of `inst_fields`.
pub proof fn lemma_fields_weaken<S, D, J>(
    a: Inst<S, D, J>,
    ps: spec_fn(S) -> bool,
    pd: spec_fn(D) -> bool,
    pj: spec_fn(J) -> bool,
    qs: spec_fn(S) -> bool,
    qd: spec_fn(D) -> bool,
    qj: spec_fn(J) -> bool,
)
    requires
        inst_fields(a, ps, pd, pj),
        forall|x: S| #[trigger] ps(x) ==> qs(x),
        forall|x: D| #[trigger] pd(x) ==> qd(x),
        forall|x: J| #[trigger] pj(x) ==> qj(x),
    ensures
        inst_fields(a, qs, qd, qj),
{
}

/// The fields of an instruction related to some other satisfy what the
/// relation implies of its left side.
pub proof fn lemma_corresponds_fields<S, D, J, S2, D2, J2>(
    a: Inst<S, D, J>,
    b: Inst<S2, D2, J2>,
    fs: spec_fn(S, S2) -> bool,
    fd: spec_fn(D, D2) -> bool,
    fj: spec_fn(J, J2) -> bool,
    ps: spec_fn(S) -> bool,
    pd: spec_fn(D) -> bool,
    pj: spec_fn(J) -> bool,
)
    requires
        inst_corresponds(a, b, fs, fd, fj),
        forall|x: S, y: S2| #[trigger] fs(x, y) ==> ps(x),
        forall|x: D, y: D2| #[trigger] fd(x, y) ==> pd(x),
        forall|x: J, y: J2| #[trigger] fj(x, y) ==> pj(x),
    ensures
        inst_fields(a, ps, pd, pj),
{
}

/// A correspondence read the other way round.
pub proof fn lemma_corresponds_flip<S, D, J, S2, D2, J2>(
    a: Inst<S, D, J>,
    b: Inst<S2, D2, J2>,
    fs: spec_fn(S, S2) -> bool,
    fd: spec_fn(D, D2) -> bool,
    fj: spec_fn(J, J2) -> bool,
)
    requires
        inst_corresponds(a, b, fs, fd, fj),
    ensures
        inst_corresponds(b, a, |y: S2, x: S| fs(x, y), |y: D2, x: D| fd(x, y), |y: J2, x: J| fj(x, y)),
{
}

/// What holds of the fields of one side of a correspondence carries to the other.
pub proof fn lemma_corresponds_fields_transfer<S, D, J, S2, D2, J2>(
    a: Inst<S, D, J>,
    b: Inst<S2, D2, J2>,
    fs: spec_fn(S, S2) -> bool,
    fd: spec_fn(D, D2) -> bool,
    fj: spec_fn(J, J2) -> bool,
    qs: spec_fn(S2) -> bool,
    qd: spec_fn(D2) -> bool,
    qj: spec_fn(J2) -> bool,
    ps: spec_fn(S) -> bool,
    pd: spec_fn(D) -> bool,
    pj: spec_fn(J) -> bool,
)
    requires
        inst_corresponds(a, b, fs, fd, fj),
        inst_fields(b, qs, qd, qj),
        forall|x: S, y: S2| #[trigger] fs(x, y) && qs(y) ==> ps(x),
        forall|x: D, y: D2| #[trigger] fd(x, y) && qd(y) ==> pd(x),
        forall|x: J, y: J2| #[trigger] fj(x, y) && qj(y) ==> pj(x),
    ensures
        inst_fields(a, ps, pd, pj),
{
}

// ---------------------------------------------------------------------------
// Classification.
impl<J> Inst<ArchReg, ArchReg, J> {
    /// `addi zero, zero, 0`.
    pub fn nop() -> (r: Self)
        ensures
            r == Inst::<ArchReg, ArchReg, J>::AddImm(ArchReg::Zero, ArchReg::Zero, Imm(0)),
    {
        Inst::AddImm(ArchReg::Zero, ArchReg::Zero, Imm(0))
    }
}

/// The register an architectural instruction writes, if any.
pub open spec fn dst_reg<J>(i: Inst<ArchReg, ArchReg, J>) -> Option<ArchReg> {
    match i {
        Inst::Add(d, _, _)
        | Inst::AddImm(d, _, _)
        | Inst::AndImm(d, _, _)
        | Inst::ShiftLeftLogicalImm(d, _, _)
        | Inst::Rem(d, _, _)
        | Inst::Mul(d, _, _)
        | Inst::Sub(d, _, _)
        | Inst::SetLessThanImmU(d, _, _)
        | Inst::LoadByte(d, _)
        | Inst::LoadHalfWord(d, _)
        | Inst::LoadWord(d, _)
        | Inst::JumpAndLink(d, _) => Some(d),
        _ => None,
    }
}

impl<J> Inst<ArchReg, ArchReg, J> {
    /// The register `self` writes, if any.
    pub fn dst_arch(&self) -> (r: Option<ArchReg>)
        ensures
            r == dst_reg(*self),
    {
        match self {
            Inst::Add(dst, _, _)
            | Inst::AddImm(dst, _, _)
            | Inst::AndImm(dst, _, _)
            | Inst::ShiftLeftLogicalImm(dst, _, _)
            | Inst::Rem(dst, _, _)
            | Inst::Mul(dst, _, _)
            | Inst::Sub(dst, _, _)
            | Inst::SetLessThanImmU(dst, _, _)
            | Inst::LoadByte(dst, _)
            | Inst::LoadHalfWord(dst, _)
            | Inst::LoadWord(dst, _)
            | Inst::JumpAndLink(dst, _) => Some(*dst),
            _ => None,
        }
    }
}

impl Inst {
    /// Whether executing `self` changes the value of `reg` (never for `zero`).
    pub fn writes_reg(&self, reg: ArchReg) -> (r: bool)
        ensures
            r == (reg != ArchReg::Zero && dst_reg(*self) == Some(reg)),
    {
        if reg == ArchReg::Zero {
            return false;
        }
        match self {
            Inst::Add(dst, _, _)
            | Inst::AddImm(dst, _, _)
            | Inst::AndImm(dst, _, _)
            | Inst::ShiftLeftLogicalImm(dst, _, _)
            | Inst::Rem(dst, _, _)
            | Inst::Mul(dst, _, _)
            | Inst::Sub(dst, _, _)
            | Inst::SetLessThanImmU(dst, _, _)
            | Inst::LoadByte(dst, _)
            | Inst::LoadHalfWord(dst, _)
            | Inst::LoadWord(dst, _)
            | Inst::JumpAndLink(dst, _) => *dst == reg,
            Inst::BranchIfNotEqual(_, _, _)
            | Inst::BranchIfEqual(_, _, _)
            | Inst::BranchIfGreaterEqual(_, _, _)
            | Inst::BranchIfLess(_, _, _)
            | Inst::Jump(_)
            | Inst::StoreByte(_, _)
            | Inst::StoreHalfWord(_, _)
            | Inst::StoreWord(_, _)
            | Inst::Halt => false,
        }
    }
}

impl<S, D, J> Inst<S, D, J> {
    pub open spec fn spec_is_branch(self) -> bool {
        match self {
            Inst::Jump(_)
            | Inst::JumpAndLink(_, _)
            | Inst::BranchIfNotEqual(_, _, _)
            | Inst::BranchIfEqual(_, _, _)
            | Inst::BranchIfLess(_, _, _)
            | Inst::BranchIfGreaterEqual(_, _, _) => true,
            _ => false,
        }
    }

    pub open spec fn spec_is_load(self) -> bool {
        match self {
            Inst::LoadByte(_, _) | Inst::LoadHalfWord(_, _) | Inst::LoadWord(_, _) => true,
            _ => false,
        }
    }

    pub open spec fn spec_is_store(self) -> bool {
        match self {
            Inst::StoreByte(_, _) | Inst::StoreHalfWord(_, _) | Inst::StoreWord(_, _) => true,
            _ => false,
        }
    }

    pub open spec fn spec_eu_type(self) -> EuType {
        if self.spec_is_branch() {
            EuType::Branch
        } else if self.spec_is_load() || self.spec_is_store() {
            EuType::LoadStore
        } else if self is Halt {
            EuType::Special
        } else {
            EuType::Alu
        }
    }

    /// Cycles the instruction occupies an execution unit for.
    pub open spec fn spec_latency(self) -> u64 {
        if self.spec_is_branch() {
            1
        } else if self.spec_is_load() || self.spec_is_store() {
            3
        } else {
            match self {
                Inst::Mul(_, _, _) => 2,
                Inst::Rem(_, _, _) => 3,
                _ => 1,
            }
        }
    }

    pub fn is_branch(&self) -> (r: bool)
        ensures
            r == self.spec_is_branch(),
    {
        match self {
            Inst::Jump(_)
            | Inst::JumpAndLink(_, _)
            | Inst::BranchIfNotEqual(_, _, _)
            | Inst::BranchIfEqual(_, _, _)
            | Inst::BranchIfLess(_, _, _)
            | Inst::BranchIfGreaterEqual(_, _, _) => true,
            _ => false,
        }
    }

    pub fn is_mem_access(&self) -> (r: bool)
        ensures
            r == (self.spec_is_load() || self.spec_is_store()),
    {
        self.eu_type() == EuType::LoadStore
    }

    pub fn is_load(&self) -> (r: bool)
        ensures
            r == self.spec_is_load(),
    {
        match self {
            Inst::LoadByte(_, _) | Inst::LoadHalfWord(_, _) | Inst::LoadWord(_, _) => true,
            _ => false,
        }
    }

    pub fn is_store(&self) -> (r: bool)
        ensures
            r == self.spec_is_store(),
    {
        match self {
            Inst::StoreByte(_, _) | Inst::StoreHalfWord(_, _) | Inst::StoreWord(_, _) => true,
            _ => false,
        }
    }

    pub fn eu_type(&self) -> (r: EuType)
        ensures
            r == self.spec_eu_type(),
    {
        match self {
            Inst::Jump(_)
            | Inst::JumpAndLink(_, _)
            | Inst::BranchIfNotEqual(_, _, _)
            | Inst::BranchIfEqual(_, _, _)
            | Inst::BranchIfLess(_, _, _)
            | Inst::BranchIfGreaterEqual(_, _, _) => EuType::Branch,
            Inst::Add(_, _, _)
            | Inst::Sub(_, _, _)
            | Inst::AddImm(_, _, _)
            | Inst::AndImm(_, _, _)
            | Inst::ShiftLeftLogicalImm(_, _, _)
            | Inst::SetLessThanImmU(_, _, _)
            | Inst::Mul(_, _, _)
            | Inst::Rem(_, _, _) => EuType::Alu,
            Inst::LoadByte(_, _)
            | Inst::LoadHalfWord(_, _)
            | Inst::LoadWord(_, _)
            | Inst::StoreByte(_, _)
            | Inst::StoreHalfWord(_, _)
            | Inst::StoreWord(_, _) => EuType::LoadStore,
            Inst::Halt => EuType::Special,
        }
    }

    pub fn latency(&self) -> (r: u64)
        ensures
            r == self.spec_latency(),
    {
        if self.is_branch() {
            1
        } else if self.is_mem_access() {
            3
        } else {
            match self {
                Inst::Mul(_, _, _) => 2,
                Inst::Rem(_, _, _) => 3,
                _ => 1,
            }
        }
    }
}

// ---------------------------------------------------------------------------
// Operand mapping.
impl<S, D, J> Inst<S, D, J> {
    /// Maps every source operand, destination register and jump target; `None`
    /// as soon as one of the maps gives `None`.
    pub fn try_map<S2, D2, J2, SrcFn, DstFn, JumpFn>(
        self,
        src_fn: SrcFn,
        dst_fn: DstFn,
        jump_fn: JumpFn,
    ) -> (r: Option<Inst<S2, D2, J2>>) where
        SrcFn: Fn(S) -> Option<S2>,
        DstFn: Fn(D) -> Option<D2>,
        JumpFn: Fn(J) -> Option<J2>,

        requires
            inst_fields(
                self,
                |x: S| call_requires(src_fn, (x,)),
                |x: D| call_requires(dst_fn, (x,)),
                |x: J| call_requires(jump_fn, (x,)),
            ),
        ensures
            r matches Some(i) ==> inst_corresponds(
                self,
                i,
                |a: S, b: S2| call_ensures(src_fn, (a,), Some(b)),
                |a: D, b: D2| call_ensures(dst_fn, (a,), Some(b)),
                |a: J, b: J2| call_ensures(jump_fn, (a,), Some(b)),
            ),
            r is None ==> !inst_fields(
                self,
                |x: S| !call_ensures(src_fn, (x,), None),
                |x: D| !call_ensures(dst_fn, (x,), None),
                |x: J| !call_ensures(jump_fn, (x,), None),
            ),
    {
        Some(
            match self {
                Inst::Add(dst, src0, src1) => Inst::Add(dst_fn(dst)?, src_fn(src0)?, src_fn(src1)?),
                Inst::Sub(dst, src0, src1) => Inst::Sub(dst_fn(dst)?, src_fn(src0)?, src_fn(src1)?),
                Inst::AddImm(dst, src, imm) => Inst::AddImm(dst_fn(dst)?, src_fn(src)?, imm),
                Inst::AndImm(dst, src, imm) => Inst::AndImm(dst_fn(dst)?, src_fn(src)?, imm),
                Inst::ShiftLeftLogicalImm(dst, src, imm) => Inst::ShiftLeftLogicalImm(
                    dst_fn(dst)?,
                    src_fn(src)?,
                    imm,
                ),
                Inst::SetLessThanImmU(dst, src, imm) => Inst::SetLessThanImmU(
                    dst_fn(dst)?,
                    src_fn(src)?,
                    imm,
                ),
                Inst::Mul(dst, src0, src1) => Inst::Mul(dst_fn(dst)?, src_fn(src0)?, src_fn(src1)?),
                Inst::Rem(dst, src0, src1) => Inst::Rem(dst_fn(dst)?, src_fn(src0)?, src_fn(src1)?),
                Inst::LoadByte(dst, src) => Inst::LoadByte(
                    dst_fn(dst)?,
                    MemRef { base: src_fn(src.base)?, offset: src.offset },
                ),
                Inst::LoadHalfWord(dst, src) => Inst::LoadHalfWord(
                    dst_fn(dst)?,
                    MemRef { base: src_fn(src.base)?, offset: src.offset },
                ),
                Inst::LoadWord(dst, src) => Inst::LoadWord(
                    dst_fn(dst)?,
                    MemRef { base: src_fn(src.base)?, offset: src.offset },
                ),
                Inst::StoreByte(src, dst) => Inst::StoreByte(
                    src_fn(src)?,
                    MemRef { base: src_fn(dst.base)?, offset: dst.offset },
                ),
                Inst::StoreHalfWord(src, dst) => Inst::StoreHalfWord(
                    src_fn(src)?,
                    MemRef { base: src_fn(dst.base)?, offset: dst.offset },
                ),
                Inst::StoreWord(src, dst) => Inst::StoreWord(
                    src_fn(src)?,
                    MemRef { base: src_fn(dst.base)?, offset: dst.offset },
                ),
                Inst::JumpAndLink(dst, label) => Inst::JumpAndLink(dst_fn(dst)?, jump_fn(label)?),
                Inst::BranchIfNotEqual(src0, src1, label) => Inst::BranchIfNotEqual(
                    src_fn(src0)?,
                    src_fn(src1)?,
                    jump_fn(label)?,
                ),
                Inst::BranchIfEqual(src0, src1, label) => Inst::BranchIfEqual(
                    src_fn(src0)?,
                    src_fn(src1)?,
                    jump_fn(label)?,
                ),
                Inst::BranchIfGreaterEqual(src0, src1, label) => Inst::BranchIfGreaterEqual(
                    src_fn(src0)?,
                    src_fn(src1)?,
                    jump_fn(label)?,
                ),
                Inst::BranchIfLess(src0, src1, label) => Inst::BranchIfLess(
                    src_fn(src0)?,
                    src_fn(src1)?,
                    jump_fn(label)?,
                ),
                Inst::Jump(label) => Inst::Jump(jump_fn(label)?),
                Inst::Halt => Inst::Halt,
            },
        )
    }

    /// Maps every source operand and destination register.
    pub fn map_regs<S2, D2, SrcFn, DstFn>(self, src_fn: SrcFn, dst_fn: DstFn) -> (r: Inst<S2, D2, J>) where
        SrcFn: Fn(S) -> S2,
        DstFn: Fn(D) -> D2,

        requires
            inst_fields(
                self,
                |x: S| call_requires(src_fn, (x,)),
                |x: D| call_requires(dst_fn, (x,)),
                |x: J| true,
            ),
        ensures
            inst_corresponds(
                self,
                r,
                |a: S, b: S2| call_ensures(src_fn, (a,), b),
                |a: D, b: D2| call_ensures(dst_fn, (a,), b),
                |a: J, b: J| a == b,
            ),
    {
        match self {
            Inst::Add(dst, src0, src1) => Inst::Add(dst_fn(dst), src_fn(src0), src_fn(src1)),
            Inst::Sub(dst, src0, src1) => Inst::Sub(dst_fn(dst), src_fn(src0), src_fn(src1)),
            Inst::AddImm(dst, src, imm) => Inst::AddImm(dst_fn(dst), src_fn(src), imm),
            Inst::AndImm(dst, src, imm) => Inst::AndImm(dst_fn(dst), src_fn(src), imm),
            Inst::ShiftLeftLogicalImm(dst, src, imm) => Inst::ShiftLeftLogicalImm(
                dst_fn(dst),
                src_fn(src),
                imm,
            ),
            Inst::SetLessThanImmU(dst, src, imm) => Inst::SetLessThanImmU(
                dst_fn(dst),
                src_fn(src),
                imm,
            ),
            Inst::Mul(dst, src0, src1) => Inst::Mul(dst_fn(dst), src_fn(src0), src_fn(src1)),
            Inst::Rem(dst, src0, src1) => Inst::Rem(dst_fn(dst), src_fn(src0), src_fn(src1)),
            Inst::LoadByte(dst, src) => Inst::LoadByte(
                dst_fn(dst),
                MemRef { base: src_fn(src.base), offset: src.offset },
            ),
            Inst::LoadHalfWord(dst, src) => Inst::LoadHalfWord(
                dst_fn(dst),
                MemRef { base: src_fn(src.base), offset: src.offset },
            ),
            Inst::LoadWord(dst, src) => Inst::LoadWord(
                dst_fn(dst),
                MemRef { base: src_fn(src.base), offset: src.offset },
            ),
            Inst::StoreByte(src, dst) => Inst::StoreByte(
                src_fn(src),
                MemRef { base: src_fn(dst.base), offset: dst.offset },
            ),
            Inst::StoreHalfWord(src, dst) => Inst::StoreHalfWord(
                src_fn(src),
                MemRef { base: src_fn(dst.base), offset: dst.offset },
            ),
            Inst::StoreWord(src, dst) => Inst::StoreWord(
                src_fn(src),
                MemRef { base: src_fn(dst.base), offset: dst.offset },
            ),
            Inst::JumpAndLink(dst, label) => Inst::JumpAndLink(dst_fn(dst), label),
            Inst::BranchIfNotEqual(src0, src1, label) => Inst::BranchIfNotEqual(
                src_fn(src0),
                src_fn(src1),
                label,
            ),
            Inst::BranchIfEqual(src0, src1, label) => Inst::BranchIfEqual(
                src_fn(src0),
                src_fn(src1),
                label,
            ),
            Inst::BranchIfGreaterEqual(src0, src1, label) => Inst::BranchIfGreaterEqual(
                src_fn(src0),
                src_fn(src1),
                label,
            ),
            Inst::BranchIfLess(src0, src1, label) => Inst::BranchIfLess(
                src_fn(src0),
                src_fn(src1),
                label,
            ),
            Inst::Jump(label) => Inst::Jump(label),
            Inst::Halt => Inst::Halt,
        }
    }

    /// Maps every source operand.
    pub fn map_src_regs<S2, SrcFn>(self, src_fn: SrcFn) -> (r: Inst<S2, D, J>) where
        SrcFn: Fn(S) -> S2,

        requires
            inst_fields(self, |x: S| call_requires(src_fn, (x,)), |x: D| true, |x: J| true),
        ensures
            inst_corresponds(
                self,
                r,
                |a: S, b: S2| call_ensures(src_fn, (a,), b),
                |a: D, b: D| a == b,
                |a: J, b: J| a == b,
            ),
    {
        let id = |d: D| -> (e: D)
            ensures
                e == d,
            { d };
        let r = self.map_regs(src_fn, id);
        proof {
            lemma_corresponds_weaken(
                self,
                r,
                |a: S, b: S2| call_ensures(src_fn, (a,), b),
                |a: D, b: D| call_ensures(id, (a,), b),
                |a: J, b: J| a == b,
                |a: S, b: S2| call_ensures(src_fn, (a,), b),
                |a: D, b: D| a == b,
                |a: J, b: J| a == b,
            );
        }
        r
    }

    /// Maps every jump target.
    pub fn map_jumps<J2, JumpFn>(self, jump_fn: JumpFn) -> (r: Inst<S, D, J2>) where
        JumpFn: Fn(J) -> J2,

        requires
            inst_fields(self, |x: S| true, |x: D| true, |x: J| call_requires(jump_fn, (x,))),
        ensures
            inst_corresponds(
                self,
                r,
                |a: S, b: S| a == b,
                |a: D, b: D| a == b,
                |a: J, b: J2| call_ensures(jump_fn, (a,), b),
            ),
    {
        match self {
            Inst::Add(dst, src0, src1) => Inst::Add(dst, src0, src1),
            Inst::Sub(dst, src0, src1) => Inst::Sub(dst, src0, src1),
            Inst::AddImm(dst, src, imm) => Inst::AddImm(dst, src, imm),
            Inst::AndImm(dst, src, imm) => Inst::AndImm(dst, src, imm),
            Inst::ShiftLeftLogicalImm(dst, src, imm) => Inst::ShiftLeftLogicalImm(dst, src, imm),
            Inst::SetLessThanImmU(dst, src, imm) => Inst::SetLessThanImmU(dst, src, imm),
            Inst::Mul(dst, src0, src1) => Inst::Mul(dst, src0, src1),
            Inst::Rem(dst, src0, src1) => Inst::Rem(dst, src0, src1),
            Inst::LoadByte(dst, src) => Inst::LoadByte(dst, src),
            Inst::LoadHalfWord(dst, src) => Inst::LoadHalfWord(dst, src),
            Inst::LoadWord(dst, src) => Inst::LoadWord(dst, src),
            Inst::StoreByte(src, dst) => Inst::StoreByte(src, dst),
            Inst::StoreHalfWord(src, dst) => Inst::StoreHalfWord(src, dst),
            Inst::StoreWord(src, dst) => Inst::StoreWord(src, dst),
            Inst::JumpAndLink(dst, label) => Inst::JumpAndLink(dst, jump_fn(label)),
            Inst::BranchIfNotEqual(src0, src1, label) => Inst::BranchIfNotEqual(
                src0,
                src1,
                jump_fn(label),
            ),
            Inst::BranchIfEqual(src0, src1, label) => Inst::BranchIfEqual(
                src0,
                src1,
                jump_fn(label),
            ),
            Inst::BranchIfGreaterEqual(src0, src1, label) => Inst::BranchIfGreaterEqual(
                src0,
                src1,
                jump_fn(label),
            ),
            Inst::BranchIfLess(src0, src1, label) => Inst::BranchIfLess(
                src0,
                src1,
                jump_fn(label),
            ),
            Inst::Jump(label) => Inst::Jump(jump_fn(label)),
            Inst::Halt => Inst::Halt,
        }
    }

    /// The instruction with its source operands dropped.
    pub fn executed(self) -> (r: Inst<(), D, J>)
        ensures
            inst_corresponds(
                self,
                r,
                |a: S, b: ()| true,
                |a: D, b: D| a == b,
                |a: J, b: J| a == b,
            ),
    {
        let drop = |x: S| -> (u: ())
            { () };
        let id = |d: D| -> (e: D)
            ensures
                e == d,
            { d };
        let r = self.map_regs(drop, id);
        proof {
            lemma_corresponds_weaken(
                self,
                r,
                |a: S, b: ()| call_ensures(drop, (a,), b),
                |a: D, b: D| call_ensures(id, (a,), b),
                |a: J, b: J| a == b,
                |a: S, b: ()| true,
                |a: D, b: D| a == b,
                |a: J, b: J| a == b,
            );
        }
        r
    }
}

impl MemRef<u32> {
    /// `base + offset`, wrapping around at 2^32.
    pub fn compute_addr(self) -> (a: Addr)
        ensures
            a.0 == self.base.wrapping_add(self.offset.0),
    {
        Addr(self.base.wrapping_add(self.offset.0))
    }
}

impl ReadyInst {
    /// The address a word load or store accesses.
    pub fn access_addr(&self) -> (a: Addr)
        requires
            self is LoadWord || self is StoreWord,
        ensures
            match *self {
                Inst::LoadWord(_, m) | Inst::StoreWord(_, m) => a == m.compute_addr_spec(),
                _ => false,
            },
    {
        match self {
            Inst::LoadWord(_, dst) | Inst::StoreWord(_, dst) => dst.compute_addr(),
            _ => {
                proof {
                    assert(false);
                }
                Addr(0)
            },
        }
    }
}

impl ReadyInst {
    /// The memory operand of a load or store.
    pub open spec fn spec_mem_ref(self) -> MemRef<u32> {
        match self {
            Inst::LoadByte(_, m)
            | Inst::LoadHalfWord(_, m)
            | Inst::LoadWord(_, m)
            | Inst::StoreByte(_, m)
            | Inst::StoreHalfWord(_, m)
            | Inst::StoreWord(_, m) => m,
            _ => MemRef { base: 0, offset: Imm(0) },
        }
    }

    /// The address a load or store of any width accesses.
    pub fn mem_addr(&self) -> (a: Addr)
        requires
            self.spec_is_load() || self.spec_is_store(),
        ensures
            a == self.spec_mem_ref().compute_addr_spec(),
    {
        match self {
            Inst::LoadByte(_, m)
            | Inst::LoadHalfWord(_, m)
            | Inst::LoadWord(_, m)
            | Inst::StoreByte(_, m)
            | Inst::StoreHalfWord(_, m)
            | Inst::StoreWord(_, m) => m.compute_addr(),
            _ => Addr(0),
        }
    }
}

impl MemRef<u32> {
    pub open spec fn compute_addr_spec(self) -> Addr {
        Addr(self.base.wrapping_add(self.offset.0))
    }
}

impl From<u64> for Tag {
    fn from(x: u64) -> (r: Self) {
        Self(x)
    }
}

impl vstd::std_specs::convert::FromSpecImpl<u64> for Tag {
    open spec fn obeys_from_spec() -> bool {
        true
    }

    open spec fn from_spec(x: u64) -> Tag {
        Tag(x)
    }
}

impl From<i32> for PhysReg {
    fn from(x: i32) -> (r: Self) {
        Self(x)
    }
}

impl vstd::std_specs::convert::FromSpecImpl<i32> for PhysReg {
    open spec fn obeys_from_spec() -> bool {
        true
    }

    open spec fn from_spec(x: i32) -> PhysReg {
        PhysReg(x)
    }
}

impl From<u32> for Pc {
    fn from(x: u32) -> (r: Self) {
        Self(x)
    }
}

impl vstd::std_specs::convert::FromSpecImpl<u32> for Pc {
    open spec fn obeys_from_spec() -> bool {
        true
    }

    open spec fn from_spec(x: u32) -> Pc {
        Pc(x)
    }
}

impl From<Pc> for u32 {
    fn from(pc: Pc) -> (r: Self) {
        pc.0
    }
}

impl vstd::std_specs::convert::FromSpecImpl<Pc> for u32 {
    open spec fn obeys_from_spec() -> bool {
        true
    }

    open spec fn from_spec(pc: Pc) -> u32 {
        pc.0
    }
}

impl Default for ArchReg {
    fn default() -> (r: Self)
        ensures
            r == ArchReg::Zero,
    {
        ArchReg::Zero
    }
}

impl PhysReg {
    /// The "no register" value, given to writes to `zero`.
    pub fn none() -> (r: Self)
        ensures
            r.0 == -1,
    {
        Self(-1)
    }
}

impl Default for PhysReg {
    fn default() -> (r: Self)
        ensures
            r.0 == -1,
    {
        PhysReg::none()
    }
}

// ---------------------------------------------------------------------------
// Register names.
impl ArchReg {
    /// The assembler name of the register.
    pub open spec fn name(self) -> Seq<char> {
        match self {
            ArchReg::Zero => "zero"@,
            ArchReg::RA => "ra"@,
            ArchReg::SP => "sp"@,
            ArchReg::T0 => "t0"@,
            ArchReg::T1 => "t1"@,
            ArchReg::T2 => "t2"@,
            ArchReg::T3 => "t3"@,
            ArchReg::T4 => "t4"@,
            ArchReg::T5 => "t5"@,
            ArchReg::T6 => "t6"@,
            ArchReg::A0 => "a0"@,
            ArchReg::A1 => "a1"@,
            ArchReg::A2 => "a2"@,
            ArchReg::A3 => "a3"@,
            ArchReg::A4 => "a4"@,
            ArchReg::A5 => "a5"@,
            ArchReg::A6 => "a6"@,
            ArchReg::A7 => "a7"@,
            ArchReg::S0 => "s0"@,
            ArchReg::S1 => "s1"@,
        }
    }

    pub fn name_str(self) -> (r: &'static str)
        ensures
            r@ == self.name(),
    {
        match self {
            ArchReg::Zero => "zero",
            ArchReg::RA => "ra",
            ArchReg::SP => "sp",
            ArchReg::T0 => "t0",
            ArchReg::T1 => "t1",
            ArchReg::T2 => "t2",
            ArchReg::T3 => "t3",
            ArchReg::T4 => "t4",
            ArchReg::T5 => "t5",
            ArchReg::T6 => "t6",
            ArchReg::A0 => "a0",
            ArchReg::A1 => "a1",
            ArchReg::A2 => "a2",
            ArchReg::A3 => "a3",
            ArchReg::A4 => "a4",
            ArchReg::A5 => "a5",
            ArchReg::A6 => "a6",
            ArchReg::A7 => "a7",
            ArchReg::S0 => "s0",
            ArchReg::S1 => "s1",
        }
    }

    /// Position of the register in declaration order.
    pub open spec fn spec_index(self) -> nat {
        match self {
            ArchReg::Zero => 0,
            ArchReg::RA => 1,
            ArchReg::SP => 2,
            ArchReg::T0 => 3,
            ArchReg::T1 => 4,
            ArchReg::T2 => 5,
            ArchReg::T3 => 6,
            ArchReg::T4 => 7,
            ArchReg::T5 => 8,
            ArchReg::T6 => 9,
            ArchReg::A0 => 10,
            ArchReg::A1 => 11,
            ArchReg::A2 => 12,
            ArchReg::A3 => 13,
            ArchReg::A4 => 14,
            ArchReg::A5 => 15,
            ArchReg::A6 => 16,
            ArchReg::A7 => 17,
            ArchReg::S0 => 18,
            ArchReg::S1 => 19,
        }
    }

    pub fn index(self) -> (r: usize)
        ensures
            r == self.spec_index(),
            r < NUM_ARCH_REGS,
    {
        match self {
            ArchReg::Zero => 0,
            ArchReg::RA => 1,
            ArchReg::SP => 2,
            ArchReg::T0 => 3,
            ArchReg::T1 => 4,
            ArchReg::T2 => 5,
            ArchReg::T3 => 6,
            ArchReg::T4 => 7,
            ArchReg::T5 => 8,
            ArchReg::T6 => 9,
            ArchReg::A0 => 10,
            ArchReg::A1 => 11,
            ArchReg::A2 => 12,
            ArchReg::A3 => 13,
            ArchReg::A4 => 14,
            ArchReg::A5 => 15,
            ArchReg::A6 => 16,
            ArchReg::A7 => 17,
            ArchReg::S0 => 18,
            ArchReg::S1 => 19,
        }
    }

    /// Every register, in declaration order.
    pub open spec fn spec_all() -> Seq<ArchReg> {
        seq![ArchReg::Zero, ArchReg::RA, ArchReg::SP, ArchReg::T0, ArchReg::T1, ArchReg::T2, ArchReg::T3, ArchReg::T4, ArchReg::T5, ArchReg::T6, ArchReg::A0, ArchReg::A1, ArchReg::A2, ArchReg::A3, ArchReg::A4, ArchReg::A5, ArchReg::A6, ArchReg::A7, ArchReg::S0, ArchReg::S1]
    }

    /// Each register stands at its own index in `spec_all`.
    pub proof fn lemma_all_index(self)
        ensures
            self.spec_index() < NUM_ARCH_REGS,
            Self::spec_all()[self.spec_index() as int] == self,
    {
    }

    /// The register at index `k` of `spec_all` has index `k`.
    pub proof fn lemma_index_all(k: int)
        requires
            0 <= k < NUM_ARCH_REGS,
        ensures
            Self::spec_all()[k].spec_index() == k,
    {
    }

    pub fn all() -> (v: Vec<ArchReg>)
        ensures
            v@ == Self::spec_all(),
    {
        let mut v: Vec<ArchReg> = Vec::new();
        v.push(ArchReg::Zero);
        v.push(ArchReg::RA);
        v.push(ArchReg::SP);
        v.push(ArchReg::T0);
        v.push(ArchReg::T1);
        v.push(ArchReg::T2);
        v.push(ArchReg::T3);
        v.push(ArchReg::T4);
        v.push(ArchReg::T5);
        v.push(ArchReg::T6);
        v.push(ArchReg::A0);
        v.push(ArchReg::A1);
        v.push(ArchReg::A2);
        v.push(ArchReg::A3);
        v.push(ArchReg::A4);
        v.push(ArchReg::A5);
        v.push(ArchReg::A6);
        v.push(ArchReg::A7);
        v.push(ArchReg::S0);
        v.push(ArchReg::S1);
        v
    }

    /// Parses a register from its lower-case name.
    pub fn from_str(s: &str) -> (r: Result<ArchReg, String>)
        ensures
            match spec_parse_reg(s@) {
                Some(x) => r == Ok::<ArchReg, String>(x),
                None => r matches Err(e) && e@ == REG_PARSE_ERROR@,
            },
    {
        let cs = str_chars(s);
        proof {
            assert(cs@.subrange(0, cs@.len() as int) == s@);
        }
        match parse_reg_in(&cs, 0, cs.len()) {
            Some(x) => Ok(x),
            None => Err(REG_PARSE_ERROR.to_owned()),
        }
    }
}

/// Number of architectural registers.
pub const NUM_ARCH_REGS: usize = 20;

/// Message of a failed register parse.
pub const REG_PARSE_ERROR: &'static str = "Matching variant not found";

/// The register whose name is `s`.
pub open spec fn spec_parse_reg(s: Seq<char>) -> Option<ArchReg> {
    if s == "zero"@ {
        Some(ArchReg::Zero)
    } else     if s == "ra"@ {
        Some(ArchReg::RA)
    } else     if s == "sp"@ {
        Some(ArchReg::SP)
    } else     if s == "t0"@ {
        Some(ArchReg::T0)
    } else     if s == "t1"@ {
        Some(ArchReg::T1)
    } else     if s == "t2"@ {
        Some(ArchReg::T2)
    } else     if s == "t3"@ {
        Some(ArchReg::T3)
    } else     if s == "t4"@ {
        Some(ArchReg::T4)
    } else     if s == "t5"@ {
        Some(ArchReg::T5)
    } else     if s == "t6"@ {
        Some(ArchReg::T6)
    } else     if s == "a0"@ {
        Some(ArchReg::A0)
    } else     if s == "a1"@ {
        Some(ArchReg::A1)
    } else     if s == "a2"@ {
        Some(ArchReg::A2)
    } else     if s == "a3"@ {
        Some(ArchReg::A3)
    } else     if s == "a4"@ {
        Some(ArchReg::A4)
    } else     if s == "a5"@ {
        Some(ArchReg::A5)
    } else     if s == "a6"@ {
        Some(ArchReg::A6)
    } else     if s == "a7"@ {
        Some(ArchReg::A7)
    } else     if s == "s0"@ {
        Some(ArchReg::S0)
    } else     if s == "s1"@ {
        Some(ArchReg::S1)
    } else {
        None
    }
}

/// Each register is read from the lower-case spelling of its variant name:
/// `zero`, `ra`, `sp`, `t0` to `t6`, `a0` to `a7`, `s0` and `s1`.
pub proof fn lemma_register_spellings()
    ensures
        spec_parse_reg("zero"@) == Some(ArchReg::Zero),
        spec_parse_reg("ra"@) == Some(ArchReg::RA),
        spec_parse_reg("sp"@) == Some(ArchReg::SP),
        spec_parse_reg("t0"@) == Some(ArchReg::T0),
        spec_parse_reg("t1"@) == Some(ArchReg::T1),
        spec_parse_reg("t2"@) == Some(ArchReg::T2),
        spec_parse_reg("t3"@) == Some(ArchReg::T3),
        spec_parse_reg("t4"@) == Some(ArchReg::T4),
        spec_parse_reg("t5"@) == Some(ArchReg::T5),
        spec_parse_reg("t6"@) == Some(ArchReg::T6),
        spec_parse_reg("a0"@) == Some(ArchReg::A0),
        spec_parse_reg("a1"@) == Some(ArchReg::A1),
        spec_parse_reg("a2"@) == Some(ArchReg::A2),
        spec_parse_reg("a3"@) == Some(ArchReg::A3),
        spec_parse_reg("a4"@) == Some(ArchReg::A4),
        spec_parse_reg("a5"@) == Some(ArchReg::A5),
        spec_parse_reg("a6"@) == Some(ArchReg::A6),
        spec_parse_reg("a7"@) == Some(ArchReg::A7),
        spec_parse_reg("s0"@) == Some(ArchReg::S0),
        spec_parse_reg("s1"@) == Some(ArchReg::S1),
{
    lemma_reg_name_roundtrip(ArchReg::Zero);
    lemma_reg_name_roundtrip(ArchReg::RA);
    lemma_reg_name_roundtrip(ArchReg::SP);
    lemma_reg_name_roundtrip(ArchReg::T0);
    lemma_reg_name_roundtrip(ArchReg::T1);
    lemma_reg_name_roundtrip(ArchReg::T2);
    lemma_reg_name_roundtrip(ArchReg::T3);
    lemma_reg_name_roundtrip(ArchReg::T4);
    lemma_reg_name_roundtrip(ArchReg::T5);
    lemma_reg_name_roundtrip(ArchReg::T6);
    lemma_reg_name_roundtrip(ArchReg::A0);
    lemma_reg_name_roundtrip(ArchReg::A1);
    lemma_reg_name_roundtrip(ArchReg::A2);
    lemma_reg_name_roundtrip(ArchReg::A3);
    lemma_reg_name_roundtrip(ArchReg::A4);
    lemma_reg_name_roundtrip(ArchReg::A5);
    lemma_reg_name_roundtrip(ArchReg::A6);
    lemma_reg_name_roundtrip(ArchReg::A7);
    lemma_reg_name_roundtrip(ArchReg::S0);
    lemma_reg_name_roundtrip(ArchReg::S1);
}

/// Parsing the name of a register gives the register back.
pub proof fn lemma_reg_name_roundtrip(r: ArchReg)
    ensures
        spec_parse_reg(r.name()) == Some(r),
{
    match r {
        ArchReg::Zero => {
            assert(spec_parse_reg(r.name()) == Some(r)) by {
                reveal_strlit("zero");
            }
        },
        ArchReg::RA => {
            assert(spec_parse_reg(r.name()) == Some(r)) by {
                reveal_strlit("zero");
                reveal_strlit("ra");
                assert("ra"@.len() != "zero"@.len());
            }
        },
        ArchReg::SP => {
            assert(spec_parse_reg(r.name()) == Some(r)) by {
                reveal_strlit("zero");
                reveal_strlit("ra");
                reveal_strlit("sp");
                assert("sp"@.len() != "zero"@.len());
                assert("sp"@[0] != "ra"@[0]);
            }
        },
        ArchReg::T0 => {
            assert(spec_parse_reg(r.name()) == Some(r)) by {
                reveal_strlit("zero");
                reveal_strlit("ra");
                reveal_strlit("sp");
                reveal_strlit("t0");
                assert("t0"@.len() != "zero"@.len());
                assert("t0"@[0] != "ra"@[0]);
                assert("t0"@[0] != "sp"@[0]);
            }
        },
        ArchReg::T1 => {
            assert(spec_parse_reg(r.name()) == Some(r)) by {
                reveal_strlit("zero");
                reveal_strlit("ra");
                reveal_strlit("sp");
                reveal_strlit("t0");
                reveal_strlit("t1");
                assert("t1"@.len() != "zero"@.len());
                assert("t1"@[0] != "ra"@[0]);
                assert("t1"@[0] != "sp"@[0]);
                assert("t1"@[1] != "t0"@[1]);
            }
        },
        ArchReg::T2 => {
            assert(spec_parse_reg(r.name()) == Some(r)) by {
                reveal_strlit("zero");
                reveal_strlit("ra");
                reveal_strlit("sp");
                reveal_strlit("t0");
                reveal_strlit("t1");
                reveal_strlit("t2");
                assert("t2"@.len() != "zero"@.len());
                assert("t2"@[0] != "ra"@[0]);
                assert("t2"@[0] != "sp"@[0]);
                assert("t2"@[1] != "t0"@[1]);
                assert("t2"@[1] != "t1"@[1]);
            }
        },
        ArchReg::T3 => {
            assert(spec_parse_reg(r.name()) == Some(r)) by {
                reveal_strlit("zero");
                reveal_strlit("ra");
                reveal_strlit("sp");
                reveal_strlit("t0");
                reveal_strlit("t1");
                reveal_strlit("t2");
                reveal_strlit("t3");
                assert("t3"@.len() != "zero"@.len());
                assert("t3"@[0] != "ra"@[0]);
                assert("t3"@[0] != "sp"@[0]);
                assert("t3"@[1] != "t0"@[1]);
                assert("t3"@[1] != "t1"@[1]);
                assert("t3"@[1] != "t2"@[1]);
            }
        },
        ArchReg::T4 => {
            assert(spec_parse_reg(r.name()) == Some(r)) by {
                reveal_strlit("zero");
                reveal_strlit("ra");
                reveal_strlit("sp");
                reveal_strlit("t0");
                reveal_strlit("t1");
                reveal_strlit("t2");
                reveal_strlit("t3");
                reveal_strlit("t4");
                assert("t4"@.len() != "zero"@.len());
                assert("t4"@[0] != "ra"@[0]);
                assert("t4"@[0] != "sp"@[0]);
                assert("t4"@[1] != "t0"@[1]);
                assert("t4"@[1] != "t1"@[1]);
                assert("t4"@[1] != "t2"@[1]);
                assert("t4"@[1] != "t3"@[1]);
            }
        },
        ArchReg::T5 => {
            assert(spec_parse_reg(r.name()) == Some(r)) by {
                reveal_strlit("zero");
                reveal_strlit("ra");
                reveal_strlit("sp");
                reveal_strlit("t0");
                reveal_strlit("t1");
                reveal_strlit("t2");
                reveal_strlit("t3");
                reveal_strlit("t4");
                reveal_strlit("t5");
                assert("t5"@.len() != "zero"@.len());
                assert("t5"@[0] != "ra"@[0]);
                assert("t5"@[0] != "sp"@[0]);
                assert("t5"@[1] != "t0"@[1]);
                assert("t5"@[1] != "t1"@[1]);
                assert("t5"@[1] != "t2"@[1]);
                assert("t5"@[1] != "t3"@[1]);
                assert("t5"@[1] != "t4"@[1]);
            }
        },
        ArchReg::T6 => {
            assert(spec_parse_reg(r.name()) == Some(r)) by {
                reveal_strlit("zero");
                reveal_strlit("ra");
                reveal_strlit("sp");
                reveal_strlit("t0");
                reveal_strlit("t1");
                reveal_strlit("t2");
                reveal_strlit("t3");
                reveal_strlit("t4");
                reveal_strlit("t5");
                reveal_strlit("t6");
                assert("t6"@.len() != "zero"@.len());
                assert("t6"@[0] != "ra"@[0]);
                assert("t6"@[0] != "sp"@[0]);
                assert("t6"@[1] != "t0"@[1]);
                assert("t6"@[1] != "t1"@[1]);
                assert("t6"@[1] != "t2"@[1]);
                assert("t6"@[1] != "t3"@[1]);
                assert("t6"@[1] != "t4"@[1]);
                assert("t6"@[1] != "t5"@[1]);
            }
        },
        ArchReg::A0 => {
            assert(spec_parse_reg(r.name()) == Some(r)) by {
                reveal_strlit("zero");
                reveal_strlit("ra");
                reveal_strlit("sp");
                reveal_strlit("t0");
                reveal_strlit("t1");
                reveal_strlit("t2");
                reveal_strlit("t3");
                reveal_strlit("t4");
                reveal_strlit("t5");
                reveal_strlit("t6");
                reveal_strlit("a0");
                assert("a0"@.len() != "zero"@.len());
                assert("a0"@[0] != "ra"@[0]);
                assert("a0"@[0] != "sp"@[0]);
                assert("a0"@[0] != "t0"@[0]);
                assert("a0"@[0] != "t1"@[0]);
                assert("a0"@[0] != "t2"@[0]);
                assert("a0"@[0] != "t3"@[0]);
                assert("a0"@[0] != "t4"@[0]);
                assert("a0"@[0] != "t5"@[0]);
                assert("a0"@[0] != "t6"@[0]);
            }
        },
        ArchReg::A1 => {
            assert(spec_parse_reg(r.name()) == Some(r)) by {
                reveal_strlit("zero");
                reveal_strlit("ra");
                reveal_strlit("sp");
                reveal_strlit("t0");
                reveal_strlit("t1");
                reveal_strlit("t2");
                reveal_strlit("t3");
                reveal_strlit("t4");
                reveal_strlit("t5");
                reveal_strlit("t6");
                reveal_strlit("a0");
                reveal_strlit("a1");
                assert("a1"@.len() != "zero"@.len());
                assert("a1"@[0] != "ra"@[0]);
                assert("a1"@[0] != "sp"@[0]);
                assert("a1"@[0] != "t0"@[0]);
                assert("a1"@[0] != "t1"@[0]);
                assert("a1"@[0] != "t2"@[0]);
                assert("a1"@[0] != "t3"@[0]);
                assert("a1"@[0] != "t4"@[0]);
                assert("a1"@[0] != "t5"@[0]);
                assert("a1"@[0] != "t6"@[0]);
                assert("a1"@[1] != "a0"@[1]);
            }
        },
        ArchReg::A2 => {
            assert(spec_parse_reg(r.name()) == Some(r)) by {
                reveal_strlit("zero");
                reveal_strlit("ra");
                reveal_strlit("sp");
                reveal_strlit("t0");
                reveal_strlit("t1");
                reveal_strlit("t2");
                reveal_strlit("t3");
                reveal_strlit("t4");
                reveal_strlit("t5");
                reveal_strlit("t6");
                reveal_strlit("a0");
                reveal_strlit("a1");
                reveal_strlit("a2");
                assert("a2"@.len() != "zero"@.len());
                assert("a2"@[0] != "ra"@[0]);
                assert("a2"@[0] != "sp"@[0]);
                assert("a2"@[0] != "t0"@[0]);
                assert("a2"@[0] != "t1"@[0]);
                assert("a2"@[0] != "t2"@[0]);
                assert("a2"@[0] != "t3"@[0]);
                assert("a2"@[0] != "t4"@[0]);
                assert("a2"@[0] != "t5"@[0]);
                assert("a2"@[0] != "t6"@[0]);
                assert("a2"@[1] != "a0"@[1]);
                assert("a2"@[1] != "a1"@[1]);
            }
        },
        ArchReg::A3 => {
            assert(spec_parse_reg(r.name()) == Some(r)) by {
                reveal_strlit("zero");
                reveal_strlit("ra");
                reveal_strlit("sp");
                reveal_strlit("t0");
                reveal_strlit("t1");
                reveal_strlit("t2");
                reveal_strlit("t3");
                reveal_strlit("t4");
                reveal_strlit("t5");
                reveal_strlit("t6");
                reveal_strlit("a0");
                reveal_strlit("a1");
                reveal_strlit("a2");
                reveal_strlit("a3");
                assert("a3"@.len() != "zero"@.len());
                assert("a3"@[0] != "ra"@[0]);
                assert("a3"@[0] != "sp"@[0]);
                assert("a3"@[0] != "t0"@[0]);
                assert("a3"@[0] != "t1"@[0]);
                assert("a3"@[0] != "t2"@[0]);
                assert("a3"@[0] != "t3"@[0]);
                assert("a3"@[0] != "t4"@[0]);
                assert("a3"@[0] != "t5"@[0]);
                assert("a3"@[0] != "t6"@[0]);
                assert("a3"@[1] != "a0"@[1]);
                assert("a3"@[1] != "a1"@[1]);
                assert("a3"@[1] != "a2"@[1]);
            }
        },
        ArchReg::A4 => {
            assert(spec_parse_reg(r.name()) == Some(r)) by {
                reveal_strlit("zero");
                reveal_strlit("ra");
                reveal_strlit("sp");
                reveal_strlit("t0");
                reveal_strlit("t1");
                reveal_strlit("t2");
                reveal_strlit("t3");
                reveal_strlit("t4");
                reveal_strlit("t5");
                reveal_strlit("t6");
                reveal_strlit("a0");
                reveal_strlit("a1");
                reveal_strlit("a2");
                reveal_strlit("a3");
                reveal_strlit("a4");
                assert("a4"@.len() != "zero"@.len());
                assert("a4"@[0] != "ra"@[0]);
                assert("a4"@[0] != "sp"@[0]);
                assert("a4"@[0] != "t0"@[0]);
                assert("a4"@[0] != "t1"@[0]);
                assert("a4"@[0] != "t2"@[0]);
                assert("a4"@[0] != "t3"@[0]);
                assert("a4"@[0] != "t4"@[0]);
                assert("a4"@[0] != "t5"@[0]);
                assert("a4"@[0] != "t6"@[0]);
                assert("a4"@[1] != "a0"@[1]);
                assert("a4"@[1] != "a1"@[1]);
                assert("a4"@[1] != "a2"@[1]);
                assert("a4"@[1] != "a3"@[1]);
            }
        },
        ArchReg::A5 => {
            assert(spec_parse_reg(r.name()) == Some(r)) by {
                reveal_strlit("zero");
                reveal_strlit("ra");
                reveal_strlit("sp");
                reveal_strlit("t0");
                reveal_strlit("t1");
                reveal_strlit("t2");
                reveal_strlit("t3");
                reveal_strlit("t4");
                reveal_strlit("t5");
                reveal_strlit("t6");
                reveal_strlit("a0");
                reveal_strlit("a1");
                reveal_strlit("a2");
                reveal_strlit("a3");
                reveal_strlit("a4");
                reveal_strlit("a5");
                assert("a5"@.len() != "zero"@.len());
                assert("a5"@[0] != "ra"@[0]);
                assert("a5"@[0] != "sp"@[0]);
                assert("a5"@[0] != "t0"@[0]);
                assert("a5"@[0] != "t1"@[0]);
                assert("a5"@[0] != "t2"@[0]);
                assert("a5"@[0] != "t3"@[0]);
                assert("a5"@[0] != "t4"@[0]);
                assert("a5"@[0] != "t5"@[0]);
                assert("a5"@[0] != "t6"@[0]);
                assert("a5"@[1] != "a0"@[1]);
                assert("a5"@[1] != "a1"@[1]);
                assert("a5"@[1] != "a2"@[1]);
                assert("a5"@[1] != "a3"@[1]);
                assert("a5"@[1] != "a4"@[1]);
            }
        },
        ArchReg::A6 => {
            assert(spec_parse_reg(r.name()) == Some(r)) by {
                reveal_strlit("zero");
                reveal_strlit("ra");
                reveal_strlit("sp");
                reveal_strlit("t0");
                reveal_strlit("t1");
                reveal_strlit("t2");
                reveal_strlit("t3");
                reveal_strlit("t4");
                reveal_strlit("t5");
                reveal_strlit("t6");
                reveal_strlit("a0");
                reveal_strlit("a1");
                reveal_strlit("a2");
                reveal_strlit("a3");
                reveal_strlit("a4");
                reveal_strlit("a5");
                reveal_strlit("a6");
                assert("a6"@.len() != "zero"@.len());
                assert("a6"@[0] != "ra"@[0]);
                assert("a6"@[0] != "sp"@[0]);
                assert("a6"@[0] != "t0"@[0]);
                assert("a6"@[0] != "t1"@[0]);
                assert("a6"@[0] != "t2"@[0]);
                assert("a6"@[0] != "t3"@[0]);
                assert("a6"@[0] != "t4"@[0]);
                assert("a6"@[0] != "t5"@[0]);
                assert("a6"@[0] != "t6"@[0]);
                assert("a6"@[1] != "a0"@[1]);
                assert("a6"@[1] != "a1"@[1]);
                assert("a6"@[1] != "a2"@[1]);
                assert("a6"@[1] != "a3"@[1]);
                assert("a6"@[1] != "a4"@[1]);
                assert("a6"@[1] != "a5"@[1]);
            }
        },
        ArchReg::A7 => {
            assert(spec_parse_reg(r.name()) == Some(r)) by {
                reveal_strlit("zero");
                reveal_strlit("ra");
                reveal_strlit("sp");
                reveal_strlit("t0");
                reveal_strlit("t1");
                reveal_strlit("t2");
                reveal_strlit("t3");
                reveal_strlit("t4");
                reveal_strlit("t5");
                reveal_strlit("t6");
                reveal_strlit("a0");
                reveal_strlit("a1");
                reveal_strlit("a2");
                reveal_strlit("a3");
                reveal_strlit("a4");
                reveal_strlit("a5");
                reveal_strlit("a6");
                reveal_strlit("a7");
                assert("a7"@.len() != "zero"@.len());
                assert("a7"@[0] != "ra"@[0]);
                assert("a7"@[0] != "sp"@[0]);
                assert("a7"@[0] != "t0"@[0]);
                assert("a7"@[0] != "t1"@[0]);
                assert("a7"@[0] != "t2"@[0]);
                assert("a7"@[0] != "t3"@[0]);
                assert("a7"@[0] != "t4"@[0]);
                assert("a7"@[0] != "t5"@[0]);
                assert("a7"@[0] != "t6"@[0]);
                assert("a7"@[1] != "a0"@[1]);
                assert("a7"@[1] != "a1"@[1]);
                assert("a7"@[1] != "a2"@[1]);
                assert("a7"@[1] != "a3"@[1]);
                assert("a7"@[1] != "a4"@[1]);
                assert("a7"@[1] != "a5"@[1]);
                assert("a7"@[1] != "a6"@[1]);
            }
        },
        ArchReg::S0 => {
            assert(spec_parse_reg(r.name()) == Some(r)) by {
                reveal_strlit("zero");
                reveal_strlit("ra");
                reveal_strlit("sp");
                reveal_strlit("t0");
                reveal_strlit("t1");
                reveal_strlit("t2");
                reveal_strlit("t3");
                reveal_strlit("t4");
                reveal_strlit("t5");
                reveal_strlit("t6");
                reveal_strlit("a0");
                reveal_strlit("a1");
                reveal_strlit("a2");
                reveal_strlit("a3");
                reveal_strlit("a4");
                reveal_strlit("a5");
                reveal_strlit("a6");
                reveal_strlit("a7");
                reveal_strlit("s0");
                assert("s0"@.len() != "zero"@.len());
                assert("s0"@[0] != "ra"@[0]);
                assert("s0"@[1] != "sp"@[1]);
                assert("s0"@[0] != "t0"@[0]);
                assert("s0"@[0] != "t1"@[0]);
                assert("s0"@[0] != "t2"@[0]);
                assert("s0"@[0] != "t3"@[0]);
                assert("s0"@[0] != "t4"@[0]);
                assert("s0"@[0] != "t5"@[0]);
                assert("s0"@[0] != "t6"@[0]);
                assert("s0"@[0] != "a0"@[0]);
                assert("s0"@[0] != "a1"@[0]);
                assert("s0"@[0] != "a2"@[0]);
                assert("s0"@[0] != "a3"@[0]);
                assert("s0"@[0] != "a4"@[0]);
                assert("s0"@[0] != "a5"@[0]);
                assert("s0"@[0] != "a6"@[0]);
                assert("s0"@[0] != "a7"@[0]);
            }
        },
        ArchReg::S1 => {
            assert(spec_parse_reg(r.name()) == Some(r)) by {
                reveal_strlit("zero");
                reveal_strlit("ra");
                reveal_strlit("sp");
                reveal_strlit("t0");
                reveal_strlit("t1");
                reveal_strlit("t2");
                reveal_strlit("t3");
                reveal_strlit("t4");
                reveal_strlit("t5");
                reveal_strlit("t6");
                reveal_strlit("a0");
                reveal_strlit("a1");
                reveal_strlit("a2");
                reveal_strlit("a3");
                reveal_strlit("a4");
                reveal_strlit("a5");
                reveal_strlit("a6");
                reveal_strlit("a7");
                reveal_strlit("s0");
                reveal_strlit("s1");
                assert("s1"@.len() != "zero"@.len());
                assert("s1"@[0] != "ra"@[0]);
                assert("s1"@[1] != "sp"@[1]);
                assert("s1"@[0] != "t0"@[0]);
                assert("s1"@[0] != "t1"@[0]);
                assert("s1"@[0] != "t2"@[0]);
                assert("s1"@[0] != "t3"@[0]);
                assert("s1"@[0] != "t4"@[0]);
                assert("s1"@[0] != "t5"@[0]);
                assert("s1"@[0] != "t6"@[0]);
                assert("s1"@[0] != "a0"@[0]);
                assert("s1"@[0] != "a1"@[0]);
                assert("s1"@[0] != "a2"@[0]);
                assert("s1"@[0] != "a3"@[0]);
                assert("s1"@[0] != "a4"@[0]);
                assert("s1"@[0] != "a5"@[0]);
                assert("s1"@[0] != "a6"@[0]);
                assert("s1"@[0] != "a7"@[0]);
                assert("s1"@[1] != "s0"@[1]);
            }
        },
    }
}

/// Whether `cs[lo..hi]` spells `lit`.
pub fn chars_eq_str(cs: &Vec<char>, lo: usize, hi: usize, lit: &str) -> (b: bool)
    requires
        lo <= hi <= cs@.len(),
    ensures
        b == (cs@.subrange(lo as int, hi as int) == lit@),
{
    let l = str_chars(lit);
    if hi - lo != l.len() {
        return false;
    }
    let mut i: usize = 0;
    while i < l.len()
        invariant
            lo <= hi <= cs@.len(),
            hi - lo == l@.len(),
            l@ == lit@,
            i <= l@.len(),
            forall|k: int| 0 <= k < i ==> cs@[lo + k] == l@[k],
        decreases l@.len() - i,
    {
        if cs[lo + i] != l[i] {
            assert(cs@.subrange(lo as int, hi as int)[i as int] != lit@[i as int]);
            return false;
        }
        i = i + 1;
    }
    assert(cs@.subrange(lo as int, hi as int) =~= lit@);
    true
}

/// `ArchReg::from_str(&cs[lo..hi])`.
pub fn parse_reg_in(cs: &Vec<char>, lo: usize, hi: usize) -> (r: Option<ArchReg>)
    requires
        lo <= hi <= cs@.len(),
    ensures
        r == spec_parse_reg(cs@.subrange(lo as int, hi as int)),
{
    let regs = ArchReg::all();
    let mut i: usize = 0;
    while i < regs.len()
        invariant
            lo <= hi <= cs@.len(),
            regs@ == ArchReg::spec_all(),
            i <= regs@.len(),
            forall|k: int| 0 <= k < i ==> cs@.subrange(lo as int, hi as int) != (#[trigger] regs@[k]).name(),
        decreases regs@.len() - i,
    {
        let reg = regs[i];
        if chars_eq_str(cs, lo, hi, reg.name_str()) {
            return Some(reg);
        }
        i = i + 1;
    }
    None
}

// ---------------------------------------------------------------------------
// Immediates.
/// Whether `t` starts with `0x`.
pub open spec fn has_hex_prefix(t: Seq<char>) -> bool {
    t.len() >= 2 && t[0] == '0' && t[1] == 'x'
}

/// Whether `t` starts with `-0x`.
pub open spec fn has_neg_hex_prefix(t: Seq<char>) -> bool {
    t.len() >= 3 && t[0] == '-' && t[1] == '0' && t[2] == 'x'
}

/// The integer an immediate's text denotes: `0x` hexadecimal, `-0x` negated
/// hexadecimal, or decimal, each as `i64::from_str_radix` reads it.
pub open spec fn imm_raw(t: Seq<char>) -> Option<int> {
    if has_hex_prefix(t) {
        parse_i64(t.skip(2), 16)
    } else if has_neg_hex_prefix(t) {
        match parse_i64(t.skip(3), 16) {
            Some(v) => Some(-v),
            None => None,
        }
    } else {
        parse_i64(t, 10)
    }
}

/// Reading `t` as an immediate overflows: the value is `i32::MIN`, whose
/// magnitude has no `i32`, or the negation of a hexadecimal `i64::MIN`.
pub open spec fn imm_panics(t: Seq<char>) -> bool {
    match imm_raw(t) {
        Some(v) => v == i32::MIN || v == 0x8000_0000_0000_0000,
        None => false,
    }
}

/// The 32-bit pattern of the immediate `t`: values in `0..=u32::MAX` as they
/// are, negative `i32` values in two's complement.
pub open spec fn spec_parse_imm(t: Seq<char>) -> Option<u32> {
    match imm_raw(t) {
        Some(v) => if 0 <= v && v <= u32::MAX {
            Some(v as u32)
        } else if i32::MIN < v && v < 0 {
            Some((v + 0x1_0000_0000) as u32)
        } else {
            None
        },
        None => None,
    }
}

pub open spec fn imm_error(t: Seq<char>) -> Seq<char> {
    "invalid immediate: '"@ + t + "'"@
}

/// Whether reading `cs[lo..hi]` as an immediate overflows (see
/// `imm_panics`).
pub fn imm_panics_in(cs: &Vec<char>, lo: usize, hi: usize) -> (b: bool)
    requires
        lo <= hi <= cs@.len(),
    ensures
        b == imm_panics(cs@.subrange(lo as int, hi as int)),
{
    let ghost t = cs@.subrange(lo as int, hi as int);
    if hi - lo >= 2 && cs[lo] == '0' && cs[lo + 1] == 'x' {
        assert(has_hex_prefix(t));
        assert(t.skip(2) == cs@.subrange(lo + 2, hi as int));
        match parse_i64_in(cs, lo + 2, hi, 16) {
            Some(v) => v == -0x8000_0000,
            None => false,
        }
    } else if hi - lo >= 3 && cs[lo] == '-' && cs[lo + 1] == '0' && cs[lo + 2] == 'x' {
        assert(!has_hex_prefix(t));
        assert(has_neg_hex_prefix(t));
        assert(t.skip(3) == cs@.subrange(lo + 3, hi as int));
        match parse_i64_in(cs, lo + 3, hi, 16) {
            Some(v) => v == i64::MIN || v == 0x8000_0000,
            None => false,
        }
    } else {
        assert(!has_hex_prefix(t));
        assert(!has_neg_hex_prefix(t));
        match parse_i64_in(cs, lo, hi, 10) {
            Some(v) => v == -0x8000_0000,
            None => false,
        }
    }
}

/// `Imm::from_str(&cs[lo..hi])`, without its message.
pub fn parse_imm_in(cs: &Vec<char>, lo: usize, hi: usize) -> (r: Option<Imm>)
    requires
        lo <= hi <= cs@.len(),
        !imm_panics(cs@.subrange(lo as int, hi as int)),
    ensures
        match spec_parse_imm(cs@.subrange(lo as int, hi as int)) {
            Some(v) => r == Some(Imm(v)),
            None => r is None,
        },
{
    let ghost t = cs@.subrange(lo as int, hi as int);
    let val: Option<i64> = if hi - lo >= 2 && cs[lo] == '0' && cs[lo + 1] == 'x' {
        assert(has_hex_prefix(t));
        assert(t.skip(2) == cs@.subrange(lo + 2, hi as int));
        parse_i64_in(cs, lo + 2, hi, 16)
    } else if hi - lo >= 3 && cs[lo] == '-' && cs[lo + 1] == '0' && cs[lo + 2] == 'x' {
        assert(!has_hex_prefix(t));
        assert(has_neg_hex_prefix(t));
        assert(t.skip(3) == cs@.subrange(lo + 3, hi as int));
        match parse_i64_in(cs, lo + 3, hi, 16) {
            Some(v) => {
                if v == i64::MIN {
                    proof {
                        assert(imm_raw(t) == Some(0x8000_0000_0000_0000int));
                    }
                    None
                } else {
                    Some(-v)
                }
            },
            None => None,
        }
    } else {
        assert(!has_hex_prefix(t));
        assert(!has_neg_hex_prefix(t));
        parse_i64_in(cs, lo, hi, 10)
    };
    assert(match imm_raw(t) {
        Some(v) => val == Some(v as i64),
        None => val is None,
    });
    match val {
        Some(v) => {
            if 0 <= v && v <= 0xffff_ffff {
                Some(Imm(v as u32))
            } else if -0x8000_0000 < v && v < 0 {
                Some(Imm((v + 0x1_0000_0000) as u32))
            } else {
                None
            }
        },
        None => None,
    }
}

impl Imm {
    /// Parses an immediate (see `spec_parse_imm`).
    pub fn from_str(s: &str) -> (r: Result<Imm, String>)
        requires
            !imm_panics(s@),
        ensures
            match spec_parse_imm(s@) {
                Some(v) => r == Ok::<Imm, String>(Imm(v)),
                None => r matches Err(e) && e@ == imm_error(s@),
            },
    {
        let cs = str_chars(s);
        proof {
            assert(cs@.subrange(0, cs@.len() as int) == s@);
        }
        match parse_imm_in(&cs, 0, cs.len()) {
            Some(i) => Ok(i),
            None => Err(concat3("invalid immediate: '", s, "'")),
        }
    }
}

// ---------------------------------------------------------------------------
// Labels.
/// A character allowed in a label: alphanumeric, `_` or `.`.
pub open spec fn label_char(c: char) -> bool {
    unicode_alphanumeric(c) || c == '_' || c == '.'
}

pub open spec fn spec_label_ok(t: Seq<char>) -> bool {
    forall|k: int| 0 <= k < t.len() ==> label_char(#[trigger] t[k])
}

pub open spec fn label_error(t: Seq<char>) -> Seq<char> {
    "invalid label name: '"@ + t + "'"@
}

impl Label {
    /// Parses a label: any string of label characters.
    pub fn from_str(s: &str) -> (r: Result<Label, String>)
        ensures
            spec_label_ok(s@) ==> (r matches Ok(l) && l@ == s@),
            !spec_label_ok(s@) ==> (r matches Err(e) && e@ == label_error(s@)),
    {
        let cs = str_chars(s);
        let mut i: usize = 0;
        while i < cs.len()
            invariant
                cs@ == s@,
                i <= cs@.len(),
                forall|k: int| 0 <= k < i ==> label_char(#[trigger] cs@[k]),
            decreases cs@.len() - i,
        {
            let c = cs[i];
            if !(char_is_alphanumeric(c) || c == '_' || c == '.') {
                assert(!label_char(s@[i as int]));
                return Err(concat3("invalid label name: '", s, "'"));
            }
            i = i + 1;
        }
        Ok(Label(s.to_owned()))
    }
}

// ---------------------------------------------------------------------------
// Memory operands.
pub open spec fn memref_error(kind: Seq<char>, t: Seq<char>) -> Seq<char> {
    kind + t + "'"@
}

/// How `MemRef::from_str` reads `t`: `None` where it panics (an immediate
/// of `imm_panics`), otherwise the operand or the message.
pub open spec fn spec_parse_memref(t: Seq<char>) -> Option<Result<MemRef, Seq<char>>> {
    match find_char(t, '(') {
        None => Some(Err(memref_error("invalid memory reference (expected '('): '"@, t))),
        Some(i) => {
            let rest = t.subrange(i + 1, t.len() as int);
            match find_char(rest, ')') {
                None => Some(Err(memref_error("invalid memory reference (expected ')'): '"@, t))),
                Some(j) => {
                    let inner = rest.subrange(0, j);
                    let after = rest.subrange(j + 1, rest.len() as int);
                    if trim(after).len() > 0 {
                        Some(
                            Err(
                                memref_error(
                                    "invalid memory reference (unexpected suffix): '"@,
                                    t,
                                ),
                            ),
                        )
                    } else {
                        match spec_parse_reg(inner) {
                            None => Some(Err(memref_error("invalid mem ref (reg): '"@, t))),
                            Some(base) => {
                                let outer = t.subrange(0, i);
                                if imm_panics(outer) {
                                    None
                                } else {
                                    match spec_parse_imm(outer) {
                                        None => Some(
                                            Err(memref_error("invalid mem ref (imm): '"@, t)),
                                        ),
                                        Some(v) => Some(Ok(MemRef { base, offset: Imm(v) })),
                                    }
                                }
                            },
                        }
                    }
                },
            }
        },
    }
}

/// `r` is the outcome `o` describes.
pub open spec fn parse_result_is<T>(r: Result<T, String>, o: Option<Result<T, Seq<char>>>) -> bool {
    match (r, o) {
        (Ok(a), Some(Ok(b))) => a == b,
        (Err(e), Some(Err(m))) => e@ == m,
        _ => false,
    }
}

/// `r` is the outcome `o` describes, `None` where it is `None`.
pub open spec fn opt_result_is<T>(r: Option<Result<T, String>>, o: Option<Result<T, Seq<char>>>) -> bool {
    match r {
        None => o is None,
        Some(x) => parse_result_is(x, o),
    }
}

impl MemRef {
    /// Parses `offset(base)` (see `spec_parse_memref`); `None` where the
    /// offset overflows.
    #[verifier::rlimit(50)]
    #[verifier::spinoff_prover]
    pub fn parse_opt(s: &str) -> (r: Option<Result<MemRef, String>>)
        ensures
            opt_result_is(r, spec_parse_memref(s@)),
    {
        let cs = str_chars(s);
        let n = cs.len();
        assert(cs@.subrange(0, n as int) == s@);
        let i = match find_char_in(&cs, 0, n, '(') {
            Some(i) => i,
            None => {
                return Some(Err(
                    concat3("invalid memory reference (expected '('): '", s, "'"),
                ));
            },
        };
        proof {
            crate::text::lemma_find_char(s@, '(');
            assert(cs@.subrange(i + 1, n as int) == s@.subrange(i + 1, s@.len() as int));
        }
        let j = match find_char_in(&cs, i + 1, n, ')') {
            Some(j) => j,
            None => {
                return Some(Err(
                    concat3("invalid memory reference (expected ')'): '", s, "'"),
                ));
            },
        };
        let ghost rest = s@.subrange(i + 1, s@.len() as int);
        proof {
            crate::text::lemma_find_char(rest, ')');
            assert(rest.subrange(0, j - (i + 1)) == cs@.subrange(i + 1, j as int));
            assert(rest.subrange(j - (i + 1) + 1, rest.len() as int) == cs@.subrange(
                j + 1,
                n as int,
            ));
            assert(s@.subrange(0, i as int) == cs@.subrange(0, i as int));
        }
        let (a, b) = trim_range(&cs, j + 1, n);
        if a < b {
            return Some(Err(
                concat3("invalid memory reference (unexpected suffix): '", s, "'"),
            ));
        }
        let base = match parse_reg_in(&cs, i + 1, j) {
            Some(r) => r,
            None => {
                return Some(Err(concat3("invalid mem ref (reg): '", s, "'")));
            },
        };
        if imm_panics_in(&cs, 0, i) {
            return None;
        }
        let offset = match parse_imm_in(&cs, 0, i) {
            Some(v) => v,
            None => {
                return Some(Err(concat3("invalid mem ref (imm): '", s, "'")));
            },
        };
        Some(Ok(MemRef { base, offset }))
    }

    /// Parses `offset(base)` whose offset does not overflow.
    pub fn from_str(s: &str) -> (r: Result<MemRef, String>)
        requires
            spec_parse_memref(s@) is Some,
        ensures
            parse_result_is(r, spec_parse_memref(s@)),
    {
        match Self::parse_opt(s) {
            Some(r) => r,
            None => {
                proof {
                    assert(false);
                }
                Err(String::new())
            },
        }
    }
}

// ---------------------------------------------------------------------------
// Instructions.
/// `str::split` on a character.
pub open spec fn split_char(t: Seq<char>, c: char) -> Seq<Seq<char>>
    decreases t.len(),
{
    match find_char(t, c) {
        None => seq![t],
        Some(i) => if 0 <= i < t.len() {
            seq![t.subrange(0, i)] + split_char(t.subrange(i + 1, t.len() as int), c)
        } else {
            seq![t]
        },
    }
}

/// `ranges` marks out the pieces `args` of `cs`.
pub open spec fn pieces_spell(cs: Seq<char>, ranges: Seq<(usize, usize)>, args: Seq<Seq<char>>) -> bool {
    &&& ranges.len() == args.len()
    &&& forall|k: int|
        0 <= k < ranges.len() ==> {
            &&& (#[trigger] ranges[k]).0 <= ranges[k].1 <= cs.len()
            &&& cs.subrange(ranges[k].0 as int, ranges[k].1 as int) == args[k]
        }
}

/// The ranges of `cs[lo..hi].split(',')`.
fn split_commas(cs: &Vec<char>, lo: usize, hi: usize) -> (v: Vec<(usize, usize)>)
    requires
        lo <= hi <= cs@.len(),
    ensures
        pieces_spell(cs@, v@, split_char(cs@.subrange(lo as int, hi as int), ',')),
{
    let mut v: Vec<(usize, usize)> = Vec::new();
    let ghost mut prefix: Seq<Seq<char>> = seq![];
    let mut pos = lo;
    loop
        invariant
            lo <= pos <= hi <= cs@.len(),
            pieces_spell(cs@, v@, prefix),
            prefix + split_char(cs@.subrange(pos as int, hi as int), ',') == split_char(
                cs@.subrange(lo as int, hi as int),
                ',',
            ),
        decreases hi - pos,
    {
        let ghost t = cs@.subrange(pos as int, hi as int);
        proof {
            crate::text::lemma_find_char(t, ',');
        }
        match find_char_in(cs, pos, hi, ',') {
            Some(j) => {
                proof {
                    let i = j - pos;
                    assert(t.subrange(0, i) == cs@.subrange(pos as int, j as int));
                    assert(t.subrange(i + 1, t.len() as int) == cs@.subrange(j + 1, hi as int));
                    assert(split_char(t, ',') == seq![cs@.subrange(pos as int, j as int)]
                        + split_char(cs@.subrange(j + 1, hi as int), ','));
                    assert(prefix.push(cs@.subrange(pos as int, j as int)) + split_char(
                        cs@.subrange(j + 1, hi as int),
                        ',',
                    ) == prefix + split_char(t, ','));
                    prefix = prefix.push(cs@.subrange(pos as int, j as int));
                }
                v.push((pos, j));
                pos = j + 1;
            },
            None => {
                proof {
                    assert(split_char(t, ',') == seq![t]);
                    prefix = prefix.push(t);
                }
                v.push((pos, hi));
                return v;
            },
        }
    }
}

/// `args[n]` trimmed, or the message for a missing argument.
pub open spec fn spec_nth_arg(args: Seq<Seq<char>>, n: int) -> Result<Seq<char>, Seq<char>> {
    if 0 <= n < args.len() && trim(args[n]).len() > 0 {
        Ok(trim(args[n]))
    } else {
        Err("cannot fetch argument "@ + decimal(n as nat))
    }
}

pub open spec fn spec_reg_arg(args: Seq<Seq<char>>, n: int) -> Option<Result<ArchReg, Seq<char>>> {
    match spec_nth_arg(args, n) {
        Err(e) => Some(Err(e)),
        Ok(t) => match spec_parse_reg(t) {
            Some(r) => Some(Ok(r)),
            None => Some(Err(REG_PARSE_ERROR@)),
        },
    }
}

pub open spec fn spec_imm_arg(args: Seq<Seq<char>>, n: int) -> Option<Result<Imm, Seq<char>>> {
    match spec_nth_arg(args, n) {
        Err(e) => Some(Err(e)),
        Ok(t) => if imm_panics(t) {
            None
        } else {
            match spec_parse_imm(t) {
                Some(v) => Some(Ok(Imm(v))),
                None => Some(Err(imm_error(t))),
            }
        },
    }
}

pub open spec fn spec_mem_arg(args: Seq<Seq<char>>, n: int) -> Option<Result<MemRef, Seq<char>>> {
    match spec_nth_arg(args, n) {
        Err(e) => Some(Err(e)),
        Ok(t) => spec_parse_memref(t),
    }
}

pub open spec fn spec_label_arg(args: Seq<Seq<char>>, n: int) -> Option<Result<Seq<char>, Seq<char>>> {
    match spec_nth_arg(args, n) {
        Err(e) => Some(Err(e)),
        Ok(t) => if spec_label_ok(t) {
            Some(Ok(t))
        } else {
            Some(Err(label_error(t)))
        },
    }
}

/// ASCII lower-casing of one character.
pub open spec fn ascii_lower(c: char) -> char {
    if 'A' <= c && c <= 'Z' {
        ((c as u32) + 32) as char
    } else {
        c
    }
}

/// `op.to_lowercase() == m` for a mnemonic `m` of lower-case ASCII letters
/// other than `k` (the Kelvin sign is the one non-ASCII character whose
/// lower case is ASCII, and it lowers to `k`).
pub open spec fn lower_eq(op: Seq<char>, m: Seq<char>) -> bool {
    op.len() == m.len() && forall|k: int| 0 <= k < op.len() ==> ascii_lower(#[trigger] op[k]) == m[k]
}

pub open spec fn unknown_inst_error(op: Seq<char>) -> Seq<char> {
    "unknown instruction: '"@ + op + "'"@
}

/// An instruction as the assembler reads it, labels as text.
pub type SpecInst = Inst<ArchReg, ArchReg, Seq<char>>;

/// How `LabeledInst::from_str` reads the arguments of `lb`.
#[verifier::opaque]
pub open spec fn spec_op_lb(args: Seq<Seq<char>>) -> Option<Result<SpecInst, Seq<char>>> {
    match spec_reg_arg(args, 0) {
        None => None,
        Some(Err(e)) => Some(Err(e)),
        Some(Ok(x0)) => 
        match spec_mem_arg(args, 1) {
            None => None,
            Some(Err(e)) => Some(Err(e)),
            Some(Ok(x1)) => 
            Some(Ok(Inst::LoadByte(x0, x1))),
        },
    }
}

/// How `LabeledInst::from_str` reads the arguments of `lh`.
#[verifier::opaque]
pub open spec fn spec_op_lh(args: Seq<Seq<char>>) -> Option<Result<SpecInst, Seq<char>>> {
    match spec_reg_arg(args, 0) {
        None => None,
        Some(Err(e)) => Some(Err(e)),
        Some(Ok(x0)) => 
        match spec_mem_arg(args, 1) {
            None => None,
            Some(Err(e)) => Some(Err(e)),
            Some(Ok(x1)) => 
            Some(Ok(Inst::LoadHalfWord(x0, x1))),
        },
    }
}

/// How `LabeledInst::from_str` reads the arguments of `lw`.
#[verifier::opaque]
pub open spec fn spec_op_lw(args: Seq<Seq<char>>) -> Option<Result<SpecInst, Seq<char>>> {
    match spec_reg_arg(args, 0) {
        None => None,
        Some(Err(e)) => Some(Err(e)),
        Some(Ok(x0)) => 
        match spec_mem_arg(args, 1) {
            None => None,
            Some(Err(e)) => Some(Err(e)),
            Some(Ok(x1)) => 
            Some(Ok(Inst::LoadWord(x0, x1))),
        },
    }
}

/// How `LabeledInst::from_str` reads the arguments of `sb`.
#[verifier::opaque]
pub open spec fn spec_op_sb(args: Seq<Seq<char>>) -> Option<Result<SpecInst, Seq<char>>> {
    match spec_reg_arg(args, 0) {
        None => None,
        Some(Err(e)) => Some(Err(e)),
        Some(Ok(x0)) => 
        match spec_mem_arg(args, 1) {
            None => None,
            Some(Err(e)) => Some(Err(e)),
            Some(Ok(x1)) => 
            Some(Ok(Inst::StoreByte(x0, x1))),
        },
    }
}

/// How `LabeledInst::from_str` reads the arguments of `sh`.
#[verifier::opaque]
pub open spec fn spec_op_sh(args: Seq<Seq<char>>) -> Option<Result<SpecInst, Seq<char>>> {
    match spec_reg_arg(args, 0) {
        None => None,
        Some(Err(e)) => Some(Err(e)),
        Some(Ok(x0)) => 
        match spec_mem_arg(args, 1) {
            None => None,
            Some(Err(e)) => Some(Err(e)),
            Some(Ok(x1)) => 
            Some(Ok(Inst::StoreHalfWord(x0, x1))),
        },
    }
}

/// How `LabeledInst::from_str` reads the arguments of `sw`.
#[verifier::opaque]
pub open spec fn spec_op_sw(args: Seq<Seq<char>>) -> Option<Result<SpecInst, Seq<char>>> {
    match spec_reg_arg(args, 0) {
        None => None,
        Some(Err(e)) => Some(Err(e)),
        Some(Ok(x0)) => 
        match spec_mem_arg(args, 1) {
            None => None,
            Some(Err(e)) => Some(Err(e)),
            Some(Ok(x1)) => 
            Some(Ok(Inst::StoreWord(x0, x1))),
        },
    }
}

/// How `LabeledInst::from_str` reads the arguments of `add`.
#[verifier::opaque]
pub open spec fn spec_op_add(args: Seq<Seq<char>>) -> Option<Result<SpecInst, Seq<char>>> {
    match spec_reg_arg(args, 0) {
        None => None,
        Some(Err(e)) => Some(Err(e)),
        Some(Ok(x0)) => 
        match spec_reg_arg(args, 1) {
            None => None,
            Some(Err(e)) => Some(Err(e)),
            Some(Ok(x1)) => 
            match spec_reg_arg(args, 2) {
                None => None,
                Some(Err(e)) => Some(Err(e)),
                Some(Ok(x2)) => 
                Some(Ok(Inst::Add(x0, x1, x2))),
            },
        },
    }
}

/// How `LabeledInst::from_str` reads the arguments of `sub`.
#[verifier::opaque]
pub open spec fn spec_op_sub(args: Seq<Seq<char>>) -> Option<Result<SpecInst, Seq<char>>> {
    match spec_reg_arg(args, 0) {
        None => None,
        Some(Err(e)) => Some(Err(e)),
        Some(Ok(x0)) => 
        match spec_reg_arg(args, 1) {
            None => None,
            Some(Err(e)) => Some(Err(e)),
            Some(Ok(x1)) => 
            match spec_reg_arg(args, 2) {
                None => None,
                Some(Err(e)) => Some(Err(e)),
                Some(Ok(x2)) => 
                Some(Ok(Inst::Sub(x0, x1, x2))),
            },
        },
    }
}

/// How `LabeledInst::from_str` reads the arguments of `neg`.
#[verifier::opaque]
pub open spec fn spec_op_neg(args: Seq<Seq<char>>) -> Option<Result<SpecInst, Seq<char>>> {
    match spec_reg_arg(args, 0) {
        None => None,
        Some(Err(e)) => Some(Err(e)),
        Some(Ok(x0)) => 
        match spec_reg_arg(args, 1) {
            None => None,
            Some(Err(e)) => Some(Err(e)),
            Some(Ok(x2)) => 
            Some(Ok(Inst::Sub(x0, ArchReg::Zero, x2))),
        },
    }
}

/// How `LabeledInst::from_str` reads the arguments of `addi`.
#[verifier::opaque]
pub open spec fn spec_op_addi(args: Seq<Seq<char>>) -> Option<Result<SpecInst, Seq<char>>> {
    match spec_reg_arg(args, 0) {
        None => None,
        Some(Err(e)) => Some(Err(e)),
        Some(Ok(x0)) => 
        match spec_reg_arg(args, 1) {
            None => None,
            Some(Err(e)) => Some(Err(e)),
            Some(Ok(x1)) => 
            match spec_imm_arg(args, 2) {
                None => None,
                Some(Err(e)) => Some(Err(e)),
                Some(Ok(x2)) => 
                Some(Ok(Inst::AddImm(x0, x1, x2))),
            },
        },
    }
}

/// How `LabeledInst::from_str` reads the arguments of `andi`.
#[verifier::opaque]
pub open spec fn spec_op_andi(args: Seq<Seq<char>>) -> Option<Result<SpecInst, Seq<char>>> {
    match spec_reg_arg(args, 0) {
        None => None,
        Some(Err(e)) => Some(Err(e)),
        Some(Ok(x0)) => 
        match spec_reg_arg(args, 1) {
            None => None,
            Some(Err(e)) => Some(Err(e)),
            Some(Ok(x1)) => 
            match spec_imm_arg(args, 2) {
                None => None,
                Some(Err(e)) => Some(Err(e)),
                Some(Ok(x2)) => 
                Some(Ok(Inst::AndImm(x0, x1, x2))),
            },
        },
    }
}

/// How `LabeledInst::from_str` reads the arguments of `slli`.
#[verifier::opaque]
pub open spec fn spec_op_slli(args: Seq<Seq<char>>) -> Option<Result<SpecInst, Seq<char>>> {
    match spec_reg_arg(args, 0) {
        None => None,
        Some(Err(e)) => Some(Err(e)),
        Some(Ok(x0)) => 
        match spec_reg_arg(args, 1) {
            None => None,
            Some(Err(e)) => Some(Err(e)),
            Some(Ok(x1)) => 
            match spec_imm_arg(args, 2) {
                None => None,
                Some(Err(e)) => Some(Err(e)),
                Some(Ok(x2)) => 
                Some(Ok(Inst::ShiftLeftLogicalImm(x0, x1, x2))),
            },
        },
    }
}

/// How `LabeledInst::from_str` reads the arguments of `mul`.
#[verifier::opaque]
pub open spec fn spec_op_mul(args: Seq<Seq<char>>) -> Option<Result<SpecInst, Seq<char>>> {
    match spec_reg_arg(args, 0) {
        None => None,
        Some(Err(e)) => Some(Err(e)),
        Some(Ok(x0)) => 
        match spec_reg_arg(args, 1) {
            None => None,
            Some(Err(e)) => Some(Err(e)),
            Some(Ok(x1)) => 
            match spec_reg_arg(args, 2) {
                None => None,
                Some(Err(e)) => Some(Err(e)),
                Some(Ok(x2)) => 
                Some(Ok(Inst::Mul(x0, x1, x2))),
            },
        },
    }
}

/// How `LabeledInst::from_str` reads the arguments of `rem`.
#[verifier::opaque]
pub open spec fn spec_op_rem(args: Seq<Seq<char>>) -> Option<Result<SpecInst, Seq<char>>> {
    match spec_reg_arg(args, 0) {
        None => None,
        Some(Err(e)) => Some(Err(e)),
        Some(Ok(x0)) => 
        match spec_reg_arg(args, 1) {
            None => None,
            Some(Err(e)) => Some(Err(e)),
            Some(Ok(x1)) => 
            match spec_reg_arg(args, 2) {
                None => None,
                Some(Err(e)) => Some(Err(e)),
                Some(Ok(x2)) => 
                Some(Ok(Inst::Rem(x0, x1, x2))),
            },
        },
    }
}

/// How `LabeledInst::from_str` reads the arguments of `li`.
#[verifier::opaque]
pub open spec fn spec_op_li(args: Seq<Seq<char>>) -> Option<Result<SpecInst, Seq<char>>> {
    match spec_reg_arg(args, 0) {
        None => None,
        Some(Err(e)) => Some(Err(e)),
        Some(Ok(x0)) => 
        match spec_imm_arg(args, 1) {
            None => None,
            Some(Err(e)) => Some(Err(e)),
            Some(Ok(x2)) => 
            Some(Ok(Inst::AddImm(x0, ArchReg::Zero, x2))),
        },
    }
}

/// How `LabeledInst::from_str` reads the arguments of `mv`.
#[verifier::opaque]
pub open spec fn spec_op_mv(args: Seq<Seq<char>>) -> Option<Result<SpecInst, Seq<char>>> {
    match spec_reg_arg(args, 0) {
        None => None,
        Some(Err(e)) => Some(Err(e)),
        Some(Ok(x0)) => 
        match spec_reg_arg(args, 1) {
            None => None,
            Some(Err(e)) => Some(Err(e)),
            Some(Ok(x1)) => 
            Some(Ok(Inst::AddImm(x0, x1, Imm(0)))),
        },
    }
}

/// How `LabeledInst::from_str` reads the arguments of `j`.
#[verifier::opaque]
pub open spec fn spec_op_j(args: Seq<Seq<char>>) -> Option<Result<SpecInst, Seq<char>>> {
    match spec_label_arg(args, 0) {
        None => None,
        Some(Err(e)) => Some(Err(e)),
        Some(Ok(x0)) => 
        Some(Ok(Inst::Jump(x0))),
    }
}

/// How `LabeledInst::from_str` reads the arguments of `jal`.
#[verifier::opaque]
pub open spec fn spec_op_jal(args: Seq<Seq<char>>) -> Option<Result<SpecInst, Seq<char>>> {
    match spec_reg_arg(args, 0) {
        None => None,
        Some(Err(e)) => Some(Err(e)),
        Some(Ok(x0)) => 
        match spec_label_arg(args, 1) {
            None => None,
            Some(Err(e)) => Some(Err(e)),
            Some(Ok(x1)) => 
            Some(Ok(Inst::JumpAndLink(x0, x1))),
        },
    }
}

/// How `LabeledInst::from_str` reads the arguments of `beq`.
#[verifier::opaque]
pub open spec fn spec_op_beq(args: Seq<Seq<char>>) -> Option<Result<SpecInst, Seq<char>>> {
    match spec_reg_arg(args, 0) {
        None => None,
        Some(Err(e)) => Some(Err(e)),
        Some(Ok(x0)) => 
        match spec_reg_arg(args, 1) {
            None => None,
            Some(Err(e)) => Some(Err(e)),
            Some(Ok(x1)) => 
            match spec_label_arg(args, 2) {
                None => None,
                Some(Err(e)) => Some(Err(e)),
                Some(Ok(x2)) => 
                Some(Ok(Inst::BranchIfEqual(x0, x1, x2))),
            },
        },
    }
}

/// How `LabeledInst::from_str` reads the arguments of `bne`.
#[verifier::opaque]
pub open spec fn spec_op_bne(args: Seq<Seq<char>>) -> Option<Result<SpecInst, Seq<char>>> {
    match spec_reg_arg(args, 0) {
        None => None,
        Some(Err(e)) => Some(Err(e)),
        Some(Ok(x0)) => 
        match spec_reg_arg(args, 1) {
            None => None,
            Some(Err(e)) => Some(Err(e)),
            Some(Ok(x1)) => 
            match spec_label_arg(args, 2) {
                None => None,
                Some(Err(e)) => Some(Err(e)),
                Some(Ok(x2)) => 
                Some(Ok(Inst::BranchIfNotEqual(x0, x1, x2))),
            },
        },
    }
}

/// How `LabeledInst::from_str` reads the arguments of `bge`.
#[verifier::opaque]
pub open spec fn spec_op_bge(args: Seq<Seq<char>>) -> Option<Result<SpecInst, Seq<char>>> {
    match spec_reg_arg(args, 0) {
        None => None,
        Some(Err(e)) => Some(Err(e)),
        Some(Ok(x0)) => 
        match spec_reg_arg(args, 1) {
            None => None,
            Some(Err(e)) => Some(Err(e)),
            Some(Ok(x1)) => 
            match spec_label_arg(args, 2) {
                None => None,
                Some(Err(e)) => Some(Err(e)),
                Some(Ok(x2)) => 
                Some(Ok(Inst::BranchIfGreaterEqual(x0, x1, x2))),
            },
        },
    }
}

/// How `LabeledInst::from_str` reads the arguments of `ble`.
#[verifier::opaque]
pub open spec fn spec_op_ble(args: Seq<Seq<char>>) -> Option<Result<SpecInst, Seq<char>>> {
    match spec_reg_arg(args, 1) {
        None => None,
        Some(Err(e)) => Some(Err(e)),
        Some(Ok(x0)) => 
        match spec_reg_arg(args, 0) {
            None => None,
            Some(Err(e)) => Some(Err(e)),
            Some(Ok(x1)) => 
            match spec_label_arg(args, 2) {
                None => None,
                Some(Err(e)) => Some(Err(e)),
                Some(Ok(x2)) => 
                Some(Ok(Inst::BranchIfGreaterEqual(x0, x1, x2))),
            },
        },
    }
}

/// How `LabeledInst::from_str` reads the arguments of `blt`.
#[verifier::opaque]
pub open spec fn spec_op_blt(args: Seq<Seq<char>>) -> Option<Result<SpecInst, Seq<char>>> {
    match spec_reg_arg(args, 0) {
        None => None,
        Some(Err(e)) => Some(Err(e)),
        Some(Ok(x0)) => 
        match spec_reg_arg(args, 1) {
            None => None,
            Some(Err(e)) => Some(Err(e)),
            Some(Ok(x1)) => 
            match spec_label_arg(args, 2) {
                None => None,
                Some(Err(e)) => Some(Err(e)),
                Some(Ok(x2)) => 
                Some(Ok(Inst::BranchIfLess(x0, x1, x2))),
            },
        },
    }
}

/// How `LabeledInst::from_str` reads the arguments of `bgt`.
#[verifier::opaque]
pub open spec fn spec_op_bgt(args: Seq<Seq<char>>) -> Option<Result<SpecInst, Seq<char>>> {
    match spec_reg_arg(args, 1) {
        None => None,
        Some(Err(e)) => Some(Err(e)),
        Some(Ok(x0)) => 
        match spec_reg_arg(args, 0) {
            None => None,
            Some(Err(e)) => Some(Err(e)),
            Some(Ok(x1)) => 
            match spec_label_arg(args, 2) {
                None => None,
                Some(Err(e)) => Some(Err(e)),
                Some(Ok(x2)) => 
                Some(Ok(Inst::BranchIfLess(x0, x1, x2))),
            },
        },
    }
}

/// How `LabeledInst::from_str` reads the arguments of `seqz`.
#[verifier::opaque]
pub open spec fn spec_op_seqz(args: Seq<Seq<char>>) -> Option<Result<SpecInst, Seq<char>>> {
    match spec_reg_arg(args, 0) {
        None => None,
        Some(Err(e)) => Some(Err(e)),
        Some(Ok(x0)) => 
        match spec_reg_arg(args, 1) {
            None => None,
            Some(Err(e)) => Some(Err(e)),
            Some(Ok(x1)) => 
            Some(Ok(Inst::SetLessThanImmU(x0, x1, Imm(1)))),
        },
    }
}

pub open spec fn spec_parse_op(op: Seq<char>, args: Seq<Seq<char>>) -> Option<Result<SpecInst, Seq<char>>> {
    if lower_eq(op, "lb"@) {
        spec_op_lb(args)
    } else if lower_eq(op, "lh"@) {
        spec_op_lh(args)
    } else if lower_eq(op, "lw"@) {
        spec_op_lw(args)
    } else if lower_eq(op, "sb"@) {
        spec_op_sb(args)
    } else if lower_eq(op, "sh"@) {
        spec_op_sh(args)
    } else if lower_eq(op, "sw"@) {
        spec_op_sw(args)
    } else if lower_eq(op, "add"@) {
        spec_op_add(args)
    } else if lower_eq(op, "sub"@) {
        spec_op_sub(args)
    } else if lower_eq(op, "neg"@) {
        spec_op_neg(args)
    } else if lower_eq(op, "addi"@) {
        spec_op_addi(args)
    } else if lower_eq(op, "andi"@) {
        spec_op_andi(args)
    } else if lower_eq(op, "slli"@) {
        spec_op_slli(args)
    } else if lower_eq(op, "mul"@) {
        spec_op_mul(args)
    } else if lower_eq(op, "rem"@) {
        spec_op_rem(args)
    } else if lower_eq(op, "li"@) {
        spec_op_li(args)
    } else if lower_eq(op, "mv"@) {
        spec_op_mv(args)
    } else if lower_eq(op, "j"@) {
        spec_op_j(args)
    } else if lower_eq(op, "jal"@) {
        spec_op_jal(args)
    } else if lower_eq(op, "beq"@) {
        spec_op_beq(args)
    } else if lower_eq(op, "bne"@) {
        spec_op_bne(args)
    } else if lower_eq(op, "bge"@) {
        spec_op_bge(args)
    } else if lower_eq(op, "ble"@) {
        spec_op_ble(args)
    } else if lower_eq(op, "blt"@) {
        spec_op_blt(args)
    } else if lower_eq(op, "bgt"@) {
        spec_op_bgt(args)
    } else if lower_eq(op, "seqz"@) {
        spec_op_seqz(args)
    } else if lower_eq(op, "nop"@) {
        Some(Ok(Inst::AddImm(ArchReg::Zero, ArchReg::Zero, Imm(0))))
    } else if lower_eq(op, "ret"@) {
        None
    } else {
        Some(Err(unknown_inst_error(op)))
    }
}

/// `lower_eq(op, m)` says that `op` lower-cases to `m`.
proof fn lemma_lower_eq_is(op: Seq<char>, m: Seq<char>)
    ensures
        lower_eq(op, m) <==> Seq::new(op.len(), |k: int| ascii_lower(op[k])) == m,
{
    let low = Seq::new(op.len(), |k: int| ascii_lower(op[k]));
    if lower_eq(op, m) {
        assert(low =~= m);
    }
    if low == m {
        assert forall|k: int| 0 <= k < op.len() implies ascii_lower(#[trigger] op[k]) == m[k] by {
            assert(low[k] == m[k]);
        }
    }
}

/// The cost and the unit of each instruction: jumps and branches take one
/// cycle on the branch unit; loads and stores three on the load/store unit;
/// `mul` two, `rem` three and the other arithmetic one on an arithmetic
/// unit; `halt` one on the special unit.
pub proof fn lemma_latencies_and_units<S, D, J>(i: Inst<S, D, J>)
    ensures
        (i is Jump || i is JumpAndLink || i is BranchIfEqual || i is BranchIfNotEqual || i is BranchIfLess
            || i is BranchIfGreaterEqual) ==> i.spec_latency() == 1 && i.spec_eu_type() == EuType::Branch,
        (i is LoadByte || i is LoadHalfWord || i is LoadWord || i is StoreByte || i is StoreHalfWord
            || i is StoreWord) ==> i.spec_latency() == 3 && i.spec_eu_type() == EuType::LoadStore,
        i is Mul ==> i.spec_latency() == 2 && i.spec_eu_type() == EuType::Alu,
        i is Rem ==> i.spec_latency() == 3 && i.spec_eu_type() == EuType::Alu,
        (i is Add || i is Sub || i is AddImm || i is AndImm || i is ShiftLeftLogicalImm || i is SetLessThanImmU)
            ==> i.spec_latency() == 1 && i.spec_eu_type() == EuType::Alu,
        i is Halt ==> i.spec_latency() == 1 && i.spec_eu_type() == EuType::Special,
{
}

/// A mnemonic, in any case, selects the reading of its own instruction:
/// the operands of `sb` are read as those of a byte store, and so on; `nop`
/// is `addi zero, zero, 0`; `ret` cannot be read.
pub proof fn lemma_mnemonic_dispatch(op: Seq<char>, args: Seq<Seq<char>>)
    ensures
        lower_eq(op, "lb"@) ==> spec_parse_op(op, args) == spec_op_lb(args),
        lower_eq(op, "lh"@) ==> spec_parse_op(op, args) == spec_op_lh(args),
        lower_eq(op, "lw"@) ==> spec_parse_op(op, args) == spec_op_lw(args),
        lower_eq(op, "sb"@) ==> spec_parse_op(op, args) == spec_op_sb(args),
        lower_eq(op, "sh"@) ==> spec_parse_op(op, args) == spec_op_sh(args),
        lower_eq(op, "sw"@) ==> spec_parse_op(op, args) == spec_op_sw(args),
        lower_eq(op, "add"@) ==> spec_parse_op(op, args) == spec_op_add(args),
        lower_eq(op, "sub"@) ==> spec_parse_op(op, args) == spec_op_sub(args),
        lower_eq(op, "neg"@) ==> spec_parse_op(op, args) == spec_op_neg(args),
        lower_eq(op, "addi"@) ==> spec_parse_op(op, args) == spec_op_addi(args),
        lower_eq(op, "andi"@) ==> spec_parse_op(op, args) == spec_op_andi(args),
        lower_eq(op, "slli"@) ==> spec_parse_op(op, args) == spec_op_slli(args),
        lower_eq(op, "mul"@) ==> spec_parse_op(op, args) == spec_op_mul(args),
        lower_eq(op, "rem"@) ==> spec_parse_op(op, args) == spec_op_rem(args),
        lower_eq(op, "li"@) ==> spec_parse_op(op, args) == spec_op_li(args),
        lower_eq(op, "mv"@) ==> spec_parse_op(op, args) == spec_op_mv(args),
        lower_eq(op, "j"@) ==> spec_parse_op(op, args) == spec_op_j(args),
        lower_eq(op, "jal"@) ==> spec_parse_op(op, args) == spec_op_jal(args),
        lower_eq(op, "beq"@) ==> spec_parse_op(op, args) == spec_op_beq(args),
        lower_eq(op, "bne"@) ==> spec_parse_op(op, args) == spec_op_bne(args),
        lower_eq(op, "bge"@) ==> spec_parse_op(op, args) == spec_op_bge(args),
        lower_eq(op, "ble"@) ==> spec_parse_op(op, args) == spec_op_ble(args),
        lower_eq(op, "blt"@) ==> spec_parse_op(op, args) == spec_op_blt(args),
        lower_eq(op, "bgt"@) ==> spec_parse_op(op, args) == spec_op_bgt(args),
        lower_eq(op, "seqz"@) ==> spec_parse_op(op, args) == spec_op_seqz(args),
        lower_eq(op, "nop"@) ==> spec_parse_op(op, args) == Some(Ok::<SpecInst, Seq<char>>(Inst::AddImm(ArchReg::Zero, ArchReg::Zero, Imm(0)))),
        lower_eq(op, "ret"@) ==> spec_parse_op(op, args) is None,
{
    reveal_strlit("lb");
    reveal_strlit("lh");
    reveal_strlit("lw");
    reveal_strlit("sb");
    reveal_strlit("sh");
    reveal_strlit("sw");
    reveal_strlit("add");
    reveal_strlit("sub");
    reveal_strlit("neg");
    reveal_strlit("addi");
    reveal_strlit("andi");
    reveal_strlit("slli");
    reveal_strlit("mul");
    reveal_strlit("rem");
    reveal_strlit("li");
    reveal_strlit("mv");
    reveal_strlit("j");
    reveal_strlit("jal");
    reveal_strlit("beq");
    reveal_strlit("bne");
    reveal_strlit("bge");
    reveal_strlit("ble");
    reveal_strlit("blt");
    reveal_strlit("bgt");
    reveal_strlit("seqz");
    reveal_strlit("nop");
    reveal_strlit("ret");
    if lower_eq(op, "lb"@) {
        lemma_lower_eq_is(op, "lb"@);
    }
    if lower_eq(op, "lh"@) {
        lemma_lower_eq_is(op, "lh"@);
        lemma_lower_eq_is(op, "lb"@);
        assert("lh"@[1] != "lb"@[1]);
    }
    if lower_eq(op, "lw"@) {
        lemma_lower_eq_is(op, "lw"@);
        lemma_lower_eq_is(op, "lb"@);
        assert("lw"@[1] != "lb"@[1]);
        lemma_lower_eq_is(op, "lh"@);
        assert("lw"@[1] != "lh"@[1]);
    }
    if lower_eq(op, "sb"@) {
        lemma_lower_eq_is(op, "sb"@);
        lemma_lower_eq_is(op, "lb"@);
        assert("sb"@[0] != "lb"@[0]);
        lemma_lower_eq_is(op, "lh"@);
        assert("sb"@[0] != "lh"@[0]);
        lemma_lower_eq_is(op, "lw"@);
        assert("sb"@[0] != "lw"@[0]);
    }
    if lower_eq(op, "sh"@) {
        lemma_lower_eq_is(op, "sh"@);
        lemma_lower_eq_is(op, "lb"@);
        assert("sh"@[0] != "lb"@[0]);
        lemma_lower_eq_is(op, "lh"@);
        assert("sh"@[0] != "lh"@[0]);
        lemma_lower_eq_is(op, "lw"@);
        assert("sh"@[0] != "lw"@[0]);
        lemma_lower_eq_is(op, "sb"@);
        assert("sh"@[1] != "sb"@[1]);
    }
    if lower_eq(op, "sw"@) {
        lemma_lower_eq_is(op, "sw"@);
        lemma_lower_eq_is(op, "lb"@);
        assert("sw"@[0] != "lb"@[0]);
        lemma_lower_eq_is(op, "lh"@);
        assert("sw"@[0] != "lh"@[0]);
        lemma_lower_eq_is(op, "lw"@);
        assert("sw"@[0] != "lw"@[0]);
        lemma_lower_eq_is(op, "sb"@);
        assert("sw"@[1] != "sb"@[1]);
        lemma_lower_eq_is(op, "sh"@);
        assert("sw"@[1] != "sh"@[1]);
    }
    if lower_eq(op, "add"@) {
        lemma_lower_eq_is(op, "add"@);
        lemma_lower_eq_is(op, "lb"@);
        assert("add"@.len() != "lb"@.len());
        lemma_lower_eq_is(op, "lh"@);
        assert("add"@.len() != "lh"@.len());
        lemma_lower_eq_is(op, "lw"@);
        assert("add"@.len() != "lw"@.len());
        lemma_lower_eq_is(op, "sb"@);
        assert("add"@.len() != "sb"@.len());
        lemma_lower_eq_is(op, "sh"@);
        assert("add"@.len() != "sh"@.len());
        lemma_lower_eq_is(op, "sw"@);
        assert("add"@.len() != "sw"@.len());
    }
    if lower_eq(op, "sub"@) {
        lemma_lower_eq_is(op, "sub"@);
        lemma_lower_eq_is(op, "lb"@);
        assert("sub"@.len() != "lb"@.len());
        lemma_lower_eq_is(op, "lh"@);
        assert("sub"@.len() != "lh"@.len());
        lemma_lower_eq_is(op, "lw"@);
        assert("sub"@.len() != "lw"@.len());
        lemma_lower_eq_is(op, "sb"@);
        assert("sub"@.len() != "sb"@.len());
        lemma_lower_eq_is(op, "sh"@);
        assert("sub"@.len() != "sh"@.len());
        lemma_lower_eq_is(op, "sw"@);
        assert("sub"@.len() != "sw"@.len());
        lemma_lower_eq_is(op, "add"@);
        assert("sub"@[0] != "add"@[0]);
    }
    if lower_eq(op, "neg"@) {
        lemma_lower_eq_is(op, "neg"@);
        lemma_lower_eq_is(op, "lb"@);
        assert("neg"@.len() != "lb"@.len());
        lemma_lower_eq_is(op, "lh"@);
        assert("neg"@.len() != "lh"@.len());
        lemma_lower_eq_is(op, "lw"@);
        assert("neg"@.len() != "lw"@.len());
        lemma_lower_eq_is(op, "sb"@);
        assert("neg"@.len() != "sb"@.len());
        lemma_lower_eq_is(op, "sh"@);
        assert("neg"@.len() != "sh"@.len());
        lemma_lower_eq_is(op, "sw"@);
        assert("neg"@.len() != "sw"@.len());
        lemma_lower_eq_is(op, "add"@);
        assert("neg"@[0] != "add"@[0]);
        lemma_lower_eq_is(op, "sub"@);
        assert("neg"@[0] != "sub"@[0]);
    }
    if lower_eq(op, "addi"@) {
        lemma_lower_eq_is(op, "addi"@);
        lemma_lower_eq_is(op, "lb"@);
        assert("addi"@.len() != "lb"@.len());
        lemma_lower_eq_is(op, "lh"@);
        assert("addi"@.len() != "lh"@.len());
        lemma_lower_eq_is(op, "lw"@);
        assert("addi"@.len() != "lw"@.len());
        lemma_lower_eq_is(op, "sb"@);
        assert("addi"@.len() != "sb"@.len());
        lemma_lower_eq_is(op, "sh"@);
        assert("addi"@.len() != "sh"@.len());
        lemma_lower_eq_is(op, "sw"@);
        assert("addi"@.len() != "sw"@.len());
        lemma_lower_eq_is(op, "add"@);
        assert("addi"@.len() != "add"@.len());
        lemma_lower_eq_is(op, "sub"@);
        assert("addi"@.len() != "sub"@.len());
        lemma_lower_eq_is(op, "neg"@);
        assert("addi"@.len() != "neg"@.len());
    }
    if lower_eq(op, "andi"@) {
        lemma_lower_eq_is(op, "andi"@);
        lemma_lower_eq_is(op, "lb"@);
        assert("andi"@.len() != "lb"@.len());
        lemma_lower_eq_is(op, "lh"@);
        assert("andi"@.len() != "lh"@.len());
        lemma_lower_eq_is(op, "lw"@);
        assert("andi"@.len() != "lw"@.len());
        lemma_lower_eq_is(op, "sb"@);
        assert("andi"@.len() != "sb"@.len());
        lemma_lower_eq_is(op, "sh"@);
        assert("andi"@.len() != "sh"@.len());
        lemma_lower_eq_is(op, "sw"@);
        assert("andi"@.len() != "sw"@.len());
        lemma_lower_eq_is(op, "add"@);
        assert("andi"@.len() != "add"@.len());
        lemma_lower_eq_is(op, "sub"@);
        assert("andi"@.len() != "sub"@.len());
        lemma_lower_eq_is(op, "neg"@);
        assert("andi"@.len() != "neg"@.len());
        lemma_lower_eq_is(op, "addi"@);
        assert("andi"@[1] != "addi"@[1]);
    }
    if lower_eq(op, "slli"@) {
        lemma_lower_eq_is(op, "slli"@);
        lemma_lower_eq_is(op, "lb"@);
        assert("slli"@.len() != "lb"@.len());
        lemma_lower_eq_is(op, "lh"@);
        assert("slli"@.len() != "lh"@.len());
        lemma_lower_eq_is(op, "lw"@);
        assert("slli"@.len() != "lw"@.len());
        lemma_lower_eq_is(op, "sb"@);
        assert("slli"@.len() != "sb"@.len());
        lemma_lower_eq_is(op, "sh"@);
        assert("slli"@.len() != "sh"@.len());
        lemma_lower_eq_is(op, "sw"@);
        assert("slli"@.len() != "sw"@.len());
        lemma_lower_eq_is(op, "add"@);
        assert("slli"@.len() != "add"@.len());
        lemma_lower_eq_is(op, "sub"@);
        assert("slli"@.len() != "sub"@.len());
        lemma_lower_eq_is(op, "neg"@);
        assert("slli"@.len() != "neg"@.len());
        lemma_lower_eq_is(op, "addi"@);
        assert("slli"@[0] != "addi"@[0]);
        lemma_lower_eq_is(op, "andi"@);
        assert("slli"@[0] != "andi"@[0]);
    }
    if lower_eq(op, "mul"@) {
        lemma_lower_eq_is(op, "mul"@);
        lemma_lower_eq_is(op, "lb"@);
        assert("mul"@.len() != "lb"@.len());
        lemma_lower_eq_is(op, "lh"@);
        assert("mul"@.len() != "lh"@.len());
        lemma_lower_eq_is(op, "lw"@);
        assert("mul"@.len() != "lw"@.len());
        lemma_lower_eq_is(op, "sb"@);
        assert("mul"@.len() != "sb"@.len());
        lemma_lower_eq_is(op, "sh"@);
        assert("mul"@.len() != "sh"@.len());
        lemma_lower_eq_is(op, "sw"@);
        assert("mul"@.len() != "sw"@.len());
        lemma_lower_eq_is(op, "add"@);
        assert("mul"@[0] != "add"@[0]);
        lemma_lower_eq_is(op, "sub"@);
        assert("mul"@[0] != "sub"@[0]);
        lemma_lower_eq_is(op, "neg"@);
        assert("mul"@[0] != "neg"@[0]);
        lemma_lower_eq_is(op, "addi"@);
        assert("mul"@.len() != "addi"@.len());
        lemma_lower_eq_is(op, "andi"@);
        assert("mul"@.len() != "andi"@.len());
        lemma_lower_eq_is(op, "slli"@);
        assert("mul"@.len() != "slli"@.len());
    }
    if lower_eq(op, "rem"@) {
        lemma_lower_eq_is(op, "rem"@);
        lemma_lower_eq_is(op, "lb"@);
        assert("rem"@.len() != "lb"@.len());
        lemma_lower_eq_is(op, "lh"@);
        assert("rem"@.len() != "lh"@.len());
        lemma_lower_eq_is(op, "lw"@);
        assert("rem"@.len() != "lw"@.len());
        lemma_lower_eq_is(op, "sb"@);
        assert("rem"@.len() != "sb"@.len());
        lemma_lower_eq_is(op, "sh"@);
        assert("rem"@.len() != "sh"@.len());
        lemma_lower_eq_is(op, "sw"@);
        assert("rem"@.len() != "sw"@.len());
        lemma_lower_eq_is(op, "add"@);
        assert("rem"@[0] != "add"@[0]);
        lemma_lower_eq_is(op, "sub"@);
        assert("rem"@[0] != "sub"@[0]);
        lemma_lower_eq_is(op, "neg"@);
        assert("rem"@[0] != "neg"@[0]);
        lemma_lower_eq_is(op, "addi"@);
        assert("rem"@.len() != "addi"@.len());
        lemma_lower_eq_is(op, "andi"@);
        assert("rem"@.len() != "andi"@.len());
        lemma_lower_eq_is(op, "slli"@);
        assert("rem"@.len() != "slli"@.len());
        lemma_lower_eq_is(op, "mul"@);
        assert("rem"@[0] != "mul"@[0]);
    }
    if lower_eq(op, "li"@) {
        lemma_lower_eq_is(op, "li"@);
        lemma_lower_eq_is(op, "lb"@);
        assert("li"@[1] != "lb"@[1]);
        lemma_lower_eq_is(op, "lh"@);
        assert("li"@[1] != "lh"@[1]);
        lemma_lower_eq_is(op, "lw"@);
        assert("li"@[1] != "lw"@[1]);
        lemma_lower_eq_is(op, "sb"@);
        assert("li"@[0] != "sb"@[0]);
        lemma_lower_eq_is(op, "sh"@);
        assert("li"@[0] != "sh"@[0]);
        lemma_lower_eq_is(op, "sw"@);
        assert("li"@[0] != "sw"@[0]);
        lemma_lower_eq_is(op, "add"@);
        assert("li"@.len() != "add"@.len());
        lemma_lower_eq_is(op, "sub"@);
        assert("li"@.len() != "sub"@.len());
        lemma_lower_eq_is(op, "neg"@);
        assert("li"@.len() != "neg"@.len());
        lemma_lower_eq_is(op, "addi"@);
        assert("li"@.len() != "addi"@.len());
        lemma_lower_eq_is(op, "andi"@);
        assert("li"@.len() != "andi"@.len());
        lemma_lower_eq_is(op, "slli"@);
        assert("li"@.len() != "slli"@.len());
        lemma_lower_eq_is(op, "mul"@);
        assert("li"@.len() != "mul"@.len());
        lemma_lower_eq_is(op, "rem"@);
        assert("li"@.len() != "rem"@.len());
    }
    if lower_eq(op, "mv"@) {
        lemma_lower_eq_is(op, "mv"@);
        lemma_lower_eq_is(op, "lb"@);
        assert("mv"@[0] != "lb"@[0]);
        lemma_lower_eq_is(op, "lh"@);
        assert("mv"@[0] != "lh"@[0]);
        lemma_lower_eq_is(op, "lw"@);
        assert("mv"@[0] != "lw"@[0]);
        lemma_lower_eq_is(op, "sb"@);
        assert("mv"@[0] != "sb"@[0]);
        lemma_lower_eq_is(op, "sh"@);
        assert("mv"@[0] != "sh"@[0]);
        lemma_lower_eq_is(op, "sw"@);
        assert("mv"@[0] != "sw"@[0]);
        lemma_lower_eq_is(op, "add"@);
        assert("mv"@.len() != "add"@.len());
        lemma_lower_eq_is(op, "sub"@);
        assert("mv"@.len() != "sub"@.len());
        lemma_lower_eq_is(op, "neg"@);
        assert("mv"@.len() != "neg"@.len());
        lemma_lower_eq_is(op, "addi"@);
        assert("mv"@.len() != "addi"@.len());
        lemma_lower_eq_is(op, "andi"@);
        assert("mv"@.len() != "andi"@.len());
        lemma_lower_eq_is(op, "slli"@);
        assert("mv"@.len() != "slli"@.len());
        lemma_lower_eq_is(op, "mul"@);
        assert("mv"@.len() != "mul"@.len());
        lemma_lower_eq_is(op, "rem"@);
        assert("mv"@.len() != "rem"@.len());
        lemma_lower_eq_is(op, "li"@);
        assert("mv"@[0] != "li"@[0]);
    }
    if lower_eq(op, "j"@) {
        lemma_lower_eq_is(op, "j"@);
        lemma_lower_eq_is(op, "lb"@);
        assert("j"@.len() != "lb"@.len());
        lemma_lower_eq_is(op, "lh"@);
        assert("j"@.len() != "lh"@.len());
        lemma_lower_eq_is(op, "lw"@);
        assert("j"@.len() != "lw"@.len());
        lemma_lower_eq_is(op, "sb"@);
        assert("j"@.len() != "sb"@.len());
        lemma_lower_eq_is(op, "sh"@);
        assert("j"@.len() != "sh"@.len());
        lemma_lower_eq_is(op, "sw"@);
        assert("j"@.len() != "sw"@.len());
        lemma_lower_eq_is(op, "add"@);
        assert("j"@.len() != "add"@.len());
        lemma_lower_eq_is(op, "sub"@);
        assert("j"@.len() != "sub"@.len());
        lemma_lower_eq_is(op, "neg"@);
        assert("j"@.len() != "neg"@.len());
        lemma_lower_eq_is(op, "addi"@);
        assert("j"@.len() != "addi"@.len());
        lemma_lower_eq_is(op, "andi"@);
        assert("j"@.len() != "andi"@.len());
        lemma_lower_eq_is(op, "slli"@);
        assert("j"@.len() != "slli"@.len());
        lemma_lower_eq_is(op, "mul"@);
        assert("j"@.len() != "mul"@.len());
        lemma_lower_eq_is(op, "rem"@);
        assert("j"@.len() != "rem"@.len());
        lemma_lower_eq_is(op, "li"@);
        assert("j"@.len() != "li"@.len());
        lemma_lower_eq_is(op, "mv"@);
        assert("j"@.len() != "mv"@.len());
    }
    if lower_eq(op, "jal"@) {
        lemma_lower_eq_is(op, "jal"@);
        lemma_lower_eq_is(op, "lb"@);
        assert("jal"@.len() != "lb"@.len());
        lemma_lower_eq_is(op, "lh"@);
        assert("jal"@.len() != "lh"@.len());
        lemma_lower_eq_is(op, "lw"@);
        assert("jal"@.len() != "lw"@.len());
        lemma_lower_eq_is(op, "sb"@);
        assert("jal"@.len() != "sb"@.len());
        lemma_lower_eq_is(op, "sh"@);
        assert("jal"@.len() != "sh"@.len());
        lemma_lower_eq_is(op, "sw"@);
        assert("jal"@.len() != "sw"@.len());
        lemma_lower_eq_is(op, "add"@);
        assert("jal"@[0] != "add"@[0]);
        lemma_lower_eq_is(op, "sub"@);
        assert("jal"@[0] != "sub"@[0]);
        lemma_lower_eq_is(op, "neg"@);
        assert("jal"@[0] != "neg"@[0]);
        lemma_lower_eq_is(op, "addi"@);
        assert("jal"@.len() != "addi"@.len());
        lemma_lower_eq_is(op, "andi"@);
        assert("jal"@.len() != "andi"@.len());
        lemma_lower_eq_is(op, "slli"@);
        assert("jal"@.len() != "slli"@.len());
        lemma_lower_eq_is(op, "mul"@);
        assert("jal"@[0] != "mul"@[0]);
        lemma_lower_eq_is(op, "rem"@);
        assert("jal"@[0] != "rem"@[0]);
        lemma_lower_eq_is(op, "li"@);
        assert("jal"@.len() != "li"@.len());
        lemma_lower_eq_is(op, "mv"@);
        assert("jal"@.len() != "mv"@.len());
        lemma_lower_eq_is(op, "j"@);
        assert("jal"@.len() != "j"@.len());
    }
    if lower_eq(op, "beq"@) {
        lemma_lower_eq_is(op, "beq"@);
        lemma_lower_eq_is(op, "lb"@);
        assert("beq"@.len() != "lb"@.len());
        lemma_lower_eq_is(op, "lh"@);
        assert("beq"@.len() != "lh"@.len());
        lemma_lower_eq_is(op, "lw"@);
        assert("beq"@.len() != "lw"@.len());
        lemma_lower_eq_is(op, "sb"@);
        assert("beq"@.len() != "sb"@.len());
        lemma_lower_eq_is(op, "sh"@);
        assert("beq"@.len() != "sh"@.len());
        lemma_lower_eq_is(op, "sw"@);
        assert("beq"@.len() != "sw"@.len());
        lemma_lower_eq_is(op, "add"@);
        assert("beq"@[0] != "add"@[0]);
        lemma_lower_eq_is(op, "sub"@);
        assert("beq"@[0] != "sub"@[0]);
        lemma_lower_eq_is(op, "neg"@);
        assert("beq"@[0] != "neg"@[0]);
        lemma_lower_eq_is(op, "addi"@);
        assert("beq"@.len() != "addi"@.len());
        lemma_lower_eq_is(op, "andi"@);
        assert("beq"@.len() != "andi"@.len());
        lemma_lower_eq_is(op, "slli"@);
        assert("beq"@.len() != "slli"@.len());
        lemma_lower_eq_is(op, "mul"@);
        assert("beq"@[0] != "mul"@[0]);
        lemma_lower_eq_is(op, "rem"@);
        assert("beq"@[0] != "rem"@[0]);
        lemma_lower_eq_is(op, "li"@);
        assert("beq"@.len() != "li"@.len());
        lemma_lower_eq_is(op, "mv"@);
        assert("beq"@.len() != "mv"@.len());
        lemma_lower_eq_is(op, "j"@);
        assert("beq"@.len() != "j"@.len());
        lemma_lower_eq_is(op, "jal"@);
        assert("beq"@[0] != "jal"@[0]);
    }
    if lower_eq(op, "bne"@) {
        lemma_lower_eq_is(op, "bne"@);
        lemma_lower_eq_is(op, "lb"@);
        assert("bne"@.len() != "lb"@.len());
        lemma_lower_eq_is(op, "lh"@);
        assert("bne"@.len() != "lh"@.len());
        lemma_lower_eq_is(op, "lw"@);
        assert("bne"@.len() != "lw"@.len());
        lemma_lower_eq_is(op, "sb"@);
        assert("bne"@.len() != "sb"@.len());
        lemma_lower_eq_is(op, "sh"@);
        assert("bne"@.len() != "sh"@.len());
        lemma_lower_eq_is(op, "sw"@);
        assert("bne"@.len() != "sw"@.len());
        lemma_lower_eq_is(op, "add"@);
        assert("bne"@[0] != "add"@[0]);
        lemma_lower_eq_is(op, "sub"@);
        assert("bne"@[0] != "sub"@[0]);
        lemma_lower_eq_is(op, "neg"@);
        assert("bne"@[0] != "neg"@[0]);
        lemma_lower_eq_is(op, "addi"@);
        assert("bne"@.len() != "addi"@.len());
        lemma_lower_eq_is(op, "andi"@);
        assert("bne"@.len() != "andi"@.len());
        lemma_lower_eq_is(op, "slli"@);
        assert("bne"@.len() != "slli"@.len());
        lemma_lower_eq_is(op, "mul"@);
        assert("bne"@[0] != "mul"@[0]);
        lemma_lower_eq_is(op, "rem"@);
        assert("bne"@[0] != "rem"@[0]);
        lemma_lower_eq_is(op, "li"@);
        assert("bne"@.len() != "li"@.len());
        lemma_lower_eq_is(op, "mv"@);
        assert("bne"@.len() != "mv"@.len());
        lemma_lower_eq_is(op, "j"@);
        assert("bne"@.len() != "j"@.len());
        lemma_lower_eq_is(op, "jal"@);
        assert("bne"@[0] != "jal"@[0]);
        lemma_lower_eq_is(op, "beq"@);
        assert("bne"@[1] != "beq"@[1]);
    }
    if lower_eq(op, "bge"@) {
        lemma_lower_eq_is(op, "bge"@);
        lemma_lower_eq_is(op, "lb"@);
        assert("bge"@.len() != "lb"@.len());
        lemma_lower_eq_is(op, "lh"@);
        assert("bge"@.len() != "lh"@.len());
        lemma_lower_eq_is(op, "lw"@);
        assert("bge"@.len() != "lw"@.len());
        lemma_lower_eq_is(op, "sb"@);
        assert("bge"@.len() != "sb"@.len());
        lemma_lower_eq_is(op, "sh"@);
        assert("bge"@.len() != "sh"@.len());
        lemma_lower_eq_is(op, "sw"@);
        assert("bge"@.len() != "sw"@.len());
        lemma_lower_eq_is(op, "add"@);
        assert("bge"@[0] != "add"@[0]);
        lemma_lower_eq_is(op, "sub"@);
        assert("bge"@[0] != "sub"@[0]);
        lemma_lower_eq_is(op, "neg"@);
        assert("bge"@[0] != "neg"@[0]);
        lemma_lower_eq_is(op, "addi"@);
        assert("bge"@.len() != "addi"@.len());
        lemma_lower_eq_is(op, "andi"@);
        assert("bge"@.len() != "andi"@.len());
        lemma_lower_eq_is(op, "slli"@);
        assert("bge"@.len() != "slli"@.len());
        lemma_lower_eq_is(op, "mul"@);
        assert("bge"@[0] != "mul"@[0]);
        lemma_lower_eq_is(op, "rem"@);
        assert("bge"@[0] != "rem"@[0]);
        lemma_lower_eq_is(op, "li"@);
        assert("bge"@.len() != "li"@.len());
        lemma_lower_eq_is(op, "mv"@);
        assert("bge"@.len() != "mv"@.len());
        lemma_lower_eq_is(op, "j"@);
        assert("bge"@.len() != "j"@.len());
        lemma_lower_eq_is(op, "jal"@);
        assert("bge"@[0] != "jal"@[0]);
        lemma_lower_eq_is(op, "beq"@);
        assert("bge"@[1] != "beq"@[1]);
        lemma_lower_eq_is(op, "bne"@);
        assert("bge"@[1] != "bne"@[1]);
    }
    if lower_eq(op, "ble"@) {
        lemma_lower_eq_is(op, "ble"@);
        lemma_lower_eq_is(op, "lb"@);
        assert("ble"@.len() != "lb"@.len());
        lemma_lower_eq_is(op, "lh"@);
        assert("ble"@.len() != "lh"@.len());
        lemma_lower_eq_is(op, "lw"@);
        assert("ble"@.len() != "lw"@.len());
        lemma_lower_eq_is(op, "sb"@);
        assert("ble"@.len() != "sb"@.len());
        lemma_lower_eq_is(op, "sh"@);
        assert("ble"@.len() != "sh"@.len());
        lemma_lower_eq_is(op, "sw"@);
        assert("ble"@.len() != "sw"@.len());
        lemma_lower_eq_is(op, "add"@);
        assert("ble"@[0] != "add"@[0]);
        lemma_lower_eq_is(op, "sub"@);
        assert("ble"@[0] != "sub"@[0]);
        lemma_lower_eq_is(op, "neg"@);
        assert("ble"@[0] != "neg"@[0]);
        lemma_lower_eq_is(op, "addi"@);
        assert("ble"@.len() != "addi"@.len());
        lemma_lower_eq_is(op, "andi"@);
        assert("ble"@.len() != "andi"@.len());
        lemma_lower_eq_is(op, "slli"@);
        assert("ble"@.len() != "slli"@.len());
        lemma_lower_eq_is(op, "mul"@);
        assert("ble"@[0] != "mul"@[0]);
        lemma_lower_eq_is(op, "rem"@);
        assert("ble"@[0] != "rem"@[0]);
        lemma_lower_eq_is(op, "li"@);
        assert("ble"@.len() != "li"@.len());
        lemma_lower_eq_is(op, "mv"@);
        assert("ble"@.len() != "mv"@.len());
        lemma_lower_eq_is(op, "j"@);
        assert("ble"@.len() != "j"@.len());
        lemma_lower_eq_is(op, "jal"@);
        assert("ble"@[0] != "jal"@[0]);
        lemma_lower_eq_is(op, "beq"@);
        assert("ble"@[1] != "beq"@[1]);
        lemma_lower_eq_is(op, "bne"@);
        assert("ble"@[1] != "bne"@[1]);
        lemma_lower_eq_is(op, "bge"@);
        assert("ble"@[1] != "bge"@[1]);
    }
    if lower_eq(op, "blt"@) {
        lemma_lower_eq_is(op, "blt"@);
        lemma_lower_eq_is(op, "lb"@);
        assert("blt"@.len() != "lb"@.len());
        lemma_lower_eq_is(op, "lh"@);
        assert("blt"@.len() != "lh"@.len());
        lemma_lower_eq_is(op, "lw"@);
        assert("blt"@.len() != "lw"@.len());
        lemma_lower_eq_is(op, "sb"@);
        assert("blt"@.len() != "sb"@.len());
        lemma_lower_eq_is(op, "sh"@);
        assert("blt"@.len() != "sh"@.len());
        lemma_lower_eq_is(op, "sw"@);
        assert("blt"@.len() != "sw"@.len());
        lemma_lower_eq_is(op, "add"@);
        assert("blt"@[0] != "add"@[0]);
        lemma_lower_eq_is(op, "sub"@);
        assert("blt"@[0] != "sub"@[0]);
        lemma_lower_eq_is(op, "neg"@);
        assert("blt"@[0] != "neg"@[0]);
        lemma_lower_eq_is(op, "addi"@);
        assert("blt"@.len() != "addi"@.len());
        lemma_lower_eq_is(op, "andi"@);
        assert("blt"@.len() != "andi"@.len());
        lemma_lower_eq_is(op, "slli"@);
        assert("blt"@.len() != "slli"@.len());
        lemma_lower_eq_is(op, "mul"@);
        assert("blt"@[0] != "mul"@[0]);
        lemma_lower_eq_is(op, "rem"@);
        assert("blt"@[0] != "rem"@[0]);
        lemma_lower_eq_is(op, "li"@);
        assert("blt"@.len() != "li"@.len());
        lemma_lower_eq_is(op, "mv"@);
        assert("blt"@.len() != "mv"@.len());
        lemma_lower_eq_is(op, "j"@);
        assert("blt"@.len() != "j"@.len());
        lemma_lower_eq_is(op, "jal"@);
        assert("blt"@[0] != "jal"@[0]);
        lemma_lower_eq_is(op, "beq"@);
        assert("blt"@[1] != "beq"@[1]);
        lemma_lower_eq_is(op, "bne"@);
        assert("blt"@[1] != "bne"@[1]);
        lemma_lower_eq_is(op, "bge"@);
        assert("blt"@[1] != "bge"@[1]);
        lemma_lower_eq_is(op, "ble"@);
        assert("blt"@[2] != "ble"@[2]);
    }
    if lower_eq(op, "bgt"@) {
        lemma_lower_eq_is(op, "bgt"@);
        lemma_lower_eq_is(op, "lb"@);
        assert("bgt"@.len() != "lb"@.len());
        lemma_lower_eq_is(op, "lh"@);
        assert("bgt"@.len() != "lh"@.len());
        lemma_lower_eq_is(op, "lw"@);
        assert("bgt"@.len() != "lw"@.len());
        lemma_lower_eq_is(op, "sb"@);
        assert("bgt"@.len() != "sb"@.len());
        lemma_lower_eq_is(op, "sh"@);
        assert("bgt"@.len() != "sh"@.len());
        lemma_lower_eq_is(op, "sw"@);
        assert("bgt"@.len() != "sw"@.len());
        lemma_lower_eq_is(op, "add"@);
        assert("bgt"@[0] != "add"@[0]);
        lemma_lower_eq_is(op, "sub"@);
        assert("bgt"@[0] != "sub"@[0]);
        lemma_lower_eq_is(op, "neg"@);
        assert("bgt"@[0] != "neg"@[0]);
        lemma_lower_eq_is(op, "addi"@);
        assert("bgt"@.len() != "addi"@.len());
        lemma_lower_eq_is(op, "andi"@);
        assert("bgt"@.len() != "andi"@.len());
        lemma_lower_eq_is(op, "slli"@);
        assert("bgt"@.len() != "slli"@.len());
        lemma_lower_eq_is(op, "mul"@);
        assert("bgt"@[0] != "mul"@[0]);
        lemma_lower_eq_is(op, "rem"@);
        assert("bgt"@[0] != "rem"@[0]);
        lemma_lower_eq_is(op, "li"@);
        assert("bgt"@.len() != "li"@.len());
        lemma_lower_eq_is(op, "mv"@);
        assert("bgt"@.len() != "mv"@.len());
        lemma_lower_eq_is(op, "j"@);
        assert("bgt"@.len() != "j"@.len());
        lemma_lower_eq_is(op, "jal"@);
        assert("bgt"@[0] != "jal"@[0]);
        lemma_lower_eq_is(op, "beq"@);
        assert("bgt"@[1] != "beq"@[1]);
        lemma_lower_eq_is(op, "bne"@);
        assert("bgt"@[1] != "bne"@[1]);
        lemma_lower_eq_is(op, "bge"@);
        assert("bgt"@[2] != "bge"@[2]);
        lemma_lower_eq_is(op, "ble"@);
        assert("bgt"@[1] != "ble"@[1]);
        lemma_lower_eq_is(op, "blt"@);
        assert("bgt"@[1] != "blt"@[1]);
    }
    if lower_eq(op, "seqz"@) {
        lemma_lower_eq_is(op, "seqz"@);
        lemma_lower_eq_is(op, "lb"@);
        assert("seqz"@.len() != "lb"@.len());
        lemma_lower_eq_is(op, "lh"@);
        assert("seqz"@.len() != "lh"@.len());
        lemma_lower_eq_is(op, "lw"@);
        assert("seqz"@.len() != "lw"@.len());
        lemma_lower_eq_is(op, "sb"@);
        assert("seqz"@.len() != "sb"@.len());
        lemma_lower_eq_is(op, "sh"@);
        assert("seqz"@.len() != "sh"@.len());
        lemma_lower_eq_is(op, "sw"@);
        assert("seqz"@.len() != "sw"@.len());
        lemma_lower_eq_is(op, "add"@);
        assert("seqz"@.len() != "add"@.len());
        lemma_lower_eq_is(op, "sub"@);
        assert("seqz"@.len() != "sub"@.len());
        lemma_lower_eq_is(op, "neg"@);
        assert("seqz"@.len() != "neg"@.len());
        lemma_lower_eq_is(op, "addi"@);
        assert("seqz"@[0] != "addi"@[0]);
        lemma_lower_eq_is(op, "andi"@);
        assert("seqz"@[0] != "andi"@[0]);
        lemma_lower_eq_is(op, "slli"@);
        assert("seqz"@[1] != "slli"@[1]);
        lemma_lower_eq_is(op, "mul"@);
        assert("seqz"@.len() != "mul"@.len());
        lemma_lower_eq_is(op, "rem"@);
        assert("seqz"@.len() != "rem"@.len());
        lemma_lower_eq_is(op, "li"@);
        assert("seqz"@.len() != "li"@.len());
        lemma_lower_eq_is(op, "mv"@);
        assert("seqz"@.len() != "mv"@.len());
        lemma_lower_eq_is(op, "j"@);
        assert("seqz"@.len() != "j"@.len());
        lemma_lower_eq_is(op, "jal"@);
        assert("seqz"@.len() != "jal"@.len());
        lemma_lower_eq_is(op, "beq"@);
        assert("seqz"@.len() != "beq"@.len());
        lemma_lower_eq_is(op, "bne"@);
        assert("seqz"@.len() != "bne"@.len());
        lemma_lower_eq_is(op, "bge"@);
        assert("seqz"@.len() != "bge"@.len());
        lemma_lower_eq_is(op, "ble"@);
        assert("seqz"@.len() != "ble"@.len());
        lemma_lower_eq_is(op, "blt"@);
        assert("seqz"@.len() != "blt"@.len());
        lemma_lower_eq_is(op, "bgt"@);
        assert("seqz"@.len() != "bgt"@.len());
    }
    if lower_eq(op, "nop"@) {
        lemma_lower_eq_is(op, "nop"@);
        lemma_lower_eq_is(op, "lb"@);
        assert("nop"@.len() != "lb"@.len());
        lemma_lower_eq_is(op, "lh"@);
        assert("nop"@.len() != "lh"@.len());
        lemma_lower_eq_is(op, "lw"@);
        assert("nop"@.len() != "lw"@.len());
        lemma_lower_eq_is(op, "sb"@);
        assert("nop"@.len() != "sb"@.len());
        lemma_lower_eq_is(op, "sh"@);
        assert("nop"@.len() != "sh"@.len());
        lemma_lower_eq_is(op, "sw"@);
        assert("nop"@.len() != "sw"@.len());
        lemma_lower_eq_is(op, "add"@);
        assert("nop"@[0] != "add"@[0]);
        lemma_lower_eq_is(op, "sub"@);
        assert("nop"@[0] != "sub"@[0]);
        lemma_lower_eq_is(op, "neg"@);
        assert("nop"@[1] != "neg"@[1]);
        lemma_lower_eq_is(op, "addi"@);
        assert("nop"@.len() != "addi"@.len());
        lemma_lower_eq_is(op, "andi"@);
        assert("nop"@.len() != "andi"@.len());
        lemma_lower_eq_is(op, "slli"@);
        assert("nop"@.len() != "slli"@.len());
        lemma_lower_eq_is(op, "mul"@);
        assert("nop"@[0] != "mul"@[0]);
        lemma_lower_eq_is(op, "rem"@);
        assert("nop"@[0] != "rem"@[0]);
        lemma_lower_eq_is(op, "li"@);
        assert("nop"@.len() != "li"@.len());
        lemma_lower_eq_is(op, "mv"@);
        assert("nop"@.len() != "mv"@.len());
        lemma_lower_eq_is(op, "j"@);
        assert("nop"@.len() != "j"@.len());
        lemma_lower_eq_is(op, "jal"@);
        assert("nop"@[0] != "jal"@[0]);
        lemma_lower_eq_is(op, "beq"@);
        assert("nop"@[0] != "beq"@[0]);
        lemma_lower_eq_is(op, "bne"@);
        assert("nop"@[0] != "bne"@[0]);
        lemma_lower_eq_is(op, "bge"@);
        assert("nop"@[0] != "bge"@[0]);
        lemma_lower_eq_is(op, "ble"@);
        assert("nop"@[0] != "ble"@[0]);
        lemma_lower_eq_is(op, "blt"@);
        assert("nop"@[0] != "blt"@[0]);
        lemma_lower_eq_is(op, "bgt"@);
        assert("nop"@[0] != "bgt"@[0]);
        lemma_lower_eq_is(op, "seqz"@);
        assert("nop"@.len() != "seqz"@.len());
    }
    if lower_eq(op, "ret"@) {
        lemma_lower_eq_is(op, "ret"@);
        lemma_lower_eq_is(op, "lb"@);
        assert("ret"@.len() != "lb"@.len());
        lemma_lower_eq_is(op, "lh"@);
        assert("ret"@.len() != "lh"@.len());
        lemma_lower_eq_is(op, "lw"@);
        assert("ret"@.len() != "lw"@.len());
        lemma_lower_eq_is(op, "sb"@);
        assert("ret"@.len() != "sb"@.len());
        lemma_lower_eq_is(op, "sh"@);
        assert("ret"@.len() != "sh"@.len());
        lemma_lower_eq_is(op, "sw"@);
        assert("ret"@.len() != "sw"@.len());
        lemma_lower_eq_is(op, "add"@);
        assert("ret"@[0] != "add"@[0]);
        lemma_lower_eq_is(op, "sub"@);
        assert("ret"@[0] != "sub"@[0]);
        lemma_lower_eq_is(op, "neg"@);
        assert("ret"@[0] != "neg"@[0]);
        lemma_lower_eq_is(op, "addi"@);
        assert("ret"@.len() != "addi"@.len());
        lemma_lower_eq_is(op, "andi"@);
        assert("ret"@.len() != "andi"@.len());
        lemma_lower_eq_is(op, "slli"@);
        assert("ret"@.len() != "slli"@.len());
        lemma_lower_eq_is(op, "mul"@);
        assert("ret"@[0] != "mul"@[0]);
        lemma_lower_eq_is(op, "rem"@);
        assert("ret"@[2] != "rem"@[2]);
        lemma_lower_eq_is(op, "li"@);
        assert("ret"@.len() != "li"@.len());
        lemma_lower_eq_is(op, "mv"@);
        assert("ret"@.len() != "mv"@.len());
        lemma_lower_eq_is(op, "j"@);
        assert("ret"@.len() != "j"@.len());
        lemma_lower_eq_is(op, "jal"@);
        assert("ret"@[0] != "jal"@[0]);
        lemma_lower_eq_is(op, "beq"@);
        assert("ret"@[0] != "beq"@[0]);
        lemma_lower_eq_is(op, "bne"@);
        assert("ret"@[0] != "bne"@[0]);
        lemma_lower_eq_is(op, "bge"@);
        assert("ret"@[0] != "bge"@[0]);
        lemma_lower_eq_is(op, "ble"@);
        assert("ret"@[0] != "ble"@[0]);
        lemma_lower_eq_is(op, "blt"@);
        assert("ret"@[0] != "blt"@[0]);
        lemma_lower_eq_is(op, "bgt"@);
        assert("ret"@[0] != "bgt"@[0]);
        lemma_lower_eq_is(op, "seqz"@);
        assert("ret"@.len() != "seqz"@.len());
        lemma_lower_eq_is(op, "nop"@);
        assert("ret"@[0] != "nop"@[0]);
    }
}

/// Each mnemonic reads as the instruction it names, once its operands read:
/// `lb`, `lh`, `lw` load a byte, a half-word, a word; `sb`, `sh`, `sw` store
/// one; `neg d, a` is `sub d, zero, a`; `li d, i` is `addi d, zero, i`;
/// `mv d, a` is `addi d, a, 0`; `ble a, b` and `bgt a, b` are `bge b, a` and
/// `blt b, a`; `seqz d, a` is `sltiu d, a, 1`.
pub proof fn lemma_mnemonic_meanings(args: Seq<Seq<char>>)
    ensures
        spec_reg_arg(args, 0) matches Some(Ok(d)) ==> spec_mem_arg(args, 1) matches Some(Ok(m)) ==> spec_op_lb(args) == Some(Ok::<SpecInst, Seq<char>>(Inst::LoadByte(d, m))),
        spec_reg_arg(args, 0) matches Some(Ok(d)) ==> spec_mem_arg(args, 1) matches Some(Ok(m)) ==> spec_op_lh(args) == Some(Ok::<SpecInst, Seq<char>>(Inst::LoadHalfWord(d, m))),
        spec_reg_arg(args, 0) matches Some(Ok(d)) ==> spec_mem_arg(args, 1) matches Some(Ok(m)) ==> spec_op_lw(args) == Some(Ok::<SpecInst, Seq<char>>(Inst::LoadWord(d, m))),
        spec_reg_arg(args, 0) matches Some(Ok(v)) ==> spec_mem_arg(args, 1) matches Some(Ok(m)) ==> spec_op_sb(args) == Some(Ok::<SpecInst, Seq<char>>(Inst::StoreByte(v, m))),
        spec_reg_arg(args, 0) matches Some(Ok(v)) ==> spec_mem_arg(args, 1) matches Some(Ok(m)) ==> spec_op_sh(args) == Some(Ok::<SpecInst, Seq<char>>(Inst::StoreHalfWord(v, m))),
        spec_reg_arg(args, 0) matches Some(Ok(v)) ==> spec_mem_arg(args, 1) matches Some(Ok(m)) ==> spec_op_sw(args) == Some(Ok::<SpecInst, Seq<char>>(Inst::StoreWord(v, m))),
        spec_reg_arg(args, 0) matches Some(Ok(d)) ==> spec_reg_arg(args, 1) matches Some(Ok(a)) ==> spec_reg_arg(args, 2) matches Some(Ok(b)) ==> spec_op_add(args) == Some(Ok::<SpecInst, Seq<char>>(Inst::Add(d, a, b))),
        spec_reg_arg(args, 0) matches Some(Ok(d)) ==> spec_reg_arg(args, 1) matches Some(Ok(a)) ==> spec_reg_arg(args, 2) matches Some(Ok(b)) ==> spec_op_sub(args) == Some(Ok::<SpecInst, Seq<char>>(Inst::Sub(d, a, b))),
        spec_reg_arg(args, 0) matches Some(Ok(d)) ==> spec_reg_arg(args, 1) matches Some(Ok(a)) ==> spec_op_neg(args) == Some(Ok::<SpecInst, Seq<char>>(Inst::Sub(d, ArchReg::Zero, a))),
        spec_reg_arg(args, 0) matches Some(Ok(d)) ==> spec_reg_arg(args, 1) matches Some(Ok(a)) ==> spec_imm_arg(args, 2) matches Some(Ok(i)) ==> spec_op_addi(args) == Some(Ok::<SpecInst, Seq<char>>(Inst::AddImm(d, a, i))),
        spec_reg_arg(args, 0) matches Some(Ok(d)) ==> spec_reg_arg(args, 1) matches Some(Ok(a)) ==> spec_imm_arg(args, 2) matches Some(Ok(i)) ==> spec_op_andi(args) == Some(Ok::<SpecInst, Seq<char>>(Inst::AndImm(d, a, i))),
        spec_reg_arg(args, 0) matches Some(Ok(d)) ==> spec_reg_arg(args, 1) matches Some(Ok(a)) ==> spec_imm_arg(args, 2) matches Some(Ok(i)) ==> spec_op_slli(args) == Some(Ok::<SpecInst, Seq<char>>(Inst::ShiftLeftLogicalImm(d, a, i))),
        spec_reg_arg(args, 0) matches Some(Ok(d)) ==> spec_reg_arg(args, 1) matches Some(Ok(a)) ==> spec_reg_arg(args, 2) matches Some(Ok(b)) ==> spec_op_mul(args) == Some(Ok::<SpecInst, Seq<char>>(Inst::Mul(d, a, b))),
        spec_reg_arg(args, 0) matches Some(Ok(d)) ==> spec_reg_arg(args, 1) matches Some(Ok(a)) ==> spec_reg_arg(args, 2) matches Some(Ok(b)) ==> spec_op_rem(args) == Some(Ok::<SpecInst, Seq<char>>(Inst::Rem(d, a, b))),
        spec_reg_arg(args, 0) matches Some(Ok(d)) ==> spec_imm_arg(args, 1) matches Some(Ok(i)) ==> spec_op_li(args) == Some(Ok::<SpecInst, Seq<char>>(Inst::AddImm(d, ArchReg::Zero, i))),
        spec_reg_arg(args, 0) matches Some(Ok(d)) ==> spec_reg_arg(args, 1) matches Some(Ok(a)) ==> spec_op_mv(args) == Some(Ok::<SpecInst, Seq<char>>(Inst::AddImm(d, a, Imm(0)))),
        spec_label_arg(args, 0) matches Some(Ok(l)) ==> spec_op_j(args) == Some(Ok::<SpecInst, Seq<char>>(Inst::Jump(l))),
        spec_reg_arg(args, 0) matches Some(Ok(d)) ==> spec_label_arg(args, 1) matches Some(Ok(l)) ==> spec_op_jal(args) == Some(Ok::<SpecInst, Seq<char>>(Inst::JumpAndLink(d, l))),
        spec_reg_arg(args, 0) matches Some(Ok(a)) ==> spec_reg_arg(args, 1) matches Some(Ok(b)) ==> spec_label_arg(args, 2) matches Some(Ok(l)) ==> spec_op_beq(args) == Some(Ok::<SpecInst, Seq<char>>(Inst::BranchIfEqual(a, b, l))),
        spec_reg_arg(args, 0) matches Some(Ok(a)) ==> spec_reg_arg(args, 1) matches Some(Ok(b)) ==> spec_label_arg(args, 2) matches Some(Ok(l)) ==> spec_op_bne(args) == Some(Ok::<SpecInst, Seq<char>>(Inst::BranchIfNotEqual(a, b, l))),
        spec_reg_arg(args, 0) matches Some(Ok(a)) ==> spec_reg_arg(args, 1) matches Some(Ok(b)) ==> spec_label_arg(args, 2) matches Some(Ok(l)) ==> spec_op_bge(args) == Some(Ok::<SpecInst, Seq<char>>(Inst::BranchIfGreaterEqual(a, b, l))),
        spec_reg_arg(args, 0) matches Some(Ok(a)) ==> spec_reg_arg(args, 1) matches Some(Ok(b)) ==> spec_label_arg(args, 2) matches Some(Ok(l)) ==> spec_op_ble(args) == Some(Ok::<SpecInst, Seq<char>>(Inst::BranchIfGreaterEqual(b, a, l))),
        spec_reg_arg(args, 0) matches Some(Ok(a)) ==> spec_reg_arg(args, 1) matches Some(Ok(b)) ==> spec_label_arg(args, 2) matches Some(Ok(l)) ==> spec_op_blt(args) == Some(Ok::<SpecInst, Seq<char>>(Inst::BranchIfLess(a, b, l))),
        spec_reg_arg(args, 0) matches Some(Ok(a)) ==> spec_reg_arg(args, 1) matches Some(Ok(b)) ==> spec_label_arg(args, 2) matches Some(Ok(l)) ==> spec_op_bgt(args) == Some(Ok::<SpecInst, Seq<char>>(Inst::BranchIfLess(b, a, l))),
        spec_reg_arg(args, 0) matches Some(Ok(d)) ==> spec_reg_arg(args, 1) matches Some(Ok(a)) ==> spec_op_seqz(args) == Some(Ok::<SpecInst, Seq<char>>(Inst::SetLessThanImmU(d, a, Imm(1)))),
{
    reveal(spec_op_lb);
    reveal(spec_op_lh);
    reveal(spec_op_lw);
    reveal(spec_op_sb);
    reveal(spec_op_sh);
    reveal(spec_op_sw);
    reveal(spec_op_add);
    reveal(spec_op_sub);
    reveal(spec_op_neg);
    reveal(spec_op_addi);
    reveal(spec_op_andi);
    reveal(spec_op_slli);
    reveal(spec_op_mul);
    reveal(spec_op_rem);
    reveal(spec_op_li);
    reveal(spec_op_mv);
    reveal(spec_op_j);
    reveal(spec_op_jal);
    reveal(spec_op_beq);
    reveal(spec_op_bne);
    reveal(spec_op_bge);
    reveal(spec_op_ble);
    reveal(spec_op_blt);
    reveal(spec_op_bgt);
    reveal(spec_op_seqz);
}

/// How `LabeledInst::from_str` reads one line: `op` up to the first space,
/// arguments separated by commas. `None` where it panics: the unsupported
/// `ret`, or an immediate of `imm_panics`.
pub open spec fn spec_parse_inst(s: Seq<char>) -> Option<Result<SpecInst, Seq<char>>> {
    match find_char(s, ' ') {
        Some(i) => spec_parse_op(
            s.subrange(0, i),
            split_char(s.subrange(i + 1, s.len() as int), ','),
        ),
        None => spec_parse_op(s, split_char(seq![], ',')),
    }
}

/// The exec instruction `i` is the spec instruction `si`.
pub open spec fn labeled_is(i: LabeledInst, si: SpecInst) -> bool {
    inst_corresponds(
        i,
        si,
        |a: ArchReg, b: ArchReg| a == b,
        |a: ArchReg, b: ArchReg| a == b,
        |a: Label, b: Seq<char>| a@ == b,
    )
}

/// `r` is the outcome `o` describes.
pub open spec fn inst_result_is(r: Result<LabeledInst, String>, o: Option<Result<SpecInst, Seq<char>>>) -> bool {
    match (r, o) {
        (Ok(i), Some(Ok(si))) => labeled_is(i, si),
        (Err(e), Some(Err(m))) => e@ == m,
        _ => false,
    }
}

/// `r` is the outcome `o` describes, `None` where it is `None`.
pub open spec fn opt_inst_result_is(r: Option<Result<LabeledInst, String>>, o: Option<Result<SpecInst, Seq<char>>>) -> bool {
    match r {
        None => o is None,
        Some(x) => inst_result_is(x, o),
    }
}

fn op_is(cs: &Vec<char>, lo: usize, hi: usize, m: &str) -> (b: bool)
    requires
        lo <= hi <= cs@.len(),
    ensures
        b == lower_eq(cs@.subrange(lo as int, hi as int), m@),
{
    let ms = str_chars(m);
    if hi - lo != ms.len() {
        return false;
    }
    let mut i: usize = 0;
    while i < ms.len()
        invariant
            lo <= hi <= cs@.len(),
            hi - lo == ms@.len(),
            ms@ == m@,
            i <= ms@.len(),
            forall|k: int| 0 <= k < i ==> ascii_lower(cs@[lo + k]) == ms@[k],
        decreases ms@.len() - i,
    {
        let c = cs[lo + i];
        let lc = if 'A' <= c && c <= 'Z' {
            ((c as u8) + 32) as char
        } else {
            c
        };
        if lc != ms[i] {
            assert(ascii_lower(cs@.subrange(lo as int, hi as int)[i as int]) != m@[i as int]);
            return false;
        }
        i = i + 1;
    }
    assert forall|k: int| 0 <= k < hi - lo implies ascii_lower(
        #[trigger] cs@.subrange(lo as int, hi as int)[k],
    ) == m@[k] by {
        assert(cs@.subrange(lo as int, hi as int)[k] == cs@[lo + k]);
    }
    true
}

fn nth_arg(cs: &Vec<char>, pieces: &Vec<(usize, usize)>, n: usize, alo: usize, ahi: usize) -> (r: Result<(usize, usize), String>)
    requires
        alo <= ahi <= cs@.len(),
        pieces_spell(cs@, pieces@, split_char(cs@.subrange(alo as int, ahi as int), ',')),
    ensures
        match spec_nth_arg(split_char(cs@.subrange(alo as int, ahi as int), ','), n as int) {
            Ok(t) => r matches Ok(p) && p.0 <= p.1 <= cs@.len() && cs@.subrange(
                p.0 as int,
                p.1 as int,
            ) == t,
            Err(m) => r matches Err(e) && e@ == m,
        },
{
    let ghost args = split_char(cs@.subrange(alo as int, ahi as int), ',');
    if n < pieces.len() {
        let (lo, hi) = pieces[n];
        assert(cs@.subrange(lo as int, hi as int) == args[n as int]);
        let (a, b) = trim_range(cs, lo, hi);
        if a < b {
            return Ok((a, b));
        }
    }
    let mut e = "cannot fetch argument ".to_owned();
    e.append(usize_to_decimal(n).as_str());
    Err(e)
}

fn reg_arg(s: &str, cs: &Vec<char>, pieces: &Vec<(usize, usize)>, n: usize, alo: usize, ahi: usize) -> (r: Result<ArchReg, String>)
    requires
        cs@ == s@,
        alo <= ahi <= cs@.len(),
        pieces_spell(cs@, pieces@, split_char(cs@.subrange(alo as int, ahi as int), ',')),
    ensures
        parse_result_is(r, spec_reg_arg(split_char(cs@.subrange(alo as int, ahi as int), ','), n as int)),
{
    match nth_arg(cs, pieces, n, alo, ahi) {
        Err(e) => Err(e),
        Ok((a, b)) => match parse_reg_in(cs, a, b) {
            Some(x) => Ok(x),
            None => Err(REG_PARSE_ERROR.to_owned()),
        },
    }
}

fn imm_arg(s: &str, cs: &Vec<char>, pieces: &Vec<(usize, usize)>, n: usize, alo: usize, ahi: usize) -> (r: Option<Result<Imm, String>>)
    requires
        cs@ == s@,
        alo <= ahi <= cs@.len(),
        pieces_spell(cs@, pieces@, split_char(cs@.subrange(alo as int, ahi as int), ',')),
    ensures
        opt_result_is(r, spec_imm_arg(split_char(cs@.subrange(alo as int, ahi as int), ','), n as int)),
{
    match nth_arg(cs, pieces, n, alo, ahi) {
        Err(e) => Some(Err(e)),
        Ok((a, b)) => {
            let t = s.substring_char(a, b);
            let tcs = str_chars(t);
            proof {
                assert(tcs@.subrange(0, tcs@.len() as int) == t@);
            }
            if imm_panics_in(&tcs, 0, tcs.len()) {
                None
            } else {
                Some(Imm::from_str(t))
            }
        },
    }
}

fn mem_arg(s: &str, cs: &Vec<char>, pieces: &Vec<(usize, usize)>, n: usize, alo: usize, ahi: usize) -> (r: Option<Result<MemRef, String>>)
    requires
        cs@ == s@,
        alo <= ahi <= cs@.len(),
        pieces_spell(cs@, pieces@, split_char(cs@.subrange(alo as int, ahi as int), ',')),
    ensures
        opt_result_is(r, spec_mem_arg(split_char(cs@.subrange(alo as int, ahi as int), ','), n as int)),
{
    match nth_arg(cs, pieces, n, alo, ahi) {
        Err(e) => Some(Err(e)),
        Ok((a, b)) => MemRef::parse_opt(s.substring_char(a, b)),
    }
}

fn label_arg(s: &str, cs: &Vec<char>, pieces: &Vec<(usize, usize)>, n: usize, alo: usize, ahi: usize) -> (r: Result<Label, String>)
    requires
        cs@ == s@,
        alo <= ahi <= cs@.len(),
        pieces_spell(cs@, pieces@, split_char(cs@.subrange(alo as int, ahi as int), ',')),
    ensures
        match (r, spec_label_arg(split_char(cs@.subrange(alo as int, ahi as int), ','), n as int)) {
            (Ok(l), Some(Ok(t))) => l@ == t,
            (Err(e), Some(Err(m))) => e@ == m,
            _ => false,
        },
{
    match nth_arg(cs, pieces, n, alo, ahi) {
        Err(e) => Err(e),
        Ok((a, b)) => Label::from_str(s.substring_char(a, b)),
    }
}

fn op_lb(s: &str, cs: &Vec<char>, pieces: &Vec<(usize, usize)>, alo: usize, ahi: usize) -> (r: Option<Result<LabeledInst, String>>)
    requires
        cs@ == s@,
        alo <= ahi <= cs@.len(),
        pieces_spell(cs@, pieces@, split_char(cs@.subrange(alo as int, ahi as int), ',')),
    ensures
        opt_inst_result_is(r, spec_op_lb(split_char(cs@.subrange(alo as int, ahi as int), ','))),
{
    reveal(spec_op_lb);
    let x0 = match reg_arg(s, cs, pieces, 0, alo, ahi) {
        Ok(x) => x,
        Err(e) => {
            return Some(Err(e));
        },
    };
    let x1 = match mem_arg(s, cs, pieces, 1, alo, ahi) {
        Some(Ok(x)) => x,
        Some(Err(e)) => {
            return Some(Err(e));
        },
        None => {
            return None;
        },
    };
    Some(Ok(Inst::LoadByte(x0, x1)))
}

fn op_lh(s: &str, cs: &Vec<char>, pieces: &Vec<(usize, usize)>, alo: usize, ahi: usize) -> (r: Option<Result<LabeledInst, String>>)
    requires
        cs@ == s@,
        alo <= ahi <= cs@.len(),
        pieces_spell(cs@, pieces@, split_char(cs@.subrange(alo as int, ahi as int), ',')),
    ensures
        opt_inst_result_is(r, spec_op_lh(split_char(cs@.subrange(alo as int, ahi as int), ','))),
{
    reveal(spec_op_lh);
    let x0 = match reg_arg(s, cs, pieces, 0, alo, ahi) {
        Ok(x) => x,
        Err(e) => {
            return Some(Err(e));
        },
    };
    let x1 = match mem_arg(s, cs, pieces, 1, alo, ahi) {
        Some(Ok(x)) => x,
        Some(Err(e)) => {
            return Some(Err(e));
        },
        None => {
            return None;
        },
    };
    Some(Ok(Inst::LoadHalfWord(x0, x1)))
}

fn op_lw(s: &str, cs: &Vec<char>, pieces: &Vec<(usize, usize)>, alo: usize, ahi: usize) -> (r: Option<Result<LabeledInst, String>>)
    requires
        cs@ == s@,
        alo <= ahi <= cs@.len(),
        pieces_spell(cs@, pieces@, split_char(cs@.subrange(alo as int, ahi as int), ',')),
    ensures
        opt_inst_result_is(r, spec_op_lw(split_char(cs@.subrange(alo as int, ahi as int), ','))),
{
    reveal(spec_op_lw);
    let x0 = match reg_arg(s, cs, pieces, 0, alo, ahi) {
        Ok(x) => x,
        Err(e) => {
            return Some(Err(e));
        },
    };
    let x1 = match mem_arg(s, cs, pieces, 1, alo, ahi) {
        Some(Ok(x)) => x,
        Some(Err(e)) => {
            return Some(Err(e));
        },
        None => {
            return None;
        },
    };
    Some(Ok(Inst::LoadWord(x0, x1)))
}

fn op_sb(s: &str, cs: &Vec<char>, pieces: &Vec<(usize, usize)>, alo: usize, ahi: usize) -> (r: Option<Result<LabeledInst, String>>)
    requires
        cs@ == s@,
        alo <= ahi <= cs@.len(),
        pieces_spell(cs@, pieces@, split_char(cs@.subrange(alo as int, ahi as int), ',')),
    ensures
        opt_inst_result_is(r, spec_op_sb(split_char(cs@.subrange(alo as int, ahi as int), ','))),
{
    reveal(spec_op_sb);
    let x0 = match reg_arg(s, cs, pieces, 0, alo, ahi) {
        Ok(x) => x,
        Err(e) => {
            return Some(Err(e));
        },
    };
    let x1 = match mem_arg(s, cs, pieces, 1, alo, ahi) {
        Some(Ok(x)) => x,
        Some(Err(e)) => {
            return Some(Err(e));
        },
        None => {
            return None;
        },
    };
    Some(Ok(Inst::StoreByte(x0, x1)))
}

fn op_sh(s: &str, cs: &Vec<char>, pieces: &Vec<(usize, usize)>, alo: usize, ahi: usize) -> (r: Option<Result<LabeledInst, String>>)
    requires
        cs@ == s@,
        alo <= ahi <= cs@.len(),
        pieces_spell(cs@, pieces@, split_char(cs@.subrange(alo as int, ahi as int), ',')),
    ensures
        opt_inst_result_is(r, spec_op_sh(split_char(cs@.subrange(alo as int, ahi as int), ','))),
{
    reveal(spec_op_sh);
    let x0 = match reg_arg(s, cs, pieces, 0, alo, ahi) {
        Ok(x) => x,
        Err(e) => {
            return Some(Err(e));
        },
    };
    let x1 = match mem_arg(s, cs, pieces, 1, alo, ahi) {
        Some(Ok(x)) => x,
        Some(Err(e)) => {
            return Some(Err(e));
        },
        None => {
            return None;
        },
    };
    Some(Ok(Inst::StoreHalfWord(x0, x1)))
}

fn op_sw(s: &str, cs: &Vec<char>, pieces: &Vec<(usize, usize)>, alo: usize, ahi: usize) -> (r: Option<Result<LabeledInst, String>>)
    requires
        cs@ == s@,
        alo <= ahi <= cs@.len(),
        pieces_spell(cs@, pieces@, split_char(cs@.subrange(alo as int, ahi as int), ',')),
    ensures
        opt_inst_result_is(r, spec_op_sw(split_char(cs@.subrange(alo as int, ahi as int), ','))),
{
    reveal(spec_op_sw);
    let x0 = match reg_arg(s, cs, pieces, 0, alo, ahi) {
        Ok(x) => x,
        Err(e) => {
            return Some(Err(e));
        },
    };
    let x1 = match mem_arg(s, cs, pieces, 1, alo, ahi) {
        Some(Ok(x)) => x,
        Some(Err(e)) => {
            return Some(Err(e));
        },
        None => {
            return None;
        },
    };
    Some(Ok(Inst::StoreWord(x0, x1)))
}

fn op_add(s: &str, cs: &Vec<char>, pieces: &Vec<(usize, usize)>, alo: usize, ahi: usize) -> (r: Option<Result<LabeledInst, String>>)
    requires
        cs@ == s@,
        alo <= ahi <= cs@.len(),
        pieces_spell(cs@, pieces@, split_char(cs@.subrange(alo as int, ahi as int), ',')),
    ensures
        opt_inst_result_is(r, spec_op_add(split_char(cs@.subrange(alo as int, ahi as int), ','))),
{
    reveal(spec_op_add);
    let x0 = match reg_arg(s, cs, pieces, 0, alo, ahi) {
        Ok(x) => x,
        Err(e) => {
            return Some(Err(e));
        },
    };
    let x1 = match reg_arg(s, cs, pieces, 1, alo, ahi) {
        Ok(x) => x,
        Err(e) => {
            return Some(Err(e));
        },
    };
    let x2 = match reg_arg(s, cs, pieces, 2, alo, ahi) {
        Ok(x) => x,
        Err(e) => {
            return Some(Err(e));
        },
    };
    Some(Ok(Inst::Add(x0, x1, x2)))
}

fn op_sub(s: &str, cs: &Vec<char>, pieces: &Vec<(usize, usize)>, alo: usize, ahi: usize) -> (r: Option<Result<LabeledInst, String>>)
    requires
        cs@ == s@,
        alo <= ahi <= cs@.len(),
        pieces_spell(cs@, pieces@, split_char(cs@.subrange(alo as int, ahi as int), ',')),
    ensures
        opt_inst_result_is(r, spec_op_sub(split_char(cs@.subrange(alo as int, ahi as int), ','))),
{
    reveal(spec_op_sub);
    let x0 = match reg_arg(s, cs, pieces, 0, alo, ahi) {
        Ok(x) => x,
        Err(e) => {
            return Some(Err(e));
        },
    };
    let x1 = match reg_arg(s, cs, pieces, 1, alo, ahi) {
        Ok(x) => x,
        Err(e) => {
            return Some(Err(e));
        },
    };
    let x2 = match reg_arg(s, cs, pieces, 2, alo, ahi) {
        Ok(x) => x,
        Err(e) => {
            return Some(Err(e));
        },
    };
    Some(Ok(Inst::Sub(x0, x1, x2)))
}

fn op_neg(s: &str, cs: &Vec<char>, pieces: &Vec<(usize, usize)>, alo: usize, ahi: usize) -> (r: Option<Result<LabeledInst, String>>)
    requires
        cs@ == s@,
        alo <= ahi <= cs@.len(),
        pieces_spell(cs@, pieces@, split_char(cs@.subrange(alo as int, ahi as int), ',')),
    ensures
        opt_inst_result_is(r, spec_op_neg(split_char(cs@.subrange(alo as int, ahi as int), ','))),
{
    reveal(spec_op_neg);
    let x0 = match reg_arg(s, cs, pieces, 0, alo, ahi) {
        Ok(x) => x,
        Err(e) => {
            return Some(Err(e));
        },
    };
    let x2 = match reg_arg(s, cs, pieces, 1, alo, ahi) {
        Ok(x) => x,
        Err(e) => {
            return Some(Err(e));
        },
    };
    Some(Ok(Inst::Sub(x0, ArchReg::Zero, x2)))
}

fn op_addi(s: &str, cs: &Vec<char>, pieces: &Vec<(usize, usize)>, alo: usize, ahi: usize) -> (r: Option<Result<LabeledInst, String>>)
    requires
        cs@ == s@,
        alo <= ahi <= cs@.len(),
        pieces_spell(cs@, pieces@, split_char(cs@.subrange(alo as int, ahi as int), ',')),
    ensures
        opt_inst_result_is(r, spec_op_addi(split_char(cs@.subrange(alo as int, ahi as int), ','))),
{
    reveal(spec_op_addi);
    let x0 = match reg_arg(s, cs, pieces, 0, alo, ahi) {
        Ok(x) => x,
        Err(e) => {
            return Some(Err(e));
        },
    };
    let x1 = match reg_arg(s, cs, pieces, 1, alo, ahi) {
        Ok(x) => x,
        Err(e) => {
            return Some(Err(e));
        },
    };
    let x2 = match imm_arg(s, cs, pieces, 2, alo, ahi) {
        Some(Ok(x)) => x,
        Some(Err(e)) => {
            return Some(Err(e));
        },
        None => {
            return None;
        },
    };
    Some(Ok(Inst::AddImm(x0, x1, x2)))
}

fn op_andi(s: &str, cs: &Vec<char>, pieces: &Vec<(usize, usize)>, alo: usize, ahi: usize) -> (r: Option<Result<LabeledInst, String>>)
    requires
        cs@ == s@,
        alo <= ahi <= cs@.len(),
        pieces_spell(cs@, pieces@, split_char(cs@.subrange(alo as int, ahi as int), ',')),
    ensures
        opt_inst_result_is(r, spec_op_andi(split_char(cs@.subrange(alo as int, ahi as int), ','))),
{
    reveal(spec_op_andi);
    let x0 = match reg_arg(s, cs, pieces, 0, alo, ahi) {
        Ok(x) => x,
        Err(e) => {
            return Some(Err(e));
        },
    };
    let x1 = match reg_arg(s, cs, pieces, 1, alo, ahi) {
        Ok(x) => x,
        Err(e) => {
            return Some(Err(e));
        },
    };
    let x2 = match imm_arg(s, cs, pieces, 2, alo, ahi) {
        Some(Ok(x)) => x,
        Some(Err(e)) => {
            return Some(Err(e));
        },
        None => {
            return None;
        },
    };
    Some(Ok(Inst::AndImm(x0, x1, x2)))
}

fn op_slli(s: &str, cs: &Vec<char>, pieces: &Vec<(usize, usize)>, alo: usize, ahi: usize) -> (r: Option<Result<LabeledInst, String>>)
    requires
        cs@ == s@,
        alo <= ahi <= cs@.len(),
        pieces_spell(cs@, pieces@, split_char(cs@.subrange(alo as int, ahi as int), ',')),
    ensures
        opt_inst_result_is(r, spec_op_slli(split_char(cs@.subrange(alo as int, ahi as int), ','))),
{
    reveal(spec_op_slli);
    let x0 = match reg_arg(s, cs, pieces, 0, alo, ahi) {
        Ok(x) => x,
        Err(e) => {
            return Some(Err(e));
        },
    };
    let x1 = match reg_arg(s, cs, pieces, 1, alo, ahi) {
        Ok(x) => x,
        Err(e) => {
            return Some(Err(e));
        },
    };
    let x2 = match imm_arg(s, cs, pieces, 2, alo, ahi) {
        Some(Ok(x)) => x,
        Some(Err(e)) => {
            return Some(Err(e));
        },
        None => {
            return None;
        },
    };
    Some(Ok(Inst::ShiftLeftLogicalImm(x0, x1, x2)))
}

fn op_mul(s: &str, cs: &Vec<char>, pieces: &Vec<(usize, usize)>, alo: usize, ahi: usize) -> (r: Option<Result<LabeledInst, String>>)
    requires
        cs@ == s@,
        alo <= ahi <= cs@.len(),
        pieces_spell(cs@, pieces@, split_char(cs@.subrange(alo as int, ahi as int), ',')),
    ensures
        opt_inst_result_is(r, spec_op_mul(split_char(cs@.subrange(alo as int, ahi as int), ','))),
{
    reveal(spec_op_mul);
    let x0 = match reg_arg(s, cs, pieces, 0, alo, ahi) {
        Ok(x) => x,
        Err(e) => {
            return Some(Err(e));
        },
    };
    let x1 = match reg_arg(s, cs, pieces, 1, alo, ahi) {
        Ok(x) => x,
        Err(e) => {
            return Some(Err(e));
        },
    };
    let x2 = match reg_arg(s, cs, pieces, 2, alo, ahi) {
        Ok(x) => x,
        Err(e) => {
            return Some(Err(e));
        },
    };
    Some(Ok(Inst::Mul(x0, x1, x2)))
}

fn op_rem(s: &str, cs: &Vec<char>, pieces: &Vec<(usize, usize)>, alo: usize, ahi: usize) -> (r: Option<Result<LabeledInst, String>>)
    requires
        cs@ == s@,
        alo <= ahi <= cs@.len(),
        pieces_spell(cs@, pieces@, split_char(cs@.subrange(alo as int, ahi as int), ',')),
    ensures
        opt_inst_result_is(r, spec_op_rem(split_char(cs@.subrange(alo as int, ahi as int), ','))),
{
    reveal(spec_op_rem);
    let x0 = match reg_arg(s, cs, pieces, 0, alo, ahi) {
        Ok(x) => x,
        Err(e) => {
            return Some(Err(e));
        },
    };
    let x1 = match reg_arg(s, cs, pieces, 1, alo, ahi) {
        Ok(x) => x,
        Err(e) => {
            return Some(Err(e));
        },
    };
    let x2 = match reg_arg(s, cs, pieces, 2, alo, ahi) {
        Ok(x) => x,
        Err(e) => {
            return Some(Err(e));
        },
    };
    Some(Ok(Inst::Rem(x0, x1, x2)))
}

fn op_li(s: &str, cs: &Vec<char>, pieces: &Vec<(usize, usize)>, alo: usize, ahi: usize) -> (r: Option<Result<LabeledInst, String>>)
    requires
        cs@ == s@,
        alo <= ahi <= cs@.len(),
        pieces_spell(cs@, pieces@, split_char(cs@.subrange(alo as int, ahi as int), ',')),
    ensures
        opt_inst_result_is(r, spec_op_li(split_char(cs@.subrange(alo as int, ahi as int), ','))),
{
    reveal(spec_op_li);
    let x0 = match reg_arg(s, cs, pieces, 0, alo, ahi) {
        Ok(x) => x,
        Err(e) => {
            return Some(Err(e));
        },
    };
    let x2 = match imm_arg(s, cs, pieces, 1, alo, ahi) {
        Some(Ok(x)) => x,
        Some(Err(e)) => {
            return Some(Err(e));
        },
        None => {
            return None;
        },
    };
    Some(Ok(Inst::AddImm(x0, ArchReg::Zero, x2)))
}

fn op_mv(s: &str, cs: &Vec<char>, pieces: &Vec<(usize, usize)>, alo: usize, ahi: usize) -> (r: Option<Result<LabeledInst, String>>)
    requires
        cs@ == s@,
        alo <= ahi <= cs@.len(),
        pieces_spell(cs@, pieces@, split_char(cs@.subrange(alo as int, ahi as int), ',')),
    ensures
        opt_inst_result_is(r, spec_op_mv(split_char(cs@.subrange(alo as int, ahi as int), ','))),
{
    reveal(spec_op_mv);
    let x0 = match reg_arg(s, cs, pieces, 0, alo, ahi) {
        Ok(x) => x,
        Err(e) => {
            return Some(Err(e));
        },
    };
    let x1 = match reg_arg(s, cs, pieces, 1, alo, ahi) {
        Ok(x) => x,
        Err(e) => {
            return Some(Err(e));
        },
    };
    Some(Ok(Inst::AddImm(x0, x1, Imm(0))))
}

fn op_j(s: &str, cs: &Vec<char>, pieces: &Vec<(usize, usize)>, alo: usize, ahi: usize) -> (r: Option<Result<LabeledInst, String>>)
    requires
        cs@ == s@,
        alo <= ahi <= cs@.len(),
        pieces_spell(cs@, pieces@, split_char(cs@.subrange(alo as int, ahi as int), ',')),
    ensures
        opt_inst_result_is(r, spec_op_j(split_char(cs@.subrange(alo as int, ahi as int), ','))),
{
    reveal(spec_op_j);
    let x0 = match label_arg(s, cs, pieces, 0, alo, ahi) {
        Ok(x) => x,
        Err(e) => {
            return Some(Err(e));
        },
    };
    Some(Ok(Inst::Jump(x0)))
}

fn op_jal(s: &str, cs: &Vec<char>, pieces: &Vec<(usize, usize)>, alo: usize, ahi: usize) -> (r: Option<Result<LabeledInst, String>>)
    requires
        cs@ == s@,
        alo <= ahi <= cs@.len(),
        pieces_spell(cs@, pieces@, split_char(cs@.subrange(alo as int, ahi as int), ',')),
    ensures
        opt_inst_result_is(r, spec_op_jal(split_char(cs@.subrange(alo as int, ahi as int), ','))),
{
    reveal(spec_op_jal);
    let x0 = match reg_arg(s, cs, pieces, 0, alo, ahi) {
        Ok(x) => x,
        Err(e) => {
            return Some(Err(e));
        },
    };
    let x1 = match label_arg(s, cs, pieces, 1, alo, ahi) {
        Ok(x) => x,
        Err(e) => {
            return Some(Err(e));
        },
    };
    Some(Ok(Inst::JumpAndLink(x0, x1)))
}

fn op_beq(s: &str, cs: &Vec<char>, pieces: &Vec<(usize, usize)>, alo: usize, ahi: usize) -> (r: Option<Result<LabeledInst, String>>)
    requires
        cs@ == s@,
        alo <= ahi <= cs@.len(),
        pieces_spell(cs@, pieces@, split_char(cs@.subrange(alo as int, ahi as int), ',')),
    ensures
        opt_inst_result_is(r, spec_op_beq(split_char(cs@.subrange(alo as int, ahi as int), ','))),
{
    reveal(spec_op_beq);
    let x0 = match reg_arg(s, cs, pieces, 0, alo, ahi) {
        Ok(x) => x,
        Err(e) => {
            return Some(Err(e));
        },
    };
    let x1 = match reg_arg(s, cs, pieces, 1, alo, ahi) {
        Ok(x) => x,
        Err(e) => {
            return Some(Err(e));
        },
    };
    let x2 = match label_arg(s, cs, pieces, 2, alo, ahi) {
        Ok(x) => x,
        Err(e) => {
            return Some(Err(e));
        },
    };
    Some(Ok(Inst::BranchIfEqual(x0, x1, x2)))
}

fn op_bne(s: &str, cs: &Vec<char>, pieces: &Vec<(usize, usize)>, alo: usize, ahi: usize) -> (r: Option<Result<LabeledInst, String>>)
    requires
        cs@ == s@,
        alo <= ahi <= cs@.len(),
        pieces_spell(cs@, pieces@, split_char(cs@.subrange(alo as int, ahi as int), ',')),
    ensures
        opt_inst_result_is(r, spec_op_bne(split_char(cs@.subrange(alo as int, ahi as int), ','))),
{
    reveal(spec_op_bne);
    let x0 = match reg_arg(s, cs, pieces, 0, alo, ahi) {
        Ok(x) => x,
        Err(e) => {
            return Some(Err(e));
        },
    };
    let x1 = match reg_arg(s, cs, pieces, 1, alo, ahi) {
        Ok(x) => x,
        Err(e) => {
            return Some(Err(e));
        },
    };
    let x2 = match label_arg(s, cs, pieces, 2, alo, ahi) {
        Ok(x) => x,
        Err(e) => {
            return Some(Err(e));
        },
    };
    Some(Ok(Inst::BranchIfNotEqual(x0, x1, x2)))
}

fn op_bge(s: &str, cs: &Vec<char>, pieces: &Vec<(usize, usize)>, alo: usize, ahi: usize) -> (r: Option<Result<LabeledInst, String>>)
    requires
        cs@ == s@,
        alo <= ahi <= cs@.len(),
        pieces_spell(cs@, pieces@, split_char(cs@.subrange(alo as int, ahi as int), ',')),
    ensures
        opt_inst_result_is(r, spec_op_bge(split_char(cs@.subrange(alo as int, ahi as int), ','))),
{
    reveal(spec_op_bge);
    let x0 = match reg_arg(s, cs, pieces, 0, alo, ahi) {
        Ok(x) => x,
        Err(e) => {
            return Some(Err(e));
        },
    };
    let x1 = match reg_arg(s, cs, pieces, 1, alo, ahi) {
        Ok(x) => x,
        Err(e) => {
            return Some(Err(e));
        },
    };
    let x2 = match label_arg(s, cs, pieces, 2, alo, ahi) {
        Ok(x) => x,
        Err(e) => {
            return Some(Err(e));
        },
    };
    Some(Ok(Inst::BranchIfGreaterEqual(x0, x1, x2)))
}

fn op_ble(s: &str, cs: &Vec<char>, pieces: &Vec<(usize, usize)>, alo: usize, ahi: usize) -> (r: Option<Result<LabeledInst, String>>)
    requires
        cs@ == s@,
        alo <= ahi <= cs@.len(),
        pieces_spell(cs@, pieces@, split_char(cs@.subrange(alo as int, ahi as int), ',')),
    ensures
        opt_inst_result_is(r, spec_op_ble(split_char(cs@.subrange(alo as int, ahi as int), ','))),
{
    reveal(spec_op_ble);
    let x0 = match reg_arg(s, cs, pieces, 1, alo, ahi) {
        Ok(x) => x,
        Err(e) => {
            return Some(Err(e));
        },
    };
    let x1 = match reg_arg(s, cs, pieces, 0, alo, ahi) {
        Ok(x) => x,
        Err(e) => {
            return Some(Err(e));
        },
    };
    let x2 = match label_arg(s, cs, pieces, 2, alo, ahi) {
        Ok(x) => x,
        Err(e) => {
            return Some(Err(e));
        },
    };
    Some(Ok(Inst::BranchIfGreaterEqual(x0, x1, x2)))
}

fn op_blt(s: &str, cs: &Vec<char>, pieces: &Vec<(usize, usize)>, alo: usize, ahi: usize) -> (r: Option<Result<LabeledInst, String>>)
    requires
        cs@ == s@,
        alo <= ahi <= cs@.len(),
        pieces_spell(cs@, pieces@, split_char(cs@.subrange(alo as int, ahi as int), ',')),
    ensures
        opt_inst_result_is(r, spec_op_blt(split_char(cs@.subrange(alo as int, ahi as int), ','))),
{
    reveal(spec_op_blt);
    let x0 = match reg_arg(s, cs, pieces, 0, alo, ahi) {
        Ok(x) => x,
        Err(e) => {
            return Some(Err(e));
        },
    };
    let x1 = match reg_arg(s, cs, pieces, 1, alo, ahi) {
        Ok(x) => x,
        Err(e) => {
            return Some(Err(e));
        },
    };
    let x2 = match label_arg(s, cs, pieces, 2, alo, ahi) {
        Ok(x) => x,
        Err(e) => {
            return Some(Err(e));
        },
    };
    Some(Ok(Inst::BranchIfLess(x0, x1, x2)))
}

fn op_bgt(s: &str, cs: &Vec<char>, pieces: &Vec<(usize, usize)>, alo: usize, ahi: usize) -> (r: Option<Result<LabeledInst, String>>)
    requires
        cs@ == s@,
        alo <= ahi <= cs@.len(),
        pieces_spell(cs@, pieces@, split_char(cs@.subrange(alo as int, ahi as int), ',')),
    ensures
        opt_inst_result_is(r, spec_op_bgt(split_char(cs@.subrange(alo as int, ahi as int), ','))),
{
    reveal(spec_op_bgt);
    let x0 = match reg_arg(s, cs, pieces, 1, alo, ahi) {
        Ok(x) => x,
        Err(e) => {
            return Some(Err(e));
        },
    };
    let x1 = match reg_arg(s, cs, pieces, 0, alo, ahi) {
        Ok(x) => x,
        Err(e) => {
            return Some(Err(e));
        },
    };
    let x2 = match label_arg(s, cs, pieces, 2, alo, ahi) {
        Ok(x) => x,
        Err(e) => {
            return Some(Err(e));
        },
    };
    Some(Ok(Inst::BranchIfLess(x0, x1, x2)))
}

fn op_seqz(s: &str, cs: &Vec<char>, pieces: &Vec<(usize, usize)>, alo: usize, ahi: usize) -> (r: Option<Result<LabeledInst, String>>)
    requires
        cs@ == s@,
        alo <= ahi <= cs@.len(),
        pieces_spell(cs@, pieces@, split_char(cs@.subrange(alo as int, ahi as int), ',')),
    ensures
        opt_inst_result_is(r, spec_op_seqz(split_char(cs@.subrange(alo as int, ahi as int), ','))),
{
    reveal(spec_op_seqz);
    let x0 = match reg_arg(s, cs, pieces, 0, alo, ahi) {
        Ok(x) => x,
        Err(e) => {
            return Some(Err(e));
        },
    };
    let x1 = match reg_arg(s, cs, pieces, 1, alo, ahi) {
        Ok(x) => x,
        Err(e) => {
            return Some(Err(e));
        },
    };
    Some(Ok(Inst::SetLessThanImmU(x0, x1, Imm(1))))
}

impl LabeledInst {
    /// Parses one line of assembly (see `spec_parse_inst`); `None` where
    /// reading it panics: `ret`, or an immediate that overflows.
    #[verifier::rlimit(100)]
    #[verifier::spinoff_prover]
    pub fn parse_opt(s: &str) -> (r: Option<Result<LabeledInst, String>>)
        ensures
            opt_inst_result_is(r, spec_parse_inst(s@)),
    {
        let cs = str_chars(s);
        let n = cs.len();
        proof {
            crate::text::lemma_find_char(s@, ' ');
            assert(cs@.subrange(0, n as int) == s@);
        }
        let (olen, alo, ahi) = match find_char_in(&cs, 0, n, ' ') {
            Some(i) => (i, i + 1, n),
            None => (n, n, n),
        };
        let ghost op = s@.subrange(0, olen as int);
        proof {
            assert(cs@.subrange(0, n as int) == s@);
            assert(cs@.subrange(0, olen as int) == op);
            if olen == n {
                assert(op == s@);
                assert(cs@.subrange(alo as int, ahi as int) == Seq::<char>::empty());
            }
        }
        let pieces = split_commas(&cs, alo, ahi);
        let ghost args = split_char(cs@.subrange(alo as int, ahi as int), ',');
        assert(spec_parse_inst(s@) == spec_parse_op(op, args));
        if op_is(&cs, 0, olen, "lb") {
            op_lb(s, &cs, &pieces, alo, ahi)
        } else if op_is(&cs, 0, olen, "lh") {
            op_lh(s, &cs, &pieces, alo, ahi)
        } else if op_is(&cs, 0, olen, "lw") {
            op_lw(s, &cs, &pieces, alo, ahi)
        } else if op_is(&cs, 0, olen, "sb") {
            op_sb(s, &cs, &pieces, alo, ahi)
        } else if op_is(&cs, 0, olen, "sh") {
            op_sh(s, &cs, &pieces, alo, ahi)
        } else if op_is(&cs, 0, olen, "sw") {
            op_sw(s, &cs, &pieces, alo, ahi)
        } else if op_is(&cs, 0, olen, "add") {
            op_add(s, &cs, &pieces, alo, ahi)
        } else if op_is(&cs, 0, olen, "sub") {
            op_sub(s, &cs, &pieces, alo, ahi)
        } else if op_is(&cs, 0, olen, "neg") {
            op_neg(s, &cs, &pieces, alo, ahi)
        } else if op_is(&cs, 0, olen, "addi") {
            op_addi(s, &cs, &pieces, alo, ahi)
        } else if op_is(&cs, 0, olen, "andi") {
            op_andi(s, &cs, &pieces, alo, ahi)
        } else if op_is(&cs, 0, olen, "slli") {
            op_slli(s, &cs, &pieces, alo, ahi)
        } else if op_is(&cs, 0, olen, "mul") {
            op_mul(s, &cs, &pieces, alo, ahi)
        } else if op_is(&cs, 0, olen, "rem") {
            op_rem(s, &cs, &pieces, alo, ahi)
        } else if op_is(&cs, 0, olen, "li") {
            op_li(s, &cs, &pieces, alo, ahi)
        } else if op_is(&cs, 0, olen, "mv") {
            op_mv(s, &cs, &pieces, alo, ahi)
        } else if op_is(&cs, 0, olen, "j") {
            op_j(s, &cs, &pieces, alo, ahi)
        } else if op_is(&cs, 0, olen, "jal") {
            op_jal(s, &cs, &pieces, alo, ahi)
        } else if op_is(&cs, 0, olen, "beq") {
            op_beq(s, &cs, &pieces, alo, ahi)
        } else if op_is(&cs, 0, olen, "bne") {
            op_bne(s, &cs, &pieces, alo, ahi)
        } else if op_is(&cs, 0, olen, "bge") {
            op_bge(s, &cs, &pieces, alo, ahi)
        } else if op_is(&cs, 0, olen, "ble") {
            op_ble(s, &cs, &pieces, alo, ahi)
        } else if op_is(&cs, 0, olen, "blt") {
            op_blt(s, &cs, &pieces, alo, ahi)
        } else if op_is(&cs, 0, olen, "bgt") {
            op_bgt(s, &cs, &pieces, alo, ahi)
        } else if op_is(&cs, 0, olen, "seqz") {
            op_seqz(s, &cs, &pieces, alo, ahi)
        } else if op_is(&cs, 0, olen, "nop") {
            Some(Ok(Inst::AddImm(ArchReg::Zero, ArchReg::Zero, Imm(0))))
        } else if op_is(&cs, 0, olen, "ret") {
            None
        } else {
            Some(Err(concat3("unknown instruction: '", s.substring_char(0, olen), "'")))
        }
    }

    /// Parses one line of assembly that does not panic (see
    /// `spec_parse_inst`).
    pub fn from_str(s: &str) -> (r: Result<LabeledInst, String>)
        requires
            spec_parse_inst(s@) is Some,
        ensures
            inst_result_is(r, spec_parse_inst(s@)),
    {
        match Self::parse_opt(s) {
            Some(r) => r,
            None => {
                proof {
                    assert(false);
                }
                Err(String::new())
            },
        }
    }
}

} // verus!
