//! Read-after-write hazards between two instructions in an in-order pipeline.
use crate::inst::{dst_reg, ArchReg, Inst};
use vstd::prelude::*;

verus! {

/// The registers `i` reads.
pub open spec fn src_regs(i: Inst) -> Seq<ArchReg> {
    match i {
        Inst::StoreByte(src, dst) | Inst::StoreHalfWord(src, dst) | Inst::StoreWord(src, dst) => seq![src, dst.base],
        Inst::LoadByte(_, src) | Inst::LoadHalfWord(_, src) | Inst::LoadWord(_, src) => seq![src.base],
        Inst::BranchIfNotEqual(s0, s1, _)
        | Inst::BranchIfEqual(s0, s1, _)
        | Inst::BranchIfGreaterEqual(s0, s1, _)
        | Inst::BranchIfLess(s0, s1, _)
        | Inst::Add(_, s0, s1)
        | Inst::Sub(_, s0, s1)
        | Inst::Mul(_, s0, s1)
        | Inst::Rem(_, s0, s1) => seq![s0, s1],
        Inst::ShiftLeftLogicalImm(_, src, _)
        | Inst::AddImm(_, src, _)
        | Inst::AndImm(_, src, _)
        | Inst::SetLessThanImmU(_, src, _) => seq![src],
        Inst::Jump(_) | Inst::JumpAndLink(_, _) | Inst::Halt => seq![],
    }
}

/// `a` reads a register (other than `zero`) that `b` writes.
pub open spec fn reads_what_writes(a: Inst, b: Inst) -> bool {
    exists|k: int|
        0 <= k < src_regs(a).len() && src_regs(a)[k] != ArchReg::Zero && dst_reg(b) == Some(
            src_regs(a)[k],
        )
}

/// Whether `a` must wait for `b`: both present and `a` reads what `b` writes.
pub fn read_after_write(a: &Option<Inst>, b: &Option<Inst>) -> (r: bool)
    ensures
        r == (a is Some && b is Some && reads_what_writes(a->0, b->0)),
{
    let (a, b) = match (a, b) {
        (Some(a), Some(b)) => (a, b),
        _ => return false,
    };
    let ghost srcs = src_regs(*a);
    let r = match *a {
        Inst::StoreByte(src, dst) | Inst::StoreHalfWord(src, dst) | Inst::StoreWord(src, dst) => {
            b.writes_reg(src) || b.writes_reg(dst.base)
        },
        Inst::LoadByte(_, src) | Inst::LoadHalfWord(_, src) | Inst::LoadWord(_, src) => {
            b.writes_reg(src.base)
        },
        Inst::BranchIfNotEqual(src0, src1, _)
        | Inst::BranchIfEqual(src0, src1, _)
        | Inst::BranchIfGreaterEqual(src0, src1, _)
        | Inst::BranchIfLess(src0, src1, _)
        | Inst::Add(_, src0, src1)
        | Inst::Sub(_, src0, src1)
        | Inst::Mul(_, src0, src1)
        | Inst::Rem(_, src0, src1) => b.writes_reg(src0) || b.writes_reg(src1),
        Inst::ShiftLeftLogicalImm(_, src, _)
        | Inst::AddImm(_, src, _)
        | Inst::AndImm(_, src, _)
        | Inst::SetLessThanImmU(_, src, _) => b.writes_reg(src),
        Inst::Jump(_) | Inst::JumpAndLink(_, _) | Inst::Halt => false,
    };
    proof {
        if r {
            if srcs.len() > 0 && srcs[0] != ArchReg::Zero && dst_reg(*b) == Some(srcs[0]) {
                assert(reads_what_writes(*a, *b));
            } else {
                assert(srcs[1] != ArchReg::Zero && dst_reg(*b) == Some(srcs[1]));
                assert(reads_what_writes(*a, *b));
            }
        }
    }
    r
}

} // verus!
