//! A five-stage in-order pipeline (fetch, decode, execute, memory,
//! writeback) that stalls on read-after-write hazards and on every jump or
//! branch until it resolves.
pub mod stages;

use crate::cpu::{Cpu, ExecResult, Stats};
use crate::emulated::{branch_taken, fetch_spec, initial, lemma_steps_extend, ref_addr, reg_read, reg_write, step, step_ok, steps, EmuState};
use crate::execution_unit::signed_ge;
use crate::hazard::{read_after_write, reads_what_writes, src_regs};
use crate::inst::{dst_reg, ArchReg, Inst, Pc, INST_SIZE};
use crate::mem::{le_value, word_written, MainMemory};
use crate::program::{inst_at, Program};
use crate::regs::RegSet;
use crate::util::Addr;
use vstd::prelude::*;

verus! {

/// The cycle limit: a third of the largest cycle count, so that the
/// emulator's count (at most three cycles per instruction, one instruction
/// retired per cycle) still fits in 64 bits. A run still going when the
/// counter reaches it stops without a result.
pub const MAX_PIPELINED_CYCLES: u64 = 0x5555_5555_5555_5554;

/// The state carried from one cycle to the next.
#[derive(Debug, Copy, Clone)]
pub struct Pipeline {
    pub fetch: stages::Fetch,
    pub decode: stages::Decode,
    pub execute: stages::Execute,
    pub memory: stages::Memory,
    pub writeback: stages::Writeback,
}

/// The pipelined processor.
pub struct Pipelined {
    regs: RegSet,
    mem: MainMemory,
    prog: Program,
    is_stalled: bool,
}

/// The value the execute stage computes for `inst` with registers `regs`:
/// arithmetic as the emulator does it, 1 or 0 for a comparison, the value
/// to store for a store, and 0 for anything else.
pub open spec fn execute_value(inst: Inst, regs: Map<ArchReg, u32>) -> u32 {
    match inst {
        Inst::Add(_, a, b) => reg_read(regs, a).wrapping_add(reg_read(regs, b)),
        Inst::Sub(_, a, b) => reg_read(regs, a).wrapping_sub(reg_read(regs, b)),
        Inst::AddImm(_, a, i) => reg_read(regs, a).wrapping_add(i.0),
        Inst::AndImm(_, a, i) => reg_read(regs, a) & i.0,
        Inst::ShiftLeftLogicalImm(_, a, i) => reg_read(regs, a).wrapping_shl(i.0),
        Inst::Mul(_, a, b) => reg_read(regs, a).wrapping_mul(reg_read(regs, b)),
        Inst::Rem(_, a, b) => if reg_read(regs, b) == 0 {
            reg_read(regs, a)
        } else {
            reg_read(regs, a) % reg_read(regs, b)
        },
        Inst::SetLessThanImmU(_, a, i) => if reg_read(regs, a) < i.0 {
            1
        } else {
            0
        },
        Inst::BranchIfEqual(_, _, _) | Inst::BranchIfNotEqual(_, _, _) | Inst::BranchIfGreaterEqual(_, _, _)
        | Inst::BranchIfLess(_, _, _) => if branch_taken(inst, regs) {
            1
        } else {
            0
        },
        Inst::StoreByte(s, _) | Inst::StoreHalfWord(s, _) | Inst::StoreWord(s, _) => reg_read(regs, s),
        _ => 0,
    }
}

/// The address the execute stage computes for a load or store (0 otherwise).
pub open spec fn execute_addr(inst: Inst, regs: Map<ArchReg, u32>) -> u32 {
    match inst {
        Inst::LoadByte(_, m) | Inst::LoadHalfWord(_, m) | Inst::LoadWord(_, m) | Inst::StoreByte(_, m)
        | Inst::StoreHalfWord(_, m) | Inst::StoreWord(_, m) => ref_addr(regs, m),
        _ => 0,
    }
}

/// Whether the memory stage can make the access of `inst` at address `a`
/// in a memory of `len` bytes: aligned and inside memory, and not a half-word store.
pub open spec fn access_ok(inst: Inst, a: u32, len: nat) -> bool {
    match inst {
        Inst::LoadByte(_, _) | Inst::StoreByte(_, _) => a < len,
        Inst::LoadHalfWord(_, _) => a % 2 == 0 && a + 1 < len,
        Inst::LoadWord(_, _) | Inst::StoreWord(_, _) => a % 4 == 0 && a + 3 < len,
        Inst::StoreHalfWord(_, _) => false,
        _ => true,
    }
}

/// The value writeback writes for `inst` run from `st`: for a load, what
/// memory holds at its address; otherwise what execute computed.
pub open spec fn written_value(inst: Inst, st: EmuState) -> u32 {
    let a = execute_addr(inst, st.regs) as int;
    match inst {
        Inst::LoadByte(_, _) => st.mem[a] as u32,
        Inst::LoadHalfWord(_, _) => le_value(st.mem, a, 2) as u32,
        Inst::LoadWord(_, _) => le_value(st.mem, a, 4) as u32,
        _ => execute_value(inst, st.regs),
    }
}

/// The state after `i`, if there is one.
spec fn after(st: EmuState, i: Option<Inst>) -> EmuState {
    match i {
        Some(i) => step(i, st),
        None => st,
    }
}

/// `i`, if present, is what fetch finds where `st` stands.
spec fn fetched_from(prog: Seq<Inst>, st: EmuState, i: Option<Inst>) -> bool {
    i matches Some(x) ==> st.pc % INST_SIZE == 0 && st.pc + INST_SIZE <= u32::MAX && inst_at(prog, st.pc) == x
}

/// `i` is a jump or branch.
spec fn is_jump(i: Option<Inst>) -> bool {
    i matches Some(x) && x.spec_is_branch()
}

/// Fetch cannot go on: it is not waiting on a jump, and the address to
/// fetch from is misaligned or too close to the top of the address space.
spec fn fetch_fails(pipe: Pipeline, stalled: bool) -> bool {
    let pc = match pipe.writeback.jump_target {
        Some(t) => t,
        None => pipe.fetch.next_pc,
    };
    !(pipe.writeback.jump_target is None && stalled) && !(pc % INST_SIZE == 0 && pc + INST_SIZE <= u32::MAX)
}

/// How far the instructions in flight have come: one for each in fetch,
/// two for decode, three for execute, four for memory.
spec fn occupancy(p: Pipeline) -> int {
    (if p.fetch.inst is Some {
        1int
    } else {
        0int
    }) + (if p.decode.inst is Some {
        2int
    } else {
        0int
    }) + (if p.execute.inst is Some {
        3int
    } else {
        0int
    }) + (if p.memory.inst is Some {
        4int
    } else {
        0int
    })
}

/// An instruction that reads nothing `b` writes computes the same value and
/// address before and after `b`.
proof fn lemma_independent(a: Inst, b: Inst, st: EmuState)
    requires
        !reads_what_writes(a, b),
    ensures
        execute_value(a, step(b, st).regs) == execute_value(a, st.regs),
        execute_addr(a, step(b, st).regs) == execute_addr(a, st.regs),
{
    let r0 = st.regs;
    let r1 = step(b, st).regs;
    assert(r1 == r0 || (dst_reg(b) matches Some(d) && exists|v: u32| r1 == reg_write(r0, d, v)));
    assert forall|k: int| 0 <= k < src_regs(a).len() implies reg_read(r1, #[trigger] src_regs(a)[k]) == reg_read(
        r0,
        src_regs(a)[k],
    ) by {
        if r1 != r0 {
            let d = dst_reg(b)->0;
            let v = choose|v: u32| r1 == reg_write(r0, d, v);
            crate::emulated::lemma_reg_read_after_write(r0, d, v, src_regs(a)[k]);
        }
    }
    if src_regs(a).len() > 0 {
        assert(reg_read(r1, src_regs(a)[0]) == reg_read(r0, src_regs(a)[0]));
    }
    if src_regs(a).len() > 1 {
        assert(reg_read(r1, src_regs(a)[1]) == reg_read(r0, src_regs(a)[1]));
    }
}

impl Pipelined {
    /// Not in the middle of a run: fetch waits on no jump.
    pub closed spec fn is_fresh(&self) -> bool {
        !self.is_stalled
    }

    /// The pipeline holds, oldest first, the instructions the emulator runs
    /// from `e`: the registers are `e`'s, memory has the oldest one's access
    /// done, each stage holds what it computed, and fetch either follows the
    /// instructions in flight or waits on the one jump or branch among them.
    spec fn tracks(&self, pipe: Pipeline, e: EmuState) -> bool {
        let prog = self.prog.insts@;
        let m = pipe.memory.inst;
        let x = pipe.execute.inst;
        let d = pipe.decode.inst;
        let f = pipe.fetch.inst;
        let e1 = after(e, m);
        let e2 = after(e1, x);
        let e3 = after(e2, d);
        let next = pipe.fetch.next_pc;
        &&& self.regs.contents() == e.regs
        &&& self.mem@ == e1.mem
        &&& fetched_from(prog, e, m)
        &&& fetched_from(prog, e1, x)
        &&& fetched_from(prog, e2, d)
        &&& fetched_from(prog, e3, f)
        &&& (m matches Some(i) ==> access_ok(i, execute_addr(i, e.regs), e.mem.len()) && pipe.memory.alu_or_mem_val
            == written_value(i, e))
        &&& (x matches Some(i) ==> pipe.execute.alu_or_mem_val == execute_value(i, e1.regs)
            && pipe.execute.mem_addr.0 == execute_addr(i, e1.regs))
        &&& match pipe.writeback.jump_target {
            Some(t) => t == e.pc && self.is_stalled && m is None && x is None && d is None && f is None,
            None => if self.is_stalled {
                f is None && ((is_jump(d) && !is_jump(m) && !is_jump(x) && next == e2.pc + INST_SIZE) || (d is None
                    && is_jump(x) && !is_jump(m) && next == e1.pc + INST_SIZE) || (d is None && x is None && is_jump(m)
                    && next == e.pc + INST_SIZE))
            } else {
                !is_jump(m) && !is_jump(x) && !is_jump(d) && next == (if f is Some {
                    e3.pc + INST_SIZE
                } else {
                    e3.pc as int
                })
            },
        }
    }

    /// The register values.
    pub closed spec fn registers(&self) -> Map<ArchReg, u32> {
        self.regs.contents()
    }

    /// Main memory.
    pub closed spec fn memory(&self) -> Seq<u8> {
        self.mem@
    }

    /// The program.
    pub closed spec fn program(&self) -> Seq<Inst> {
        self.prog.insts@
    }

    /// The instruction at `pc`, or `halt` past the end of the program;
    /// `None` for a misaligned address.
    fn fetch_or_halt(&self, pc: u32) -> (r: Option<Inst>)
        ensures
            pc % INST_SIZE != 0 ==> r is None,
            pc % INST_SIZE == 0 ==> r == Some(inst_at(self.prog.insts@, pc)),
    {
        if pc % INST_SIZE != 0 {
            return None;
        }
        match self.prog.fetch(Pc(pc)) {
            Some(i) => Some(*i),
            None => Some(Inst::Halt),
        }
    }

    /// Fetches at the target of a resolved jump, holds while stalled, or
    /// fetches the next address; `None` at a misaligned or overflowing address.
    fn stage_fetch(&mut self, pipe: &Pipeline) -> (r: Option<stages::Fetch>)
        ensures
            final(self).regs == old(self).regs,
            final(self).mem == old(self).mem,
            final(self).prog == old(self).prog,
            final(self).is_stalled == (old(self).is_stalled && pipe.writeback.jump_target is None),
            ({
                let pc = match pipe.writeback.jump_target {
                    Some(t) => t,
                    None => pipe.fetch.next_pc,
                };
                if pipe.writeback.jump_target is None && old(self).is_stalled {
                    r == Some(pipe.fetch)
                } else if pc % INST_SIZE == 0 && pc + INST_SIZE <= u32::MAX {
                    r matches Some(f) && f.inst == Some(inst_at(old(self).prog.insts@, pc)) && f.next_pc == pc
                        + INST_SIZE
                } else {
                    r is None
                }
            }),
    {
        match pipe.writeback.jump_target {
            Some(tgt) => {
                self.is_stalled = false;
                if tgt > u32::MAX - INST_SIZE {
                    return None;
                }
                let inst = self.fetch_or_halt(tgt)?;
                Some(stages::Fetch { inst: Some(inst), next_pc: tgt + INST_SIZE })
            },
            None => {
                if self.is_stalled {
                    Some(pipe.fetch)
                } else {
                    let pc = pipe.fetch.next_pc;
                    if pc > u32::MAX - INST_SIZE {
                        return None;
                    }
                    let inst = self.fetch_or_halt(pc)?;
                    Some(stages::Fetch { inst: Some(inst), next_pc: pc + INST_SIZE })
                }
            },
        }
    }

    /// Passes the fetched instruction on; a jump or branch stalls fetch.
    fn stage_decode(&self, pipe: &Pipeline) -> (r: stages::Decode)
        ensures
            r.inst == pipe.fetch.inst,
            r.should_stall == (pipe.fetch.inst matches Some(i) && i.spec_is_branch()),
    {
        match pipe.fetch.inst {
            Some(inst) => stages::Decode { should_stall: inst.is_branch(), inst: Some(inst) },
            None => stages::Decode { inst: None, should_stall: false },
        }
    }

    /// Reads the operands of the decoded instruction and computes its value
    /// and address; stalls while an instruction ahead still has to write one
    /// of them.
    fn stage_execute(&self, pipe: &Pipeline) -> (r: stages::Execute)
        ensures
            ({
                let hazard = (pipe.decode.inst is Some && pipe.execute.inst is Some && reads_what_writes(
                    pipe.decode.inst->0,
                    pipe.execute.inst->0,
                )) || (pipe.decode.inst is Some && pipe.memory.inst is Some && reads_what_writes(
                    pipe.decode.inst->0,
                    pipe.memory.inst->0,
                ));
                &&& r.should_stall == hazard
                &&& hazard ==> r.inst is None
                &&& !hazard ==> r.inst == pipe.decode.inst
                &&& (!hazard && pipe.decode.inst is Some) ==> r.alu_or_mem_val == execute_value(
                    pipe.decode.inst->0,
                    self.registers(),
                ) && r.mem_addr.0 == execute_addr(pipe.decode.inst->0, self.registers())
            }),
    {
        if read_after_write(&pipe.decode.inst, &pipe.execute.inst) || read_after_write(
            &pipe.decode.inst,
            &pipe.memory.inst,
        ) {
            return stages::Execute { inst: None, should_stall: true, alu_or_mem_val: 0, mem_addr: Addr(0) };
        }
        let inst = match pipe.decode.inst {
            Some(inst) => inst,
            None => {
                return stages::Execute { inst: None, should_stall: false, alu_or_mem_val: 0, mem_addr: Addr(0) };
            },
        };
        let mut val: u32 = 0;
        let mut addr = Addr(0);
        match inst {
            Inst::Add(_, a, b) => {
                val = self.regs.get(a).wrapping_add(self.regs.get(b));
            },
            Inst::Sub(_, a, b) => {
                val = self.regs.get(a).wrapping_sub(self.regs.get(b));
            },
            Inst::AddImm(_, a, imm) => {
                val = self.regs.get(a).wrapping_add(imm.0);
            },
            Inst::AndImm(_, a, imm) => {
                val = self.regs.get(a) & imm.0;
            },
            Inst::ShiftLeftLogicalImm(_, a, imm) => {
                val = self.regs.get(a).wrapping_shl(imm.0);
            },
            Inst::Mul(_, a, b) => {
                val = self.regs.get(a).wrapping_mul(self.regs.get(b));
            },
            Inst::Rem(_, a, b) => {
                let x = self.regs.get(a);
                let y = self.regs.get(b);
                val = if y == 0 {
                    x
                } else {
                    x % y
                };
            },
            Inst::SetLessThanImmU(_, a, imm) => {
                val = if self.regs.get(a) < imm.0 {
                    1
                } else {
                    0
                };
            },
            Inst::BranchIfEqual(a, b, _) => {
                val = if self.regs.get(a) == self.regs.get(b) {
                    1
                } else {
                    0
                };
            },
            Inst::BranchIfNotEqual(a, b, _) => {
                val = if self.regs.get(a) != self.regs.get(b) {
                    1
                } else {
                    0
                };
            },
            Inst::BranchIfGreaterEqual(a, b, _) => {
                val = if (self.regs.get(a) as i32) >= (self.regs.get(b) as i32) {
                    1
                } else {
                    0
                };
            },
            Inst::BranchIfLess(a, b, _) => {
                val = if (self.regs.get(a) as i32) < (self.regs.get(b) as i32) {
                    1
                } else {
                    0
                };
            },
            Inst::LoadByte(_, m) | Inst::LoadHalfWord(_, m) | Inst::LoadWord(_, m) => {
                addr = self.regs.ref_to_addr(m);
            },
            Inst::StoreByte(s, m) | Inst::StoreHalfWord(s, m) | Inst::StoreWord(s, m) => {
                addr = self.regs.ref_to_addr(m);
                val = self.regs.get(s);
            },
            Inst::Jump(_) | Inst::JumpAndLink(_, _) | Inst::Halt => {},
        }
        stages::Execute { inst: Some(inst), should_stall: false, alu_or_mem_val: val, mem_addr: addr }
    }

    /// Does the memory access of the executed instruction: a load reads its
    /// value, a store writes. `None` for an access outside memory or
    /// misaligned, and for a half-word store, which memory cannot do.
    fn stage_memory(&mut self, pipe: &Pipeline) -> (r: Option<stages::Memory>)
        ensures
            final(self).mem@.len() == old(self).mem@.len(),
            final(self).registers() == old(self).registers(),
            final(self).prog == old(self).prog,
            final(self).is_stalled == old(self).is_stalled,
            r is None <==> (pipe.execute.inst matches Some(i) && !access_ok(i, pipe.execute.mem_addr.0, old(self).mem@.len())),
            r matches Some(m) ==> m.inst == pipe.execute.inst && ({
                let a = pipe.execute.mem_addr.0 as int;
                let v = pipe.execute.alu_or_mem_val;
                match pipe.execute.inst {
                    Some(Inst::LoadByte(_, _)) => m.alu_or_mem_val == old(self).mem@[a] && final(self).mem == old(self).mem,
                    Some(Inst::LoadHalfWord(_, _)) => m.alu_or_mem_val == le_value(old(self).mem@, a, 2) && final(self).mem == old(self).mem,
                    Some(Inst::LoadWord(_, _)) => m.alu_or_mem_val == le_value(old(self).mem@, a, 4) && final(self).mem == old(self).mem,
                    Some(Inst::StoreByte(_, _)) => m.alu_or_mem_val == v && final(self).mem@ == old(self).mem@.update(a, (v % 256) as u8),
                    Some(Inst::StoreWord(_, _)) => m.alu_or_mem_val == v && final(self).mem@ == word_written(old(self).mem@, a, v),
                    _ => m.alu_or_mem_val == v && final(self).mem == old(self).mem,
                }
            }),
    {
        let inst = match pipe.execute.inst {
            Some(inst) => inst,
            None => {
                return Some(stages::Memory { inst: None, alu_or_mem_val: pipe.execute.alu_or_mem_val });
            },
        };
        let addr = pipe.execute.mem_addr;
        let mut val = pipe.execute.alu_or_mem_val;
        let a = addr.0;
        let len = self.mem.len();
        match inst {
            Inst::LoadByte(_, _) => {
                if (a as usize) >= len {
                    return None;
                }
                val = self.mem.readb(addr);
            },
            Inst::LoadHalfWord(_, _) => {
                if a % 2 != 0 || len < 2 || (a as usize) >= len - 1 {
                    return None;
                }
                val = self.mem.readh(addr);
            },
            Inst::LoadWord(_, _) => {
                if a % 4 != 0 || len < 4 || (a as usize) >= len - 3 {
                    return None;
                }
                val = self.mem.readw(addr);
            },
            Inst::StoreByte(_, _) => {
                if (a as usize) >= len {
                    return None;
                }
                self.mem.writeb(addr, val);
            },
            Inst::StoreHalfWord(_, _) => {
                return None;
            },
            Inst::StoreWord(_, _) => {
                if a % 4 != 0 || len < 4 || (a as usize) >= len - 3 {
                    return None;
                }
                self.mem.writew(addr, val);
            },
            _ => {},
        }
        Some(stages::Memory { inst: Some(inst), alu_or_mem_val: val })
    }

    /// Retires the instruction: writes its destination register and, for a
    /// jump or branch, gives where to fetch next (the link of `jal` and the
    /// fall-through of a branch are the address fetch stopped at). `halt`
    /// ends the run.
    fn stage_writeback(&mut self, pipe: &Pipeline) -> (r: stages::Writeback)
        ensures
            final(self).mem == old(self).mem,
            final(self).prog == old(self).prog,
            final(self).is_stalled == old(self).is_stalled,
            r.should_halt == (pipe.memory.inst == Some(Inst::<ArchReg, ArchReg, Pc>::Halt)),
            r.retire == (pipe.memory.inst is Some && pipe.memory.inst != Some(Inst::<ArchReg, ArchReg, Pc>::Halt)),
            ({
                let v = pipe.memory.alu_or_mem_val;
                let next = pipe.fetch.next_pc;
                match pipe.memory.inst {
                    Some(Inst::Add(d, _, _)) | Some(Inst::Sub(d, _, _)) | Some(Inst::AddImm(d, _, _))
                    | Some(Inst::AndImm(d, _, _)) | Some(Inst::ShiftLeftLogicalImm(d, _, _))
                    | Some(Inst::Mul(d, _, _)) | Some(Inst::Rem(d, _, _)) | Some(Inst::SetLessThanImmU(d, _, _))
                    | Some(Inst::LoadByte(d, _)) | Some(Inst::LoadHalfWord(d, _))
                    | Some(Inst::LoadWord(d, _)) => r.jump_target is None && final(self).registers()
                        == crate::emulated::reg_write(old(self).registers(), d, v),
                    Some(Inst::JumpAndLink(d, t)) => r.jump_target == Some(t.0) && final(self).registers()
                        == crate::emulated::reg_write(old(self).registers(), d, next),
                    Some(Inst::Jump(t)) => r.jump_target == Some(t.0) && final(self).registers() == old(self).registers(),
                    Some(Inst::BranchIfEqual(_, _, t)) | Some(Inst::BranchIfNotEqual(_, _, t))
                    | Some(Inst::BranchIfGreaterEqual(_, _, t)) | Some(Inst::BranchIfLess(_, _, t)) => r.jump_target == Some(
                        if v != 0 {
                            t.0
                        } else {
                            next
                        },
                    ) && final(self).registers() == old(self).registers(),
                    _ => r.jump_target is None && final(self).registers() == old(self).registers(),
                }
            }),
    {
        let inst = match pipe.memory.inst {
            Some(Inst::Halt) => {
                return stages::Writeback { jump_target: None, should_halt: true, retire: false };
            },
            Some(inst) => inst,
            None => {
                return stages::Writeback { jump_target: None, should_halt: false, retire: false };
            },
        };
        let val = pipe.memory.alu_or_mem_val;
        let mut jump_target: Option<u32> = None;
        match inst {
            Inst::Add(dst, _, _)
            | Inst::Sub(dst, _, _)
            | Inst::AddImm(dst, _, _)
            | Inst::AndImm(dst, _, _)
            | Inst::ShiftLeftLogicalImm(dst, _, _)
            | Inst::Mul(dst, _, _)
            | Inst::Rem(dst, _, _)
            | Inst::SetLessThanImmU(dst, _, _)
            | Inst::LoadByte(dst, _)
            | Inst::LoadHalfWord(dst, _)
            | Inst::LoadWord(dst, _) => {
                self.regs.set(dst, val);
            },
            Inst::JumpAndLink(dst, tgt) => {
                self.regs.set(dst, pipe.fetch.next_pc);
                jump_target = Some(tgt.0);
            },
            Inst::Jump(tgt) => {
                jump_target = Some(tgt.0);
            },
            Inst::BranchIfEqual(_, _, tgt)
            | Inst::BranchIfNotEqual(_, _, tgt)
            | Inst::BranchIfGreaterEqual(_, _, tgt)
            | Inst::BranchIfLess(_, _, tgt) => {
                jump_target = if val != 0 {
                    Some(tgt.0)
                } else {
                    Some(pipe.fetch.next_pc)
                };
            },
            _ => {},
        }
        stages::Writeback { jump_target, should_halt: false, retire: true }
    }
}

/// The emulator, run from `start`, reaches a state where it faults (a
/// misaligned program counter, or an instruction it cannot execute) or whose
/// program counter lies within eight instructions of the top of the address
/// space.
pub open spec fn reaches_fault_or_top(prog: Seq<Inst>, start: EmuState) -> bool {
    exists|k: nat|
        #[trigger] steps(prog, start, k) matches Some(s) && (s.pc % INST_SIZE != 0 || s.pc > u32::MAX - 8
            * INST_SIZE || (fetch_spec(prog, s.pc) matches Some(i) && !step_ok(i, s)))
}

/// From a state reached in `k` steps, the instruction fetched there is run
/// by the emulator, or the emulator faults there, or it is the `halt` past
/// the end of the program.
proof fn lemma_advance(prog: Seq<Inst>, start: EmuState, k: nat, s: EmuState, i: Inst)
    requires
        steps(prog, start, k) == Some(s),
        s.pc % INST_SIZE == 0,
        s.pc + INST_SIZE <= u32::MAX,
        inst_at(prog, s.pc) == i,
    ensures
        reaches_fault_or_top(prog, start) || (i == Inst::<ArchReg, ArchReg, Pc>::Halt && fetch_spec(prog, s.pc) is None)
            || steps(prog, start, k + 1) == Some(step(i, s)),
{
    if fetch_spec(prog, s.pc) is Some {
        if step_ok(i, s) {
            lemma_steps_extend(prog, start, k, s);
        } else {
            assert(steps(prog, start, k) matches Some(s0) && fetch_spec(prog, s0.pc) matches Some(j) && !step_ok(j, s0));
        }
    }
}

/// Walking one instruction further along the instructions in flight, none
/// of them a jump: the state after it is reached by the emulator, or lies
/// past the end of the program at most `j + 1` instructions beyond a state
/// the emulator reaches, or the emulator faults on the way.
proof fn lemma_walk(prog: Seq<Inst>, start: EmuState, k: nat, p: EmuState, s: EmuState, o: Option<Inst>, j: nat) -> (res: (nat, EmuState))
    requires
        steps(prog, start, k) == Some(p),
        p.pc % INST_SIZE == 0,
        s == p || (fetch_spec(prog, p.pc) is None && s.pc % INST_SIZE == 0 && p.pc <= s.pc <= p.pc + INST_SIZE * j),
        fetched_from(prog, s, o),
        !is_jump(o),
    ensures
        reaches_fault_or_top(prog, start) || ({
            let s2 = after(s, o);
            &&& steps(prog, start, res.0) == Some(res.1)
            &&& res.1.pc % INST_SIZE == 0
            &&& (s2 == res.1 || (fetch_spec(prog, res.1.pc) is None && s2.pc % INST_SIZE == 0 && res.1.pc <= s2.pc
                <= res.1.pc + INST_SIZE * (j + 1)))
        }),
{
    match o {
        None => (k, p),
        Some(i) => {
            if s == p {
                lemma_advance(prog, start, k, p, i);
                if steps(prog, start, k + 1) == Some(step(i, p)) && !(i == Inst::<ArchReg, ArchReg, Pc>::Halt && fetch_spec(prog, p.pc) is None) {
                    (k + 1, step(i, p))
                } else {
                    (k, p)
                }
            } else {
                assert(s.pc / INST_SIZE >= p.pc / INST_SIZE);
                assert(i == Inst::<ArchReg, ArchReg, Pc>::Halt);
                (k, p)
            }
        },
    }
}

impl Pipelined {
    /// A cycle that fails leaves the emulator faulting, or near the top of
    /// the address space, somewhere along the instructions in flight.
    proof fn lemma_fault_reached(&self, pipe: Pipeline, e: EmuState, start: EmuState, n: nat)
        requires
            self.tracks(pipe, e),
            steps(self.prog.insts@, start, n) == Some(e),
            fetch_fails(pipe, self.is_stalled) || (pipe.execute.inst matches Some(i) && !access_ok(
                i,
                pipe.execute.mem_addr.0,
                self.mem@.len(),
            )),
        ensures
            reaches_fault_or_top(self.prog.insts@, start),
    {
        let prog = self.prog.insts@;
        let m = pipe.memory.inst;
        let x = pipe.execute.inst;
        let d = pipe.decode.inst;
        let e1 = after(e, m);
        let e2 = after(e1, x);
        let e3 = after(e2, d);
        if x is Some && !access_ok(x->0, pipe.execute.mem_addr.0, self.mem@.len()) {
            let xi = x->0;
            let (k1, p1) = lemma_walk(prog, start, n, e, e, m, 0);
            if !reaches_fault_or_top(prog, start) {
                if e1 == p1 {
                    assert(xi != Inst::<ArchReg, ArchReg, Pc>::Halt);
                    assert(fetch_spec(prog, e1.pc) == Some(xi));
                    assert(!step_ok(xi, e1));
                    assert(steps(prog, start, k1) matches Some(s0) && fetch_spec(prog, s0.pc) matches Some(j) && !step_ok(j, s0));
                } else {
                    assert(e1.pc / INST_SIZE >= p1.pc / INST_SIZE);
                }
            }
        } else if let Some(t) = pipe.writeback.jump_target {
            assert(steps(prog, start, n) matches Some(s0) && (s0.pc % INST_SIZE != 0 || s0.pc > u32::MAX - 8 * INST_SIZE));
        } else if e.pc % INST_SIZE != 0 {
            assert(steps(prog, start, n) matches Some(s0) && s0.pc % INST_SIZE != 0);
        } else {
            let (k1, p1) = lemma_walk(prog, start, n, e, e, m, 0);
            if !reaches_fault_or_top(prog, start) {
                let (k2, p2) = lemma_walk(prog, start, k1, p1, e1, x, 1);
                if !reaches_fault_or_top(prog, start) {
                    let (k3, p3) = lemma_walk(prog, start, k2, p2, e2, d, 2);
                    if !reaches_fault_or_top(prog, start) {
                        assert(steps(prog, start, k3) matches Some(s0) && (s0.pc % INST_SIZE != 0 || s0.pc > u32::MAX - 8 * INST_SIZE));
                    }
                }
            }
        }
    }
}

impl Pipelined {
    /// One cycle: every stage works on what the last cycle left, and the
    /// pipeline moves on unless execute waits on an operand (everything
    /// behind it holds) or decode found a jump or branch (fetch waits for
    /// it). `None` where fetch or a memory access faults; otherwise whether
    /// `halt` left writeback, whether an instruction retired, and the
    /// pipeline for the next cycle.
    #[verifier::rlimit(100)]
    #[verifier::spinoff_prover]
    fn cycle(&mut self, pipe: &Pipeline, Ghost(e): Ghost<EmuState>) -> (r: Option<(bool, bool, Pipeline)>)
        ensures
            final(self).prog == old(self).prog,
            final(self).mem@.len() == old(self).mem@.len(),
            r matches Some((halted, retired, _)) ==> halted == (pipe.memory.inst == Some(Inst::<ArchReg, ArchReg, Pc>::Halt))
                && retired == (pipe.memory.inst is Some && !halted),
            r matches Some((halted, retired, next)) ==> (old(self).tracks(*pipe, e) ==> if halted {
                final(self).regs.contents() == e.regs && (fetch_spec(old(self).prog.insts@, e.pc) is None
                    ==> final(self).mem@ == e.mem)
            } else {
                final(self).tracks(next, after(e, pipe.memory.inst)) && occupancy(next) + (if retired {
                    5int
                } else {
                    0int
                }) >= occupancy(*pipe) + 1
            }),
            r is None <==> (fetch_fails(*pipe, old(self).is_stalled) || (pipe.execute.inst matches Some(i)
                && !access_ok(i, pipe.execute.mem_addr.0, old(self).mem@.len()))),
    {
        let ghost tracked_before = self.tracks(*pipe, e);
        let ghost prog = self.prog.insts@;
        let ghost m = pipe.memory.inst;
        let ghost x = pipe.execute.inst;
        let ghost d = pipe.decode.inst;
        let ghost e1 = after(e, m);
        let ghost e2 = after(e1, x);
        let ghost stalled0 = self.is_stalled;
        let fetch = self.stage_fetch(pipe)?;
        let decode = self.stage_decode(pipe);
        let execute = self.stage_execute(pipe);
        let memory = self.stage_memory(pipe)?;
        let writeback = self.stage_writeback(pipe);
        if writeback.should_halt {
            proof {
                if tracked_before && fetch_spec(prog, e.pc) is None {
                    assert(((e.pc + INST_SIZE) as u32) / INST_SIZE >= prog.len());
                }
            }
            return Some((true, false, *pipe));
        }
        proof {
            if tracked_before {
                if let Some(di) = d {
                    if !execute.should_stall {
                        if let Some(xi) = x {
                            lemma_independent(di, xi, e1);
                        }
                        if let Some(mi) = m {
                            lemma_independent(di, mi, e);
                        }
                    }
                }
            }
        }
        let next = if execute.should_stall {
            Pipeline { fetch: pipe.fetch, decode: pipe.decode, execute, memory, writeback }
        } else if decode.should_stall {
            self.is_stalled = true;
            Pipeline {
                fetch: stages::Fetch { inst: None, next_pc: pipe.fetch.next_pc },
                decode,
                execute,
                memory,
                writeback,
            }
        } else {
            Pipeline { fetch, decode, execute, memory, writeback }
        };
        Some((false, writeback.retire, next))
    }
}

impl Cpu for Pipelined {
    closed spec fn ready(&self) -> bool {
        self.is_fresh()
    }

    fn new(prog: Program, regs: RegSet, mem: MainMemory) -> (r: Self)
        ensures
            r.registers() == regs.contents(),
            r.memory() == mem@,
            r.program() == prog.insts@,
            r.is_fresh(),
    {
        Self { regs, is_stalled: false, mem, prog }
    }

    /// Runs the pipeline cycle by cycle until `halt` leaves the writeback
    /// stage. `None` when fetch reaches a misaligned or overflowing address,
    /// a memory access faults, or the cycle counter reaches its limit
    /// (`MAX_PIPELINED_CYCLES`).
    /// A run that finishes ends where the emulator stops: past the end of
    /// the program (registers, memory and instructions retired as the
    /// emulator leaves them) or at a `halt` instruction of the program.
    fn exec_all(self) -> (r: Option<ExecResult>)
        ensures
            r matches Some(res) ==> res.stats.cycles_taken < MAX_PIPELINED_CYCLES && res.stats.insts_retired
                <= res.stats.cycles_taken,
            r matches Some(res) ==> self.is_fresh() ==> exists|n: nat| {
                let st = #[trigger] steps(self.program(), initial(self.registers(), self.memory()), n);
                &&& st matches Some(fin)
                &&& fin.pc % INST_SIZE == 0
                &&& (fetch_spec(self.program(), fin.pc) is None || fetch_spec(self.program(), fin.pc) == Some(
                    Inst::<ArchReg, ArchReg, Pc>::Halt,
                ))
                &&& res.regs.contents() == fin.regs
                &&& res.stats.insts_retired == fin.retired
                &&& res.stats.cycles_taken <= 5 * res.stats.insts_retired + 10
                &&& (fetch_spec(self.program(), fin.pc) is None ==> res.mem@ == fin.mem)
            },
            r is None ==> self.is_fresh() ==> ({
                let start = initial(self.registers(), self.memory());
                ||| reaches_fault_or_top(self.program(), start)
                ||| exists|n: nat| 5 * n + 10 >= MAX_PIPELINED_CYCLES && (#[trigger] steps(self.program(), start, n)) is Some
            }),
    {
        let mut cpu = self;
        let ghost prog = self.program();
        let ghost start = initial(self.registers(), self.memory());
        let ghost mut e = start;
        let ghost mut n: nat = 0;
        let mut cycles: u64 = 0;
        let mut insts_retired: u64 = 0;
        let mut pipe = Pipeline {
            fetch: stages::Fetch { inst: None, next_pc: 0 },
            decode: stages::Decode { inst: None, should_stall: false },
            execute: stages::Execute { inst: None, should_stall: false, alu_or_mem_val: 0, mem_addr: Addr(0) },
            memory: stages::Memory { inst: None, alu_or_mem_val: 0 },
            writeback: stages::Writeback { jump_target: None, should_halt: false, retire: false },
        };
        proof {
            reveal_with_fuel(steps, 1);
        }
        while cycles < MAX_PIPELINED_CYCLES
            invariant
                cpu.prog.insts@ == prog,
                prog == self.program(),
                start == initial(self.registers(), self.memory()),
                insts_retired <= cycles,
                cycles <= MAX_PIPELINED_CYCLES,
                self.is_fresh() ==> {
                    &&& cpu.tracks(pipe, e)
                    &&& steps(prog, start, n) == Some(e)
                    &&& n == insts_retired
                    &&& e.retired == n
                    &&& n <= e.cycles <= 3 * n
                    &&& 5 * n + occupancy(pipe) >= cycles
                },
            decreases MAX_PIPELINED_CYCLES - cycles,
        {
            let ghost m = pipe.memory.inst;
            proof {
                if self.is_fresh() {
                    assert(m matches Some(i) ==> e.pc % INST_SIZE == 0 && e.pc + INST_SIZE <= u32::MAX && inst_at(
                        prog,
                        e.pc,
                    ) == i && access_ok(i, execute_addr(i, e.regs), e.mem.len()));
                }
            }
            let ghost before = cpu;
            let (halted, retired, next) = match cpu.cycle(&pipe, Ghost(e)) {
                Some(c) => c,
                None => {
                    proof {
                        if self.is_fresh() {
                            before.lemma_fault_reached(pipe, e, start, n);
                        }
                    }
                    return None;
                },
            };
            if halted {
                let Pipelined { regs, mem, .. } = cpu;
                let mut stats = Stats::default();
                stats.cycles_taken = cycles;
                stats.insts_retired = insts_retired;
                let res = ExecResult { mem, regs, stats };
                proof {
                    if self.is_fresh() {
                        assert(steps(prog, start, n) == Some(e));
                    }
                }
                return Some(res);
            }
            proof {
                if self.is_fresh() && retired {
                    let i = m->0;
                    assert(fetch_spec(prog, e.pc) == Some(i));
                    assert(step_ok(i, e));
                    lemma_steps_extend(prog, start, n, e);
                    e = step(i, e);
                    n = n + 1;
                }
            }
            if retired {
                insts_retired = insts_retired + 1;
            }
            pipe = next;
            cycles = cycles + 1;
        }
        proof {
            if self.is_fresh() {
                assert(5 * n + 10 >= MAX_PIPELINED_CYCLES);
                assert(steps(prog, start, n) is Some);
            }
        }
        None
    }
}

} // verus!
