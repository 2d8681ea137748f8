//! The reference emulator: executes one instruction at a time, each taking
//! its latency in cycles.
use crate::cpu::{Cpu, CpuState, ExecResult, Stats};
use crate::execution_unit::signed_ge;
use crate::inst::{ArchReg, Inst, MemRef, Pc, INST_SIZE};
use crate::mem::{le_value, lemma_word_read_after_write, word_written, MainMemory};
use crate::program::Program;
use crate::regs::RegSet;
use vstd::prelude::*;

verus! {

/// The architectural state: registers (absent ones read 0), memory,
/// program counter, cycles taken and instructions retired.
pub struct EmuState {
    pub regs: Map<ArchReg, u32>,
    pub mem: Seq<u8>,
    pub pc: u32,
    pub cycles: u64,
    pub retired: u64,
}

/// The value of `r` (`zero` reads 0).
pub open spec fn reg_read(regs: Map<ArchReg, u32>, r: ArchReg) -> u32 {
    if r == ArchReg::Zero {
        0
    } else if regs.contains_key(r) {
        regs[r]
    } else {
        0
    }
}

/// `regs` after writing `v` to `d` (writes to `zero` are dropped).
pub open spec fn reg_write(regs: Map<ArchReg, u32>, d: ArchReg, v: u32) -> Map<ArchReg, u32> {
    if d == ArchReg::Zero {
        regs
    } else {
        regs.insert(d, v)
    }
}

/// A register reads what was last written to it; `zero` always reads 0;
/// writing one register leaves the others alone.
pub proof fn lemma_reg_read_after_write(regs: Map<ArchReg, u32>, d: ArchReg, v: u32, r: ArchReg)
    ensures
        reg_read(reg_write(regs, d, v), r) == if r == d && d != ArchReg::Zero {
            v
        } else {
            reg_read(regs, r)
        },
        reg_read(reg_write(regs, d, v), ArchReg::Zero) == 0,
{
}

/// The address `base + offset`, wrapping.
pub open spec fn ref_addr(regs: Map<ArchReg, u32>, m: MemRef) -> u32 {
    reg_read(regs, m.base).wrapping_add(m.offset.0)
}

/// The instruction at `pc` of `prog`, if any.
pub open spec fn fetch_spec(prog: Seq<Inst>, pc: u32) -> Option<Inst> {
    if (pc / INST_SIZE) < prog.len() {
        Some(prog[(pc / INST_SIZE) as int])
    } else {
        None
    }
}

/// Executing `inst` from `st` neither faults nor overflows: its memory
/// access is aligned and inside memory, it is not a half-word store (which
/// the memory cannot do) nor `halt`, the address after it fits in 32 bits,
/// and the counters have room.
pub open spec fn step_ok(inst: Inst, st: EmuState) -> bool {
    &&& st.pc % INST_SIZE == 0
    &&& st.pc + INST_SIZE <= u32::MAX
    &&& st.cycles <= u64::MAX - 3
    &&& st.retired <= st.cycles
    &&& match inst {
        Inst::LoadByte(_, m) | Inst::StoreByte(_, m) => ref_addr(st.regs, m) < st.mem.len(),
        Inst::LoadHalfWord(_, m) => ref_addr(st.regs, m) % 2 == 0 && ref_addr(st.regs, m) + 1 < st.mem.len(),
        Inst::LoadWord(_, m) | Inst::StoreWord(_, m) => ref_addr(st.regs, m) % 4 == 0 && ref_addr(st.regs, m) + 3
            < st.mem.len(),
        Inst::StoreHalfWord(_, _) | Inst::Halt => false,
        _ => true,
    }
}

/// Whether the branch `inst` is taken with registers `regs` (branches
/// compare signed).
pub open spec fn branch_taken(inst: Inst, regs: Map<ArchReg, u32>) -> bool {
    match inst {
        Inst::BranchIfEqual(a, b, _) => reg_read(regs, a) == reg_read(regs, b),
        Inst::BranchIfNotEqual(a, b, _) => reg_read(regs, a) != reg_read(regs, b),
        Inst::BranchIfGreaterEqual(a, b, _) => signed_ge(reg_read(regs, a), reg_read(regs, b)),
        Inst::BranchIfLess(a, b, _) => !signed_ge(reg_read(regs, a), reg_read(regs, b)),
        _ => false,
    }
}

/// The state after executing `inst` from `st`.
pub open spec fn step(inst: Inst, st: EmuState) -> EmuState {
    let r = st.regs;
    let next = (st.pc + INST_SIZE) as u32;
    let (regs, mem, pc) = match inst {
        Inst::LoadByte(d, m) => (reg_write(r, d, st.mem[ref_addr(r, m) as int] as u32), st.mem, next),
        Inst::LoadHalfWord(d, m) => (reg_write(r, d, le_value(st.mem, ref_addr(r, m) as int, 2) as u32), st.mem, next),
        Inst::LoadWord(d, m) => (reg_write(r, d, le_value(st.mem, ref_addr(r, m) as int, 4) as u32), st.mem, next),
        Inst::StoreByte(s, m) => (r, st.mem.update(ref_addr(r, m) as int, (reg_read(r, s) % 256) as u8), next),
        Inst::StoreWord(s, m) => (r, word_written(st.mem, ref_addr(r, m) as int, reg_read(r, s)), next),
        Inst::Add(d, a, b) => (reg_write(r, d, reg_read(r, a).wrapping_add(reg_read(r, b))), st.mem, next),
        Inst::Sub(d, a, b) => (reg_write(r, d, reg_read(r, a).wrapping_sub(reg_read(r, b))), st.mem, next),
        Inst::AddImm(d, a, i) => (reg_write(r, d, reg_read(r, a).wrapping_add(i.0)), st.mem, next),
        Inst::AndImm(d, a, i) => (reg_write(r, d, reg_read(r, a) & i.0), st.mem, next),
        Inst::ShiftLeftLogicalImm(d, a, i) => (reg_write(r, d, reg_read(r, a).wrapping_shl(i.0)), st.mem, next),
        Inst::Mul(d, a, b) => (reg_write(r, d, reg_read(r, a).wrapping_mul(reg_read(r, b))), st.mem, next),
        Inst::Rem(d, a, b) => (reg_write(
            r,
            d,
            if reg_read(r, b) == 0 {
                reg_read(r, a)
            } else {
                reg_read(r, a) % reg_read(r, b)
            },
        ), st.mem, next),
        Inst::SetLessThanImmU(d, a, i) => (reg_write(
            r,
            d,
            if reg_read(r, a) < i.0 {
                1u32
            } else {
                0u32
            },
        ), st.mem, next),
        Inst::Jump(t) => (r, st.mem, t.0),
        Inst::JumpAndLink(d, t) => (reg_write(r, d, next), st.mem, t.0),
        Inst::BranchIfEqual(_, _, t) | Inst::BranchIfNotEqual(_, _, t) | Inst::BranchIfGreaterEqual(_, _, t)
        | Inst::BranchIfLess(_, _, t) => (r, st.mem, if branch_taken(inst, r) {
            t.0
        } else {
            next
        }),
        _ => (r, st.mem, next),
    };
    EmuState {
        regs,
        mem,
        pc,
        cycles: (st.cycles + inst.spec_latency()) as u64,
        retired: (st.retired + 1) as u64,
    }
}

/// The state a run starts in: the given registers and memory, everything
/// else zero.
pub open spec fn initial(regs: Map<ArchReg, u32>, mem: Seq<u8>) -> EmuState {
    EmuState { regs, mem, pc: 0, cycles: 0, retired: 0 }
}

/// The state `n` steps after `st`, each step executing the instruction at
/// the program counter; `None` if the program ends or a step faults earlier.
pub open spec fn steps(prog: Seq<Inst>, st: EmuState, n: nat) -> Option<EmuState>
    decreases n,
{
    if n == 0 {
        Some(st)
    } else {
        match fetch_spec(prog, st.pc) {
            Some(inst) => if step_ok(inst, st) {
                steps(prog, step(inst, st), (n - 1) as nat)
            } else {
                None
            },
            None => None,
        }
    }
}

/// The emulator.
pub struct Emulated {
    regs: RegSet,
    mem: MainMemory,
    prog: Program,
    pc: u32,
    cycles: u64,
    insts_retired: u64,
}

impl Emulated {
    /// The architectural state.
    pub closed spec fn state(&self) -> EmuState {
        EmuState {
            regs: self.regs.contents(),
            mem: self.mem@,
            pc: self.pc,
            cycles: self.cycles,
            retired: self.insts_retired,
        }
    }

    /// The program.
    pub closed spec fn program(&self) -> Seq<Inst> {
        self.prog.insts@
    }

    /// The value of register `r`.
    pub fn reg(&self, r: ArchReg) -> (v: u32)
        ensures
            v == reg_read(self.state().regs, r),
    {
        self.regs.get(r)
    }

    /// Whether main memory holds the same bytes as `m`.
    pub fn memory_equals(&self, m: &MainMemory) -> (b: bool)
        ensures
            b == (self.state().mem == m@),
    {
        self.mem.same_as(m)
    }

    /// What the next step is: `Some(true)` to execute an instruction,
    /// `Some(false)` when the program has ended, `None` when the program
    /// counter is misaligned or executing the instruction would fault.
    pub fn next_ok(&self) -> (r: Option<bool>)
        ensures
            self.state().pc % INST_SIZE != 0 ==> r is None,
            self.state().pc % INST_SIZE == 0 ==> match fetch_spec(self.program(), self.state().pc) {
                None => r == Some(false),
                Some(inst) => r == (if step_ok(inst, self.state()) {
                    Some(true)
                } else {
                    None
                }),
            },
    {
        if self.pc % INST_SIZE != 0 {
            return None;
        }
        let idx = (self.pc / INST_SIZE) as usize;
        if idx >= self.prog.insts.len() {
            return Some(false);
        }
        if self.pc > u32::MAX - INST_SIZE || self.cycles > u64::MAX - 3 || self.insts_retired > self.cycles {
            return None;
        }
        let inst = self.prog.insts[idx];
        let len = self.mem.len();
        let ok = match inst {
            Inst::LoadByte(_, m) | Inst::StoreByte(_, m) => (self.regs.ref_to_addr(m).0 as usize) < len,
            Inst::LoadHalfWord(_, m) => {
                let a = self.regs.ref_to_addr(m).0;
                a % 2 == 0 && len >= 2 && (a as usize) < len - 1
            },
            Inst::LoadWord(_, m) | Inst::StoreWord(_, m) => {
                let a = self.regs.ref_to_addr(m).0;
                a % 4 == 0 && len >= 4 && (a as usize) < len - 3
            },
            Inst::StoreHalfWord(_, _) | Inst::Halt => false,
            _ => true,
        };
        if ok {
            Some(true)
        } else {
            None
        }
    }

    /// Executes the instruction at the program counter; `Stopped` (and
    /// nothing changed) when there is none.
    #[verifier::rlimit(100)]
    #[verifier::spinoff_prover]
    pub fn exec_one(&mut self) -> (r: CpuState)
        requires
            old(self).state().pc % INST_SIZE == 0,
            fetch_spec(old(self).program(), old(self).state().pc) matches Some(inst) ==> step_ok(inst, old(self).state()),
        ensures
            final(self).program() == old(self).program(),
            match fetch_spec(old(self).program(), old(self).state().pc) {
                None => r == CpuState::Stopped && final(self).state() == old(self).state(),
                Some(inst) => r == CpuState::Running && final(self).state() == step(inst, old(self).state()),
            },
    {
        let next_inst = match self.prog.fetch(Pc(self.pc)) {
            Some(i) => *i,
            None => return CpuState::Stopped,
        };
        let mut advance_pc = true;
        proof {
            reveal_with_fuel(le_value, 5);
        }
        match next_inst {
            Inst::LoadByte(dst, src) => {
                let val = self.mem.readb(self.regs.ref_to_addr(src));
                self.regs.set(dst, val);
            },
            Inst::LoadHalfWord(dst, src) => {
                let val = self.mem.readh(self.regs.ref_to_addr(src));
                self.regs.set(dst, val);
            },
            Inst::LoadWord(dst, src) => {
                let val = self.mem.readw(self.regs.ref_to_addr(src));
                self.regs.set(dst, val);
            },
            Inst::StoreByte(src, dst) => {
                let dst = self.regs.ref_to_addr(dst);
                self.mem.writeb(dst, self.regs.get(src));
            },
            Inst::StoreWord(src, dst) => {
                let dst = self.regs.ref_to_addr(dst);
                self.mem.writew(dst, self.regs.get(src));
            },
            Inst::Add(dst, src0, src1) => {
                let a = self.regs.get(src0);
                let b = self.regs.get(src1);
                self.regs.set(dst, a.wrapping_add(b));
            },
            Inst::Sub(dst, src0, src1) => {
                let a = self.regs.get(src0);
                let b = self.regs.get(src1);
                self.regs.set(dst, a.wrapping_sub(b));
            },
            Inst::AddImm(dst, src, imm) => {
                let a = self.regs.get(src);
                self.regs.set(dst, a.wrapping_add(imm.0));
            },
            Inst::AndImm(dst, src, imm) => {
                let a = self.regs.get(src);
                self.regs.set(dst, a & imm.0);
            },
            Inst::ShiftLeftLogicalImm(dst, src, imm) => {
                let a = self.regs.get(src);
                self.regs.set(dst, a.wrapping_shl(imm.0));
            },
            Inst::Mul(dst, src0, src1) => {
                let a = self.regs.get(src0);
                let b = self.regs.get(src1);
                self.regs.set(dst, a.wrapping_mul(b));
            },
            Inst::Rem(dst, src0, src1) => {
                let a = self.regs.get(src0);
                let b = self.regs.get(src1);
                let val = if b == 0 {
                    a
                } else {
                    a % b
                };
                self.regs.set(dst, val);
            },
            Inst::Jump(tgt) => {
                self.pc = tgt.0;
                advance_pc = false;
            },
            Inst::JumpAndLink(dst, tgt) => {
                self.regs.set(dst, self.pc + INST_SIZE);
                self.pc = tgt.0;
                advance_pc = false;
            },
            Inst::BranchIfEqual(src0, src1, tgt) => {
                let a = self.regs.get(src0);
                let b = self.regs.get(src1);
                if a == b {
                    self.pc = tgt.0;
                    advance_pc = false;
                }
            },
            Inst::BranchIfNotEqual(src0, src1, tgt) => {
                let a = self.regs.get(src0);
                let b = self.regs.get(src1);
                if a != b {
                    self.pc = tgt.0;
                    advance_pc = false;
                }
            },
            Inst::BranchIfGreaterEqual(src0, src1, tgt) => {
                let a = self.regs.get(src0);
                let b = self.regs.get(src1);
                if (a as i32) >= (b as i32) {
                    self.pc = tgt.0;
                    advance_pc = false;
                }
            },
            Inst::BranchIfLess(src0, src1, tgt) => {
                let a = self.regs.get(src0);
                let b = self.regs.get(src1);
                if (a as i32) < (b as i32) {
                    self.pc = tgt.0;
                    advance_pc = false;
                }
            },
            Inst::SetLessThanImmU(dst, src, imm) => {
                let r = self.regs.get(src);
                let val = if r < imm.0 {
                    1
                } else {
                    0
                };
                self.regs.set(dst, val);
            },
            Inst::StoreHalfWord(_, _) | Inst::Halt => {},
        }
        if advance_pc {
            self.pc = self.pc + INST_SIZE;
        }
        self.insts_retired = self.insts_retired + 1;
        self.cycles = self.cycles + next_inst.latency();
        CpuState::Running
    }
}

impl Cpu for Emulated {
    open spec fn ready(&self) -> bool {
        true
    }

    fn new(prog: Program, regs: RegSet, mem: MainMemory) -> (r: Self)
        ensures
            r.program() == prog.insts@,
            r.state() == initial(regs.contents(), mem@),
    {
        Self { pc: 0, cycles: 0, insts_retired: 0, regs, mem, prog }
    }

    /// Runs until the program counter leaves the program. `None` when the
    /// program counter is misaligned, an instruction would fault (see
    /// `step_ok`), or the cycle count would overflow.
    fn exec_all(self) -> (r: Option<ExecResult>)
        ensures
            r matches Some(res) ==> exists|n: nat| {
                let st = #[trigger] steps(self.program(), self.state(), n);
                &&& st matches Some(fin)
                &&& fin.pc % INST_SIZE == 0
                &&& fetch_spec(self.program(), fin.pc) is None
                &&& res.regs.contents() == fin.regs
                &&& res.mem@ == fin.mem
                &&& res.stats.cycles_taken == fin.cycles
                &&& res.stats.insts_retired == fin.retired
            },
            r is None ==> run_faults(self.program(), self.state()),
    {
        let mut cpu = self;
        let ghost start = cpu.state();
        let ghost mut n: nat = 0;
        loop
            invariant
                cpu.program() == self.program(),
                start == self.state(),
                steps(self.program(), start, n) == Some(cpu.state()),
            decreases u64::MAX - cpu.cycles,
        {
            match cpu.next_ok() {
                None => {
                    return None;
                },
                Some(false) => {
                    let Emulated { regs, mem, cycles, insts_retired, .. } = cpu;
                    let mut stats = Stats::default();
                    stats.cycles_taken = cycles;
                    stats.insts_retired = insts_retired;
                    return Some(ExecResult { mem, regs, stats });
                },
                Some(true) => {
                    let ghost before = cpu.state();
                    cpu.exec_one();
                    proof {
                        lemma_steps_extend(self.program(), start, n, before);
                        n = n + 1;
                    }
                },
            }
        }
    }
}

/// Taking one more step from where `n` steps led.
pub proof fn lemma_steps_extend(prog: Seq<Inst>, st: EmuState, n: nat, mid: EmuState)
    requires
        steps(prog, st, n) == Some(mid),
        fetch_spec(prog, mid.pc) matches Some(inst) && step_ok(inst, mid),
    ensures
        steps(prog, st, n + 1) == Some(step(fetch_spec(prog, mid.pc)->0, mid)),
    decreases n,
{
    reveal_with_fuel(steps, 2);
    if n > 0 {
        let inst = fetch_spec(prog, st.pc)->0;
        lemma_steps_extend(prog, step(inst, st), (n - 1) as nat, mid);
    }
}

/// A run from `st` reaches a state where the program counter is misaligned
/// or the instruction there would fault.
pub open spec fn run_faults(prog: Seq<Inst>, st: EmuState) -> bool {
    exists|n: nat|
        #[trigger] steps(prog, st, n) matches Some(s) && (s.pc % INST_SIZE != 0 || (fetch_spec(prog, s.pc) matches Some(
            inst,
        ) && !step_ok(inst, s)))
}

/// What one instruction does, stated over its operands: arithmetic writes
/// its destination with the 32-bit result, a byte store changes one byte to
/// the low byte of its source, a word store makes the word read back as its
/// source and leaves every other byte alone, loads read little-endian,
/// jumps and taken branches go to their target, everything else moves on by
/// one instruction; each step retires one instruction and takes its
/// latency in cycles.
pub proof fn lemma_step_effects(inst: Inst, st: EmuState)
    requires
        step_ok(inst, st),
    ensures
        ({
            let r = st.regs;
            let after = step(inst, st);
            &&& after.retired == st.retired + 1
            &&& after.cycles == st.cycles + inst.spec_latency()
            &&& (inst matches Inst::Add(d, a, b) ==> reg_read(after.regs, d) == (if d == ArchReg::Zero { 0 } else { (
                reg_read(r, a) + reg_read(r, b)) % 0x1_0000_0000 }))
            &&& (inst matches Inst::Sub(d, a, b) ==> reg_read(after.regs, d) == (if d == ArchReg::Zero { 0 } else { (
                reg_read(r, a) - reg_read(r, b) + 0x1_0000_0000) % 0x1_0000_0000 }))
            &&& (inst matches Inst::AddImm(d, a, i) ==> reg_read(after.regs, d) == (if d == ArchReg::Zero { 0 } else { (
                reg_read(r, a) + i.0) % 0x1_0000_0000 }))
            &&& (inst matches Inst::StoreByte(v, m) ==> {
                let addr = ref_addr(r, m) as int;
                &&& after.mem.len() == st.mem.len()
                &&& after.mem[addr] == reg_read(r, v) % 256
                &&& forall|k: int| 0 <= k < st.mem.len() && k != addr ==> after.mem[k] == st.mem[k]
            })
            &&& (inst matches Inst::StoreWord(v, m) ==> {
                let addr = ref_addr(r, m) as int;
                &&& after.mem.len() == st.mem.len()
                &&& le_value(after.mem, addr, 4) == reg_read(r, v)
                &&& forall|k: int| 0 <= k < st.mem.len() && !(addr <= k < addr + 4) ==> after.mem[k] == st.mem[k]
            })
            &&& (inst matches Inst::LoadByte(d, m) ==> d != ArchReg::Zero ==> reg_read(after.regs, d) == st.mem[ref_addr(
                r,
                m,
            ) as int])
            &&& (inst matches Inst::LoadWord(d, m) ==> d != ArchReg::Zero ==> reg_read(after.regs, d) == le_value(
                st.mem,
                ref_addr(r, m) as int,
                4,
            ))
            &&& (inst matches Inst::Jump(t) ==> after.pc == t.0)
            &&& (inst matches Inst::JumpAndLink(d, t) ==> after.pc == t.0 && (d != ArchReg::Zero ==> reg_read(
                after.regs,
                d,
            ) == st.pc + 4))
            &&& (inst matches Inst::BranchIfEqual(a, b, t) ==> after.pc == if reg_read(r, a) == reg_read(r, b) {
                t.0 as int
            } else {
                st.pc + 4
            })
            &&& (inst matches Inst::BranchIfLess(a, b, t) ==> after.pc == if (reg_read(r, a) as i32) < (reg_read(
                r,
                b,
            ) as i32) {
                t.0 as int
            } else {
                st.pc + 4
            })
            &&& (!inst.spec_is_branch() ==> after.pc == st.pc + 4)
        }),
{
    let r = st.regs;
    let after = step(inst, st);
    match inst {
        Inst::StoreWord(v, m) => {
            let addr = ref_addr(r, m) as int;
            lemma_word_read_after_write(st.mem, addr, reg_read(r, v));
            assert(after.mem == word_written(st.mem, addr, reg_read(r, v)));
        },
        Inst::LoadWord(d, m) => {
            reveal_with_fuel(le_value, 5);
            let a = ref_addr(r, m) as int;
            assert(le_value(st.mem, a, 4) < 0x1_0000_0000);
            lemma_reg_read_after_write(r, d, le_value(st.mem, ref_addr(r, m) as int, 4) as u32, d);
        },
        _ => {},
    }
}

/// `m` steps and then `n` more are `m + n` steps.
pub proof fn lemma_steps_add(prog: Seq<Inst>, st: EmuState, m: nat, n: nat, mid: EmuState)
    requires
        steps(prog, st, m) == Some(mid),
    ensures
        steps(prog, st, m + n) == steps(prog, mid, n),
    decreases m,
{
    if m > 0 {
        let inst = fetch_spec(prog, st.pc)->0;
        lemma_steps_add(prog, step(inst, st), (m - 1) as nat, n, mid);
        assert((m + n - 1) as nat == ((m - 1) as nat + n) as nat);
    }
}

/// Each step retires one instruction.
pub proof fn lemma_steps_retired(prog: Seq<Inst>, st: EmuState, n: nat, fin: EmuState)
    requires
        steps(prog, st, n) == Some(fin),
    ensures
        fin.retired == st.retired + n,
    decreases n,
{
    if n > 0 {
        let inst = fetch_spec(prog, st.pc)->0;
        lemma_steps_retired(prog, step(inst, st), (n - 1) as nat, fin);
    }
}

/// A run that ends where the program ends does not fault.
pub proof fn lemma_end_excludes_fault(prog: Seq<Inst>, st: EmuState, n: nat, fin: EmuState)
    requires
        steps(prog, st, n) == Some(fin),
        fin.pc % INST_SIZE == 0,
        fetch_spec(prog, fin.pc) is None,
    ensures
        !run_faults(prog, st),
{
    if run_faults(prog, st) {
        let k = choose|k: nat|
            #[trigger] steps(prog, st, k) matches Some(s) && (s.pc % INST_SIZE != 0 || (fetch_spec(prog, s.pc) matches Some(
                inst,
            ) && !step_ok(inst, s)));
        let s = steps(prog, st, k)->0;
        assert(stopped(prog, s));
        lemma_stopped_unique(prog, st, n, k, fin, s);
    }
}

/// No step can be taken from `st`: the program has ended there, or the
/// instruction at the program counter would fault.
pub open spec fn stopped(prog: Seq<Inst>, st: EmuState) -> bool {
    match fetch_spec(prog, st.pc) {
        None => true,
        Some(inst) => !step_ok(inst, st),
    }
}

/// A run has one outcome: two runs from the same state that both stop end in
/// the same state after the same number of steps.
pub proof fn lemma_stopped_unique(prog: Seq<Inst>, st: EmuState, n1: nat, n2: nat, a: EmuState, b: EmuState)
    requires
        steps(prog, st, n1) == Some(a),
        steps(prog, st, n2) == Some(b),
        stopped(prog, a),
        stopped(prog, b),
    ensures
        n1 == n2,
        a == b,
    decreases n1,
{
    if n1 > 0 && n2 > 0 {
        let inst = fetch_spec(prog, st.pc)->0;
        lemma_stopped_unique(prog, step(inst, st), (n1 - 1) as nat, (n2 - 1) as nat, a, b);
    }
}

} // verus!
