//! Execution units: each works on instructions of one kind, several at a
//! time, and hands back at most one result per cycle.
use crate::inst::{inst_corresponds, ExecutedInst, Inst, ReadyInst, Tag, Tagged, BothReg, Pc};
use crate::mem::{is_first_pending, le_value, MemoryHierarchy};
use crate::util::Addr;
use vstd::prelude::*;

verus! {

/// The value an execution unit computes.
#[derive(Debug, Copy, Clone, PartialEq, Eq, Structural)]
pub struct EuResult {
    pub val: u32,
}

/// The kinds of execution unit.
#[derive(Debug, Copy, Clone, PartialEq, Eq, Structural)]
pub enum EuType {
    Alu,
    LoadStore,
    Branch,
    Special,  // Halt and such.
}

/// Signed comparison of two register values.
pub open spec fn signed_ge(a: u32, b: u32) -> bool {
    (a as i32) >= (b as i32)
}

/// Whether a load reads inside a memory of `len` bytes at an address
/// aligned to its width (other instructions always qualify).
pub open spec fn access_in_bounds(inst: ReadyInst, len: nat) -> bool {
    let a = inst.spec_mem_ref().compute_addr_spec().0;
    match inst {
        Inst::LoadByte(_, _) => a < len,
        Inst::LoadHalfWord(_, _) => a % 2 == 0 && a + 1 < len,
        Inst::LoadWord(_, _) => a % 4 == 0 && a + 3 < len,
        _ => true,
    }
}

/// Whether a load reads inside a memory of `len` bytes at an address
/// aligned to its width.
pub fn in_bounds(inst: &ReadyInst, len: usize) -> (r: bool)
    ensures
        r == access_in_bounds(*inst, len as nat),
{
    match inst {
        Inst::LoadByte(_, m) => (m.compute_addr().0 as usize) < len,
        Inst::LoadHalfWord(_, m) => {
            let a = m.compute_addr().0;
            a % 2 == 0 && len >= 2 && (a as usize) < len - 1
        },
        Inst::LoadWord(_, m) => {
            let a = m.compute_addr().0;
            a % 4 == 0 && len >= 4 && (a as usize) < len - 3
        },
        _ => true,
    }
}

/// What an instruction computes, reading memory `m` for loads: arithmetic
/// wraps around, `rem` by 0 gives the dividend, comparisons give 1 or 0
/// (branches compare signed, `sltiu` unsigned), a jump gives its target, and
/// stores and `halt` give 0.
pub open spec fn eu_value(inst: ReadyInst, m: Seq<u8>) -> u32 {
    match inst {
        Inst::Add(_, a, b) => a.wrapping_add(b),
        Inst::Sub(_, a, b) => a.wrapping_sub(b),
        Inst::AddImm(_, a, i) => a.wrapping_add(i.0),
        Inst::AndImm(_, a, i) => a & i.0,
        Inst::ShiftLeftLogicalImm(_, a, i) => a.wrapping_shl(i.0),
        Inst::Mul(_, a, b) => a.wrapping_mul(b),
        Inst::Rem(_, a, b) => if b == 0 {
            a
        } else {
            a % b
        },
        Inst::SetLessThanImmU(_, a, i) => if a < i.0 {
            1
        } else {
            0
        },
        Inst::Jump(t) => t.0,
        Inst::JumpAndLink(_, t) => t.0,
        Inst::BranchIfEqual(a, b, _) => if a == b {
            1
        } else {
            0
        },
        Inst::BranchIfNotEqual(a, b, _) => if a != b {
            1
        } else {
            0
        },
        Inst::BranchIfGreaterEqual(a, b, _) => if signed_ge(a, b) {
            1
        } else {
            0
        },
        Inst::BranchIfLess(a, b, _) => if !signed_ge(a, b) {
            1
        } else {
            0
        },
        Inst::LoadByte(_, mr) => m[mr.compute_addr_spec().0 as int] as u32,
        Inst::LoadHalfWord(_, mr) => le_value(m, mr.compute_addr_spec().0 as int, 2) as u32,
        Inst::LoadWord(_, mr) => le_value(m, mr.compute_addr_spec().0 as int, 4) as u32,
        _ => 0,
    }
}

/// An instruction in an execution unit with the cycles it has spent there.
pub type InFlight = (Tagged<ReadyInst>, u64);

/// A unit of one kind working on several instructions.
pub struct ExecutionUnit {
    pub eu_type: EuType,
    pub utilisation: u64,
    pub completed_inst: Option<(Tagged<ExecutedInst>, EuResult)>,
    pub executing_insts: Vec<InFlight>,
}

/// Every entry of `s` one cycle older.
pub open spec fn aged(s: Seq<InFlight>) -> Seq<InFlight> {
    Seq::new(s.len(), |i: int| (s[i].0, (s[i].1 + 1) as u64))
}

/// The executed form of a tagged ready instruction (sources dropped).
pub open spec fn executed_of(t: Tagged<ReadyInst>, e: Tagged<ExecutedInst>) -> bool {
    e.tag == t.tag && inst_corresponds(
        t.inst,
        e.inst,
        |a: u32, b: ()| true,
        |a: BothReg, b: BothReg| a == b,
        |a: Pc, b: Pc| a == b,
    )
}

/// Whether the instruction `e` has finished, with memory in state `mem`:
/// a memory access when its access has taken its time, another when it has
/// spent its latency.
pub open spec fn entry_done(e: InFlight, mem: MemoryHierarchy) -> bool {
    if e.0.inst.spec_is_load() || e.0.inst.spec_is_store() {
        exists|i: int|
            is_first_pending(mem.pending(), e.0.tag, i) && mem.pending()[i].current >= mem.pending()[i].end
    } else {
        e.1 + 1 >= e.0.inst.spec_latency()
    }
}

/// `i` is the first finished entry of `s`.
pub open spec fn is_first_done(s: Seq<InFlight>, mem: MemoryHierarchy, i: int) -> bool {
    &&& 0 <= i < s.len()
    &&& entry_done(s[i], mem)
    &&& forall|j: int| 0 <= j < i ==> !entry_done(s[j], mem)
}

impl ExecutionUnit {
    /// The kind of instruction the unit executes.
    pub open spec fn kind(&self) -> EuType {
        self.eu_type
    }

    /// Cycles in which the unit started an instruction.
    pub open spec fn util(&self) -> u64 {
        self.utilisation
    }

    /// The finished instruction not yet taken, with its result.
    pub open spec fn completed(&self) -> Option<(Tagged<ExecutedInst>, EuResult)> {
        self.completed_inst
    }

    /// The instructions in progress, oldest start first.
    pub open spec fn executing(&self) -> Seq<InFlight> {
        self.executing_insts@
    }

    /// Whether the unit started an instruction this cycle.
    pub open spec fn spec_was_utilised(&self) -> bool {
        self.executing().len() > 0 && self.executing().last().1 == 0
    }

    /// An idle unit of the given kind.
    pub fn new(eu_type: EuType) -> (r: Self)
        ensures
            r.kind() == eu_type,
            r.util() == 0,
            r.completed() is None,
            r.executing() == Seq::<InFlight>::empty(),
    {
        Self { eu_type, utilisation: 0, completed_inst: None, executing_insts: Vec::new() }
    }

    /// Whether the unit started an instruction this cycle.
    pub fn was_utilised(&self) -> (r: bool)
        ensures
            r == self.spec_was_utilised(),
    {
        let n = self.executing_insts.len();
        n > 0 && self.executing_insts[n - 1].1 == 0
    }

    /// Whether the unit can start `inst` now: it is of the unit's kind and
    /// nothing was started this cycle.
    pub fn can_execute(&self, inst: &ReadyInst) -> (r: bool)
        ensures
            r == (self.kind() == inst.spec_eu_type() && !self.spec_was_utilised()),
    {
        self.eu_type == inst.eu_type() && !self.was_utilised()
    }

    /// Starts `inst`, the instruction `tag`.
    pub fn begin_execute(&mut self, inst: ReadyInst, tag: Tag)
        requires
            old(self).kind() == inst.spec_eu_type(),
            !old(self).spec_was_utilised(),
        ensures
            final(self).kind() == old(self).kind(),
            final(self).util() == old(self).util(),
            final(self).completed() == old(self).completed(),
            final(self).executing() == old(self).executing().push((Tagged { tag, inst }, 0u64)),
    {
        self.executing_insts.push((Tagged { tag, inst }, 0));
    }

    /// Hands out the finished instruction, if any.
    pub fn take_complete(&mut self) -> (r: Option<(Tagged<ExecutedInst>, EuResult)>)
        ensures
            r == old(self).completed(),
            final(self).completed() is None,
            final(self).kind() == old(self).kind(),
            final(self).util() == old(self).util(),
            final(self).executing() == old(self).executing(),
    {
        self.completed_inst.take()
    }

    /// Drops every instruction younger than `tag`.
    pub fn kill_tags_after(&mut self, tag: Tag)
        ensures
            final(self).kind() == old(self).kind(),
            final(self).util() == old(self).util(),
            final(self).executing() == old(self).executing().filter(|e: InFlight| e.0.tag.0 <= tag.0),
            final(self).completed() == match old(self).completed() {
                Some(c) => if c.0.tag.0 > tag.0 {
                    None
                } else {
                    Some(c)
                },
                None => None,
            },
    {
        let ghost pred = |e: InFlight| e.0.tag.0 <= tag.0;
        let mut kept: Vec<InFlight> = Vec::new();
        let mut i: usize = 0;
        while i < self.executing_insts.len()
            invariant
                i <= self.executing_insts@.len(),
                self.executing_insts@ == old(self).executing_insts@,
                pred == (|e: InFlight| e.0.tag.0 <= tag.0),
                kept@ == self.executing_insts@.take(i as int).filter(pred),
            decreases self.executing_insts@.len() - i,
        {
            let e = self.executing_insts[i];
            proof {
                assert(self.executing_insts@.take(i + 1).drop_last() == self.executing_insts@.take(i as int));
                assert(self.executing_insts@.take(i + 1).last() == e);
                assert(pred(e) == (e.0.tag.0 <= tag.0));
                reveal(Seq::filter);
            }
            if e.0.tag.0 <= tag.0 {
                kept.push(e);
            }
            i = i + 1;
        }
        assert(self.executing_insts@.take(i as int) == self.executing_insts@);
        self.executing_insts = kept;
        let drop = match &self.completed_inst {
            Some(c) => c.0.tag.0 > tag.0,
            None => false,
        };
        if drop {
            self.completed_inst = None;
        }
    }

    /// What `inst` computes; loads read main memory.
    fn compute_result(inst: &ReadyInst, mem: &MemoryHierarchy) -> (r: EuResult)
        requires
            access_in_bounds(*inst, mem.main_mem()@.len()),
        ensures
            r.val == eu_value(*inst, mem.main_mem()@),
    {
        let val = match inst {
            Inst::Add(_, a, b) => a.wrapping_add(*b),
            Inst::Sub(_, a, b) => a.wrapping_sub(*b),
            Inst::AddImm(_, a, imm) => a.wrapping_add(imm.0),
            Inst::AndImm(_, a, imm) => *a & imm.0,
            Inst::ShiftLeftLogicalImm(_, a, imm) => a.wrapping_shl(imm.0),
            Inst::Mul(_, a, b) => a.wrapping_mul(*b),
            Inst::Rem(_, a, b) => if *b == 0 {
                *a
            } else {
                *a % *b
            },
            Inst::SetLessThanImmU(_, a, imm) => if *a < imm.0 {
                1
            } else {
                0
            },
            Inst::Jump(t) => t.0,
            Inst::JumpAndLink(_, t) => t.0,
            Inst::BranchIfEqual(a, b, _) => if *a == *b {
                1
            } else {
                0
            },
            Inst::BranchIfNotEqual(a, b, _) => if *a != *b {
                1
            } else {
                0
            },
            Inst::BranchIfGreaterEqual(a, b, _) => if (*a as i32) >= (*b as i32) {
                1
            } else {
                0
            },
            Inst::BranchIfLess(a, b, _) => if (*a as i32) < (*b as i32) {
                1
            } else {
                0
            },
            Inst::LoadByte(_, m) => mem.main.readb(m.compute_addr()),
            Inst::LoadHalfWord(_, m) => mem.main.readh(m.compute_addr()),
            Inst::LoadWord(_, m) => mem.main.readw(m.compute_addr()),
            _ => 0,
        };
        EuResult { val }
    }

    /// One cycle of work. If no result is waiting, the first instruction
    /// that has finished leaves the unit with its result; every other one
    /// ages a cycle. Memory accesses not yet in flight start.
    pub fn advance(&mut self, mem: &mut MemoryHierarchy)
        requires
            forall|i: int| 0 <= i < old(self).executing().len() ==> access_in_bounds(#[trigger] old(self).executing()[i].0.inst, old(mem).main_mem()@.len()),
            forall|i: int| 0 <= i < old(self).executing().len() ==> (#[trigger] old(self).executing()[i]).1 < u64::MAX,
            old(self).util() < u64::MAX,
        ensures
            final(self).kind() == old(self).kind(),
            final(self).util() == old(self).util() + if old(self).spec_was_utilised() {
                1int
            } else {
                0int
            },
            final(mem).main_mem() == old(mem).main_mem(),
            forall|k: u64| old(mem).pending_bounded(k) ==> final(mem).pending_bounded(k),
            (old(self).completed() is None && exists|i: int| is_first_done(old(self).executing(), *old(mem), i)) ==> {
                let i = choose|i: int| is_first_done(old(self).executing(), *old(mem), i);
                let e = old(self).executing()[i];
                &&& final(self).executing() == aged(old(self).executing()).remove(i)
                &&& final(self).completed() matches Some(c) && executed_of(e.0, c.0)
                    && c.1.val == eu_value(e.0.inst, old(mem).main_mem()@)
            },
            !(old(self).completed() is None && exists|i: int| is_first_done(old(self).executing(), *old(mem), i)) ==> {
                &&& final(self).executing() == aged(old(self).executing())
                &&& final(self).completed() == old(self).completed()
            },
    {
        let ghost mem0 = *mem;
        let ghost s0 = *self;
        let mut deleted_idx: Option<usize> = None;
        if self.was_utilised() {
            self.utilisation = self.utilisation + 1;
        }
        let n = self.executing_insts.len();
        let mut i: usize = 0;
        while i < n
            invariant
                n == s0.executing().len(),
                i <= n,
                self.executing_insts@.len() == n,
                self.eu_type == s0.eu_type,
                self.utilisation == s0.util() + if s0.spec_was_utilised() {
                    1int
                } else {
                    0int
                },
                forall|j: int| 0 <= j < n ==> access_in_bounds(#[trigger] s0.executing()[j].0.inst, mem0.main_mem()@.len()),
                forall|j: int| 0 <= j < n ==> (#[trigger] s0.executing()[j]).1 < u64::MAX,
                mem.main == mem0.main,
                forall|k: u64| mem0.pending_bounded(k) ==> mem.pending_bounded(k),
                deleted_idx is None ==> {
                    &&& mem.pending().len() >= mem0.pending().len()
                    &&& mem.pending().take(mem0.pending().len() as int) == mem0.pending()
                    &&& forall|j: int|
                        mem0.pending().len() <= j < mem.pending().len() ==> (#[trigger] mem.pending()[j]).current == 0
                            && mem.pending()[j].end > 0
                    &&& self.completed_inst == s0.completed()
                    &&& s0.completed() is None ==> forall|j: int| 0 <= j < i ==> !entry_done(#[trigger] s0.executing()[j], mem0)
                },
                deleted_idx matches Some(d) ==> {
                    &&& d < i
                    &&& s0.completed() is None
                    &&& is_first_done(s0.executing(), mem0, d as int)
                    &&& self.completed_inst matches Some(c) && executed_of(s0.executing()[d as int].0, c.0)
                        && c.1.val == eu_value(s0.executing()[d as int].0.inst, mem0.main_mem()@)
                    &&& self.executing_insts@[d as int] == s0.executing()[d as int]
                },
                forall|j: int|
                    0 <= j < i && !(deleted_idx matches Some(d) && j == d) ==> #[trigger] self.executing_insts@[j] == aged(s0.executing())[j],
                forall|j: int| i <= j < n ==> #[trigger] self.executing_insts@[j] == s0.executing()[j],
            decreases n - i,
        {
            let (t, cycles) = self.executing_insts[i];
            let is_mem = t.inst.is_mem_access();
            let ghost mem_before = *mem;
            let is_done = if is_mem {
                mem.access_complete(t.tag, t.inst.mem_addr())
            } else {
                cycles + 1 >= t.inst.latency()
            };
            proof {
                if deleted_idx is None {
                    let e = s0.executing()[i as int];
                    if is_mem {
                        if exists|k: int| is_first_pending(mem0.pending(), t.tag, k) {
                            let k = choose|k: int| is_first_pending(mem0.pending(), t.tag, k);
                            assert(mem_before.pending()[k] == mem0.pending()[k]);
                            assert(is_first_pending(mem_before.pending(), t.tag, k)) by {
                                assert forall|j: int| 0 <= j < k implies mem_before.pending()[j].tag != t.tag by {
                                    assert(mem_before.pending()[j] == mem0.pending()[j]);
                                }
                            }
                            let k2 = choose|k2: int| is_first_pending(mem_before.pending(), t.tag, k2);
                            assert(k2 == k);
                        } else {
                            if exists|k: int| is_first_pending(mem_before.pending(), t.tag, k) {
                                let k = choose|k: int| is_first_pending(mem_before.pending(), t.tag, k);
                                if k < mem0.pending().len() {
                                    assert(mem_before.pending()[k] == mem0.pending()[k]);
                                    assert(is_first_pending(mem0.pending(), t.tag, k)) by {
                                        assert forall|j: int| 0 <= j < k implies mem0.pending()[j].tag != t.tag by {
                                            assert(mem_before.pending()[j] == mem0.pending()[j]);
                                        }
                                    }
                                }
                            }
                        }
                        assert(is_done == entry_done(e, mem0));
                    }
                }
            }
            if is_done && self.completed_inst.is_none() {
                if is_mem {
                    mem.finish_access(t.tag, t.inst.mem_addr());
                }
                let res = Self::compute_result(&t.inst, mem);
                deleted_idx = Some(i);
                self.completed_inst = Some((Tagged { tag: t.tag, inst: t.inst.executed() }, res));
            } else {
                self.executing_insts.set(i, (t, cycles + 1));
            }
            proof {
                if deleted_idx is None {
                    assert(mem.pending().take(mem0.pending().len() as int) =~= mem0.pending()) by {
                        assert forall|j: int| 0 <= j < mem0.pending().len() implies mem.pending()[j] == mem0.pending()[j] by {
                            assert(mem_before.pending()[j] == mem0.pending()[j]);
                        }
                    }
                }
            }
            i = i + 1;
        }
        match deleted_idx {
            Some(d) => {
                self.executing_insts.remove(d);
                proof {
                    assert(self.executing() =~= aged(s0.executing()).remove(d as int));
                }
            },
            None => {
                proof {
                    assert(self.executing() =~= aged(s0.executing()));
                    if s0.completed() is None {
                        assert(!exists|k: int| is_first_done(s0.executing(), mem0, k));
                    }
                }
            },
        }
        proof {
            if deleted_idx is Some {
                let d = deleted_idx->0;
                let k = choose|k: int| is_first_done(s0.executing(), mem0, k);
                assert(k == d);
            }
        }
    }
}

} // verus!
