//! Architectural register sets, and the physical register file with renaming
//! and branch recovery of the out-of-order core.
use crate::branch::BranchPredictor;
use crate::inst::{dst_reg, lemma_corresponds_at_dst, lemma_corresponds_compose, lemma_corresponds_fields, lemma_corresponds_weaken, lemma_fields_weaken, NUM_ARCH_REGS,
    inst_corresponds, inst_fields, ArchReg, BothReg, Inst, MemRef, Pc, PhysReg, ReadyInst,
    RenamedInst, Tag, ValueOrReg, INST_SIZE,
};
use crate::mem::STACK_TOP;
use crate::tables::{
    alias_map, alias_map_clone, alias_map_entries, alias_map_get, alias_map_insert, alias_map_new,
    branch_map, branch_map_get, branch_map_insert, branch_map_keys, branch_map_new,
    branch_map_remove, branch_map_retain_not_after, reg_map, reg_map_get, reg_map_insert,
    reg_map_new, tags_not_after, AliasMap, BranchMap, RegMap,
};
use crate::util::Addr;
use std::collections::VecDeque;
use vstd::prelude::*;

verus! {

/// How a branch in flight was predicted.
#[derive(Debug, Copy, Clone, PartialEq, Eq, Structural)]
pub enum BranchType {
    /// A conditional branch predicted `taken`, with both possible successors.
    Direct { taken: bool, taken_pc: Pc, not_taken_pc: Pc },
    /// A jump through the target buffer, with the predicted target if any.
    Indirect { predicted_pc: Option<Pc>, inst_pc: Pc },
}

/// What is kept of a branch in flight to recover from a misprediction: the
/// alias table as it was when the branch was renamed, and the physical
/// registers allocated since.
pub struct BranchInfo {
    pub rat_cp: Option<AliasMap>,
    pub alloc_list: Option<Vec<PhysReg>>,
    pub info: BranchType,
}

/// Values of the architectural registers; absent registers read as 0.
pub struct RegSet {
    regs: RegMap,
}

impl RegSet {
    /// The registers the set holds a value for.
    pub closed spec fn contents(&self) -> Map<ArchReg, u32> {
        reg_map(self.regs)
    }

    /// The value `get` gives.
    pub open spec fn value(&self, reg: ArchReg) -> u32 {
        if reg == ArchReg::Zero {
            0
        } else if self.contents().contains_key(reg) {
            self.contents()[reg]
        } else {
            0
        }
    }

    /// An empty set: every register reads 0.
    pub fn new() -> (r: Self)
        ensures
            r.contents() == Map::<ArchReg, u32>::empty(),
    {
        RegSet { regs: reg_map_new() }
    }

    /// The set of the given values (a later pair for a register wins), with
    /// the stack pointer at the top of the stack unless given.
    pub fn from_pairs(pairs: &[(ArchReg, u32)]) -> (r: Self)
        requires
            forall|i: int| 0 <= i < pairs@.len() ==> (#[trigger] pairs@[i]).0 != ArchReg::Zero,
        ensures
            forall|reg: ArchReg| #[trigger] r.contents().contains_key(reg) <==> (reg == ArchReg::SP || exists|i: int| 0 <= i < pairs@.len() && pairs@[i].0 == reg),
            forall|reg: ArchReg|
                #[trigger] r.contents().contains_key(reg) ==> r.contents()[reg] == match crate::rat::last_value(
                    pairs@,
                    reg,
                ) {
                    Some(v) => v,
                    None => STACK_TOP as u32,
                },
    {
        let mut regs = reg_map_new();
        let mut i: usize = 0;
        while i < pairs.len()
            invariant
                i <= pairs@.len(),
                forall|reg: ArchReg| #[trigger] reg_map(regs).contains_key(reg) <==> exists|k: int| 0 <= k < i && pairs@[k].0 == reg,
                forall|reg: ArchReg|
                    #[trigger] reg_map(regs).contains_key(reg) ==> reg_map(regs)[reg] == crate::rat::last_value(pairs@.take(i as int), reg)->0,
                forall|reg: ArchReg|
                    #[trigger] reg_map(regs).contains_key(reg) ==> crate::rat::last_value(pairs@.take(i as int), reg) is Some,
                forall|reg: ArchReg|
                    !(#[trigger] reg_map(regs).contains_key(reg)) ==> crate::rat::last_value(pairs@.take(i as int), reg) is None,
            decreases pairs@.len() - i,
        {
            let (reg, v) = pairs[i];
            reg_map_insert(&mut regs, reg, v);
            proof {
                assert(pairs@.take(i + 1).drop_last() == pairs@.take(i as int));
                assert(pairs@.take(i + 1).last() == pairs@[i as int]);
            }
            i = i + 1;
        }
        assert(pairs@.take(i as int) == pairs@);
        if reg_map_get(&regs, ArchReg::SP).is_none() {
            reg_map_insert(&mut regs, ArchReg::SP, STACK_TOP as u32);
        }
        RegSet { regs }
    }

    /// The value of `reg`; `zero` reads 0.
    pub fn get(&self, reg: ArchReg) -> (r: u32)
        ensures
            r == self.value(reg),
    {
        if reg == ArchReg::Zero {
            0
        } else {
            match reg_map_get(&self.regs, reg) {
                Some(v) => v,
                None => 0,
            }
        }
    }

    /// Sets `reg` (writes to `zero` are dropped).
    pub fn set(&mut self, reg: ArchReg, value: u32)
        ensures
            final(self).contents() == if reg == ArchReg::Zero {
                old(self).contents()
            } else {
                old(self).contents().insert(reg, value)
            },
    {
        if reg != ArchReg::Zero {
            reg_map_insert(&mut self.regs, reg, value);
        }
    }

    /// The address `mr` denotes with the current register values.
    pub fn ref_to_addr(&self, mr: MemRef) -> (a: Addr)
        ensures
            a.0 == self.value(mr.base).wrapping_add(mr.offset.0),
    {
        Addr(self.get(mr.base).wrapping_add(mr.offset.0))
    }
}


/// A slot of the physical register file.
#[derive(Debug, Copy, Clone, PartialEq, Eq, Structural)]
pub enum PrfEntry {
    Free,
    Reserved,
    Active(u32),
}

/// The physical registers.
pub struct PhysFile(pub Vec<PrfEntry>);

/// The value an entry holds (0 unless active).
pub open spec fn entry_value(e: PrfEntry) -> u32 {
    match e {
        PrfEntry::Active(v) => v,
        _ => 0,
    }
}

/// `p` indexes a register file of `n` entries.
pub open spec fn valid_phys(p: PhysReg, n: nat) -> bool {
    0 <= p.0 && p.0 < n
}

/// An alias table that maps every register but `zero` into a file of `n` entries.
pub open spec fn complete_alias(m: Map<ArchReg, PhysReg>, n: nat) -> bool {
    &&& !m.contains_key(ArchReg::Zero)
    &&& forall|a: ArchReg| a != ArchReg::Zero ==> #[trigger] m.contains_key(a)
    &&& forall|a: ArchReg| #[trigger] m.contains_key(a) ==> valid_phys(m[a], n)
}

/// The snapshot and allocation list of a branch refer into a file of `n` entries.
pub open spec fn branch_wf(b: BranchInfo, n: nat) -> bool {
    &&& (b.rat_cp matches Some(cp) ==> complete_alias(alias_map(cp), n))
    &&& (b.alloc_list matches Some(al) ==> forall|i: int|
        0 <= i < al@.len() ==> valid_phys(#[trigger] al@[i], n))
}

/// `b2` is `b` with `slot` appended to its allocation list, if it keeps one.
pub open spec fn alloc_pushed(b: BranchInfo, b2: BranchInfo, slot: PhysReg) -> bool {
    &&& b2.rat_cp == b.rat_cp
    &&& b2.info == b.info
    &&& match b.alloc_list {
        Some(al) => (b2.alloc_list matches Some(al2) && al2@ == al@.push(slot)),
        None => b2.alloc_list is None,
    }
}

/// `b2` is `b` with the last `n` entries of its allocation list, if it keeps one, dropped.
pub open spec fn alloc_truncated(b: BranchInfo, b2: BranchInfo, n: nat) -> bool {
    &&& b2.rat_cp == b.rat_cp
    &&& b2.info == b.info
    &&& match b.alloc_list {
        Some(al) => (b2.alloc_list matches Some(al2) && al2@ == al@.take(al@.len() - n)),
        None => b2.alloc_list is None,
    }
}

/// `prf` with every slot listed in `al` freed.
pub open spec fn free_all(prf: Seq<PrfEntry>, al: Seq<PhysReg>) -> Seq<PrfEntry> {
    Seq::new(
        prf.len(),
        |i: int|
            if exists|j: int| 0 <= j < al.len() && al[j].0 == i {
                PrfEntry::Free
            } else {
                prf[i]
            },
    )
}

/// The first free slot of `prf`, if any.
pub open spec fn is_first_free(prf: Seq<PrfEntry>, i: int) -> bool {
    &&& 0 <= i < prf.len()
    &&& prf[i] == PrfEntry::Free
    &&& forall|j: int| 0 <= j < i ==> prf[j] != PrfEntry::Free
}

/// Whether `prf` has a free slot.
pub open spec fn has_free(prf: Seq<PrfEntry>) -> bool {
    exists|i: int| 0 <= i < prf.len() && prf[i] == PrfEntry::Free
}

/// The physical register file with its alias table, the registers waiting to
/// be released at commit, and what is kept of each branch in flight.
pub struct RegFile {
    rat: AliasMap,
    phys_rf: PhysFile,
    prrt: VecDeque<PhysReg>,
    branch_info: BranchMap,
}

impl RegFile {
    /// The alias table.
    pub closed spec fn rat(&self) -> Map<ArchReg, PhysReg> {
        alias_map(self.rat)
    }

    /// The physical registers.
    pub closed spec fn prf(&self) -> Seq<PrfEntry> {
        self.phys_rf.0@
    }

    /// Physical registers to release, oldest first.
    pub closed spec fn prrt(&self) -> Seq<PhysReg> {
        self.prrt@
    }

    /// The branches in flight.
    pub closed spec fn branches(&self) -> Map<Tag, BranchInfo> {
        branch_map(self.branch_info)
    }

    /// Every register index in the structure is in range.
    pub open spec fn wf(&self) -> bool {
        &&& self.prf().len() <= i32::MAX
        &&& complete_alias(self.rat(), self.prf().len())
        &&& forall|i: int| 0 <= i < self.prrt().len() ==> valid_phys(#[trigger] self.prrt()[i], self.prf().len())
        &&& forall|t: Tag| #[trigger] self.branches().contains_key(t) ==> branch_wf(self.branches()[t], self.prf().len())
    }

    /// The value of an architectural register as the file holds it.
    pub open spec fn arch_value(&self, a: ArchReg) -> u32 {
        entry_value(self.prf()[self.rat()[a].0 as int])
    }

    /// The first free slot, now reserved.
    fn allocate_phys_internal(&mut self) -> (r: Option<PhysReg>)
        requires
            old(self).prf().len() <= i32::MAX,
        ensures
            old(self).wf() ==> final(self).wf(),
            final(self).rat() == old(self).rat(),
            final(self).prrt() == old(self).prrt(),
            final(self).branches() == old(self).branches(),
            match r {
                Some(p) => is_first_free(old(self).prf(), p.0 as int) && final(self).prf() == old(
                    self,
                ).prf().update(p.0 as int, PrfEntry::Reserved),
                None => !has_free(old(self).prf()) && final(self).prf() == old(self).prf(),
            },
    {
        let n = self.phys_rf.0.len();
        let mut i: usize = 0;
        while i < n
            invariant
                self.rat() == old(self).rat(),
                self.prrt() == old(self).prrt(),
                self.branches() == old(self).branches(),
                self.prf() == old(self).prf(),
                n == self.phys_rf.0@.len(),
                n <= i32::MAX,
                i <= n,
                forall|j: int| 0 <= j < i ==> self.phys_rf.0@[j] != PrfEntry::Free,
            decreases n - i,
        {
            if self.phys_rf.0[i] == PrfEntry::Free {
                self.phys_rf.0.set(i, PrfEntry::Reserved);
                return Some(PhysReg(i as i32));
            }
            i = i + 1;
        }
        None
    }

    /// A file of `prf_capacity` registers holding `initial_regs`: register
    /// number `k` of `ArchReg::all` (from 1, `zero` has none) in slot `k - 1`.
    pub fn new(initial_regs: &RegSet, prf_capacity: usize) -> (r: Self)
        requires
            NUM_ARCH_REGS <= prf_capacity <= i32::MAX,
        ensures
            r.wf(),
            r.prf().len() == prf_capacity,
            r.prrt().len() == 0,
            r.branches().dom() == Set::<Tag>::empty(),
            forall|a: ArchReg|
                a != ArchReg::Zero ==> r.rat()[a] == PhysReg((a.spec_index() - 1) as i32),
            forall|a: ArchReg|
                a != ArchReg::Zero ==> r.prf()[a.spec_index() - 1] == PrfEntry::Active(
                    initial_regs.value(a),
                ),
            forall|i: int| NUM_ARCH_REGS - 1 <= i < prf_capacity ==> r.prf()[i] == PrfEntry::Free,
    {
        let mut slots: Vec<PrfEntry> = Vec::new();
        let mut k: usize = 0;
        while k < prf_capacity
            invariant
                k <= prf_capacity,
                slots@.len() == k,
                forall|j: int| 0 <= j < k ==> slots@[j] == PrfEntry::Free,
            decreases prf_capacity - k,
        {
            slots.push(PrfEntry::Free);
            k = k + 1;
        }
        let mut rf = RegFile {
            rat: alias_map_new(),
            phys_rf: PhysFile(slots),
            prrt: VecDeque::new(),
            branch_info: branch_map_new(),
        };
        let regs = ArchReg::all();
        let mut i: usize = 1;
        while i < regs.len()
            invariant
                regs@ == ArchReg::spec_all(),
                1 <= i <= regs@.len(),
                NUM_ARCH_REGS <= prf_capacity <= i32::MAX,
                rf.prf().len() == prf_capacity,
                rf.prrt().len() == 0,
                rf.branches().dom() == Set::<Tag>::empty(),
                forall|j: int|
                    #![trigger rf.prf()[j]]
                    0 <= j < i - 1 ==> rf.prf()[j] == PrfEntry::Active(initial_regs.value(regs@[j + 1])),
                forall|j: int| i - 1 <= j < prf_capacity ==> rf.prf()[j] == PrfEntry::Free,
                forall|a: ArchReg| #[trigger] rf.rat().contains_key(a) <==> (a != ArchReg::Zero && a.spec_index() < i),
                forall|a: ArchReg|
                    #[trigger] rf.rat().contains_key(a) ==> rf.rat()[a] == PhysReg((a.spec_index() - 1) as i32),
            decreases regs@.len() - i,
        {
            let reg = regs[i];
            proof {
                ArchReg::lemma_index_all(i as int);
                assert(is_first_free(rf.prf(), i - 1));
            }
            let ghost before = rf.prf();
            let slot = rf.allocate_phys_internal();
            proof {
                assert(slot is Some) by {
                    assert(rf.prf().len() > i - 1);
                }
            }
            let slot = slot.unwrap();
            proof {
                assert(is_first_free(before, i - 1));
                assert(slot.0 == i - 1);
            }
            rf.set_phys_active(slot, initial_regs.get(reg));
            rf.set_alias(reg, slot);
            i = i + 1;
        }
        proof {
            assert forall|a: ArchReg| a != ArchReg::Zero implies rf.prf()[a.spec_index() - 1]
                == PrfEntry::Active(initial_regs.value(a)) && rf.rat()[a] == PhysReg(
                (a.spec_index() - 1) as i32,
            ) by {
                a.lemma_all_index();
                assert(rf.rat().contains_key(a));
                assert(rf.prf()[a.spec_index() - 1] == PrfEntry::Active(initial_regs.value(regs@[a.spec_index() - 1 + 1])));
            }
        }
        rf
    }

    /// The number of physical registers.
    pub fn prf_len(&self) -> (r: usize)
        ensures
            r == self.prf().len(),
    {
        self.phys_rf.0.len()
    }

    /// Whether the oldest register awaiting release can be released: there
    /// is one and it holds a value.
    pub fn can_release(&self) -> (r: bool)
        requires
            self.wf(),
        ensures
            r == (self.prrt().len() > 0 && self.prf()[self.prrt()[0].0 as int] is Active),
    {
        if self.prrt.len() == 0 {
            return false;
        }
        let p = self.prrt[0];
        match self.phys_rf.0[p.0 as usize] {
            PrfEntry::Active(_) => true,
            _ => false,
        }
    }

    /// The prediction recorded for the branch `tag`, if it is in flight.
    pub fn branch_type(&self, tag: Tag) -> (r: Option<BranchType>)
        ensures
            r == if self.branches().contains_key(tag) {
                Some(self.branches()[tag].info)
            } else {
                None
            },
    {
        match branch_map_get(&self.branch_info, tag) {
            Some(bi) => Some(bi.info),
            None => None,
        }
    }

    /// Whether no physical register awaits release.
    pub fn is_prrt_empty(&self) -> (r: bool)
        ensures
            r == (self.prrt().len() == 0),
    {
        self.prrt.len() == 0
    }

    /// The entry of `phys_reg`.
    pub fn get_phys(&self, phys_reg: PhysReg) -> (r: PrfEntry)
        requires
            valid_phys(phys_reg, self.prf().len()),
        ensures
            r == self.prf()[phys_reg.0 as int],
    {
        self.phys_rf.0[phys_reg.0 as usize]
    }

    /// Makes `phys_reg` hold `val`.
    pub fn set_phys_active(&mut self, phys_reg: PhysReg, val: u32)
        requires
            valid_phys(phys_reg, old(self).prf().len()),
        ensures
            final(self).prf() == old(self).prf().update(phys_reg.0 as int, PrfEntry::Active(val)),
            final(self).rat() == old(self).rat(),
            final(self).prrt() == old(self).prrt(),
            final(self).branches() == old(self).branches(),
            old(self).wf() ==> final(self).wf(),
    {
        self.phys_rf.0.set(phys_reg.0 as usize, PrfEntry::Active(val));
    }

    /// Points `arch_reg` (not `zero`) at `phys_reg`.
    pub fn set_alias(&mut self, arch_reg: ArchReg, phys_reg: PhysReg)
        requires
            arch_reg != ArchReg::Zero,
            valid_phys(phys_reg, old(self).prf().len()),
        ensures
            final(self).rat() == old(self).rat().insert(arch_reg, phys_reg),
            final(self).prf() == old(self).prf(),
            final(self).prrt() == old(self).prrt(),
            final(self).branches() == old(self).branches(),
            old(self).wf() ==> final(self).wf(),
    {
        alias_map_insert(&mut self.rat, arch_reg, phys_reg);
    }

    /// The physical register `arch_reg` is renamed to; `zero` gives slot 0.
    pub fn get_alias(&self, arch_reg: ArchReg) -> (r: PhysReg)
        requires
            self.wf(),
        ensures
            r == if arch_reg == ArchReg::Zero {
                PhysReg(0)
            } else {
                self.rat()[arch_reg]
            },
    {
        if arch_reg == ArchReg::Zero {
            return PhysReg(0);
        }
        alias_map_get(&self.rat, arch_reg).unwrap()
    }

    /// The architectural registers with the values the file holds for them.
    pub fn get_reg_set(self) -> (r: RegSet)
        requires
            self.wf(),
        ensures
            forall|a: ArchReg| #[trigger] r.contents().contains_key(a) <==> self.rat().contains_key(a),
            forall|a: ArchReg| #[trigger] r.contents().contains_key(a) ==> r.contents()[a] == self.arch_value(a),
    {
        let entries = alias_map_entries(&self.rat);
        let mut set = RegSet::new();
        let mut i: usize = 0;
        while i < entries.len()
            invariant
                self.wf(),
                i <= entries@.len(),
                forall|k: int| 0 <= k < entries@.len() ==> self.rat().contains_key(#[trigger] entries@[k].0) && self.rat()[entries@[k].0] == entries@[k].1,
                forall|a: ArchReg| #[trigger] self.rat().contains_key(a) ==> exists|k: int| 0 <= k < entries@.len() && entries@[k].0 == a,
                forall|a: ArchReg| #[trigger] set.contents().contains_key(a) <==> exists|k: int| 0 <= k < i && entries@[k].0 == a,
                forall|a: ArchReg| #[trigger] set.contents().contains_key(a) ==> set.contents()[a] == self.arch_value(a),
            decreases entries@.len() - i,
        {
            let (a, p) = entries[i];
            let v = match self.get_phys(p) {
                PrfEntry::Active(v) => v,
                _ => 0,
            };
            set.set(a, v);
            i = i + 1;
        }
        set
    }

    /// The predicted direction of the direct branch `branch`.
    pub fn was_predicted_taken(&self, branch: Tag) -> (r: bool)
        requires
            self.branches().contains_key(branch),
            self.branches()[branch].info is Direct,
        ensures
            r == self.branches()[branch].info->taken,
    {
        match branch_map_get(&self.branch_info, branch) {
            Some(bi) => match bi.info {
                BranchType::Direct { taken, .. } => taken,
                BranchType::Indirect { .. } => false,
            },
            None => false,
        }
    }

    /// Records the prediction of the direct branch `branch`.
    pub fn begin_predict_direct(&mut self, branch: Tag, taken: bool, taken_pc: Pc, not_taken_pc: Pc)
        requires
            old(self).wf(),
        ensures
            final(self).wf(),
            final(self).rat() == old(self).rat(),
            final(self).prf() == old(self).prf(),
            final(self).prrt() == old(self).prrt(),
            final(self).branches() == old(self).branches().insert(
                branch,
                BranchInfo {
                    rat_cp: None,
                    alloc_list: None,
                    info: BranchType::Direct { taken, taken_pc, not_taken_pc },
                },
            ),
    {
        branch_map_insert(
            &mut self.branch_info,
            branch,
            BranchInfo {
                rat_cp: None,
                alloc_list: None,
                info: BranchType::Direct { taken, taken_pc, not_taken_pc },
            },
        );
        proof {
            assert(complete_alias(self.rat(), self.prf().len()));
            assert forall|i: int| 0 <= i < self.prrt().len() implies valid_phys(#[trigger] self.prrt()[i], self.prf().len()) by {
                assert(valid_phys(old(self).prrt()[i], old(self).prf().len()));
            }
            assert forall|t: Tag| #[trigger] self.branches().contains_key(t) implies branch_wf(self.branches()[t], self.prf().len()) by {
                if t != branch {
                    assert(old(self).branches().contains_key(t));
                }
            }
        }
    }

    /// Records the prediction of the indirect jump `branch` at `inst_pc`.
    pub fn begin_predict_indirect(&mut self, branch: Tag, predicted_pc: Option<Pc>, inst_pc: Pc)
        requires
            old(self).wf(),
        ensures
            final(self).wf(),
            final(self).rat() == old(self).rat(),
            final(self).prf() == old(self).prf(),
            final(self).prrt() == old(self).prrt(),
            final(self).branches() == old(self).branches().insert(
                branch,
                BranchInfo {
                    rat_cp: None,
                    alloc_list: None,
                    info: BranchType::Indirect { predicted_pc, inst_pc },
                },
            ),
    {
        branch_map_insert(
            &mut self.branch_info,
            branch,
            BranchInfo {
                rat_cp: None,
                alloc_list: None,
                info: BranchType::Indirect { predicted_pc, inst_pc },
            },
        );
        proof {
            assert(complete_alias(self.rat(), self.prf().len()));
            assert forall|i: int| 0 <= i < self.prrt().len() implies valid_phys(#[trigger] self.prrt()[i], self.prf().len()) by {
                assert(valid_phys(old(self).prrt()[i], old(self).prf().len()));
            }
            assert forall|t: Tag| #[trigger] self.branches().contains_key(t) implies branch_wf(self.branches()[t], self.prf().len()) by {
                if t != branch {
                    assert(old(self).branches().contains_key(t));
                }
            }
        }
    }

    /// The prediction recorded for the indirect jump `tag`, and its address.
    pub fn predicted_addr(&self, tag: Tag) -> (r: (Option<Pc>, Pc))
        requires
            self.branches().contains_key(tag),
            self.branches()[tag].info is Indirect,
        ensures
            r == (self.branches()[tag].info->predicted_pc, self.branches()[tag].info->inst_pc),
    {
        match branch_map_get(&self.branch_info, tag) {
            Some(bi) => match bi.info {
                BranchType::Indirect { predicted_pc, inst_pc } => (predicted_pc, inst_pc),
                BranchType::Direct { .. } => (None, Pc(0)),
            },
            None => (None, Pc(0)),
        }
    }

    /// Squashing younger instructions needs nothing of the file: branch
    /// state is dropped when the mispredicted branch resolves.
    pub fn kill_tags_after(&mut self, tag: Tag)
        ensures
            *final(self) == *old(self),
    {
    }

    /// Appends `slot` to the allocation list of every branch that keeps one.
    fn push_alloc_all(&mut self, slot: PhysReg)
        requires
            old(self).wf(),
            valid_phys(slot, old(self).prf().len()),
        ensures
            final(self).wf(),
            final(self).rat() == old(self).rat(),
            final(self).prf() == old(self).prf(),
            final(self).prrt() == old(self).prrt(),
            final(self).branches().dom() == old(self).branches().dom(),
            forall|t: Tag| #[trigger] old(self).branches().contains_key(t) ==> alloc_pushed(old(self).branches()[t], final(self).branches()[t], slot),
    {
        let keys = branch_map_keys(&self.branch_info);
        let ghost b0 = self.branches();
        let mut i: usize = 0;
        while i < keys.len()
            invariant
                self.wf(),
                valid_phys(slot, self.prf().len()),
                self.rat() == old(self).rat(),
                self.prf() == old(self).prf(),
                self.prrt() == old(self).prrt(),
                b0 == old(self).branches(),
                i <= keys@.len(),
                forall|k: int| 0 <= k < keys@.len() ==> b0.contains_key(#[trigger] keys@[k]),
                forall|t: Tag| #[trigger] b0.contains_key(t) ==> exists|k: int| 0 <= k < keys@.len() && keys@[k] == t,
                forall|k: int, l: int| 0 <= k < l < keys@.len() ==> keys@[k] != keys@[l],
                self.branches().dom() == b0.dom(),
                forall|k: int| 0 <= k < i ==> alloc_pushed(b0[#[trigger] keys@[k]], self.branches()[keys@[k]], slot),
                forall|k: int| i <= k < keys@.len() ==> self.branches()[#[trigger] keys@[k]] == b0[keys@[k]],
            decreases keys@.len() - i,
        {
            let k = keys[i];
            let ghost before = self.branches();
            let b = branch_map_remove(&mut self.branch_info, k);
            let b = b.unwrap();
            let BranchInfo { rat_cp, alloc_list, info } = b;
            let alloc_list = match alloc_list {
                Some(mut al) => {
                    al.push(slot);
                    Some(al)
                },
                None => None,
            };
            let nb = BranchInfo { rat_cp, alloc_list, info };
            proof {
                assert(branch_wf(nb, self.prf().len()));
            }
            branch_map_insert(&mut self.branch_info, k, nb);
            proof {
                assert(self.branches().dom() =~= b0.dom());
                assert forall|t: Tag| #[trigger] self.branches().contains_key(t) implies branch_wf(self.branches()[t], self.prf().len()) by {
                    if t != k {
                        assert(before.contains_key(t));
                    }
                }
                assert forall|kk: int| i + 1 <= kk < keys@.len() implies self.branches()[#[trigger] keys@[kk]] == b0[keys@[kk]] by {
                    assert(keys@[kk] != keys@[i as int]);
                }
                assert forall|kk: int| 0 <= kk < i + 1 implies alloc_pushed(b0[#[trigger] keys@[kk]], self.branches()[keys@[kk]], slot) by {
                    if kk < i {
                        assert(keys@[kk] != keys@[i as int]);
                    }
                }
            }
            i = i + 1;
        }
        proof {
            assert forall|t: Tag| #[trigger] b0.contains_key(t) implies alloc_pushed(b0[t], self.branches()[t], slot) by {
                let k = choose|k: int| 0 <= k < keys@.len() && keys@[k] == t;
                assert(alloc_pushed(b0[keys@[k]], self.branches()[keys@[k]], slot));
            }
        }
    }

    /// The first free physical register, now reserved and appended to the
    /// allocation list of every branch in flight that keeps one.
    pub fn allocate_phys(&mut self, tag: Tag) -> (r: Option<PhysReg>)
        requires
            old(self).wf(),
        ensures
            final(self).wf(),
            final(self).rat() == old(self).rat(),
            final(self).prrt() == old(self).prrt(),
            match r {
                Some(p) => {
                    &&& is_first_free(old(self).prf(), p.0 as int)
                    &&& final(self).prf() == old(self).prf().update(p.0 as int, PrfEntry::Reserved)
                    &&& final(self).branches().dom() == old(self).branches().dom()
                    &&& forall|t: Tag| #[trigger] old(self).branches().contains_key(t) ==> alloc_pushed(old(self).branches()[t], final(self).branches()[t], p)
                },
                None => {
                    &&& !has_free(old(self).prf())
                    &&& final(self).prf() == old(self).prf()
                    &&& final(self).branches() == old(self).branches()
                },
            },
    {
        match self.allocate_phys_internal() {
            Some(slot) => {
                self.push_alloc_all(slot);
                Some(slot)
            },
            None => None,
        }
    }

    /// Frees the oldest physical register awaiting release.
    pub fn release_phys(&mut self, tag: Tag)
        requires
            old(self).wf(),
            old(self).prrt().len() > 0,
            old(self).prf()[old(self).prrt()[0].0 as int] is Active,
        ensures
            final(self).wf(),
            final(self).rat() == old(self).rat(),
            final(self).branches() == old(self).branches(),
            final(self).prrt() == old(self).prrt().drop_first(),
            final(self).prf() == old(self).prf().update(old(self).prrt()[0].0 as int, PrfEntry::Free),
    {
        let slot = self.prrt.pop_front();
        let slot = slot.unwrap();
        self.phys_rf.0.set(slot.0 as usize, PrfEntry::Free);
        proof {
            assert forall|i: int| 0 <= i < self.prrt().len() implies valid_phys(#[trigger] self.prrt()[i], self.prf().len()) by {
                assert(self.prrt()[i] == old(self).prrt()[i + 1]);
            }
            assert(complete_alias(self.rat(), self.prf().len()));
            assert forall|t: Tag| #[trigger] self.branches().contains_key(t) implies branch_wf(self.branches()[t], self.prf().len()) by {
                assert(branch_wf(old(self).branches()[t], old(self).prf().len()));
            }
        }
    }

    /// What recovering to the snapshot of the branch `tag` (kept as `info`)
    /// needs: the snapshot and allocation list, as many registers awaiting
    /// release as were allocated since, and as long allocation lists for the
    /// older branches.
    pub open spec fn recoverable(&self, info: BranchInfo, tag: Tag) -> bool {
        &&& info.rat_cp is Some
        &&& info.alloc_list is Some
        &&& branch_wf(info, self.prf().len())
        &&& self.prrt().len() >= info.alloc_list->0@.len()
        &&& forall|t: Tag|
            #[trigger] self.branches().contains_key(t) && t.0 <= tag.0 && t != tag ==> (
            self.branches()[t].alloc_list matches Some(al2) ==> al2@.len()
                >= info.alloc_list->0@.len())
    }

    /// `new` is `self` recovered to the snapshot `info` of the branch `tag`:
    /// the alias table restored, the registers allocated since freed and
    /// taken off the release queue, younger branches and `tag` itself
    /// forgotten, and the allocation lists of the others cut back.
    pub open spec fn recovered(&self, new: &RegFile, info: BranchInfo, tag: Tag) -> bool {
        let al = info.alloc_list->0@;
        &&& new.rat() == alias_map(info.rat_cp->0)
        &&& new.prf() == free_all(self.prf(), al)
        &&& new.prrt() == self.prrt().take(self.prrt().len() - al.len())
        &&& forall|t: Tag| #[trigger] new.branches().contains_key(t) <==> (self.branches().contains_key(t) && t != tag && t.0 <= tag.0)
        &&& forall|t: Tag| #[trigger] new.branches().contains_key(t) ==> alloc_truncated(self.branches()[t], new.branches()[t], al.len())
    }

    /// Whether the branch `tag` is in flight and could be recovered to.
    pub fn can_recover(&self, tag: Tag) -> (r: bool)
        requires
            self.wf(),
        ensures
            r == (self.branches().contains_key(tag) && self.recoverable(self.branches()[tag], tag)),
    {
        let info = match branch_map_get(&self.branch_info, tag) {
            Some(bi) => bi,
            None => return false,
        };
        let n = match &info.alloc_list {
            Some(al) => al.len(),
            None => return false,
        };
        if info.rat_cp.is_none() || self.prrt.len() < n {
            return false;
        }
        let keys = branch_map_keys(&self.branch_info);
        let mut i: usize = 0;
        while i < keys.len()
            invariant
                self.wf(),
                self.branches().contains_key(tag),
                info == self.branches()[tag],
                info.alloc_list is Some,
                n == info.alloc_list->0@.len(),
                i <= keys@.len(),
                forall|k: int| 0 <= k < keys@.len() ==> self.branches().contains_key(#[trigger] keys@[k]),
                forall|t: Tag| #[trigger] self.branches().contains_key(t) ==> exists|k: int| 0 <= k < keys@.len() && keys@[k] == t,
                forall|k: int|
                    #![trigger keys@[k]]
                    0 <= k < i && keys@[k].0 <= tag.0 && keys@[k] != tag ==> (self.branches()[keys@[k]].alloc_list matches Some(al2) ==> al2@.len() >= n),
            decreases keys@.len() - i,
        {
            let t = keys[i];
            if t.0 <= tag.0 && t.0 != tag.0 {
                match branch_map_get(&self.branch_info, t) {
                    Some(b) => match &b.alloc_list {
                        Some(al2) => {
                            if al2.len() < n {
                                return false;
                            }
                        },
                        None => {},
                    },
                    None => {},
                }
            }
            i = i + 1;
        }
        proof {
            assert forall|t: Tag|
                #[trigger] self.branches().contains_key(t) && t.0 <= tag.0 && t != tag implies (
                self.branches()[t].alloc_list matches Some(al2) ==> al2@.len() >= n) by {
                let k = choose|k: int| 0 <= k < keys@.len() && keys@[k] == t;
                assert(keys@[k] == t);
            }
        }
        true
    }

    /// Drops the last `n` entries of the allocation list of every branch that keeps one.
    fn truncate_alloc_all(&mut self, n: usize)
        requires
            old(self).wf(),
            forall|t: Tag|
                #[trigger] old(self).branches().contains_key(t) ==> (old(self).branches()[t].alloc_list matches Some(al)
                    ==> al@.len() >= n),
        ensures
            final(self).wf(),
            final(self).rat() == old(self).rat(),
            final(self).prf() == old(self).prf(),
            final(self).prrt() == old(self).prrt(),
            final(self).branches().dom() == old(self).branches().dom(),
            forall|t: Tag| #[trigger] old(self).branches().contains_key(t) ==> alloc_truncated(old(self).branches()[t], final(self).branches()[t], n as nat),
    {
        let keys = branch_map_keys(&self.branch_info);
        let ghost b0 = self.branches();
        let mut i: usize = 0;
        while i < keys.len()
            invariant
                self.wf(),
                self.rat() == old(self).rat(),
                self.prf() == old(self).prf(),
                self.prrt() == old(self).prrt(),
                b0 == old(self).branches(),
                forall|t: Tag| #[trigger] b0.contains_key(t) ==> (b0[t].alloc_list matches Some(al) ==> al@.len() >= n),
                i <= keys@.len(),
                forall|k: int| 0 <= k < keys@.len() ==> b0.contains_key(#[trigger] keys@[k]),
                forall|t: Tag| #[trigger] b0.contains_key(t) ==> exists|k: int| 0 <= k < keys@.len() && keys@[k] == t,
                forall|k: int, l: int| 0 <= k < l < keys@.len() ==> keys@[k] != keys@[l],
                self.branches().dom() == b0.dom(),
                forall|k: int| 0 <= k < i ==> alloc_truncated(b0[#[trigger] keys@[k]], self.branches()[keys@[k]], n as nat),
                forall|k: int| i <= k < keys@.len() ==> self.branches()[#[trigger] keys@[k]] == b0[keys@[k]],
            decreases keys@.len() - i,
        {
            let k = keys[i];
            let ghost before = self.branches();
            let b = branch_map_remove(&mut self.branch_info, k);
            let b = b.unwrap();
            let BranchInfo { rat_cp, alloc_list, info } = b;
            let alloc_list = match alloc_list {
                Some(mut al) => {
                    let ghost al0 = al@;
                    let mut j: usize = 0;
                    while j < n
                        invariant
                            j <= n,
                            al0.len() >= n,
                            al@ == al0.take(al0.len() - j),
                        decreases n - j,
                    {
                        al.pop();
                        j = j + 1;
                    }
                    Some(al)
                },
                None => None,
            };
            let nb = BranchInfo { rat_cp, alloc_list, info };
            proof {
                assert(branch_wf(nb, self.prf().len())) by {
                    if nb.alloc_list is Some {
                        assert(b0[k].alloc_list is Some);
                    }
                }
            }
            branch_map_insert(&mut self.branch_info, k, nb);
            proof {
                assert(self.branches().dom() =~= b0.dom());
                assert forall|t: Tag| #[trigger] self.branches().contains_key(t) implies branch_wf(self.branches()[t], self.prf().len()) by {
                    if t != k {
                        assert(before.contains_key(t));
                    }
                }
                assert forall|kk: int| i + 1 <= kk < keys@.len() implies self.branches()[#[trigger] keys@[kk]] == b0[keys@[kk]] by {
                    assert(keys@[kk] != keys@[i as int]);
                }
                assert forall|kk: int| 0 <= kk < i + 1 implies alloc_truncated(b0[#[trigger] keys@[kk]], self.branches()[keys@[kk]], n as nat) by {
                    if kk < i {
                        assert(keys@[kk] != keys@[i as int]);
                    }
                }
            }
            i = i + 1;
        }
        proof {
            assert forall|t: Tag| #[trigger] b0.contains_key(t) implies alloc_truncated(b0[t], self.branches()[t], n as nat) by {
                let k = choose|k: int| 0 <= k < keys@.len() && keys@[k] == t;
                assert(alloc_truncated(b0[keys@[k]], self.branches()[keys@[k]], n as nat));
            }
        }
    }

    /// Recovers to the snapshot `info` of the branch `tag`.
    fn mispredict(&mut self, tag: Tag, info: &BranchInfo)
        requires
            old(self).wf(),
            !old(self).branches().contains_key(tag),
            old(self).recoverable(*info, tag),
        ensures
            final(self).wf(),
            old(self).recovered(final(self), *info, tag),
    {
        let ghost prf0 = self.prf();
        let ghost prrt0 = self.prrt();
        let ghost b0 = self.branches();
        let cp = match &info.rat_cp {
            Some(cp) => alias_map_clone(cp),
            None => alias_map_new(),
        };
        self.rat = cp;
        let al = match &info.alloc_list {
            Some(al) => al,
            None => {
                return;
            },
        };
        let n = al.len();
        let mut j: usize = 0;
        while j < n
            invariant
                n == al@.len(),
                j <= n,
                info.alloc_list == Some(*al),
                forall|i: int| 0 <= i < al@.len() ==> valid_phys(#[trigger] al@[i], prf0.len()),
                prrt0.len() >= n,
                self.prf().len() == prf0.len(),
                forall|i: int|
                    #![trigger self.prf()[i]]
                    0 <= i < prf0.len() ==> self.prf()[i] == if exists|k: int| 0 <= k < j && al@[k].0 == i {
                        PrfEntry::Free
                    } else {
                        prf0[i]
                    },
                self.prrt() == prrt0.take(prrt0.len() - j),
                self.rat() == alias_map(info.rat_cp->0),
                self.branches() == b0,
            decreases n - j,
        {
            let p = al[j];
            self.phys_rf.0.set(p.0 as usize, PrfEntry::Free);
            self.prrt.pop_back();
            proof {
                assert forall|i: int|
                    #![trigger self.prf()[i]]
                    0 <= i < prf0.len() implies self.prf()[i] == if exists|k: int| 0 <= k < j + 1 && al@[k].0 == i {
                        PrfEntry::Free
                    } else {
                        prf0[i]
                    } by {
                    if i == p.0 {
                        assert(al@[j as int].0 == i);
                    } else if exists|k: int| 0 <= k < j + 1 && al@[k].0 == i {
                        let k = choose|k: int| 0 <= k < j + 1 && al@[k].0 == i;
                        assert(k < j);
                    }
                }
                assert(self.prrt() =~= prrt0.take(prrt0.len() - (j + 1)));
            }
            j = j + 1;
        }
        assert(self.prf() =~= free_all(prf0, al@));
        branch_map_retain_not_after(&mut self.branch_info, tag);
        proof {
            assert forall|i: int| 0 <= i < self.prrt().len() implies valid_phys(#[trigger] self.prrt()[i], self.prf().len()) by {
                assert(self.prrt()[i] == prrt0[i]);
            }
            assert forall|t: Tag| #[trigger] self.branches().contains_key(t) implies branch_wf(self.branches()[t], self.prf().len()) by {
                assert(b0.contains_key(t));
            }
            assert forall|t: Tag| #[trigger] self.branches().contains_key(t) implies (self.branches()[t].alloc_list matches Some(al2) ==> al2@.len() >= n) by {
                assert(b0.contains_key(t));
                assert(t != tag);
            }
        }
        self.truncate_alloc_all(n);
        proof {
            assert forall|t: Tag| #[trigger] self.branches().contains_key(t) <==> (b0.contains_key(t) && t != tag && t.0 <= tag.0) by {
                if b0.contains_key(t) && t.0 <= tag.0 {
                    assert(tags_not_after(tag).contains(t));
                }
            }
        }
    }

    /// Resolves the direct branch `branch`: trains the predictor at its
    /// address and, when the prediction was wrong, recovers and gives the
    /// address to fetch from.
    pub fn end_predict_direct(
        &mut self,
        branch: Tag,
        taken: bool,
        predicted: bool,
        branch_predictor: &mut BranchPredictor,
    ) -> (r: Option<Pc>)
        requires
            old(self).wf(),
            old(branch_predictor).wf(),
            old(self).branches().contains_key(branch),
            old(self).branches()[branch].info is Direct,
            old(self).branches()[branch].info->not_taken_pc.0 >= INST_SIZE,
            taken != predicted ==> old(self).recoverable(old(self).branches()[branch], branch),
        ensures
            final(self).wf(),
            final(branch_predictor).wf(),
            ({
                let info = old(self).branches()[branch].info;
                final(branch_predictor).is_direct_update(
                    *old(branch_predictor),
                    Pc((info->not_taken_pc.0 - INST_SIZE) as u32),
                    taken,
                )
            }),
            taken != predicted ==> old(self).recovered(final(self), old(self).branches()[branch], branch),
            taken == predicted ==> {
                &&& final(self).rat() == old(self).rat()
                &&& final(self).prf() == old(self).prf()
                &&& final(self).prrt() == old(self).prrt()
                &&& final(self).branches() == old(self).branches().remove(branch)
            },
            r == if taken == predicted {
                None
            } else if taken {
                Some(old(self).branches()[branch].info->taken_pc)
            } else {
                Some(old(self).branches()[branch].info->not_taken_pc)
            },
    {
        let ghost s0 = *self;
        let bi = branch_map_remove(&mut self.branch_info, branch);
        let bi = bi.unwrap();
        let (taken_pc, not_taken_pc) = match bi.info {
            BranchType::Direct { taken_pc, not_taken_pc, .. } => (taken_pc, not_taken_pc),
            BranchType::Indirect { .. } => (Pc(0), Pc(INST_SIZE)),
        };
        branch_predictor.update_predict_direct(Pc(not_taken_pc.0 - INST_SIZE), taken);
        proof {
            assert forall|t: Tag| #[trigger] self.branches().contains_key(t) implies branch_wf(self.branches()[t], self.prf().len()) by {
                assert(s0.branches().contains_key(t));
            }
            assert(complete_alias(self.rat(), self.prf().len()));
            assert forall|i: int| 0 <= i < self.prrt().len() implies valid_phys(#[trigger] self.prrt()[i], self.prf().len()) by {
                assert(valid_phys(s0.prrt()[i], s0.prf().len()));
            }
        }
        if taken != predicted {
            proof {
                assert forall|t: Tag|
                    #[trigger] self.branches().contains_key(t) && t.0 <= branch.0 && t != branch implies (
                    self.branches()[t].alloc_list matches Some(al2) ==> al2@.len()
                        >= bi.alloc_list->0@.len()) by {
                    assert(s0.branches().contains_key(t));
                }
            }
            self.mispredict(branch, &bi);
            proof {
                assert forall|t: Tag| #[trigger] self.branches().contains_key(t) implies alloc_truncated(s0.branches()[t], self.branches()[t], bi.alloc_list->0@.len()) by {
                    assert(s0.branches().remove(branch)[t] == s0.branches()[t]);
                }
            }
            if taken {
                Some(taken_pc)
            } else {
                Some(not_taken_pc)
            }
        } else {
            None
        }
    }

    /// Resolves the indirect jump `branch` to `actual_pc`: records the target
    /// and, when a prediction was made and was wrong, recovers.
    pub fn end_predict_indirect(
        &mut self,
        branch: Tag,
        actual_pc: Pc,
        predicted_pc: Option<Pc>,
        branch_predictor: &mut BranchPredictor,
    )
        requires
            old(self).wf(),
            old(branch_predictor).wf(),
            old(self).branches().contains_key(branch),
            old(self).branches()[branch].info is Indirect,
            (predicted_pc matches Some(p) && p != actual_pc) ==> old(self).recoverable(old(self).branches()[branch], branch),
        ensures
            final(self).wf(),
            final(branch_predictor).wf(),
            final(branch_predictor).btb() == old(branch_predictor).btb().insert(
                old(self).branches()[branch].info->inst_pc,
                actual_pc,
            ),
            final(branch_predictor).ras() == old(branch_predictor).ras(),
            final(branch_predictor).counters() == old(branch_predictor).counters(),
            (predicted_pc matches Some(p) && p != actual_pc) ==> old(self).recovered(final(self), old(self).branches()[branch], branch),
            !(predicted_pc matches Some(p) && p != actual_pc) ==> {
                &&& final(self).rat() == old(self).rat()
                &&& final(self).prf() == old(self).prf()
                &&& final(self).prrt() == old(self).prrt()
                &&& final(self).branches() == old(self).branches().remove(branch)
            },
    {
        let ghost s0 = *self;
        let bi = branch_map_remove(&mut self.branch_info, branch);
        let bi = bi.unwrap();
        let inst_pc = match bi.info {
            BranchType::Indirect { inst_pc, .. } => inst_pc,
            BranchType::Direct { .. } => Pc(0),
        };
        branch_predictor.update_predict_indirect(inst_pc, actual_pc);
        proof {
            assert forall|t: Tag| #[trigger] self.branches().contains_key(t) implies branch_wf(self.branches()[t], self.prf().len()) by {
                assert(s0.branches().contains_key(t));
            }
            assert(complete_alias(self.rat(), self.prf().len()));
            assert forall|i: int| 0 <= i < self.prrt().len() implies valid_phys(#[trigger] self.prrt()[i], self.prf().len()) by {
                assert(valid_phys(s0.prrt()[i], s0.prf().len()));
            }
        }
        let wrong = match predicted_pc {
            Some(p) => p.0 != actual_pc.0,
            None => false,
        };
        if wrong {
            proof {
                assert forall|t: Tag|
                    #[trigger] self.branches().contains_key(t) && t.0 <= branch.0 && t != branch implies (
                    self.branches()[t].alloc_list matches Some(al2) ==> al2@.len()
                        >= bi.alloc_list->0@.len()) by {
                    assert(s0.branches().contains_key(t));
                }
            }
            self.mispredict(branch, &bi);
            proof {
                assert forall|t: Tag| #[trigger] self.branches().contains_key(t) implies alloc_truncated(s0.branches()[t], self.branches()[t], bi.alloc_list->0@.len()) by {
                    assert(s0.branches().remove(branch)[t] == s0.branches()[t]);
                }
            }
        }
    }

    /// The first free slot of the file (meaningful when there is one).
    pub open spec fn first_free(&self) -> int {
        choose|i: int| is_first_free(self.prf(), i)
    }

    /// Whether renaming `inst` takes a new physical register.
    pub open spec fn needs_slot(inst: Inst) -> bool {
        dst_reg(inst) matches Some(d) && d != ArchReg::Zero
    }

    /// A source operand after renaming: `zero` reads 0, others their alias.
    pub open spec fn rename_src(&self, a: ArchReg) -> ValueOrReg {
        if a == ArchReg::Zero {
            ValueOrReg::Value(0)
        } else {
            ValueOrReg::Reg(self.rat()[a])
        }
    }

    /// The destination of a renamed instruction writing `d`.
    pub open spec fn rename_dst(&self, d: ArchReg) -> BothReg {
        if d == ArchReg::Zero {
            BothReg { arch: ArchReg::Zero, phys: PhysReg(-1i32) }
        } else {
            BothReg { arch: d, phys: PhysReg(self.first_free() as i32) }
        }
    }

    /// Renames `inst`, the instruction `tag`. A branch in flight under `tag`
    /// first takes a snapshot of the alias table and starts an empty
    /// allocation list. Sources read their aliases; a destination other than
    /// `zero` takes the first free register, whose old alias awaits release.
    /// `None` when no register is free.
    pub fn perform_rename(&mut self, tag: Tag, inst: Inst) -> (r: Option<RenamedInst>)
        requires
            old(self).wf(),
        ensures
            final(self).wf(),
            final(self).prf().len() == old(self).prf().len(),
            r is None <==> (Self::needs_slot(inst) && !has_free(old(self).prf())),
            r matches Some(ri) ==> inst_corresponds(
                inst,
                ri,
                |a: ArchReg, v: ValueOrReg| v == old(self).rename_src(a),
                |d: ArchReg, b: BothReg| b == old(self).rename_dst(d),
                |j: Pc, j2: Pc| j2 == j,
            ),
            forall|t: Tag| #[trigger] final(self).branches().contains_key(t) <==> old(self).branches().contains_key(t),
            old(self).branches().contains_key(tag) ==> {
                let b = final(self).branches()[tag];
                &&& b.info == old(self).branches()[tag].info
                &&& b.rat_cp matches Some(cp) && alias_map(cp) == old(self).rat()
                &&& b.alloc_list matches Some(al) && al@ == if r is Some && Self::needs_slot(inst) {
                    seq![PhysReg(old(self).first_free() as i32)]
                } else {
                    Seq::<PhysReg>::empty()
                }
            },
            (r is Some && Self::needs_slot(inst)) ==> {
                let d = dst_reg(inst)->0;
                let slot = PhysReg(old(self).first_free() as i32);
                &&& final(self).rat() == old(self).rat().insert(d, slot)
                &&& final(self).prrt() == old(self).prrt().push(old(self).rat()[d])
                &&& final(self).prf() == old(self).prf().update(slot.0 as int, PrfEntry::Reserved)
                &&& forall|t: Tag| #[trigger] old(self).branches().contains_key(t) && t != tag ==> alloc_pushed(old(self).branches()[t], final(self).branches()[t], slot)
            },
            !(r is Some && Self::needs_slot(inst)) ==> {
                &&& final(self).rat() == old(self).rat()
                &&& final(self).prrt() == old(self).prrt()
                &&& final(self).prf() == old(self).prf()
                &&& forall|t: Tag| #[trigger] old(self).branches().contains_key(t) && t != tag ==> final(self).branches()[t] == old(self).branches()[t]
            },
    {
        let ghost s0 = *self;
        match branch_map_remove(&mut self.branch_info, tag) {
            Some(bi) => {
                let BranchInfo { info, .. } = bi;
                let cp = alias_map_clone(&self.rat);
                branch_map_insert(
                    &mut self.branch_info,
                    tag,
                    BranchInfo { rat_cp: Some(cp), alloc_list: Some(Vec::new()), info },
                );
            },
            None => {},
        }
        proof {
            assert forall|t: Tag| #[trigger] self.branches().contains_key(t) implies branch_wf(self.branches()[t], self.prf().len()) by {
                if t != tag {
                    assert(s0.branches().contains_key(t));
                }
            }
            assert(complete_alias(self.rat(), self.prf().len()));
            assert forall|i: int| 0 <= i < self.prrt().len() implies valid_phys(#[trigger] self.prrt()[i], self.prf().len()) by {
                assert(valid_phys(s0.prrt()[i], s0.prf().len()));
            }
        }
        let ghost s1 = *self;
        let rf: &RegFile = &*self;
        let src_fn = |src: ArchReg| -> (v: ValueOrReg)
            requires
                rf.wf(),
            ensures
                v == rf.rename_src(src),
            {
                if src == ArchReg::Zero {
                    ValueOrReg::Value(0)
                } else {
                    ValueOrReg::Reg(rf.get_alias(src))
                }
            };
        let renamed = inst.map_src_regs(src_fn);
        let dst = inst.dst_arch();
        let both = match dst {
            None => BothReg { arch: ArchReg::Zero, phys: PhysReg::none() },
            Some(dst_reg) => {
                if dst_reg == ArchReg::Zero {
                    BothReg { arch: ArchReg::Zero, phys: PhysReg::none() }
                } else {
                    match self.allocate_phys(tag) {
                        Some(slot) => {
                            let ghost s2 = *self;
                            let old_phys = self.get_alias(dst_reg);
                            self.prrt.push_back(old_phys);
                            proof {
                                assert(s2.rat().contains_key(dst_reg));
                                assert(valid_phys(old_phys, s2.prf().len()));
                                assert forall|i: int| 0 <= i < self.prrt().len() implies valid_phys(#[trigger] self.prrt()[i], self.prf().len()) by {
                                    if i < self.prrt().len() - 1 {
                                        assert(self.prrt()[i] == s2.prrt()[i]);
                                        assert(valid_phys(s2.prrt()[i], s2.prf().len()));
                                    } else {
                                        assert(self.prrt()[i] == old_phys);
                                    }
                                }
                                assert forall|t: Tag| #[trigger] s0.branches().contains_key(t) && t != tag implies alloc_pushed(s0.branches()[t], self.branches()[t], slot) by {
                                    assert(s1.branches().contains_key(t));
                                    assert(s1.branches()[t] == s0.branches()[t]);
                                }
                                assert(is_first_free(s0.prf(), slot.0 as int));
                                assert(s0.first_free() == slot.0) by {
                                    let k = s0.first_free();
                                    assert(is_first_free(s0.prf(), k));
                                }
                            }
                            self.set_alias(dst_reg, slot);
                            BothReg { arch: dst_reg, phys: slot }
                        },
                        None => {
                            return None;
                        },
                    }
                }
            },
        };
        let id_fn = |s: ValueOrReg| -> (v: ValueOrReg)
            ensures
                v == s,
            { s };
        let dst_fn = |d: ArchReg| -> (b: BothReg)
            ensures
                b == both,
            { both };
        let r = renamed.map_regs(id_fn, dst_fn);
        proof {
            let fs = |a: ArchReg, v: ValueOrReg| v == s0.rename_src(a);
            let fd = |d: ArchReg, b: BothReg| b == s0.rename_dst(d);
            let fj = |j: Pc, j2: Pc| j2 == j;
            let fd_at = |d: ArchReg, b: BothReg| dst_reg(inst) == Some(d) ==> fd(d, b);
            assert(s1.rat() == s0.rat());
            lemma_corresponds_compose(
                inst,
                renamed,
                r,
                |a: ArchReg, b: ValueOrReg| call_ensures(src_fn, (a,), b),
                |a: ArchReg, b: ArchReg| a == b,
                |a: Pc, b: Pc| a == b,
                |a: ValueOrReg, b: ValueOrReg| call_ensures(id_fn, (a,), b),
                |a: ArchReg, b: BothReg| call_ensures(dst_fn, (a,), b),
                |a: Pc, b: Pc| a == b,
                fs,
                fd_at,
                fj,
            );
            lemma_corresponds_at_dst(inst, r, fs, fd, fj);
        }
        Some(r)
    }
}

/// Whether a renamed source operand can be read from `prf`.
pub open spec fn operand_ready(prf: Seq<PrfEntry>, s: ValueOrReg) -> bool {
    match s {
        ValueOrReg::Value(_) => true,
        ValueOrReg::Reg(p) => prf[p.0 as int] is Active,
    }
}

/// The value of a renamed source operand read from `prf`.
pub open spec fn operand_value(prf: Seq<PrfEntry>, s: ValueOrReg) -> u32 {
    match s {
        ValueOrReg::Value(v) => v,
        ValueOrReg::Reg(p) => entry_value(prf[p.0 as int]),
    }
}

/// The physical registers a renamed source operand names lie in a file of `n` entries.
pub open spec fn operand_in_file(n: nat, s: ValueOrReg) -> bool {
    s matches ValueOrReg::Reg(p) ==> valid_phys(p, n)
}

impl RenamedInst {
    /// The instruction with its sources read from `rf`; `None` while one of
    /// them is not yet computed.
    pub fn get_ready(&self, rf: &RegFile) -> (r: Option<ReadyInst>)
        requires
            inst_fields(*self, |s: ValueOrReg| operand_in_file(rf.prf().len(), s), |d: BothReg| true, |j: Pc| true),
        ensures
            r is Some <==> inst_fields(*self, |s: ValueOrReg| operand_ready(rf.prf(), s), |d: BothReg| true, |j: Pc| true),
            r matches Some(ri) ==> inst_corresponds(
                *self,
                ri,
                |s: ValueOrReg, v: u32| v == operand_value(rf.prf(), s),
                |a: BothReg, b: BothReg| a == b,
                |a: Pc, b: Pc| a == b,
            ),
    {
        let src_fn = |s: ValueOrReg| -> (v: Option<u32>)
            requires
                operand_in_file(rf.prf().len(), s),
            ensures
                v is Some <==> operand_ready(rf.prf(), s),
                v matches Some(x) ==> x == operand_value(rf.prf(), s),
            {
                match s {
                    ValueOrReg::Value(x) => Some(x),
                    ValueOrReg::Reg(p) => match rf.get_phys(p) {
                        PrfEntry::Active(x) => Some(x),
                        _ => None,
                    },
                }
            };
        let dst_fn = |d: BothReg| -> (v: Option<BothReg>)
            ensures
                v == Some(d),
            { Some(d) };
        let jump_fn = |j: Pc| -> (v: Option<Pc>)
            ensures
                v == Some(j),
            { Some(j) };
        proof {
            lemma_fields_weaken(
                *self,
                |s: ValueOrReg| operand_in_file(rf.prf().len(), s),
                |d: BothReg| true,
                |j: Pc| true,
                |x: ValueOrReg| call_requires(src_fn, (x,)),
                |x: BothReg| call_requires(dst_fn, (x,)),
                |x: Pc| call_requires(jump_fn, (x,)),
            );
        }
        let r = self.try_map(src_fn, dst_fn, jump_fn);
        proof {
            let ps = |s: ValueOrReg| operand_ready(rf.prf(), s);
            let pt = |d: BothReg| true;
            let pj = |j: Pc| true;
            if r is Some {
                let ri = r->0;
                lemma_corresponds_fields(
                    *self,
                    ri,
                    |a: ValueOrReg, b: u32| call_ensures(src_fn, (a,), Some(b)),
                    |a: BothReg, b: BothReg| call_ensures(dst_fn, (a,), Some(b)),
                    |a: Pc, b: Pc| call_ensures(jump_fn, (a,), Some(b)),
                    ps,
                    pt,
                    pj,
                );
                lemma_corresponds_weaken(
                    *self,
                    ri,
                    |a: ValueOrReg, b: u32| call_ensures(src_fn, (a,), Some(b)),
                    |a: BothReg, b: BothReg| call_ensures(dst_fn, (a,), Some(b)),
                    |a: Pc, b: Pc| call_ensures(jump_fn, (a,), Some(b)),
                    |s: ValueOrReg, v: u32| v == operand_value(rf.prf(), s),
                    |a: BothReg, b: BothReg| a == b,
                    |a: Pc, b: Pc| a == b,
                );
            } else {
                if inst_fields(*self, ps, pt, pj) {
                    lemma_fields_weaken(
                        *self,
                        ps,
                        pt,
                        pj,
                        |x: ValueOrReg| !call_ensures(src_fn, (x,), None),
                        |x: BothReg| !call_ensures(dst_fn, (x,), None),
                        |x: Pc| !call_ensures(jump_fn, (x,), None),
                    );
                }
            }
        }
        r
    }
}

/// Recovering from the misprediction of a branch restores the alias table
/// to what it was when the branch was renamed: the snapshot renaming took
/// is the table recovery installs.
pub proof fn lemma_recovery_restores_rat(renamed: RegFile, before: RegFile, after: RegFile, tag: Tag, rat_at_rename: Map<ArchReg, PhysReg>)
    requires
        renamed.branches().contains_key(tag),
        renamed.branches()[tag].rat_cp matches Some(cp) && alias_map(cp) == rat_at_rename,
        before.branches().contains_key(tag),
        before.branches()[tag].rat_cp == renamed.branches()[tag].rat_cp,
        before.recovered(&after, before.branches()[tag], tag),
    ensures
        after.rat() == rat_at_rename,
        !after.branches().contains_key(tag),
{
}

} // verus!
