use aca::branch::BranchPredictor;
use aca::execution_unit::{EuType, ExecutionUnit};
use aca::hazard::read_after_write;
use aca::inst::{ArchReg, BothReg, Imm, Inst, MemRef, Pc, PhysReg, ReadyInst, Tag, ValueOrReg};
use aca::lsq::LoadStoreQueue;
use aca::mem::{MainMemory, MemoryHierarchy, STACK_TOP};
use aca::queue::Queue;
use aca::rat::{RegisterAliasTable, ValueOrTag};
use aca::regs::{PrfEntry, RegFile, RegSet};
use aca::reservation_station::ReservationStation;
use aca::rob::ReorderBuffer;
use aca::util::Addr;

#[test]
fn queue_is_first_in_first_out() {
    let mut q = Queue::new(2);
    assert_eq!(q.try_push(1), None);
    assert_eq!(q.try_push(2), None);
    assert!(q.is_full());
    assert_eq!(q.try_push(3), Some(3));
    assert_eq!(q.front(), Some(&1));
    assert_eq!(q.back(), Some(&2));
    assert_eq!(q.try_pop(), Some(1));
    assert_eq!(q.try_pop(), Some(2));
    assert_eq!(q.try_pop(), None);
}

#[test]
fn rob_retires_in_order_once_executed() {
    let mut rob = ReorderBuffer::new(4);
    assert_eq!(rob.try_push(Tag(1), Inst::nop()), None);
    assert_eq!(rob.try_push(Tag(2), Inst::Halt), None);
    assert!(rob.last_is_halt());
    assert!(rob.try_pop().is_none());
    rob.mark_complete(Tag(2));
    assert!(rob.try_pop().is_none());
    rob.mark_complete(Tag(1));
    let first = rob.try_pop().expect("oldest entry executed");
    assert_eq!(first.tag, Tag(1));
    assert!(rob.contains(Tag(2)));
    rob.kill_tags_after(Tag(1));
    assert!(!rob.contains(Tag(2)));
}

#[test]
fn predictor_falls_back_to_backward_taken() {
    let mut bp = BranchPredictor::new();
    assert!(bp.predict_direct(Pc(40), Pc(8)));
    assert!(!bp.predict_direct(Pc(40), Pc(80)));
    bp.update_predict_direct(Pc(40), false);
    assert!(!bp.predict_direct(Pc(40), Pc(8)));
    bp.update_predict_direct(Pc(40), true);
    assert!(bp.predict_direct(Pc(40), Pc(80)));
    // Saturation: two not-taken outcomes from the top are needed to flip.
    bp.update_predict_direct(Pc(40), true);
    bp.update_predict_direct(Pc(40), true);
    bp.update_predict_direct(Pc(40), false);
    assert!(bp.predict_direct(Pc(40), Pc(80)));
}

#[test]
fn predictor_remembers_jump_targets() {
    let mut bp = BranchPredictor::new();
    let call = Inst::JumpAndLink(ArchReg::RA, Pc(100));
    assert_eq!(bp.predict_indirect(&call, Pc(12)), None);
    bp.update_predict_indirect(Pc(12), Pc(100));
    assert_eq!(bp.predict_indirect(&call, Pc(12)), Some(Pc(100)));
}

#[test]
fn memory_reads_back_what_was_written() {
    let mut m = MainMemory::new();
    m.writew(Addr(8), 0x1234_5678);
    assert_eq!(m.readw(Addr(8)), 0x1234_5678);
    assert_eq!(m.readb(Addr(8)), 0x78);
    assert_eq!(m.readh(Addr(10)), 0x1234);
    m.writeb(Addr(9), 0x1ff);
    assert_eq!(m.readw(Addr(8)), 0x1234_ff78);
    m.copy_from_slice(&[1, 2, 3], Addr(20));
    assert_eq!(m.readw(Addr(20)), 0x0003_0201);
    let copy = m.clone();
    assert_eq!(copy.readw(Addr(8)), 0x1234_ff78);
}

#[test]
fn cache_hierarchy_speeds_up_repeated_access() {
    let mut mem = MemoryHierarchy::new(MainMemory::new());
    assert!(!mem.access_complete(Tag(1), Addr(130)));
    for _ in 0..399 {
        mem.tick();
        assert!(!mem.access_complete(Tag(1), Addr(130)));
    }
    mem.tick();
    assert!(mem.access_complete(Tag(1), Addr(130)));
    mem.finish_access(Tag(1), Addr(130));
    // Same cache line: now an L1 hit.
    assert!(!mem.access_complete(Tag(2), Addr(190)));
    for _ in 0..5 {
        mem.tick();
    }
    assert!(mem.access_complete(Tag(2), Addr(190)));
    assert_eq!(Addr(190).to_cache_line(), Addr(128));
}

#[test]
fn register_set_defaults() {
    let regs = RegSet::from_pairs(&[(ArchReg::A0, 7), (ArchReg::A0, 9)]);
    assert_eq!(regs.get(ArchReg::A0), 9);
    assert_eq!(regs.get(ArchReg::SP), STACK_TOP as u32);
    assert_eq!(regs.get(ArchReg::T0), 0);
    let mut regs = RegSet::new();
    regs.set(ArchReg::Zero, 5);
    assert_eq!(regs.get(ArchReg::Zero), 0);
    regs.set(ArchReg::A1, 100);
    assert_eq!(regs.ref_to_addr(MemRef { base: ArchReg::A1, offset: Imm(u32::MAX) }), Addr(99));
}

#[test]
fn register_file_renames_and_recovers() {
    let regs = RegSet::from_pairs(&[(ArchReg::A0, 3)]);
    let mut rf = RegFile::new(&regs, 25);
    assert_eq!(rf.get_alias(ArchReg::A0), PhysReg(9));
    assert_eq!(rf.get_phys(PhysReg(9)), PrfEntry::Active(3));
    assert_eq!(rf.get_alias(ArchReg::Zero), PhysReg(0));
    let mut bp = BranchPredictor::new();
    // A branch at 0 predicted not taken, then an add renamed after it.
    rf.begin_predict_direct(Tag(1), false, Pc(40), Pc(4));
    assert!(!rf.was_predicted_taken(Tag(1)));
    let branch = rf.perform_rename(Tag(1), Inst::BranchIfEqual(ArchReg::A0, ArchReg::Zero, Pc(40)));
    assert_eq!(
        branch,
        Some(Inst::BranchIfEqual(ValueOrReg::Reg(PhysReg(9)), ValueOrReg::Value(0), Pc(40)))
    );
    let add = rf.perform_rename(Tag(2), Inst::Add(ArchReg::A0, ArchReg::A0, ArchReg::A0));
    assert_eq!(
        add,
        Some(Inst::Add(
            BothReg { arch: ArchReg::A0, phys: PhysReg(19) },
            ValueOrReg::Reg(PhysReg(9)),
            ValueOrReg::Reg(PhysReg(9))
        ))
    );
    assert_eq!(rf.get_alias(ArchReg::A0), PhysReg(19));
    assert!(!rf.is_prrt_empty());
    // The branch was taken: recover.
    assert!(rf.can_recover(Tag(1)));
    assert_eq!(rf.end_predict_direct(Tag(1), true, false, &mut bp), Some(Pc(40)));
    assert_eq!(rf.get_alias(ArchReg::A0), PhysReg(9));
    assert_eq!(rf.get_phys(PhysReg(19)), PrfEntry::Free);
    assert!(rf.is_prrt_empty());
    let set = rf.get_reg_set();
    assert_eq!(set.get(ArchReg::A0), 3);
}

#[test]
fn register_file_releases_at_commit() {
    let mut rf = RegFile::new(&RegSet::new(), 20);
    let add = rf.perform_rename(Tag(1), Inst::AddImm(ArchReg::T0, ArchReg::Zero, Imm(4)));
    assert!(add.is_some());
    // Only one register was left.
    assert_eq!(rf.perform_rename(Tag(2), Inst::AddImm(ArchReg::T1, ArchReg::Zero, Imm(4))), None);
    rf.set_phys_active(PhysReg(19), 4);
    assert!(rf.can_release());
    rf.release_phys(Tag(1));
    assert_eq!(rf.get_phys(PhysReg(2)), PrfEntry::Free);
    assert!(rf.is_prrt_empty());
}

#[test]
fn alias_table_tracks_renames() {
    let mut rat = RegisterAliasTable::new(vec![(ArchReg::A0, 5)]);
    assert_eq!(rat.get(ArchReg::A0), ValueOrTag::Valid(5));
    assert_eq!(rat.get(ArchReg::A1), ValueOrTag::Valid(0));
    assert!(!rat.rename(ArchReg::A0, Tag(3)));
    assert_eq!(rat.get(ArchReg::A0), ValueOrTag::Invalid(Tag(3)));
    assert!(rat.rename(ArchReg::A0, Tag(4)));
    assert!(!rat.rename(ArchReg::Zero, Tag(5)));
    rat.set_value(ArchReg::A0, 8);
    assert_eq!(rat.get(ArchReg::A0), ValueOrTag::Valid(8));
}

#[test]
fn load_store_queue_orders_memory() {
    let mut lsq = LoadStoreQueue::new(1, 1);
    let store: Inst<ValueOrReg, BothReg> = Inst::StoreWord(
        ValueOrReg::Value(1),
        MemRef { base: ValueOrReg::Value(0), offset: Imm(8) },
    );
    let load: Inst<ValueOrReg, BothReg> = Inst::LoadWord(
        BothReg { arch: ArchReg::A0, phys: PhysReg(3) },
        MemRef { base: ValueOrReg::Value(0), offset: Imm(8) },
    );
    assert!(lsq.has_space(&Inst::LoadWord(ArchReg::A0, MemRef { base: ArchReg::Zero, offset: Imm(0) })));
    lsq.insert_access(store, Tag(1));
    lsq.insert_access(load, Tag(2));
    assert!(!lsq.has_space(&Inst::StoreWord(ArchReg::A0, MemRef { base: ArchReg::Zero, offset: Imm(0) })));
    // The store's address is unknown: the load may go ahead.
    assert!(lsq.can_execute_load(Tag(2), 8..12));
    lsq.load_complete(Tag(2));
    assert!(lsq.store_clash(Tag(1), &(8..12)));
    assert!(!lsq.store_clash(Tag(1), &(12..16)));
    lsq.store_addr_known(Tag(1), 12..16);
    assert!(lsq.can_execute_load(Tag(2), 8..12));
    assert!(!lsq.can_execute_load(Tag(2), 14..18));
    lsq.release_load(Tag(2));
    assert!(!lsq.has_load(Tag(2)));
    lsq.kill_tags_after(Tag(0));
    assert!(!lsq.has_store(Tag(1)));
}

#[test]
fn reservation_station_issues_when_ready() {
    let rf = RegFile::new(&RegSet::from_pairs(&[(ArchReg::A0, 2)]), 25);
    let mut rs = ReservationStation::new(2);
    let waiting: Inst<ValueOrReg, BothReg> = Inst::Add(
        BothReg { arch: ArchReg::A1, phys: PhysReg(20) },
        ValueOrReg::Reg(PhysReg(9)),
        ValueOrReg::Reg(PhysReg(21)),
    );
    let ready: Inst<ValueOrReg, BothReg> = Inst::AddImm(
        BothReg { arch: ArchReg::A2, phys: PhysReg(22) },
        ValueOrReg::Reg(PhysReg(9)),
        Imm(1),
    );
    rs.insert(Tag(5), waiting);
    rs.insert(Tag(3), ready);
    assert!(rs.is_full());
    let got = rs.get_ready(&rf);
    assert_eq!(got, vec![(Tag(3), Inst::AddImm(BothReg { arch: ArchReg::A2, phys: PhysReg(22) }, 2, Imm(1)))]);
    rs.pop_ready(Tag(3));
    rs.kill_tags_after(Tag(4));
    assert!(!rs.is_full());
    assert!(rs.get_ready(&rf).is_empty());
}

#[test]
fn execution_unit_finishes_after_latency() {
    let mut mem = MemoryHierarchy::new(MainMemory::new());
    let mut eu = ExecutionUnit::new(EuType::Alu);
    let mul: ReadyInst = Inst::Mul(BothReg { arch: ArchReg::A0, phys: PhysReg(1) }, 6, 7);
    assert!(eu.can_execute(&mul));
    assert!(!eu.can_execute(&Inst::Halt));
    eu.begin_execute(mul, Tag(1));
    assert!(eu.was_utilised());
    assert!(!eu.can_execute(&mul));
    eu.advance(&mut mem);
    assert!(eu.take_complete().is_none());
    eu.advance(&mut mem);
    let (done, res) = eu.take_complete().expect("multiplication takes two cycles");
    assert_eq!(done.tag, Tag(1));
    assert_eq!(res.val, 42);
    assert_eq!(eu.utilisation, 1);
}

#[test]
fn execution_unit_compares_signed() {
    let mut mem = MemoryHierarchy::new(MainMemory::new());
    let mut eu = ExecutionUnit::new(EuType::Branch);
    eu.begin_execute(Inst::BranchIfLess(u32::MAX, 1, Pc(0)), Tag(1));
    eu.advance(&mut mem);
    assert_eq!(eu.take_complete().expect("branch takes one cycle").1.val, 1);
    eu.begin_execute(Inst::BranchIfGreaterEqual(u32::MAX, 1, Pc(0)), Tag(2));
    eu.kill_tags_after(Tag(1));
    eu.advance(&mut mem);
    assert!(eu.take_complete().is_none());
}

#[test]
fn hazards_follow_written_registers() {
    let add = Some(Inst::Add(ArchReg::A0, ArchReg::A1, ArchReg::A2));
    let write_a1 = Some(Inst::AddImm(ArchReg::A1, ArchReg::Zero, Imm(1)));
    let write_zero = Some(Inst::AddImm(ArchReg::Zero, ArchReg::Zero, Imm(1)));
    assert!(read_after_write(&add, &write_a1));
    assert!(!read_after_write(&write_a1, &add));
    assert!(!read_after_write(&add, &write_zero));
    assert!(!read_after_write(&add, &None));
}

#[test]
fn instruction_helpers() {
    let lw: Inst = Inst::LoadWord(ArchReg::A0, MemRef { base: ArchReg::SP, offset: Imm(4) });
    assert!(lw.writes_reg(ArchReg::A0));
    assert!(!lw.writes_reg(ArchReg::SP));
    assert!(lw.is_load() && lw.is_mem_access() && !lw.is_store() && !lw.is_branch());
    assert_eq!(lw.eu_type(), EuType::LoadStore);
    assert_eq!(lw.latency(), 3);
    assert_eq!(Inst::<ArchReg, ArchReg, Pc>::Jump(Pc(0)).eu_type(), EuType::Branch);
    let ready: ReadyInst = Inst::LoadWord(BothReg { arch: ArchReg::A0, phys: PhysReg(2) }, MemRef { base: 100, offset: Imm(u32::MAX - 3) });
    assert_eq!(ready.access_addr(), Addr(96));
    assert_eq!(PhysReg::none(), PhysReg(-1));
    assert_eq!(Tag::from(7), Tag(7));
    assert_eq!(u32::from(Pc(12)), 12);
    let renamed = lw.map_regs(|r| r.index() as u32, |d| d.index());
    assert_eq!(renamed, Inst::LoadWord(10usize, MemRef { base: 2u32, offset: Imm(4) }));
}

#[test]
fn queue_holds_exactly_its_capacity() {
    for n in 0..6 {
        let mut q = Queue::new(n);
        assert_eq!(q.front(), None);
        for i in 0..n {
            assert_eq!(q.try_push(i), None);
        }
        assert!(q.is_full());
        assert_eq!(q.try_push(99), Some(99));
    }
}

#[test]
fn mapping_with_identities_and_twice() {
    let br: Inst = Inst::BranchIfLess(ArchReg::A0, ArchReg::T1, Pc(16));
    assert_eq!(br.map_regs(|s| s, |d| d), br);
    assert_eq!(br.map_jumps(|j| j), br);
    let twice = br.map_regs(|s| s.index(), |d| d.index()).map_regs(|s| s + 1, |d| d + 1);
    let once = br.map_regs(|s| s.index() + 1, |d| d.index() + 1);
    assert_eq!(twice, once);
    assert_eq!(br.map_jumps(|j| Pc(j.0 + 4)), Inst::BranchIfLess(ArchReg::A0, ArchReg::T1, Pc(20)));
}
