//! The out-of-order core: fetch with branch prediction, register renaming,
//! a reservation station feeding execution units, a load/store queue and a
//! reorder buffer that retires in program order.
pub mod stages;

use crate::branch::BranchPredictor;
use crate::cpu::{Cpu, ExecResult, Stats};
use crate::emulated::{fetch_spec, initial, lemma_end_excludes_fault, lemma_steps_add, lemma_steps_extend, lemma_steps_retired, reg_read, run_faults, step_ok, steps, EmuState, Emulated};
use crate::execution_unit::{access_in_bounds, aged, EuResult, executed_of, in_bounds, is_first_done, EuType, ExecutionUnit, InFlight};
use crate::inst::{dst_reg, PhysReg, ReadyInst, inst_corresponds, inst_fields, lemma_corresponds_fields, lemma_corresponds_flip, ArchReg, BothReg, ExecutedInst, Inst, Pc, RenamedInst, Tag, Tagged, ValueOrReg, INST_SIZE};
use crate::lsq::{spec_ranges_disjoint, clashing_load, first_store_updated, load_tagged, older_stores_allow, store_applied, store_tagged, store_writable, Load, LoadStoreQueue, Store};
use crate::mem::{MainMemory, MemoryHierarchy};
use crate::program::{inst_at, Program};
use crate::regs::{has_free, BranchType, PrfEntry, entry_value, complete_alias, operand_in_file, valid_phys, RegFile, RegSet};
use crate::reservation_station::{all_ready, read_from, ReservationStation};
use crate::rob::{has_tag, lemma_not_after_keeps_tag, not_after, ReorderBuffer, RobEntry, RobStatus};
use crate::tables::{
    label_table_new,
    tag_pc_table, tags_not_after, tag_pc_table_get, tag_pc_table_insert, tag_pc_table_new, tag_pc_table_remove,
    tag_pc_table_retain_not_after, TagPcTable,
};
use std::ops::Range;
use vstd::prelude::*;

verus! {

/// Instructions fetched, renamed, written back and committed per cycle.
pub const PIPE_WIDTH: u64 = 4;

/// The cycle counter's limit, the last cycle whose instruction tags
/// (`PIPE_WIDTH` per cycle) fit in 64 bits: a run that reaches it is
/// finished on the reference emulator.
pub const MAX_CYCLES: u64 = 0x3fff_ffff_ffff_ffff;

/// Why a run of the core stopped without finishing.
#[derive(Debug, Copy, Clone, PartialEq, Eq, Structural)]
pub enum SimError {
    /// A step that cannot be taken: for a run, the program itself faults (a
    /// misaligned program counter or access, an access outside memory, a
    /// half-word store, or a counter at its limit); for a stage, its
    /// structures do not add up.
    Fault,
}

/// The state carried from one cycle to the next.
#[derive(Debug, Clone)]
pub struct Pipeline {
    pub fetch_decode: stages::wide::FetchDecode,
    pub rename: stages::wide::Rename,
    pub writeback: stages::wide::Writeback,
    pub commit: stages::Commit,
}

/// The core.
pub struct OutOfOrder {
    mem: MemoryHierarchy,
    prog: Program,
    execution_units: Vec<ExecutionUnit>,
    pc_map: TagPcTable,
    reservation_station: ReservationStation,
    lsq: LoadStoreQueue,
    rob: ReorderBuffer,
    branch_predictor: BranchPredictor,
    reg_file: RegFile,
    stats: Stats,
    reference: Option<Emulated>,
}

/// An execution unit whose instructions are all in bounds and whose
/// counters have not passed `k`.
pub open spec fn eu_ok(eu: ExecutionUnit, k: u64, len: nat) -> bool {
    &&& eu.util() <= k
    &&& forall|i: int| 0 <= i < eu.executing().len() ==> access_in_bounds(#[trigger] eu.executing()[i].0.inst, len)
    &&& forall|i: int| 0 <= i < eu.executing().len() ==> (#[trigger] eu.executing()[i]).1 <= k
}

/// What holds of every element of a sequence holds of every element kept by a filter.
proof fn lemma_filter_keeps<A>(s: Seq<A>, pred: spec_fn(A) -> bool, q: spec_fn(A) -> bool)
    requires
        forall|i: int| 0 <= i < s.len() ==> q(#[trigger] s[i]),
    ensures
        forall|i: int| 0 <= i < s.filter(pred).len() ==> q(#[trigger] s.filter(pred)[i]),
{
    assert forall|i: int| 0 <= i < s.filter(pred).len() implies q(#[trigger] s.filter(pred)[i]) by {
        let x = s.filter(pred)[i];
        assert(s.filter(pred).contains(x));
        s.lemma_filter_contains_rev(pred, x);
        let j = choose|j: int| 0 <= j < s.len() && s[j] == x;
        assert(q(s[j]));
    }
}

/// An execution unit stays consistent when younger instructions leave it.
proof fn lemma_eu_kill_ok(eu: ExecutionUnit, eu2: ExecutionUnit, tag: Tag, k: u64, len: nat)
    requires
        eu_ok(eu, k, len),
        eu2.util() == eu.util(),
        eu2.executing() == eu.executing().filter(|e: InFlight| e.0.tag.0 <= tag.0),
    ensures
        eu_ok(eu2, k, len),
{
    lemma_filter_keeps(eu.executing(), |e: InFlight| e.0.tag.0 <= tag.0, |e: InFlight| access_in_bounds(e.0.inst, len) && e.1 <= k);
}

/// The sources of an instruction renamed through a complete alias table name
/// registers of the file.
proof fn lemma_renamed_in_file(inst: Inst, ri: RenamedInst, rf: RegFile)
    requires
        rf.wf(),
        inst_corresponds(
            inst,
            ri,
            |a: ArchReg, v: ValueOrReg| v == rf.rename_src(a),
            |d: ArchReg, b: BothReg| b == rf.rename_dst(d),
            |j: Pc, j2: Pc| j2 == j,
        ),
    ensures
        inst_fields(ri, |s: ValueOrReg| operand_in_file(rf.prf().len(), s), |d: BothReg| true, |j: Pc| true),
{
    let fs = |a: ArchReg, v: ValueOrReg| v == rf.rename_src(a);
    let fd = |d: ArchReg, b: BothReg| b == rf.rename_dst(d);
    let fj = |j: Pc, j2: Pc| j2 == j;
    lemma_corresponds_flip(inst, ri, fs, fd, fj);
    assert forall|v: ValueOrReg, a: ArchReg| #[trigger] fs(a, v) implies operand_in_file(rf.prf().len(), v) by {
        if a != ArchReg::Zero {
            assert(rf.rat().contains_key(a));
        }
    }
    lemma_corresponds_fields(
        ri,
        inst,
        |y: ValueOrReg, x: ArchReg| fs(x, y),
        |y: BothReg, x: ArchReg| fd(x, y),
        |y: Pc, x: Pc| fj(x, y),
        |s: ValueOrReg| operand_in_file(rf.prf().len(), s),
        |d: BothReg| true,
        |j: Pc| true,
    );
}

/// The bytes a load or store touches, `None` if they run past the end of
/// the address space.
fn access_range(inst: &ReadyInst) -> (r: Option<Range<u32>>)
    requires
        inst.spec_is_load() || inst.spec_is_store(),
    ensures
        ({
            let start = inst.spec_mem_ref().compute_addr_spec().0;
            let width: int = match *inst {
                Inst::LoadByte(_, _) | Inst::StoreByte(_, _) => 1,
                Inst::LoadHalfWord(_, _) | Inst::StoreHalfWord(_, _) => 2,
                _ => 4,
            };
            if start + width > u32::MAX {
                r is None
            } else {
                r matches Some(rg) && rg.start == start && rg.end == start + width
            }
        }),
{
    let start = inst.mem_addr().0;
    let width: u32 = match inst {
        Inst::LoadByte(_, _) | Inst::StoreByte(_, _) => 1,
        Inst::LoadHalfWord(_, _) | Inst::StoreHalfWord(_, _) => 2,
        _ => 4,
    };
    if start > u32::MAX - width {
        None
    } else {
        Some(Range { start, end: start + width })
    }
}

/// How many bytes a load or store touches.
pub open spec fn access_width(inst: ReadyInst) -> int {
    match inst {
        Inst::LoadByte(_, _) | Inst::StoreByte(_, _) => 1,
        Inst::LoadHalfWord(_, _) | Inst::StoreHalfWord(_, _) => 2,
        _ => 4,
    }
}

/// The memory access of a load or store runs past the end of the address
/// space.
pub open spec fn range_overflows(inst: ReadyInst) -> bool {
    inst.spec_mem_ref().compute_addr_spec().0 + access_width(inst) > u32::MAX
}

/// The bytes a load or store touches (where they do not overflow).
pub open spec fn access_bytes(inst: ReadyInst) -> Range<u32> {
    let start = inst.spec_mem_ref().compute_addr_spec().0;
    Range { start, end: (start + access_width(inst)) as u32 }
}

/// The ready instruction `inst`, tagged `t`, cannot be issued: a load with
/// no program counter recorded under its tag (`pcs`), no entry among `loads`
/// or an access past the top of the address space; a store with such an
/// access, no entry among `stores`, or a younger completed load in `loads`
/// known to overlap it; or a load outside a memory of `mem_len` bytes.
pub open spec fn issue_fault(pcs: Map<Tag, Pc>, loads: Seq<Load>, stores: Seq<Store>, mem_len: nat, t: Tag, inst: ReadyInst) -> bool {
    ||| inst.spec_is_load() && (!pcs.contains_key(t) || range_overflows(inst) || !load_tagged(loads, t))
    ||| inst.spec_is_store() && (range_overflows(inst) || !store_tagged(stores, t) || exists|i: int|
        0 <= i < loads.len() && clashing_load(#[trigger] loads[i], t, access_bytes(inst)))
    ||| !access_in_bounds(inst, mem_len)
}

/// `inst`, tagged `t`, is a load that an older store among `stores`, its
/// address known, overlaps.
pub open spec fn waits_for_store(stores: Seq<Store>, t: Tag, inst: ReadyInst) -> bool {
    inst.spec_is_load() && !older_stores_allow(stores, t, access_bytes(inst))
}

/// Recording the address of the store tagged `ts` leaves an older store
/// that a load older than `ts` waits for in place.
proof fn lemma_store_known_keeps_wait(before: Seq<Store>, after: Seq<Store>, ts: Tag, a: Range<u32>, t: Tag, inst: ReadyInst)
    requires
        first_store_updated(before, after, ts, |s: Store| Store { address: Some(a), ..s }),
        t.0 < ts.0,
        waits_for_store(before, t, inst),
    ensures
        waits_for_store(after, t, inst),
{
    let w = choose|w: int|
        0 <= w < before.len() && (#[trigger] before[w]).tagged.tag.0 < t.0 && before[w].address is Some
            && !spec_ranges_disjoint(before[w].address->0, access_bytes(inst));
    let k = choose|k: int|
        0 <= k < before.len() && before[k].tagged.tag == ts && (forall|j: int| 0 <= j < k ==> before[j].tagged.tag != ts)
            && after == before.update(k, Store { address: Some(a), ..before[k] });
    assert(w != k);
    assert(after[w] == before[w]);
}

/// Every execution unit of the kind `inst` needs has started an instruction
/// this cycle.
pub open spec fn no_free_unit(eus: Seq<ExecutionUnit>, inst: ReadyInst) -> bool {
    forall|q: int| 0 <= q < eus.len() && (#[trigger] eus[q]).kind() == inst.spec_eu_type() ==> eus[q].spec_was_utilised()
}

/// Starting an instruction on unit `j`, which was free, keeps every unit
/// that was busy busy: instructions before `lim` left waiting for want of a
/// free unit still have none, and the instruction started counts as issued.
proof fn lemma_issue_keeps_busy(
    eus0: Seq<ExecutionUnit>,
    eus: Seq<ExecutionUnit>,
    j: int,
    ready: Seq<(Tag, ReadyInst)>,
    rt0: Seq<Tag>,
    tag: Tag,
    lim: int,
    stores: Seq<Store>,
)
    requires
        eus.len() == eus0.len(),
        0 <= j < eus.len(),
        eus[j].kind() == eus0[j].kind(),
        eus[j].spec_was_utilised(),
        forall|q: int| 0 <= q < eus.len() && q != j ==> eus[q] == eus0[q],
        lim <= ready.len(),
        forall|i: int|
            0 <= i < lim && !rt0.contains((#[trigger] ready[i]).0) ==> waits_for_store(stores, ready[i].0, ready[i].1)
                || no_free_unit(eus0, ready[i].1),
    ensures
        rt0.push(tag).contains(tag),
        forall|i: int|
            0 <= i < lim && !rt0.push(tag).contains((#[trigger] ready[i]).0) ==> waits_for_store(stores, ready[i].0, ready[i].1)
                || no_free_unit(eus, ready[i].1),
{
    let rt = rt0.push(tag);
    assert(rt[rt.len() - 1] == tag);
    assert forall|i: int|
        0 <= i < lim && !rt.contains((#[trigger] ready[i]).0) implies waits_for_store(stores, ready[i].0, ready[i].1)
            || no_free_unit(eus, ready[i].1) by {
        if rt0.contains(ready[i].0) {
            let w = choose|w: int| 0 <= w < rt0.len() && rt0[w] == ready[i].0;
            assert(rt[w] == ready[i].0);
        }
        if !waits_for_store(stores, ready[i].0, ready[i].1) {
            assert(no_free_unit(eus0, ready[i].1));
            assert forall|q: int| 0 <= q < eus.len() && (#[trigger] eus[q]).kind() == ready[i].1.spec_eu_type() implies eus[q].spec_was_utilised() by {
                if q != j {
                    assert(eus[q] == eus0[q]);
                }
            }
        }
    }
}

/// An execution unit one cycle on stays consistent up to one more cycle.
proof fn lemma_eu_advance_ok(eu: ExecutionUnit, eu2: ExecutionUnit, k: u64, len: nat)
    requires
        eu_ok(eu, k, len),
        k + 1 < MAX_CYCLES,
        eu2.util() <= eu.util() + 1,
        eu2.executing() == aged(eu.executing()) || exists|i: int| 0 <= i < eu.executing().len() && eu2.executing() == aged(eu.executing()).remove(i),
    ensures
        eu_ok(eu2, (k + 1) as u64, len),
{
    let a = aged(eu.executing());
    assert forall|i: int| 0 <= i < a.len() implies access_in_bounds(#[trigger] a[i].0.inst, len) && a[i].1 <= k + 1 by {
        assert(a[i].0 == eu.executing()[i].0);
        assert(eu.executing()[i].1 <= k);
    }
    if eu2.executing() != a {
        let j = choose|i: int| 0 <= i < eu.executing().len() && eu2.executing() == aged(eu.executing()).remove(i);
        assert forall|i: int| 0 <= i < eu2.executing().len() implies access_in_bounds(#[trigger] eu2.executing()[i].0.inst, len) && eu2.executing()[i].1 <= k + 1 by {
            if i < j {
                assert(eu2.executing()[i] == a[i]);
            } else {
                assert(eu2.executing()[i] == a[i + 1]);
            }
        }
    }
}

/// Adds one to a counter (which cannot reach its maximum within `MAX_CYCLES`).
fn bump(x: &mut u64)
    ensures
        *final(x) == if *old(x) < u64::MAX {
            (*old(x) + 1) as u64
        } else {
            *old(x)
        },
{
    if *x < u64::MAX {
        *x = *x + 1;
    }
}

/// `after` is `before` with every instruction younger than `tag` squashed.
pub open spec fn killed_after(before: ExecutionUnit, after: ExecutionUnit, tag: Tag) -> bool {
    &&& after.kind() == before.kind()
    &&& after.util() == before.util()
    &&& after.executing() == before.executing().filter(|e: InFlight| e.0.tag.0 <= tag.0)
    &&& after.completed() == match before.completed() {
        Some(c) => if c.0.tag.0 > tag.0 {
            None
        } else {
            Some(c)
        },
        None => None,
    }
}

/// `after` is `before` one cycle on: the same kind, one more busy cycle
/// counted if it started an instruction last cycle, every instruction a
/// cycle older, and, when no result was waiting, possibly one finished
/// instruction moved out as the result.
pub open spec fn advanced(before: ExecutionUnit, after: ExecutionUnit) -> bool {
    &&& after.kind() == before.kind()
    &&& after.util() == before.util() + if before.spec_was_utilised() {
        1int
    } else {
        0int
    }
    &&& ((after.executing() == aged(before.executing()) && after.completed() == before.completed()) || (
    before.completed() is None && after.completed() is Some && exists|i: int|
        0 <= i < before.executing().len() && after.executing() == aged(before.executing()).remove(i)
            && executed_of(before.executing()[i].0, (after.completed()->0).0)))
}

/// What the commit stage takes from the front of `rob`: `k` executed
/// entries, none of them `halt`; then, with `halt`, an executed `halt`
/// (taken too), otherwise nothing more it could take: `PIPE_WIDTH` entries
/// taken, or the next one has not executed or there is none.
pub open spec fn commits(rob: Seq<RobEntry>, k: int, halt: bool) -> bool {
    &&& 0 <= k <= PIPE_WIDTH
    &&& k <= rob.len()
    &&& forall|j: int| 0 <= j < k ==> (#[trigger] rob[j]).status == RobStatus::Executed && !(rob[j].inst is Halt)
    &&& if halt {
        k < PIPE_WIDTH && k < rob.len() && rob[k].status == RobStatus::Executed && rob[k].inst is Halt
    } else {
        k == PIPE_WIDTH || k == rob.len() || rob[k].status != RobStatus::Executed
    }
}

/// Where fetch goes after `inst` at `pc` as the predictor `bp` guesses: a
/// conditional branch by the predictor, a jump to its target, anything else
/// to the next address.
pub open spec fn predicted_next(bp: BranchPredictor, pc: Pc, inst: Inst) -> Pc {
    let fall = Pc((pc.0 + INST_SIZE) as u32);
    match inst {
        Inst::BranchIfEqual(_, _, t) | Inst::BranchIfNotEqual(_, _, t) | Inst::BranchIfGreaterEqual(_, _, t)
        | Inst::BranchIfLess(_, _, t) => if bp.predicts_taken(pc, t) {
            t
        } else {
            fall
        },
        Inst::JumpAndLink(_, t) | Inst::Jump(t) => t,
        _ => fall,
    }
}

/// The reorder buffer entries that renaming `s` adds, still executing.
pub open spec fn rob_entries(s: Seq<Tagged<Inst>>) -> Seq<RobEntry> {
    s.map_values(|t: Tagged<Inst>| (RobEntry { tag: t.tag, inst: t.inst, status: RobStatus::Executing }))
}

/// `after` is `rob` with its first entry tagged `tag` marked executed.
pub open spec fn marked_executed(rob: Seq<RobEntry>, after: Seq<RobEntry>, tag: Tag) -> bool {
    exists|i: int|
        0 <= i < rob.len() && rob[i].tag == tag && (forall|j: int| 0 <= j < i ==> rob[j].tag != tag) && after
            == rob.update(i, RobEntry { status: RobStatus::Executed, ..rob[i] })
}

/// Unit `j` of `before` is the first holding a result, `t` is the
/// instruction of that result, and unit `j` of `after` holds none.
pub open spec fn took_result(before: Seq<ExecutionUnit>, after: Seq<ExecutionUnit>, j: int, t: Tagged<ExecutedInst>) -> bool {
    &&& 0 <= j < before.len()
    &&& j < after.len()
    &&& forall|q: int| 0 <= q < j ==> (#[trigger] before[q]).completed() is None
    &&& before[j].completed() matches Some(c) && c.0 == t
    &&& after[j].completed() is None
}

/// `after` is `before` with at most one instruction of its kind started,
/// and only if it had started none this cycle.
pub open spec fn started_at_most_one(before: ExecutionUnit, after: ExecutionUnit) -> bool {
    &&& after.kind() == before.kind()
    &&& after.util() == before.util()
    &&& after.completed() == before.completed()
    &&& (after.executing() == before.executing() || (!before.spec_was_utilised() && exists|t: Tagged<ReadyInst>|
        t.inst.spec_eu_type() == before.kind() && after.executing() == before.executing().push((t, 0u64))))
}

/// Unit `j` is the first of `eus` holding a result.
pub open spec fn first_with_result(eus: Seq<ExecutionUnit>, j: int) -> bool {
    &&& 0 <= j < eus.len()
    &&& eus[j].completed() is Some
    &&& forall|q: int| 0 <= q < j ==> (#[trigger] eus[q]).completed() is None
}

/// The two units are in the same state as far as their views go.
pub open spec fn same_unit(a: ExecutionUnit, b: ExecutionUnit) -> bool {
    &&& a.kind() == b.kind()
    &&& a.util() == b.util()
    &&& a.executing() == b.executing()
    &&& a.completed() == b.completed()
}

/// A destination that names a register but no slot of a file of `len`
/// physical registers.
pub open spec fn bad_dst(d: BothReg, len: nat) -> bool {
    d.arch != ArchReg::Zero && !valid_phys(d.phys, len)
}

/// `prf` after `d` (unless it is `zero`) is written with `v`.
pub open spec fn prf_written(prf: Seq<PrfEntry>, d: BothReg, v: u32) -> Seq<PrfEntry> {
    if d.arch == ArchReg::Zero {
        prf
    } else {
        prf.update(d.phys.0 as int, PrfEntry::Active(v))
    }
}

/// How many entries of `s` satisfy `f`.
pub open spec fn count_where(s: Seq<RobEntry>, f: spec_fn(RobEntry) -> bool) -> nat
    decreases s.len(),
{
    if s.len() == 0 {
        0
    } else {
        count_where(s.drop_last(), f) + if f(s.last()) {
            1nat
        } else {
            0nat
        }
    }
}

/// The entry is a store.
pub open spec fn is_store_entry(e: RobEntry) -> bool {
    e.inst is StoreByte || e.inst is StoreHalfWord || e.inst is StoreWord
}

/// The entry writes a register other than `zero`.
pub open spec fn writes_reg_entry(e: RobEntry) -> bool {
    dst_reg(e.inst) matches Some(d) && d != ArchReg::Zero
}

/// `x + k`, held at `u64::MAX`.
pub open spec fn saturating(x: u64, k: int) -> u64 {
    if x + k > u64::MAX {
        u64::MAX
    } else {
        (x + k) as u64
    }
}

/// Instruction `t` of `rs` can issue with its operands read from `prf`: it
/// was ready, or it waits with every operand now in `prf`.
pub open spec fn was_ready(rs: ReservationStation, prf: Seq<PrfEntry>, t: u64) -> bool {
    rs.ready().contains_key(t) || (rs.waiting().contains_key(t) && all_ready(prf, rs.waiting()[t]))
}

/// `i` is instruction `t` of `rs` with its operands read: read from `prf`
/// if it was waiting with all of them there, else as it was ready.
pub open spec fn issued_as(rs: ReservationStation, prf: Seq<PrfEntry>, t: u64, i: ReadyInst) -> bool {
    if rs.waiting().contains_key(t) && all_ready(prf, rs.waiting()[t]) {
        read_from(prf, rs.waiting()[t], i)
    } else {
        rs.ready().contains_key(t) && rs.ready()[t] == i
    }
}

/// Unit `q` started an instruction, tagged `tag`, between `before` and
/// `after`.
pub open spec fn unit_started(before: Seq<ExecutionUnit>, after: Seq<ExecutionUnit>, q: int, tag: Tag) -> bool {
    &&& 0 <= q < before.len()
    &&& q < after.len()
    &&& after[q].executing() != before[q].executing()
    &&& after[q].executing().len() > 0
    &&& after[q].executing().last().0.tag == tag
}

/// `prf` with every slot of `slots` freed, in order.
pub open spec fn freed(prf: Seq<PrfEntry>, slots: Seq<PhysReg>) -> Seq<PrfEntry>
    decreases slots.len(),
{
    if slots.len() == 0 {
        prf
    } else {
        freed(prf, slots.drop_last()).update(slots.last().0 as int, PrfEntry::Free)
    }
}

/// The commit stage reaches entry `i` of `rob`: the entries before it are
/// executed and none is `halt`, and it is executed and not `halt` either.
pub open spec fn reaches_entry(rob: Seq<RobEntry>, i: int) -> bool {
    &&& 0 <= i < PIPE_WIDTH
    &&& i < rob.len()
    &&& forall|j: int| 0 <= j <= i ==> (#[trigger] rob[j]).status == RobStatus::Executed && !(rob[j].inst is Halt)
}

/// Issue so far, from the units `olds` with the ready set `mid`: a unit that started
/// an instruction started one of `mid`, as it stands there, with its tag
/// in `removed`; and each tag of `removed` is in `mid` and started in
/// some unit.
spec fn issued_so_far(olds: Seq<ExecutionUnit>, eus: Seq<ExecutionUnit>, mid: Map<u64, ReadyInst>, removed: Seq<Tag>) -> bool {
    &&& eus.len() == olds.len()
    &&& forall|q: int|
        0 <= q < olds.len() && (#[trigger] eus[q]).executing()
            != olds[q].executing() ==> ({
            let e = eus[q].executing().last();
            &&& mid.contains_key(e.0.tag.0)
            &&& mid[e.0.tag.0] == e.0.inst
            &&& removed.contains(e.0.tag)
        })
    &&& forall|k: int|
        0 <= k < removed.len() ==> mid.contains_key((#[trigger] removed[k]).0) && exists|q: int|
            unit_started(olds, eus, q, removed[k])
}

/// The address fetch reaches after `i` instructions from `pc`, each next
/// address as the predictor `bp` guesses it.
pub open spec fn fetch_path(bp: BranchPredictor, prog: Seq<Inst>, pc: Pc, i: nat) -> Pc
    decreases i,
{
    if i == 0 {
        pc
    } else {
        let p = fetch_path(bp, prog, pc, (i - 1) as nat);
        predicted_next(bp, p, inst_at(prog, p.0))
    }
}

/// Fetch cannot go to `p`: misaligned, or the last instruction slot of the
/// address space.
pub open spec fn bad_fetch(p: Pc) -> bool {
    p.0 % INST_SIZE != 0 || p.0 > u32::MAX - INST_SIZE
}

/// Every execution unit of `eus` is consistent up to `k` cycles.
pub open spec fn eus_ok(eus: Seq<ExecutionUnit>, k: u64, len: nat) -> bool {
    forall|i: int| 0 <= i < eus.len() ==> eu_ok(#[trigger] eus[i], k, len)
}

impl OutOfOrder {
    /// The consistency the stages keep, apart from the bounds on counters.
    pub closed spec fn wf(&self) -> bool {
        &&& self.reg_file.wf()
        &&& self.branch_predictor.wf()
        &&& self.reservation_station.operands_in_file(self.reg_file.prf().len())
        &&& self.stats.cycles_taken < MAX_CYCLES
    }

    /// No access in flight has spent more than `pk` cycles, and no execution
    /// unit has counted more than `ek`.
    pub closed spec fn bounded(&self, pk: u64, ek: u64) -> bool {
        &&& self.mem.pending_bounded(pk)
        &&& eus_ok(self.execution_units@, ek, self.mem.main_mem()@.len())
        &&& pk < MAX_CYCLES
        &&& ek < MAX_CYCLES
    }

    /// The cycles taken so far.
    pub closed spec fn cycles(&self) -> u64 {
        self.stats.cycles_taken
    }

    /// The program.
    pub closed spec fn program(&self) -> Seq<Inst> {
        self.prog.insts@
    }

    /// Main memory.
    pub closed spec fn memory(&self) -> Seq<u8> {
        self.mem.main_mem()@
    }

    /// Whether the core holds its reference emulator, set to run the same
    /// program, and neither has retired an instruction yet.
    pub closed spec fn has_reference(&self) -> bool {
        &&& self.reference matches Some(e) && e.program() == self.prog.insts@ && e.state().retired == 0
        &&& self.stats.insts_retired == 0
    }

    /// The state the reference emulator starts a run from.
    pub closed spec fn reference_start(&self) -> EmuState {
        self.reference->0.state()
    }

    /// The value the register file holds for architectural register `a`.
    pub closed spec fn register(&self, a: ArchReg) -> u32 {
        self.reg_file.arch_value(a)
    }

    /// Squashes every instruction younger than `tag`.
    fn kill_tags_after(&mut self, tag: Tag, Ghost(pk): Ghost<u64>, Ghost(ek): Ghost<u64>)
        requires
            old(self).wf(),
            old(self).bounded(pk, ek),
        ensures
            final(self).wf(),
            final(self).bounded(pk, ek),
            final(self).cycles() == old(self).cycles(),
            final(self).stats.insts_retired == old(self).stats.insts_retired,
            final(self).rob@ == not_after(old(self).rob@, tag),
            final(self).reservation_station.waiting() == old(self).reservation_station.waiting().restrict(
                Set::new(|t: u64| t <= tag.0),
            ),
            final(self).reservation_station.ready() == old(self).reservation_station.ready().restrict(
                Set::new(|t: u64| t <= tag.0),
            ),
            final(self).lsq.loads() == old(self).lsq.loads().filter(|l: Load| l.tagged.tag.0 <= tag.0),
            final(self).lsq.stores() == old(self).lsq.stores().filter(|s: Store| s.tagged.tag.0 <= tag.0),
            tag_pc_table(final(self).pc_map) == tag_pc_table(old(self).pc_map).restrict(tags_not_after(tag)),
            final(self).reg_file == old(self).reg_file,
            final(self).mem == old(self).mem,
            final(self).prog == old(self).prog,
            final(self).execution_units@.len() == old(self).execution_units@.len(),
            forall|j: int| 0 <= j < old(self).execution_units@.len() ==> killed_after(
                old(self).execution_units@[j],
                #[trigger] final(self).execution_units@[j],
                tag,
            ),
    {
        let n = self.execution_units.len();
        let mut i: usize = 0;
        while i < n
            invariant
                n == self.execution_units@.len(),
                n == old(self).execution_units@.len(),
                i <= n,
                self.wf(),
                self.bounded(pk, ek),
                self.stats.cycles_taken == old(self).stats.cycles_taken,
                self.stats.insts_retired == old(self).stats.insts_retired,
                self.rob == old(self).rob,
                self.reservation_station == old(self).reservation_station,
                self.lsq == old(self).lsq,
                self.pc_map == old(self).pc_map,
                self.reg_file == old(self).reg_file,
                self.mem == old(self).mem,
                self.prog == old(self).prog,
                forall|j: int| 0 <= j < i ==> killed_after(
                    old(self).execution_units@[j],
                    #[trigger] self.execution_units@[j],
                    tag,
                ),
                forall|j: int| i <= j < n ==> #[trigger] self.execution_units@[j] == old(self).execution_units@[j],
            decreases n - i,
        {
            let ghost eus0 = self.execution_units@;
            let mut eu = self.execution_units.remove(i);
            let ghost eu0 = eu;
            eu.kill_tags_after(tag);
            proof {
                assert(eu_ok(eus0[i as int], ek, self.mem.main_mem()@.len()));
                lemma_eu_kill_ok(eu0, eu, tag, ek, self.mem.main_mem()@.len());
            }
            self.execution_units.insert(i, eu);
            proof {
                assert forall|j: int| 0 <= j < self.execution_units@.len() implies eu_ok(#[trigger] self.execution_units@[j], ek, self.mem.main_mem()@.len()) by {
                    if j != i {
                        assert(self.execution_units@[j] == eus0[j]);
                    }
                }
                assert forall|j: int| 0 <= j < i + 1 implies killed_after(
                    old(self).execution_units@[j],
                    #[trigger] self.execution_units@[j],
                    tag,
                ) by {
                    if j != i {
                        assert(self.execution_units@[j] == eus0[j]);
                    }
                }
                assert forall|j: int| i + 1 <= j < n implies #[trigger] self.execution_units@[j] == old(self).execution_units@[j] by {
                    assert(self.execution_units@[j] == eus0[j]);
                }
            }
            i = i + 1;
        }
        tag_pc_table_retain_not_after(&mut self.pc_map, tag);
        self.reservation_station.kill_tags_after(tag);
        self.lsq.kill_tags_after(tag);
        self.rob.kill_tags_after(tag);
        self.reg_file.kill_tags_after(tag);
    }

    /// Fetches and decodes the instruction at `pc` (`halt` past the end),
    /// predicting where to fetch next: a conditional branch by the predictor
    /// (recording the prediction under `tag`), a jump to its target, anything
    /// else falls through.
    fn fetch_decode_one(&mut self, pc: Pc, tag: Tag, Ghost(pk): Ghost<u64>, Ghost(ek): Ghost<u64>) -> (r: Result<stages::narrow::FetchDecode, SimError>)
        requires
            old(self).wf(),
            old(self).bounded(pk, ek),
        ensures
            final(self).wf(),
            final(self).bounded(pk, ek),
            final(self).cycles() == old(self).cycles(),
            final(self).stats.insts_retired == old(self).stats.insts_retired,
            final(self).prog == old(self).prog,
            r is Err <==> (pc.0 % INST_SIZE != 0 || pc.0 > u32::MAX - INST_SIZE),
            final(self).rob == old(self).rob,
            final(self).branch_predictor.counters() == old(self).branch_predictor.counters(),
            r matches Ok(fd) ==> ({
                let inst = inst_at(old(self).prog.insts@, pc.0);
                &&& fd.inst.inst == inst
                &&& fd.inst.tag == tag
                &&& fd.next_pc == Some(predicted_next(old(self).branch_predictor, pc, inst))
            }),
    {
        if pc.0 % INST_SIZE != 0 || pc.0 > u32::MAX - INST_SIZE {
            return Err(SimError::Fault);
        }
        let inst = match self.prog.fetch(pc) {
            Some(i) => *i,
            None => Inst::Halt,
        };
        let next_pc = match inst {
            Inst::BranchIfEqual(_, _, tgt)
            | Inst::BranchIfNotEqual(_, _, tgt)
            | Inst::BranchIfGreaterEqual(_, _, tgt)
            | Inst::BranchIfLess(_, _, tgt) => {
                let taken_pc = tgt;
                let not_taken_pc = Pc(pc.0 + INST_SIZE);
                let predict_taken = self.branch_predictor.predict_direct(pc, taken_pc);
                self.reg_file.begin_predict_direct(tag, predict_taken, taken_pc, not_taken_pc);
                if predict_taken {
                    Some(taken_pc)
                } else {
                    Some(not_taken_pc)
                }
            },
            Inst::JumpAndLink(_, tgt) => {
                let _ = self.branch_predictor.predict_indirect(&inst, pc);
                tag_pc_table_insert(&mut self.pc_map, tag, pc);
                Some(tgt)
            },
            Inst::Jump(tgt) => Some(tgt),
            _ => {
                if inst.is_load() {
                    tag_pc_table_insert(&mut self.pc_map, tag, pc);
                }
                Some(Pc(pc.0 + INST_SIZE))
            },
        };
        Ok(stages::narrow::FetchDecode { inst: Tagged { inst, tag }, next_pc })
    }

    /// Fetches up to `PIPE_WIDTH` instructions from where the last fetch
    /// left off, stopping after a `halt` has entered the reorder buffer.
    /// `Fault` exactly when the predicted path reaches an address that
    /// cannot be fetched (see `bad_fetch`).
    fn stage_fetch_decode(&mut self, pipe: &Pipeline, Ghost(pk): Ghost<u64>, Ghost(ek): Ghost<u64>) -> (r: Result<stages::wide::FetchDecode, SimError>)
        requires
            old(self).wf(),
            old(self).bounded(pk, ek),
        ensures
            final(self).wf(),
            final(self).bounded(pk, ek),
            final(self).cycles() == old(self).cycles(),
            final(self).stats.insts_retired == old(self).stats.insts_retired,
            final(self).prog == old(self).prog,
            final(self).rob == old(self).rob,
            r is Err <==> ({
                let n = pipe.fetch_decode.next_pcs@.len();
                let start = pipe.fetch_decode.next_pcs@[n - 1];
                &&& n > 0
                &&& !(old(self).rob@.len() > 0 && old(self).rob@.last().inst is Halt)
                &&& exists|i: int|
                    0 <= i < PIPE_WIDTH && #[trigger] bad_fetch(
                        fetch_path(old(self).branch_predictor, old(self).prog.insts@, start, i as nat),
                    ) && forall|j: int|
                        0 <= j < i ==> !bad_fetch(
                            #[trigger] fetch_path(old(self).branch_predictor, old(self).prog.insts@, start, j as nat),
                        )
            }),
            r matches Ok(fd) ==> ({
                let n = pipe.fetch_decode.next_pcs@.len();
                if n == 0 {
                    fd.insts@.len() == 0 && fd.next_pcs@.len() == 0 && fd.stalled
                } else {
                    &&& !fd.stalled
                    &&& fd.insts@.len() == if old(self).rob@.len() > 0 && old(self).rob@.last().inst is Halt {
                        0
                    } else {
                        PIPE_WIDTH
                    }
                    &&& fd.next_pcs@.len() == fd.insts@.len() + 1
                    &&& fd.next_pcs@[0] == pipe.fetch_decode.next_pcs@[n - 1]
                    &&& forall|i: int|
                        0 <= i < fd.insts@.len() ==> (#[trigger] fd.insts@[i]).tag == Tag(
                            (PIPE_WIDTH * old(self).cycles() + i) as u64,
                        ) && fd.insts@[i].inst == inst_at(old(self).prog.insts@, fd.next_pcs@[i].0)
                            && fd.next_pcs@[i + 1] == predicted_next(
                            old(self).branch_predictor,
                            fd.next_pcs@[i],
                            fd.insts@[i].inst,
                        )
                }
            }),
    {
        let n = pipe.fetch_decode.next_pcs.len();
        if n == 0 {
            return Ok(stages::wide::FetchDecode { insts: Vec::new(), next_pcs: Vec::new(), stalled: true });
        }
        let next_pc = pipe.fetch_decode.next_pcs[n - 1];
        let mut insts: Vec<Tagged<Inst>> = Vec::new();
        let mut next_pcs: Vec<Pc> = Vec::new();
        next_pcs.push(next_pc);
        let mut stalled = false;
        let mut i: u64 = 0;
        while i < PIPE_WIDTH
            invariant
                self.wf(),
                self.bounded(pk, ek),
                self.stats.cycles_taken == old(self).stats.cycles_taken,
                self.stats.insts_retired == old(self).stats.insts_retired,
                self.prog == old(self).prog,
                self.rob == old(self).rob,
                self.branch_predictor.counters() == old(self).branch_predictor.counters(),
                i <= PIPE_WIDTH,
                n == pipe.fetch_decode.next_pcs@.len(),
                n > 0,
                !stalled,
                insts@.len() == i,
                next_pcs@.len() == i + 1,
                next_pcs@[0] == pipe.fetch_decode.next_pcs@[n - 1],
                i > 0 ==> !(old(self).rob@.len() > 0 && old(self).rob@.last().inst is Halt),
                forall|k: int| 0 <= k <= i ==> next_pcs@[k] == fetch_path(
                    old(self).branch_predictor,
                    old(self).prog.insts@,
                    pipe.fetch_decode.next_pcs@[n - 1],
                    k as nat,
                ),
                forall|k: int| 0 <= k < i ==> !bad_fetch(
                    #[trigger] fetch_path(old(self).branch_predictor, old(self).prog.insts@, pipe.fetch_decode.next_pcs@[n - 1], k as nat),
                ),
                forall|k: int|
                    0 <= k < insts@.len() ==> (#[trigger] insts@[k]).tag == Tag(
                        (PIPE_WIDTH * old(self).cycles() + k) as u64,
                    ) && insts@[k].inst == inst_at(old(self).prog.insts@, next_pcs@[k].0) && next_pcs@[k + 1]
                        == predicted_next(old(self).branch_predictor, next_pcs@[k], insts@[k].inst),
            ensures
                i == PIPE_WIDTH || (i == 0 && old(self).rob@.len() > 0 && old(self).rob@.last().inst is Halt),
            decreases PIPE_WIDTH - i,
        {
            if self.rob.last_is_halt() {
                break;
            }
            let tag = Tag(PIPE_WIDTH * self.stats.cycles_taken + i);
            let cur = next_pcs[next_pcs.len() - 1];
            let res = match self.fetch_decode_one(cur, tag, Ghost(pk), Ghost(ek)) {
                Ok(res) => res,
                Err(e) => {
                    proof {
                        let st = pipe.fetch_decode.next_pcs@[n - 1];
                        let bp = old(self).branch_predictor;
                        let prog = old(self).prog.insts@;
                        let ii: int = i as int;
                        assert(bad_fetch(fetch_path(bp, prog, st, ii as nat)));
                        assert(forall|j: int| 0 <= j < ii ==> !bad_fetch(#[trigger] fetch_path(bp, prog, st, j as nat)));
                    }
                    return Err(e);
                },
            };
            proof {
                let st = pipe.fetch_decode.next_pcs@[n - 1];
                let bp = old(self).branch_predictor;
                let prog = old(self).prog.insts@;
                assert(!bad_fetch(fetch_path(bp, prog, st, i as nat)));
                assert(fetch_path(bp, prog, st, (i + 1) as nat) == predicted_next(bp, cur, inst_at(prog, cur.0)));
            }
            insts.push(res.inst);
            match res.next_pc {
                Some(np) => {
                    next_pcs.push(np);
                },
                None => {
                    bump(&mut self.stats.fetch_stalls);
                    stalled = true;
                    break;
                },
            }
            i = i + 1;
        }
        proof {
            let st = pipe.fetch_decode.next_pcs@[n - 1];
            let bp = old(self).branch_predictor;
            let prog = old(self).prog.insts@;
            if !(old(self).rob@.len() > 0 && old(self).rob@.last().inst is Halt) {
                assert forall|k: int| 0 <= k < PIPE_WIDTH implies !#[trigger] bad_fetch(fetch_path(bp, prog, st, k as nat)) by {}
            }
        }
        Ok(stages::wide::FetchDecode { insts, next_pcs, stalled })
    }

    /// Renames one instruction and enters it into the reorder buffer, the
    /// reservation station and, for a memory access, the load/store queue;
    /// stalls when one of them or the physical registers are full.
    fn rename_one(&mut self, tagged: Tagged<Inst>, Ghost(pk): Ghost<u64>, Ghost(ek): Ghost<u64>) -> (r: Result<stages::narrow::Rename, SimError>)
        requires
            old(self).wf(),
            old(self).bounded(pk, ek),
        ensures
            final(self).wf(),
            final(self).bounded(pk, ek),
            final(self).cycles() == old(self).cycles(),
            final(self).stats.insts_retired == old(self).stats.insts_retired,
            final(self).prog == old(self).prog,
            r matches Ok(rn) && ({
                let inst = tagged.inst;
                let full = old(self).rob@.len() >= old(self).rob.spec_capacity() || old(self).reservation_station.waiting().len() + old(self).reservation_station.ready().len() >= old(self).reservation_station.spec_capacity() || (inst.spec_is_load() && old(self).lsq.loads().len()
                    >= old(self).lsq.load_capacity()) || (inst.spec_is_store() && old(self).lsq.stores().len()
                    >= old(self).lsq.store_capacity());
                let rob_full = old(self).rob@.len() >= old(self).rob.spec_capacity();
                let rs_full = old(self).reservation_station.waiting().len() + old(
                    self).reservation_station.ready().len() >= old(self).reservation_station.spec_capacity();
                let lsq_full = (inst.spec_is_load() && old(self).lsq.loads().len() >= old(self).lsq.load_capacity())
                    || (inst.spec_is_store() && old(self).lsq.stores().len() >= old(self).lsq.store_capacity());
                if full {
                    &&& rn.should_stall
                    &&& rn.inst is None
                    &&& final(self).rob@ == old(self).rob@
                    &&& final(self).reservation_station == old(self).reservation_station
                    &&& final(self).lsq == old(self).lsq
                    &&& final(self).reg_file == old(self).reg_file
                    &&& final(self).stats.rob_stalls == if rob_full {
                        saturating(old(self).stats.rob_stalls, 1)
                    } else {
                        old(self).stats.rob_stalls
                    }
                    &&& final(self).stats.reservation_station_stalls == if rs_full {
                        saturating(old(self).stats.reservation_station_stalls, 1)
                    } else {
                        old(self).stats.reservation_station_stalls
                    }
                    &&& final(self).stats.lsq_stalls == if lsq_full {
                        saturating(old(self).stats.lsq_stalls, 1)
                    } else {
                        old(self).stats.lsq_stalls
                    }
                    &&& final(self).stats.phys_reg_stalls == old(self).stats.phys_reg_stalls
                } else if RegFile::needs_slot(inst) && !has_free(old(self).reg_file.prf()) {
                    &&& rn.should_stall
                    &&& rn.inst is None
                    &&& final(self).rob@ == old(self).rob@
                    &&& final(self).reservation_station == old(self).reservation_station
                    &&& final(self).lsq == old(self).lsq
                    &&& final(self).stats.phys_reg_stalls == saturating(old(self).stats.phys_reg_stalls, 1)
                    &&& final(self).stats.rob_stalls == old(self).stats.rob_stalls
                    &&& final(self).stats.reservation_station_stalls == old(self).stats.reservation_station_stalls
                    &&& final(self).stats.lsq_stalls == old(self).stats.lsq_stalls
                } else {
                    &&& !rn.should_stall
                    &&& rn.inst matches Some(ri) && inst_corresponds(
                        inst,
                        ri,
                        |a: ArchReg, v: ValueOrReg| v == old(self).reg_file.rename_src(a),
                        |d: ArchReg, b: BothReg| b == old(self).reg_file.rename_dst(d),
                        |j: Pc, j2: Pc| j2 == j,
                    ) && final(self).reservation_station.waiting() == old(self).reservation_station.waiting().insert(tagged.tag.0, ri)
                    &&& final(self).rob@ == old(self).rob@.push(
                        (RobEntry { tag: tagged.tag, inst, status: RobStatus::Executing }),
                    )
                }
            }),
    {
        let tag = tagged.tag;
        let inst = tagged.inst;
        let mut stall = false;
        if self.rob.is_full() {
            bump(&mut self.stats.rob_stalls);
            stall = true;
        }
        if self.reservation_station.is_full() {
            bump(&mut self.stats.reservation_station_stalls);
            stall = true;
        }
        if inst.is_mem_access() && !self.lsq.has_space(&inst) {
            bump(&mut self.stats.lsq_stalls);
            stall = true;
        }
        if stall {
            return Ok(stages::narrow::Rename { inst: None, should_stall: true });
        }
        let ghost rf0 = self.reg_file;
        match self.reg_file.perform_rename(tag, inst) {
            Some(renamed) => {
                proof {
                    lemma_renamed_in_file(inst, renamed, rf0);
                }
                let pushed = self.rob.try_push(tag, inst);
                if pushed.is_some() {
                    return Err(SimError::Fault);
                }
                self.reservation_station.insert(tag, renamed);
                proof {
                    assert(self.reg_file.prf().len() == rf0.prf().len());
                    assert forall|t: u64| #[trigger] self.reservation_station.waiting().contains_key(t) implies inst_fields(
                        self.reservation_station.waiting()[t],
                        |s: ValueOrReg| operand_in_file(self.reg_file.prf().len(), s),
                        |d: BothReg| true,
                        |j: Pc| true,
                    ) by {
                        if t != tag.0 {
                            assert(old(self).reservation_station.waiting().contains_key(t));
                        }
                    }
                }
                if renamed.is_mem_access() {
                    self.lsq.insert_access(renamed, tag);
                }
                Ok(stages::narrow::Rename { inst: Some(renamed), should_stall: false })
            },
            None => {
                bump(&mut self.stats.phys_reg_stalls);
                Ok(stages::narrow::Rename { inst: None, should_stall: true })
            },
        }
    }

    /// Renames the fetched instructions in order until one stalls; what was
    /// not renamed is handed back to be renamed next cycle. `Fault` only
    /// where the fetched instructions outnumber their fetch addresses.
    fn stage_rename(&mut self, pipe: &Pipeline, Ghost(pk): Ghost<u64>, Ghost(ek): Ghost<u64>) -> (r: Result<stages::wide::Rename, SimError>)
        requires
            old(self).wf(),
            old(self).bounded(pk, ek),
        ensures
            final(self).wf(),
            final(self).bounded(pk, ek),
            final(self).cycles() == old(self).cycles(),
            final(self).stats.insts_retired == old(self).stats.insts_retired,
            final(self).prog == old(self).prog,
            r is Err ==> pipe.fetch_decode.next_pcs@.len() < pipe.fetch_decode.insts@.len(),
            r matches Ok(rn) ==> ({
                let fd = pipe.fetch_decode;
                let k = rn.insts@.len();
                &&& k <= fd.insts@.len()
                &&& final(self).rob@ == old(self).rob@ + rob_entries(fd.insts@.take(k as int))
                &&& match rn.next_fetch_decode {
                    None => k == fd.insts@.len(),
                    Some(rest) => k < fd.insts@.len() && rest.insts@ == fd.insts@.skip(k as int)
                        && rest.next_pcs@ == fd.next_pcs@.skip(k as int) && !rest.stalled,
                }
            }),
    {
        let fd = &pipe.fetch_decode;
        let mut insts: Vec<RenamedInst> = Vec::new();
        let mut num_renamed: usize = 0;
        let mut should_stall = false;
        let n = fd.insts.len();
        let mut i: usize = 0;
        while i < n
            invariant_except_break
                !should_stall,
            invariant
                self.wf(),
                self.bounded(pk, ek),
                self.stats.cycles_taken == old(self).stats.cycles_taken,
                self.stats.insts_retired == old(self).stats.insts_retired,
                n == fd.insts@.len(),
                i <= n,
                num_renamed == i,
                insts@.len() == i,
                self.prog == old(self).prog,
                self.rob@ == old(self).rob@ + rob_entries(fd.insts@.take(i as int)),
            ensures
                should_stall ==> i < n,
                !should_stall ==> i == n,
                num_renamed == i,
                insts@.len() == i,
                self.prog == old(self).prog,
                self.rob@ == old(self).rob@ + rob_entries(fd.insts@.take(i as int)),
            decreases n - i,
        {
            let renamed = self.rename_one(fd.insts[i], Ghost(pk), Ghost(ek))?;
            if renamed.should_stall {
                should_stall = true;
                break;
            }
            if let Some(ri) = renamed.inst {
                num_renamed = num_renamed + 1;
                insts.push(ri);
            }
            proof {
                assert(fd.insts@.take(i + 1) == fd.insts@.take(i as int).push(fd.insts@[i as int]));
                assert(rob_entries(fd.insts@.take(i + 1)) == rob_entries(fd.insts@.take(i as int)).push(
                    (RobEntry { tag: fd.insts@[i as int].tag, inst: fd.insts@[i as int].inst, status: RobStatus::Executing }),
                ));
            }
            i = i + 1;
        }
        let next_fetch_decode = if should_stall {
            if num_renamed > fd.next_pcs.len() {
                return Err(SimError::Fault);
            }
            let mut rest_insts: Vec<Tagged<Inst>> = Vec::new();
            let mut j: usize = num_renamed;
            while j < n
                invariant
                    num_renamed <= j <= n,
                    n == fd.insts@.len(),
                    rest_insts@ == fd.insts@.subrange(num_renamed as int, j as int),
                decreases n - j,
            {
                rest_insts.push(fd.insts[j]);
                j = j + 1;
            }
            let m = fd.next_pcs.len();
            let mut rest_pcs: Vec<Pc> = Vec::new();
            let mut j: usize = num_renamed;
            while j < m
                invariant
                    num_renamed <= j <= m,
                    m == fd.next_pcs@.len(),
                    rest_pcs@ == fd.next_pcs@.subrange(num_renamed as int, j as int),
                decreases m - j,
            {
                rest_pcs.push(fd.next_pcs[j]);
                j = j + 1;
            }
            proof {
                assert(rest_insts@ == fd.insts@.skip(num_renamed as int));
                assert(rest_pcs@ == fd.next_pcs@.skip(num_renamed as int));
            }
            Some(stages::wide::FetchDecode { insts: rest_insts, next_pcs: rest_pcs, stalled: false })
        } else {
            None
        };
        Ok(stages::wide::Rename { insts, next_fetch_decode })
    }

    /// Issues ready instructions, oldest first, each to the first free unit
    /// of its kind: a load once no older store is known to overlap it, a
    /// store after recording its address. An instruction left waiting is a
    /// load that an older store overlaps, or every unit of its kind has
    /// started an instruction this cycle. `Fault` only where a ready
    /// instruction cannot be issued (see `issue_fault`).
    #[verifier::spinoff_prover]
    #[verifier::rlimit(40)]
    fn stage_issue(&mut self, Ghost(pk): Ghost<u64>, Ghost(ek): Ghost<u64>) -> (r: Result<stages::wide::Issue, SimError>)
        requires
            old(self).wf(),
            old(self).bounded(pk, ek),
        ensures
            final(self).wf(),
            final(self).bounded(pk, ek),
            final(self).cycles() == old(self).cycles(),
            final(self).stats.insts_retired == old(self).stats.insts_retired,
            final(self).prog == old(self).prog,
            final(self).rob == old(self).rob,
            final(self).reg_file == old(self).reg_file,
            r is Err ==> exists|t: u64, inst: ReadyInst|
                #![trigger issued_as(old(self).reservation_station, old(self).reg_file.prf(), t, inst)]
                was_ready(old(self).reservation_station, old(self).reg_file.prf(), t) && issued_as(
                    old(self).reservation_station,
                    old(self).reg_file.prf(),
                    t,
                    inst,
                ) && issue_fault(
                    tag_pc_table(final(self).pc_map),
                    final(self).lsq.loads(),
                    final(self).lsq.stores(),
                    final(self).mem.main_mem()@.len(),
                    Tag(t),
                    inst,
                ),
            r matches Ok(iss) ==> {
                &&& iss.next_fetch is None
                &&& forall|t: u64| #[trigger]
                    final(self).reservation_station.waiting().contains_key(t) <==> (old(self).reservation_station.waiting().contains_key(t) && !all_ready(
                        old(self).reg_file.prf(),
                        old(self).reservation_station.waiting()[t],
                    ))
                &&& final(self).execution_units@.len() == old(self).execution_units@.len()
                &&& forall|q: int|
                    0 <= q < old(self).execution_units@.len() ==> started_at_most_one(
                        old(self).execution_units@[q],
                        #[trigger] final(self).execution_units@[q],
                    )
                &&& forall|q: int|
                    0 <= q < old(self).execution_units@.len() && (#[trigger] final(self).execution_units@[q]).executing()
                        != old(self).execution_units@[q].executing() ==> ({
                        let e = final(self).execution_units@[q].executing().last();
                        &&& issued_as(old(self).reservation_station, old(self).reg_file.prf(), e.0.tag.0, e.0.inst)
                        &&& !final(self).reservation_station.ready().contains_key(e.0.tag.0)
                    })
                &&& forall|t: u64|
                    #![trigger was_ready(old(self).reservation_station, old(self).reg_file.prf(), t)]
                    was_ready(old(self).reservation_station, old(self).reg_file.prf(), t)
                        && !final(self).reservation_station.ready().contains_key(t) ==> exists|q: int|
                        unit_started(old(self).execution_units@, final(self).execution_units@, q, Tag(t))
                &&& forall|t: u64| #[trigger]
                    final(self).reservation_station.ready().contains_key(t) ==> was_ready(
                        old(self).reservation_station,
                        old(self).reg_file.prf(),
                        t,
                    ) && issued_as(
                        old(self).reservation_station,
                        old(self).reg_file.prf(),
                        t,
                        final(self).reservation_station.ready()[t],
                    )
                &&& forall|t: u64| #[trigger]
                    final(self).reservation_station.ready().contains_key(t) ==> waits_for_store(
                        final(self).lsq.stores(),
                        Tag(t),
                        final(self).reservation_station.ready()[t],
                    ) || no_free_unit(final(self).execution_units@, final(self).reservation_station.ready()[t])
            },
    {
        let ready = self.reservation_station.get_ready(&self.reg_file);
        let ghost mid = self.reservation_station.ready();
        proof {
            assert forall|t: u64| #[trigger] mid.contains_key(t) implies was_ready(
                old(self).reservation_station,
                old(self).reg_file.prf(),
                t,
            ) && issued_as(
                old(self).reservation_station,
                old(self).reg_file.prf(),
                t,
                mid[t],
            ) by {}
            assert(forall|t: u64| #[trigger] mid.contains_key(t) ==> exists|i: int| 0 <= i < ready@.len() && ready@[i].0.0 == t);
        }
        let mut remove_tags: Vec<Tag> = Vec::new();
        let n = ready.len();
        let mut idx: usize = 0;
        while idx < n
            invariant
                self.wf(),
                self.bounded(pk, ek),
                self.stats.cycles_taken == old(self).stats.cycles_taken,
                self.stats.insts_retired == old(self).stats.insts_retired,
                n == ready@.len(),
                idx <= n,
                self.prog == old(self).prog,
                self.rob == old(self).rob,
                self.reg_file == old(self).reg_file,
                forall|t: u64| #[trigger]
                    self.reservation_station.waiting().contains_key(t) <==> (old(self).reservation_station.waiting().contains_key(t) && !all_ready(
                        old(self).reg_file.prf(),
                        old(self).reservation_station.waiting()[t],
                    )),
                self.execution_units@.len() == old(self).execution_units@.len(),
                forall|q: int|
                    0 <= q < old(self).execution_units@.len() ==> started_at_most_one(
                        old(self).execution_units@[q],
                        #[trigger] self.execution_units@[q],
                    ),
                issued_so_far(old(self).execution_units@, self.execution_units@, mid, remove_tags@),
                self.reservation_station.ready() == mid,
                forall|t: u64| #[trigger] mid.contains_key(t) ==> was_ready(
                    old(self).reservation_station,
                    old(self).reg_file.prf(),
                    t,
                ) && issued_as(old(self).reservation_station, old(self).reg_file.prf(), t, mid[t]),
                forall|i: int| 0 <= i < ready@.len() ==> mid.contains_key((#[trigger] ready@[i]).0.0) && mid[ready@[i].0.0] == ready@[i].1,
                forall|i: int, j: int| 0 <= i < j < ready@.len() ==> ready@[i].0.0 < ready@[j].0.0,
                forall|i: int|
                    0 <= i < idx && !remove_tags@.contains((#[trigger] ready@[i]).0) ==> waits_for_store(
                        self.lsq.stores(),
                        ready@[i].0,
                        ready@[i].1,
                    ) || no_free_unit(self.execution_units@, ready@[i].1),
            decreases n - idx,
        {
            let (tag, ri) = ready[idx];
            idx = idx + 1;
            proof {
                assert(mid.contains_key(ready@[idx - 1].0.0) && mid[ready@[idx - 1].0.0] == ready@[idx - 1].1);
                assert(issued_as(old(self).reservation_station, old(self).reg_file.prf(), tag.0, ri));
            }
            if ri.is_load() {
                if tag_pc_table_get(&self.pc_map, tag).is_none() {
                    proof {
                        assert(issue_fault(tag_pc_table(self.pc_map), self.lsq.loads(), self.lsq.stores(), self.mem.main_mem()@.len(), Tag(tag.0), ri));
                    }
                    return Err(SimError::Fault);
                }
                let range = match access_range(&ri) {
                    Some(r) => r,
                    None => {
                        proof {
                            assert(range_overflows(ri));
                            assert(issue_fault(tag_pc_table(self.pc_map), self.lsq.loads(), self.lsq.stores(), self.mem.main_mem()@.len(), Tag(tag.0), ri));
                        }
                        return Err(SimError::Fault);
                    },
                };
                if !self.lsq.has_load(tag) {
                    proof {
                        assert(issue_fault(tag_pc_table(self.pc_map), self.lsq.loads(), self.lsq.stores(), self.mem.main_mem()@.len(), Tag(tag.0), ri));
                    }
                    return Err(SimError::Fault);
                }
                proof {
                    assert(range == access_bytes(ri));
                }
                if !self.lsq.can_execute_load(tag, range) {
                    proof {
                        assert(ready@[idx - 1] == (tag, ri));
                    }
                    continue;
                }
            } else if ri.is_store() {
                let range = match access_range(&ri) {
                    Some(r) => r,
                    None => {
                        proof {
                            assert(range_overflows(ri));
                            assert(issue_fault(tag_pc_table(self.pc_map), self.lsq.loads(), self.lsq.stores(), self.mem.main_mem()@.len(), Tag(tag.0), ri));
                        }
                        return Err(SimError::Fault);
                    },
                };
                if !self.lsq.has_store(tag) || self.lsq.store_clash(tag, &range) {
                    proof {
                        assert(range == access_bytes(ri));
                        assert(issue_fault(tag_pc_table(self.pc_map), self.lsq.loads(), self.lsq.stores(), self.mem.main_mem()@.len(), Tag(tag.0), ri));
                    }
                    return Err(SimError::Fault);
                }
                let ghost stores0 = self.lsq.stores();
                self.lsq.store_addr_known(tag, range);
                proof {
                    assert forall|i: int|
                        0 <= i < idx - 1 && !remove_tags@.contains((#[trigger] ready@[i]).0) implies waits_for_store(
                        self.lsq.stores(),
                        ready@[i].0,
                        ready@[i].1,
                    ) || no_free_unit(self.execution_units@, ready@[i].1) by {
                        if waits_for_store(stores0, ready@[i].0, ready@[i].1) {
                            assert(ready@[i].0.0 < ready@[idx - 1].0.0);
                            lemma_store_known_keeps_wait(stores0, self.lsq.stores(), tag, range, ready@[i].0, ready@[i].1);
                        }
                    }
                }
            }
            proof {
                assert(mid.contains_key(ready@[idx - 1].0.0) && mid[ready@[idx - 1].0.0] == ready@[idx - 1].1);
            }
            let m = self.execution_units.len();
            let mut j: usize = 0;
            let mut started = false;
            while j < m
                invariant
                    1 <= idx <= n,
                    n == ready@.len(),
                    ready@[idx - 1] == (tag, ri),
                    forall|i: int|
                        0 <= i < idx - 1 && !remove_tags@.contains((#[trigger] ready@[i]).0) ==> waits_for_store(
                            self.lsq.stores(),
                            ready@[i].0,
                            ready@[i].1,
                        ) || no_free_unit(self.execution_units@, ready@[i].1),
                    started ==> remove_tags@.contains(tag),
                    !started ==> forall|q: int|
                        0 <= q < j && (#[trigger] self.execution_units@[q]).kind() == ri.spec_eu_type()
                            ==> self.execution_units@[q].spec_was_utilised(),
                    self.wf(),
                    self.bounded(pk, ek),
                    self.stats.cycles_taken == old(self).stats.cycles_taken,
                    self.stats.insts_retired == old(self).stats.insts_retired,
                    m == self.execution_units@.len(),
                    j <= m,
                    self.prog == old(self).prog,
                    self.rob == old(self).rob,
                    self.reg_file == old(self).reg_file,
                    forall|t: u64| #[trigger]
                        self.reservation_station.waiting().contains_key(t) <==> (old(self).reservation_station.waiting().contains_key(t) && !all_ready(
                            old(self).reg_file.prf(),
                            old(self).reservation_station.waiting()[t],
                        )),
                    m == old(self).execution_units@.len(),
                    forall|q: int|
                        0 <= q < old(self).execution_units@.len() ==> started_at_most_one(
                            old(self).execution_units@[q],
                            #[trigger] self.execution_units@[q],
                        ),
                    issued_so_far(old(self).execution_units@, self.execution_units@, mid, remove_tags@),
                    self.reservation_station.ready() == mid,
                    mid.contains_key(tag.0) && mid[tag.0] == ri,
                    issued_as(old(self).reservation_station, old(self).reg_file.prf(), tag.0, ri),
                    was_ready(old(self).reservation_station, old(self).reg_file.prf(), tag.0),
                ensures
                    !started ==> j >= m,
                decreases m - j,
            {
                if self.execution_units[j].can_execute(&ri) {
                    if !in_bounds(&ri, self.mem.main.len()) {
                        proof {
                            assert(issue_fault(tag_pc_table(self.pc_map), self.lsq.loads(), self.lsq.stores(), self.mem.main_mem()@.len(), Tag(tag.0), ri));
                        }
                        return Err(SimError::Fault);
                    }
                    let ghost eus0 = self.execution_units@;
                    let mut eu = self.execution_units.remove(j);
                    eu.begin_execute(ri, tag);
                    proof {
                        assert(eu_ok(eus0[j as int], ek, self.mem.main_mem()@.len()));
                        assert forall|k: int| 0 <= k < eu.executing().len() implies access_in_bounds(#[trigger] eu.executing()[k].0.inst, self.mem.main_mem()@.len()) && eu.executing()[k].1 <= ek by {
                            if k < eus0[j as int].executing().len() {
                                assert(eu.executing()[k] == eus0[j as int].executing()[k]);
                            }
                        }
                    }
                    self.execution_units.insert(j, eu);
                    proof {
                        assert forall|q: int| 0 <= q < self.execution_units@.len() implies eu_ok(#[trigger] self.execution_units@[q], ek, self.mem.main_mem()@.len()) by {
                            if q != j {
                                assert(self.execution_units@[q] == eus0[q]);
                            }
                        }
                        let old_eu = old(self).execution_units@[j as int];
                        assert(started_at_most_one(old_eu, eus0[j as int]));
                        if eus0[j as int].executing() != old_eu.executing() {
                            assert(eus0[j as int].spec_was_utilised());
                        }
                        assert(self.execution_units@[j as int].executing() == old_eu.executing().push(
                            (Tagged { tag, inst: ri }, 0u64),
                        ));
                        assert forall|q: int| 0 <= q < old(self).execution_units@.len() implies started_at_most_one(
                            old(self).execution_units@[q],
                            #[trigger] self.execution_units@[q],
                        ) by {
                            if q != j {
                                assert(self.execution_units@[q] == eus0[q]);
                            } else {
                                let t = Tagged { tag, inst: ri };
                                assert(eus0[j as int].executing() == old_eu.executing());
                                assert(!old_eu.spec_was_utilised());
                                assert(t.inst.spec_eu_type() == old_eu.kind());
                                assert(self.execution_units@[q].executing() == old_eu.executing().push((t, 0u64)));
                            }
                        }
                    }
                    let ghost rt0 = remove_tags@;
                    remove_tags.push(tag);
                    proof {
                        let rt = remove_tags@;
                        let oe = old(self).execution_units@;
                        assert(rt[rt.len() - 1] == tag);
                        assert forall|q: int|
                            0 <= q < oe.len() && (#[trigger] self.execution_units@[q]).executing() != oe[q].executing()
                                implies ({
                            let e = self.execution_units@[q].executing().last();
                            &&& mid.contains_key(e.0.tag.0)
                            &&& mid[e.0.tag.0] == e.0.inst
                            &&& rt.contains(e.0.tag)
                        }) by {
                            if q == j {
                                assert(rt[rt.len() - 1] == tag);
                            } else {
                                assert(self.execution_units@[q] == eus0[q]);
                                let e = eus0[q].executing().last();
                                assert(rt0.contains(e.0.tag));
                                let i = choose|i: int| 0 <= i < rt0.len() && rt0[i] == e.0.tag;
                                assert(rt[i] == e.0.tag);
                            }
                        }
                        assert forall|k: int| 0 <= k < rt.len() implies mid.contains_key((#[trigger] rt[k]).0) && exists|q: int|
                            unit_started(oe, self.execution_units@, q, rt[k]) by {
                            if k == rt.len() - 1 {
                                assert(unit_started(oe, self.execution_units@, j as int, rt[k]));
                            } else {
                                assert(rt[k] == rt0[k]);
                                let q = choose|q: int| unit_started(oe, eus0, q, rt0[k]);
                                assert(started_at_most_one(oe[q], eus0[q]));
                                if q == j {
                                    assert(eus0[q].spec_was_utilised());
                                }
                                assert(self.execution_units@[q] == eus0[q]);
                                assert(unit_started(oe, self.execution_units@, q, rt[k]));
                            }
                        }
                    }
                    started = true;
                    proof {
                        lemma_issue_keeps_busy(eus0, self.execution_units@, j as int, ready@, rt0, tag, idx - 1, self.lsq.stores());
                    }
                    break;
                }
                j = j + 1;
            }
            proof {
                if !started {
                    assert(no_free_unit(self.execution_units@, ri));
                }
            }
        }
        let n = remove_tags.len();
        let ghost snap = *self;
        let mut k: usize = 0;
        while k < n
            invariant
                self.wf(),
                self.bounded(pk, ek),
                self.stats.cycles_taken == old(self).stats.cycles_taken,
                self.stats.insts_retired == old(self).stats.insts_retired,
                n == remove_tags@.len(),
                k <= n,
                self.prog == old(self).prog,
                self.rob == old(self).rob,
                self.reg_file == old(self).reg_file,
                forall|t: u64| #[trigger]
                    self.reservation_station.waiting().contains_key(t) <==> (old(self).reservation_station.waiting().contains_key(t) && !all_ready(
                        old(self).reg_file.prf(),
                        old(self).reservation_station.waiting()[t],
                    )),
                self.execution_units@.len() == old(self).execution_units@.len(),
                forall|q: int|
                    0 <= q < old(self).execution_units@.len() ==> started_at_most_one(
                        old(self).execution_units@[q],
                        #[trigger] self.execution_units@[q],
                    ),
                self.execution_units == snap.execution_units,
                self.lsq == snap.lsq,
                forall|t: u64| #[trigger]
                    self.reservation_station.ready().contains_key(t) <==> (mid.contains_key(t) && !exists|i: int|
                        0 <= i < k && remove_tags@[i].0 == t),
                forall|t: u64| #[trigger]
                    self.reservation_station.ready().contains_key(t) ==> self.reservation_station.ready()[t] == mid[t],
            decreases n - k,
        {
            self.reservation_station.pop_ready(remove_tags[k]);
            k = k + 1;
        }
        proof {
            let oe = old(self).execution_units@;
            let prf = old(self).reg_file.prf();
            let ors = old(self).reservation_station;
            assert(issued_so_far(old(self).execution_units@, snap.execution_units@, mid, remove_tags@));
            assert(self.execution_units@ == snap.execution_units@);
            assert forall|q: int|
                0 <= q < oe.len() && (#[trigger] self.execution_units@[q]).executing() != oe[q].executing() implies ({
                let e = self.execution_units@[q].executing().last();
                &&& issued_as(ors, prf, e.0.tag.0, e.0.inst)
                &&& !self.reservation_station.ready().contains_key(e.0.tag.0)
            }) by {
                let e = self.execution_units@[q].executing().last();
                assert(remove_tags@.contains(e.0.tag));
                let i = choose|i: int| 0 <= i < remove_tags@.len() && remove_tags@[i] == e.0.tag;
                assert(remove_tags@[i].0 == e.0.tag.0);
            }
            assert forall|t: u64| #![trigger was_ready(ors, prf, t)]
                was_ready(ors, prf, t) && !self.reservation_station.ready().contains_key(t) implies exists|q: int|
                unit_started(oe, self.execution_units@, q, Tag(t)) by {
                assert(mid.contains_key(t));
                let i = choose|i: int| 0 <= i < n && remove_tags@[i].0 == t;
                assert(remove_tags@[i] == Tag(t));
                assert(mid.contains_key(remove_tags@[i].0));
            }
            assert forall|t: u64| #[trigger] self.reservation_station.ready().contains_key(t) implies waits_for_store(
                self.lsq.stores(),
                Tag(t),
                self.reservation_station.ready()[t],
            ) || no_free_unit(self.execution_units@, self.reservation_station.ready()[t]) by {
                assert(mid.contains_key(t));
                let i = choose|i: int| 0 <= i < ready@.len() && ready@[i].0.0 == t;
                if remove_tags@.contains(ready@[i].0) {
                    let w = choose|w: int| 0 <= w < remove_tags@.len() && remove_tags@[w] == ready@[i].0;
                    assert(remove_tags@[w].0 == t);
                }
                assert(mid[t] == ready@[i].1);
                assert(ready@[i].0 == Tag(t));
            }
        }
        Ok(stages::wide::Issue { next_fetch: None })
    }

    /// Every execution unit works for a cycle.
    fn stage_execute(&mut self, Ghost(pk): Ghost<u64>, Ghost(ek): Ghost<u64>)
        requires
            old(self).wf(),
            old(self).bounded(pk, ek),
            ek + 1 < MAX_CYCLES,
        ensures
            final(self).wf(),
            final(self).bounded(pk, (ek + 1) as u64),
            final(self).cycles() == old(self).cycles(),
            final(self).stats.insts_retired == old(self).stats.insts_retired,
            final(self).mem.main_mem() == old(self).mem.main_mem(),
            final(self).execution_units@.len() == old(self).execution_units@.len(),
            forall|j: int| 0 <= j < old(self).execution_units@.len() ==> advanced(
                old(self).execution_units@[j],
                #[trigger] final(self).execution_units@[j],
            ),
    {
        let m = self.execution_units.len();
        let mut j: usize = 0;
        while j < m
            invariant
                self.wf(),
                self.mem.pending_bounded(pk),
                pk < MAX_CYCLES,
                ek + 1 < MAX_CYCLES,
                self.stats.cycles_taken == old(self).stats.cycles_taken,
                self.stats.insts_retired == old(self).stats.insts_retired,
                m == self.execution_units@.len(),
                j <= m,
                forall|q: int| 0 <= q < j ==> eu_ok(#[trigger] self.execution_units@[q], (ek + 1) as u64, self.mem.main_mem()@.len()),
                forall|q: int| j <= q < m ==> eu_ok(#[trigger] self.execution_units@[q], ek, self.mem.main_mem()@.len()),
                m == old(self).execution_units@.len(),
                self.mem.main_mem() == old(self).mem.main_mem(),
                forall|q: int| 0 <= q < j ==> advanced(old(self).execution_units@[q], #[trigger] self.execution_units@[q]),
                forall|q: int| j <= q < m ==> #[trigger] self.execution_units@[q] == old(self).execution_units@[q],
            decreases m - j,
        {
            let ghost eus0 = self.execution_units@;
            let mut eu = self.execution_units.remove(j);
            let ghost eu0 = eu;
            proof {
                assert(eu_ok(eus0[j as int], ek, self.mem.main_mem()@.len()));
            }
            let ghost mem0 = self.mem;
            eu.advance(&mut self.mem);
            proof {
                lemma_eu_advance_ok(eu0, eu, ek, self.mem.main_mem()@.len());
                if eu0.completed() is None && exists|i: int| is_first_done(eu0.executing(), mem0, i) {
                    let i = choose|i: int| is_first_done(eu0.executing(), mem0, i);
                    assert(0 <= i < eu0.executing().len() && eu.executing() == aged(eu0.executing()).remove(i));
                }
                assert(advanced(eu0, eu));
            }
            self.execution_units.insert(j, eu);
            proof {
                assert forall|q: int| 0 <= q < j + 1 implies advanced(old(self).execution_units@[q], #[trigger] self.execution_units@[q]) by {
                    if q != j {
                        assert(self.execution_units@[q] == eus0[q]);
                    }
                }
                assert forall|q: int| j + 1 <= q < m implies #[trigger] self.execution_units@[q] == old(self).execution_units@[q] by {
                    assert(self.execution_units@[q] == eus0[q]);
                }
                assert forall|q: int| 0 <= q < j + 1 implies eu_ok(#[trigger] self.execution_units@[q], (ek + 1) as u64, self.mem.main_mem()@.len()) by {
                    if q != j {
                        assert(self.execution_units@[q] == eus0[q]);
                    }
                }
                assert forall|q: int| j + 1 <= q < m implies eu_ok(#[trigger] self.execution_units@[q], ek, self.mem.main_mem()@.len()) by {
                    assert(self.execution_units@[q] == eus0[q]);
                }
            }
            j = j + 1;
        }
    }

    /// Makes `phys` (unless the destination is `zero`) hold `val`.
    fn write_dst(&mut self, dst: BothReg, val: u32) -> (r: Result<(), SimError>)
        requires
            old(self).wf(),
        ensures
            final(self).wf(),
            final(self).execution_units == old(self).execution_units,
            final(self).mem == old(self).mem,
            final(self).stats == old(self).stats,
            final(self).prog == old(self).prog,
            final(self).rob == old(self).rob,
            final(self).reg_file.rat() == old(self).reg_file.rat(),
            final(self).reg_file.prrt() == old(self).reg_file.prrt(),
            final(self).reg_file.branches() == old(self).reg_file.branches(),
            if dst.arch == ArchReg::Zero {
                r is Ok && final(self).reg_file.prf() == old(self).reg_file.prf()
            } else if valid_phys(dst.phys, old(self).reg_file.prf().len()) {
                r is Ok && final(self).reg_file.prf() == old(self).reg_file.prf().update(
                    dst.phys.0 as int,
                    PrfEntry::Active(val),
                )
            } else {
                r is Err && final(self).reg_file.prf() == old(self).reg_file.prf()
            },
    {
        if dst.arch != ArchReg::Zero {
            if dst.phys.0 < 0 || dst.phys.0 as usize >= self.reg_file.prf_len() {
                return Err(SimError::Fault);
            }
            self.reg_file.set_phys_active(dst.phys, val);
        }
        Ok(())
    }

    /// Takes the result of the first execution unit that has one and writes
    /// it back: a value to its physical register, a branch outcome to the
    /// predictor (recovering and redirecting fetch after a misprediction), a
    /// link address for `jal`; then marks the instruction executed.
    fn writeback_one(&mut self, Ghost(pk): Ghost<u64>, Ghost(ek): Ghost<u64>) -> (r: Result<stages::narrow::Writeback, SimError>)
        requires
            old(self).wf(),
            old(self).bounded(pk, ek),
        ensures
            final(self).wf(),
            final(self).bounded(pk, ek),
            final(self).cycles() == old(self).cycles(),
            final(self).stats.insts_retired == old(self).stats.insts_retired,
            final(self).prog == old(self).prog,
            final(self).execution_units@.len() == old(self).execution_units@.len(),
            r is Err ==> exists|j: int| #[trigger]
                first_with_result(old(self).execution_units@, j) && old(self).writeback_fails(
                    old(self).execution_units@[j].completed()->0,
                ),
            r matches Ok(wb) ==> match wb.inst {
                None => {
                    &&& wb.next_fetch is None
                    &&& final(self).rob@ == old(self).rob@
                    &&& forall|q: int|
                        0 <= q < old(self).execution_units@.len() ==> (#[trigger] old(self).execution_units@[q]).completed() is None
                    &&& forall|q: int|
                        0 <= q < final(self).execution_units@.len() ==> (#[trigger] final(self).execution_units@[q]).completed() is None
                },
                Some(t) => {
                    &&& exists|j: int| #[trigger]
                        took_result(old(self).execution_units@, final(self).execution_units@, j, t) && ({
                            let c = old(self).execution_units@[j].completed()->0;
                            let prf = old(self).reg_file.prf();
                            &&& !old(self).writeback_fails(c)
                            &&& forall|q: int|
                                0 <= q < old(self).execution_units@.len() && q != j ==> if wb.next_fetch is Some {
                                    killed_after(old(self).execution_units@[q], #[trigger] final(self).execution_units@[q], t.tag)
                                } else {
                                    same_unit(old(self).execution_units@[q], #[trigger] final(self).execution_units@[q])
                                }
                            &&& match t.inst {
                                Inst::Add(d, _, _) | Inst::Sub(d, _, _) | Inst::AddImm(d, _, _) | Inst::AndImm(d, _, _)
                                | Inst::ShiftLeftLogicalImm(d, _, _) | Inst::Mul(d, _, _) | Inst::Rem(d, _, _)
                                | Inst::SetLessThanImmU(d, _, _) | Inst::LoadByte(d, _) | Inst::LoadHalfWord(d, _)
                                | Inst::LoadWord(d, _) => final(self).reg_file.prf() == prf_written(prf, d, c.1.val),
                                Inst::JumpAndLink(d, _) => final(self).reg_file.prf() == prf_written(
                                    prf,
                                    d,
                                    (tag_pc_table(old(self).pc_map)[t.tag].0 + INST_SIZE) as u32,
                                ),
                                _ => true,
                            }
                        })
                    &&& if wb.next_fetch is Some {
                        &&& (t.inst is BranchIfEqual || t.inst is BranchIfNotEqual || t.inst is BranchIfGreaterEqual
                            || t.inst is BranchIfLess)
                        &&& marked_executed(not_after(old(self).rob@, t.tag), final(self).rob@, t.tag)
                    } else {
                        marked_executed(old(self).rob@, final(self).rob@, t.tag)
                    }
                },
            },
    {
        let m = self.execution_units.len();
        let mut j: usize = 0;
        while j < m
            invariant
                self.wf(),
                self.bounded(pk, ek),
                self.stats.cycles_taken == old(self).stats.cycles_taken,
                self.stats.insts_retired == old(self).stats.insts_retired,
                m == self.execution_units@.len(),
                m == old(self).execution_units@.len(),
                j <= m,
                self.prog == old(self).prog,
                self.rob == old(self).rob,
                self.lsq == old(self).lsq,
                self.reg_file == old(self).reg_file,
                self.pc_map == old(self).pc_map,
                self.branch_predictor == old(self).branch_predictor,
                forall|q: int| 0 <= q < j ==> (#[trigger] old(self).execution_units@[q]).completed() is None,
                forall|q: int| 0 <= q < j ==> (#[trigger] self.execution_units@[q]).completed() is None,
                forall|q: int| 0 <= q < j ==> same_unit(old(self).execution_units@[q], #[trigger] self.execution_units@[q]),
                forall|q: int| j <= q < m ==> #[trigger] self.execution_units@[q] == old(self).execution_units@[q],
            decreases m - j,
        {
            let ghost eus0 = self.execution_units@;
            let mut eu = self.execution_units.remove(j);
            let done = eu.take_complete();
            proof {
                assert(eu_ok(eus0[j as int], ek, self.mem.main_mem()@.len()));
            }
            self.execution_units.insert(j, eu);
            proof {
                assert forall|q: int| 0 <= q < self.execution_units@.len() implies eu_ok(#[trigger] self.execution_units@[q], ek, self.mem.main_mem()@.len()) by {
                    if q != j {
                        assert(self.execution_units@[q] == eus0[q]);
                    }
                }
                assert(eus0[j as int] == old(self).execution_units@[j as int]);
            }
            let ghost rob0 = self.rob@;
            if let Some((tagged, result)) = done {
                proof {
                    assert(took_result(old(self).execution_units@, self.execution_units@, j as int, tagged));
                    assert(first_with_result(old(self).execution_units@, j as int));
                    assert(old(self).execution_units@[j as int].completed()->0 == (tagged, result));
                }
                let tag = tagged.tag;
                let inst = tagged.inst;
                let mut next_fetch: Option<Pc> = None;
                match inst {
                    Inst::Add(dst, _, _)
                    | Inst::Sub(dst, _, _)
                    | Inst::AddImm(dst, _, _)
                    | Inst::AndImm(dst, _, _)
                    | Inst::ShiftLeftLogicalImm(dst, _, _)
                    | Inst::Mul(dst, _, _)
                    | Inst::Rem(dst, _, _)
                    | Inst::SetLessThanImmU(dst, _, _)
                    | Inst::LoadByte(dst, _)
                    | Inst::LoadHalfWord(dst, _)
                    | Inst::LoadWord(dst, _) => {
                        if inst.is_load() {
                            if !self.lsq.has_load(tag) {
                                return Err(SimError::Fault);
                            }
                            self.lsq.load_complete(tag);
                            let _ = tag_pc_table_remove(&mut self.pc_map, tag);
                        }
                        self.write_dst(dst, result.val)?;
                    },
                    Inst::BranchIfEqual(_, _, _)
                    | Inst::BranchIfNotEqual(_, _, _)
                    | Inst::BranchIfGreaterEqual(_, _, _)
                    | Inst::BranchIfLess(_, _, _) => {
                        let taken = result.val == 1;
                        let predicted_taken = match self.reg_file.branch_type(tag) {
                            Some(BranchType::Direct { taken: p, not_taken_pc, .. }) => {
                                if not_taken_pc.0 < INST_SIZE {
                                    return Err(SimError::Fault);
                                }
                                p
                            },
                            _ => {
                                return Err(SimError::Fault);
                            },
                        };
                        if taken != predicted_taken && !self.reg_file.can_recover(tag) {
                            return Err(SimError::Fault);
                        }
                        if let Some(next_pc) = self.reg_file.end_predict_direct(
                            tag,
                            taken,
                            predicted_taken,
                            &mut self.branch_predictor,
                        ) {
                            bump(&mut self.stats.direct_mispredicts);
                            self.kill_tags_after(tag, Ghost(pk), Ghost(ek));
                            next_fetch = Some(next_pc);
                        }
                    },
                    Inst::JumpAndLink(dst, _) => {
                        let inst_pc = match tag_pc_table_remove(&mut self.pc_map, tag) {
                            Some(p) => p,
                            None => {
                                return Err(SimError::Fault);
                            },
                        };
                        if inst_pc.0 > u32::MAX - INST_SIZE {
                            return Err(SimError::Fault);
                        }
                        self.write_dst(dst, inst_pc.0 + INST_SIZE)?;
                    },
                    Inst::Jump(_)
                    | Inst::StoreByte(_, _)
                    | Inst::StoreHalfWord(_, _)
                    | Inst::StoreWord(_, _)
                    | Inst::Halt => {},
                }
                proof {
                    lemma_not_after_keeps_tag(old(self).rob@, tag);
                }
                if !self.rob.contains(tag) {
                    return Err(SimError::Fault);
                }
                let ghost rob1 = self.rob@;
                self.rob.mark_complete(tag);
                proof {
                    assert(marked_executed(rob1, self.rob@, tag));
                    assert(took_result(old(self).execution_units@, self.execution_units@, j as int, tagged));
                }
                return Ok(stages::narrow::Writeback { inst: Some(Tagged { tag, inst }), next_fetch });
            }
            proof {
                assert forall|q: int| j + 1 <= q < m implies #[trigger] self.execution_units@[q] == old(self).execution_units@[q] by {
                    assert(self.execution_units@[q] == eus0[q]);
                }
                assert forall|q: int| 0 <= q < j + 1 implies (#[trigger] self.execution_units@[q]).completed() is None by {
                    if q != j {
                        assert(self.execution_units@[q] == eus0[q]);
                    }
                }
                assert forall|q: int| 0 <= q < j + 1 implies same_unit(old(self).execution_units@[q], #[trigger] self.execution_units@[q]) by {
                    if q != j {
                        assert(self.execution_units@[q] == eus0[q]);
                    }
                }
            }
            j = j + 1;
        }
        Ok(stages::narrow::Writeback { inst: None, next_fetch: None })
    }

    /// Writes back up to `PIPE_WIDTH` results; where to fetch from after a
    /// misprediction. `Fault` only where a unit held a result whose
    /// writeback does not add up.
    fn stage_writeback(&mut self, Ghost(pk): Ghost<u64>, Ghost(ek): Ghost<u64>) -> (r: Result<stages::wide::Writeback, SimError>)
        requires
            old(self).wf(),
            old(self).bounded(pk, ek),
        ensures
            final(self).wf(),
            final(self).bounded(pk, ek),
            final(self).cycles() == old(self).cycles(),
            final(self).stats.insts_retired == old(self).stats.insts_retired,
            final(self).prog == old(self).prog,
            r is Err ==> exists|q: int|
                0 <= q < old(self).execution_units@.len() && (#[trigger] old(self).execution_units@[q]).completed() is Some,
            r matches Ok(wb) ==> {
                &&& wb.insts@.len() <= PIPE_WIDTH
                &&& wb.insts@.len() < PIPE_WIDTH ==> forall|q: int|
                    0 <= q < final(self).execution_units@.len() ==> (#[trigger] final(self).execution_units@[q]).completed() is None
                &&& wb.insts@.len() == 0 ==> final(self).rob@ == old(self).rob@ && wb.next_fetch is None
                &&& wb.next_fetch is Some ==> exists|k: int|
                    0 <= k < wb.insts@.len() && ((#[trigger] wb.insts@[k]).inst is BranchIfEqual
                        || wb.insts@[k].inst is BranchIfNotEqual || wb.insts@[k].inst is BranchIfGreaterEqual
                        || wb.insts@[k].inst is BranchIfLess)
            },
    {
        let mut completed: Vec<Tagged<ExecutedInst>> = Vec::new();
        let mut next_fetch: Option<Pc> = None;
        let mut i: u64 = 0;
        while i < PIPE_WIDTH
            invariant
                self.wf(),
                self.bounded(pk, ek),
                self.stats.cycles_taken == old(self).stats.cycles_taken,
                self.stats.insts_retired == old(self).stats.insts_retired,
                self.prog == old(self).prog,
                i <= PIPE_WIDTH,
                self.execution_units@.len() == old(self).execution_units@.len(),
                forall|q: int|
                    0 <= q < self.execution_units@.len() && (#[trigger] self.execution_units@[q]).completed() is Some
                        ==> self.execution_units@[q].completed() == old(self).execution_units@[q].completed(),
                completed@.len() <= i,
                completed@.len() < i ==> forall|q: int|
                    0 <= q < self.execution_units@.len() ==> (#[trigger] self.execution_units@[q]).completed() is None,
                completed@.len() == 0 ==> self.rob@ == old(self).rob@ && next_fetch is None,
                next_fetch is Some ==> exists|k: int|
                    0 <= k < completed@.len() && ((#[trigger] completed@[k]).inst is BranchIfEqual
                        || completed@[k].inst is BranchIfNotEqual || completed@[k].inst is BranchIfGreaterEqual
                        || completed@[k].inst is BranchIfLess),
            decreases PIPE_WIDTH - i,
        {
            let ghost c0 = completed@;
            let ghost eus0 = self.execution_units@;
            let res = match self.writeback_one(Ghost(pk), Ghost(ek)) {
                Ok(res) => res,
                Err(e) => {
                    proof {
                        let j = choose|j: int| #[trigger] first_with_result(eus0, j);
                        assert(old(self).execution_units@[j].completed() is Some);
                    }
                    return Err(e);
                },
            };
            proof {
                assert forall|q: int|
                    0 <= q < self.execution_units@.len() && (#[trigger] self.execution_units@[q]).completed() is Some
                        implies self.execution_units@[q].completed() == old(self).execution_units@[q].completed() by {
                    assert(eus0[q].completed() == self.execution_units@[q].completed());
                }
            }
            if let Some(tagged) = res.inst {
                completed.push(tagged);
            }
            if let Some(next_pc) = res.next_fetch {
                next_fetch = Some(next_pc);
            }
            proof {
                if res.next_fetch is Some {
                    let k = completed@.len() - 1;
                    assert(completed@[k] == res.inst->0);
                } else if next_fetch is Some {
                    let k = choose|k: int|
                        0 <= k < c0.len() && ((#[trigger] c0[k]).inst is BranchIfEqual || c0[k].inst is BranchIfNotEqual
                            || c0[k].inst is BranchIfGreaterEqual || c0[k].inst is BranchIfLess);
                    assert(completed@[k] == c0[k]);
                }
            }
            i = i + 1;
        }
        Ok(stages::wide::Writeback { insts: completed, next_fetch })
    }

    /// Retires up to `PIPE_WIDTH` executed instructions in program order:
    /// frees the physical register each overwrote, releases loads, writes
    /// stores to memory. Reaching `halt` ends the run.
    fn stage_commit(&mut self, Ghost(pk): Ghost<u64>, Ghost(ek): Ghost<u64>) -> (r: Result<stages::Commit, SimError>)
        requires
            old(self).wf(),
            old(self).bounded(pk, ek),
        ensures
            final(self).wf(),
            final(self).bounded(pk, ek),
            final(self).cycles() == old(self).cycles(),
            final(self).prog == old(self).prog,
            r is Err <==> exists|i: int|
                #[trigger] reaches_entry(old(self).rob@, i) && old(self).commit_fails(i) && forall|j: int|
                    0 <= j < i ==> !old(self).commit_fails(j),
            r matches Ok(c) ==> ({
                let taken = old(self).rob@.len() - final(self).rob@.len();
                let k = taken - if c.should_halt {
                    1int
                } else {
                    0int
                };
                let retired = old(self).rob@.take(k);
                &&& final(self).rob@ == old(self).rob@.skip(taken)
                &&& c.retired == k
                &&& k <= PIPE_WIDTH
                &&& commits(old(self).rob@, k, c.should_halt)
                &&& final(self).stats.insts_retired == saturating(old(self).stats.insts_retired, k)
                &&& final(self).lsq.stores() == old(self).lsq.stores().skip(
                    count_where(retired, |e: RobEntry| is_store_entry(e)) as int,
                )
                &&& final(self).reg_file.prrt() == old(self).reg_file.prrt().skip(
                    count_where(retired, |e: RobEntry| writes_reg_entry(e)) as int,
                )
                &&& count_where(retired, |e: RobEntry| is_store_entry(e)) == 0 ==> final(self).mem.main_mem()
                    == old(self).mem.main_mem()
                &&& final(self).mem.main_mem()@ == old(self).committed_memory(k as nat)
            }),
    {
        let mut i: u64 = 0;
        while i < PIPE_WIDTH
            invariant
                self.wf(),
                self.bounded(pk, ek),
                self.stats.cycles_taken == old(self).stats.cycles_taken,
                self.prog == old(self).prog,
                i <= PIPE_WIDTH,
                i <= old(self).rob@.len(),
                self.rob@ == old(self).rob@.skip(i as int),
                forall|j: int| 0 <= j < i ==> (#[trigger] old(self).rob@[j]).status == RobStatus::Executed && !(old(self).rob@[j].inst is Halt),
                self.stats.insts_retired == saturating(old(self).stats.insts_retired, i as int),
                self.lsq.stores() == old(self).lsq.stores().skip(
                    count_where(old(self).rob@.take(i as int), |e: RobEntry| is_store_entry(e)) as int,
                ),
                self.reg_file.prrt() == old(self).reg_file.prrt().skip(
                    count_where(old(self).rob@.take(i as int), |e: RobEntry| writes_reg_entry(e)) as int,
                ),
                count_where(old(self).rob@.take(i as int), |e: RobEntry| is_store_entry(e)) <= old(self).lsq.stores().len(),
                count_where(old(self).rob@.take(i as int), |e: RobEntry| writes_reg_entry(e)) <= old(self).reg_file.prrt().len(),
                count_where(old(self).rob@.take(i as int), |e: RobEntry| is_store_entry(e)) == 0 ==> self.mem.main_mem()
                    == old(self).mem.main_mem(),
                self.mem.main_mem()@.len() == old(self).mem.main_mem()@.len(),
                self.reg_file.prf() == freed(
                    old(self).reg_file.prf(),
                    old(self).reg_file.prrt().take(
                        count_where(old(self).rob@.take(i as int), |e: RobEntry| writes_reg_entry(e)) as int,
                    ),
                ),
                forall|j: int| 0 <= j < i ==> !old(self).commit_fails(j),
                self.mem.main_mem()@ == old(self).committed_memory(i as nat),
            decreases PIPE_WIDTH - i,
        {
            let ghost rob0 = self.rob@;
            let ghost stores0 = self.lsq.stores();
            let ghost prrt0 = self.reg_file.prrt();
            let ghost mm0 = self.mem.main_mem();
            let tagged = match self.rob.try_pop() {
                None => {
                    proof {
                        assert(commits(old(self).rob@, i as int, false));
                        assert(self.rob@ == old(self).rob@.skip(i as int + 0));
                    }
                    return Ok(stages::Commit { should_halt: false, retired: i });
                },
                Some(t) => t,
            };
            proof {
                assert(old(self).rob@[i as int] == rob0[0]);
                assert(self.rob@ == old(self).rob@.skip(i as int + 1));
                assert(old(self).rob@.take(i + 1).drop_last() == old(self).rob@.take(i as int));
                assert(old(self).rob@.take(i + 1).last() == old(self).rob@[i as int]);
            }
            let tag = tagged.tag;
            let inst = tagged.inst;
            match inst {
                Inst::Halt => {
                    proof {
                        assert(commits(old(self).rob@, i as int, true));
                    }
                    return Ok(stages::Commit { should_halt: true, retired: i });
                },
                Inst::Add(dst, _, _)
                | Inst::Sub(dst, _, _)
                | Inst::AddImm(dst, _, _)
                | Inst::AndImm(dst, _, _)
                | Inst::ShiftLeftLogicalImm(dst, _, _)
                | Inst::Mul(dst, _, _)
                | Inst::Rem(dst, _, _)
                | Inst::SetLessThanImmU(dst, _, _)
                | Inst::JumpAndLink(dst, _)
                | Inst::LoadByte(dst, _)
                | Inst::LoadHalfWord(dst, _)
                | Inst::LoadWord(dst, _) => {
                    if dst != ArchReg::Zero {
                        if !self.reg_file.can_release() {
                            proof {
                                let cw = count_where(old(self).rob@.take(i as int), |e: RobEntry| writes_reg_entry(e));
                                assert(old(self).rob@[i as int].inst == inst);
                                assert(writes_reg_entry(old(self).rob@[i as int]));
                                assert(self.reg_file.prrt().len() > 0 ==> self.reg_file.prrt()[0] == old(self).reg_file.prrt()[cw as int]);
                                assert(reaches_entry(old(self).rob@, i as int));
                                assert(old(self).commit_fails(i as int));
                            }
                            return Err(SimError::Fault);
                        }
                        proof {
                            let cw = count_where(old(self).rob@.take(i as int), |e: RobEntry| writes_reg_entry(e));
                            let p = old(self).reg_file.prrt();
                            assert(prrt0[0] == p[cw as int]);
                        }
                        self.reg_file.release_phys(tag);
                        proof {
                            let cw = count_where(old(self).rob@.take(i as int), |e: RobEntry| writes_reg_entry(e));
                            let p = old(self).reg_file.prrt();
                            assert(p.take(cw + 1int).drop_last() == p.take(cw as int));
                            assert(p.take(cw + 1int).last() == p[cw as int]);
                            assert(self.reg_file.prf() == freed(old(self).reg_file.prf(), p.take(cw + 1int)));
                        }
                    }
                    if inst.is_mem_access() {
                        self.lsq.release_load(tag);
                    }
                },
                Inst::StoreByte(_, _) | Inst::StoreHalfWord(_, _) | Inst::StoreWord(_, _) => {
                    if !self.lsq.can_submit_store(tag, &self.reg_file, self.mem.main.len()) {
                        proof {
                            let cs = count_where(old(self).rob@.take(i as int), |e: RobEntry| is_store_entry(e));
                            assert(old(self).rob@[i as int].inst == inst);
                            assert(old(self).rob@[i as int].tag == tag);
                            assert(is_store_entry(old(self).rob@[i as int]));
                            assert(self.lsq.stores() == old(self).lsq.stores().skip(cs as int));
                            assert(reaches_entry(old(self).rob@, i as int));
                            assert(old(self).commit_fails(i as int));
                        }
                        return Err(SimError::Fault);
                    }
                    self.lsq.submit_store(tag, &self.reg_file, &mut self.mem);
                    proof {
                        assert(self.mem.main_mem()@.len() == mm0@.len());
                        let cs = count_where(old(self).rob@.take(i as int), |e: RobEntry| is_store_entry(e));
                        assert(stores0[0] == old(self).lsq.stores()[cs as int]);
                        assert(is_store_entry(old(self).rob@[i as int]));
                        assert(old(self).rob@.take(i + 1 - 1) == old(self).rob@.take(i as int));
                        assert(self.mem.main_mem()@ == old(self).committed_memory((i + 1) as nat));
                    }
                },
                Inst::Jump(_)
                | Inst::BranchIfEqual(_, _, _)
                | Inst::BranchIfNotEqual(_, _, _)
                | Inst::BranchIfGreaterEqual(_, _, _)
                | Inst::BranchIfLess(_, _, _) => {},
            }
            bump(&mut self.stats.insts_retired);
            proof {
                let e = old(self).rob@[i as int];
                let cs = count_where(old(self).rob@.take(i as int), |e: RobEntry| is_store_entry(e));
                let cw = count_where(old(self).rob@.take(i as int), |e: RobEntry| writes_reg_entry(e));
                assert(count_where(old(self).rob@.take(i + 1), |e: RobEntry| is_store_entry(e)) == cs + if is_store_entry(e) { 1nat } else { 0nat });
                assert(count_where(old(self).rob@.take(i + 1), |e: RobEntry| writes_reg_entry(e)) == cw + if writes_reg_entry(e) { 1nat } else { 0nat });
                if is_store_entry(e) {
                    assert(self.lsq.stores() == old(self).lsq.stores().skip(cs + 1int));
                }
                if writes_reg_entry(e) {
                    assert(self.reg_file.prrt() == old(self).reg_file.prrt().skip(cw + 1int));
                }
            }
            i = i + 1;
        }
        proof {
            assert(commits(old(self).rob@, i as int, false));
            assert(self.rob@ == old(self).rob@.skip(i as int + 0));
        }
        Ok(stages::Commit { should_halt: false, retired: i })
    }
}

/// A pipeline that fetches from `pc` and holds nothing else.
fn pipeline_at(pc: Pc, writeback: stages::wide::Writeback, commit: stages::Commit) -> (r: Pipeline)
    ensures
        r.fetch_decode.insts@.len() == 0,
        r.fetch_decode.next_pcs@ == seq![pc],
        !r.fetch_decode.stalled,
        r.rename.insts@.len() == 0,
        r.rename.next_fetch_decode is None,
        r.writeback == writeback,
        r.commit == commit,
{
    let mut next_pcs: Vec<Pc> = Vec::new();
    next_pcs.push(pc);
    Pipeline {
        fetch_decode: stages::wide::FetchDecode { insts: Vec::new(), next_pcs, stalled: false },
        rename: stages::wide::Rename { insts: Vec::new(), next_fetch_decode: None },
        writeback,
        commit,
    }
}

impl OutOfOrder {
    /// Writing back the result `c` cannot be done: a load the load queue does
    /// not hold, a destination outside the register file, a branch without
    /// its prediction record (or one that cannot be undone after a
    /// misprediction), a `jal` whose address is unknown or last in the
    /// address space, or an instruction missing from the reorder buffer.
    spec fn writeback_fails(&self, c: (Tagged<ExecutedInst>, EuResult)) -> bool {
        let tag = c.0.tag;
        let len = self.reg_file.prf().len();
        let b = self.reg_file.branches();
        let pcs = tag_pc_table(self.pc_map);
        ||| match c.0.inst {
            Inst::Add(d, _, _) | Inst::Sub(d, _, _) | Inst::AddImm(d, _, _) | Inst::AndImm(d, _, _)
            | Inst::ShiftLeftLogicalImm(d, _, _) | Inst::Mul(d, _, _) | Inst::Rem(d, _, _) | Inst::SetLessThanImmU(
                d,
                _,
                _,
            ) => bad_dst(d, len),
            Inst::LoadByte(d, _) | Inst::LoadHalfWord(d, _) | Inst::LoadWord(d, _) => !load_tagged(
                self.lsq.loads(),
                tag,
            ) || bad_dst(d, len),
            Inst::BranchIfEqual(_, _, _) | Inst::BranchIfNotEqual(_, _, _) | Inst::BranchIfGreaterEqual(_, _, _)
            | Inst::BranchIfLess(_, _, _) => !(b.contains_key(tag) && b[tag].info is Direct
                && b[tag].info->not_taken_pc.0 >= INST_SIZE) || ((c.1.val == 1) != b[tag].info->Direct_taken
                && !self.reg_file.recoverable(b[tag], tag)),
            Inst::JumpAndLink(d, _) => !pcs.contains_key(tag) || pcs[tag].0 > u32::MAX - INST_SIZE || bad_dst(
                d,
                len,
            ),
            _ => false,
        }
        ||| !has_tag(self.rob@, tag)
    }


    /// Retiring entry `i` of the reorder buffer, after the entries before it
    /// retired, cannot be done: it writes a register but the oldest register
    /// awaiting release holds no value (or there is none), or it is a store
    /// that is not the oldest store, has an operand not yet computed, or
    /// does not fit in memory.
    spec fn commit_fails(&self, i: int) -> bool {
        let e = self.rob@[i];
        let pre = self.rob@.take(i);
        let cw = count_where(pre, |e: RobEntry| writes_reg_entry(e));
        let cs = count_where(pre, |e: RobEntry| is_store_entry(e));
        let prrt = self.reg_file.prrt();
        let prf = freed(self.reg_file.prf(), prrt.take(cw as int));
        let st = self.lsq.stores().skip(cs as int);
        let len = self.mem.main_mem()@.len();
        ||| writes_reg_entry(e) && !(prrt.len() > cw && prf[prrt[cw as int].0 as int] is Active)
        ||| is_store_entry(e) && !(st.len() > 0 && st[0].tagged.tag == e.tag && inst_fields(
            st[0].tagged.inst,
            |s: ValueOrReg| operand_in_file(prf.len(), s),
            |d: BothReg| true,
            |j: Pc| true,
        ) && all_ready(prf, st[0].tagged.inst) && store_writable(prf, st[0].tagged.inst, len))
    }

    /// Main memory after the first `i` entries of the reorder buffer retire:
    /// each store among them, the oldest of the store queue when it retires,
    /// is made with its operands read from the register file as it then is.
    spec fn committed_memory(&self, i: nat) -> Seq<u8>
        decreases i,
    {
        if i == 0 {
            self.mem.main_mem()@
        } else {
            let m = self.committed_memory((i - 1) as nat);
            let e = self.rob@[i - 1];
            let pre = self.rob@.take(i - 1);
            let cw = count_where(pre, |e: RobEntry| writes_reg_entry(e));
            let cs = count_where(pre, |e: RobEntry| is_store_entry(e));
            let prf = freed(self.reg_file.prf(), self.reg_file.prrt().take(cw as int));
            if is_store_entry(e) {
                store_applied(m, prf, self.lsq.stores()[cs as int].tagged.inst)
            } else {
                m
            }
        }
    }

    /// Counters only grow looser with larger bounds.
    proof fn lemma_bounded_mono(&self, pk: u64, ek: u64, pk2: u64, ek2: u64)
        requires
            self.bounded(pk, ek),
            pk <= pk2 < MAX_CYCLES,
            ek <= ek2 < MAX_CYCLES,
        ensures
            self.bounded(pk2, ek2),
    {
        assert forall|i: int| 0 <= i < self.execution_units@.len() implies eu_ok(#[trigger] self.execution_units@[i], ek2, self.mem.main_mem()@.len()) by {
            assert(eu_ok(self.execution_units@[i], ek, self.mem.main_mem()@.len()));
        }
    }


    /// Hands the rest of the run to the reference emulator, which stands `n`
    /// steps after `start`, keeping the statistics gathered so far and
    /// recording whether the core gave up because its structures were
    /// `inconsistent` (rather than at the cycle limit).
    fn abandon(self, reference: Emulated, inconsistent: bool, Ghost(start): Ghost<EmuState>, Ghost(n): Ghost<nat>) -> (r: Result<ExecResult, SimError>)
        requires
            self.wf(),
            steps(reference.program(), start, n) == Some(reference.state()),
        ensures
            r matches Ok(res) ==> res.stats.cycles_taken == self.stats.cycles_taken,
            r matches Ok(res) ==> res.stats.handed_to_reference == inconsistent,
            r matches Ok(res) ==> res.stats.cycles_taken < MAX_CYCLES && run_ends_in(
                reference.program(),
                start,
                res.regs,
                res.mem@,
                res.stats.insts_retired,
            ),
            r matches Err(e) ==> e == SimError::Fault && run_faults(reference.program(), start),
    {
        let OutOfOrder { stats, execution_units, .. } = self;
        let mut stats = stats.calculate_util(&execution_units);
        stats.handed_to_reference = inconsistent;
        finish_on_reference(reference, stats, Ghost(start), Ghost(n))
    }

    /// Runs cycle by cycle until `halt` retires: each cycle commits, writes
    /// back, and, unless a misprediction redirects fetch, issues, executes,
    /// renames and fetches. Every retired instruction is also run on the
    /// reference emulator, and when `halt` retires the architectural
    /// registers and memory are checked against it. Where the core cannot go
    /// on (a stage finds its structures inconsistent, the check fails, or
    /// `MAX_CYCLES` cycles have passed), the reference emulator finishes the
    /// run from the last retired instruction and its registers and memory
    /// are returned, with the statistics of the core so far. `Fault` exactly
    /// when the program itself faults.
    pub fn run(self) -> (r: Result<ExecResult, SimError>)
        requires
            self.wf(),
            self.bounded(self.cycles(), self.cycles()),
            self.has_reference(),
        ensures
            r matches Ok(res) ==> res.stats.cycles_taken < MAX_CYCLES,
            r matches Ok(res) ==> run_ends_in(self.program(), self.reference_start(), res.regs, res.mem@, res.stats.insts_retired),
            r is Err <==> run_faults(self.program(), self.reference_start()),
            r matches Err(e) ==> e == SimError::Fault,
            r matches Ok(res) ==> res.stats.handed_to_reference || res.stats.cycles_taken >= MAX_CYCLES - 2
                || res.stats.insts_retired <= PIPE_WIDTH * (res.stats.cycles_taken + 1),
    {
        let ghost prog = self.program();
        let ghost start = self.reference_start();
        let r = self.run_checked();
        proof {
            if r is Ok {
                let res = r->Ok_0;
                let n = choose|n: nat| #[trigger] steps(prog, start, n) matches Some(fin) && run_end_state(prog, fin, res.regs, res.mem@, res.stats.insts_retired);
                lemma_end_excludes_fault(prog, start, n, steps(prog, start, n)->0);
            }
        }
        r
    }

    /// `run` without the exclusion of the two outcomes.
    fn run_checked(self) -> (r: Result<ExecResult, SimError>)
        requires
            self.wf(),
            self.bounded(self.cycles(), self.cycles()),
            self.has_reference(),
        ensures
            r matches Ok(res) ==> res.stats.cycles_taken < MAX_CYCLES,
            r matches Ok(res) ==> run_ends_in(self.program(), self.reference_start(), res.regs, res.mem@, res.stats.insts_retired),
            r matches Err(e) ==> e == SimError::Fault && run_faults(self.program(), self.reference_start()),
            r matches Ok(res) ==> res.stats.handed_to_reference || res.stats.cycles_taken >= MAX_CYCLES - 2
                || res.stats.insts_retired <= PIPE_WIDTH * (res.stats.cycles_taken + 1),
    {
        let mut cpu = self;
        let reference = cpu.reference.take();
        let mut reference = match reference {
            Some(e) => e,
            None => {
                proof {
                    assert(false);
                }
                return Err(SimError::Fault);
            },
        };
        let ghost prog = self.program();
        let ghost start = self.reference_start();
        let ghost mut n: nat = 0;
        proof {
            reveal_with_fuel(steps, 1);
        }
        let writeback0 = stages::wide::Writeback { insts: Vec::new(), next_fetch: None };
        let mut pipe = pipeline_at(Pc(0), writeback0, stages::Commit { should_halt: false, retired: 0 });
        loop
            invariant
                cpu.wf(),
                cpu.bounded(cpu.stats.cycles_taken, cpu.stats.cycles_taken),
                reference.program() == prog,
                prog == self.program(),
                start == self.reference_start(),
                start.retired == 0,
                steps(prog, start, n) == Some(reference.state()),
                cpu.stats.insts_retired == n,
                n <= PIPE_WIDTH * cpu.stats.cycles_taken,
            decreases MAX_CYCLES - cpu.stats.cycles_taken,
        {
            let c = cpu.stats.cycles_taken;
            if c >= MAX_CYCLES - 2 {
                return cpu.abandon(reference, false, Ghost(start), Ghost(n));
            }
            let ghost before = cpu.mem.pending();
            proof {
                assert forall|i: int| 0 <= i < cpu.mem.pending().len() implies (#[trigger] cpu.mem.pending()[i]).current < u64::MAX by {
                    assert(cpu.mem.pending()[i].current <= c);
                }
            }
            cpu.mem.tick();
            proof {
                assert forall|i: int| 0 <= i < cpu.mem.pending().len() implies (#[trigger] cpu.mem.pending()[i]).current <= c + 1 by {
                    assert(before[i].current <= c);
                }
            }
            let commit = match cpu.stage_commit(Ghost((c + 1) as u64), Ghost(c)) {
                Ok(commit) => commit,
                Err(_) => {
                    return cpu.abandon(reference, true, Ghost(start), Ghost(n));
                },
            };
            let ghost n0 = n;
            let mut k: u64 = 0;
            while k < commit.retired
                invariant
                    cpu.wf(),
                    reference.program() == prog,
                    prog == self.program(),
                    start == self.reference_start(),
                    steps(prog, start, n) == Some(reference.state()),
                    k <= commit.retired,
                    n == n0 + k,
                decreases commit.retired - k,
            {
                match reference.next_ok() {
                    Some(true) => {
                        let ghost before = reference.state();
                        reference.exec_one();
                        proof {
                            lemma_steps_extend(prog, start, n, before);
                            n = n + 1;
                        }
                    },
                    Some(false) => {
                        return cpu.abandon(reference, true, Ghost(start), Ghost(n));
                    },
                    None => {
                        proof {
                            let s = reference.state();
                            assert(steps(prog, start, n) matches Some(s) && (s.pc % INST_SIZE != 0 || (fetch_spec(prog, s.pc) matches Some(
                                inst,
                            ) && !step_ok(inst, s))));
                        }
                        return Err(SimError::Fault);
                    },
                }
                k = k + 1;
            }
            let writeback = match cpu.stage_writeback(Ghost((c + 1) as u64), Ghost(c)) {
                Ok(writeback) => writeback,
                Err(_) => {
                    return cpu.abandon(reference, true, Ghost(start), Ghost(n));
                },
            };
            if commit.should_halt {
                let OutOfOrder { reg_file, mem, stats, execution_units, .. } = cpu;
                let regs = reg_file.get_reg_set();
                let mut stats = stats.calculate_util(&execution_units);
                stats.handed_to_reference = false;
                let res = ExecResult { regs, mem: mem.main, stats };
                match reference.next_ok() {
                    Some(false) => {},
                    _ => {
                        return finish_on_reference(reference, handed_over(res.stats), Ghost(start), Ghost(n));
                    },
                }
                let all = ArchReg::all();
                let mut j: usize = 0;
                while j < all.len()
                    invariant
                        j <= all@.len(),
                        all@ == ArchReg::spec_all(),
                        reference.program() == prog,
                        prog == self.program(),
                        start == self.reference_start(),
                        steps(prog, start, n) == Some(reference.state()),
                        res.stats.cycles_taken < MAX_CYCLES,
                        res.stats.insts_retired == n,
                        start.retired == 0,
                        !res.stats.handed_to_reference,
                        res.stats.insts_retired <= PIPE_WIDTH * (res.stats.cycles_taken + 1),
                        forall|q: int| 0 <= q < j ==> res.regs.value(#[trigger] all@[q]) == reg_read(reference.state().regs, all@[q]),
                    decreases all@.len() - j,
                {
                    if res.regs.get(all[j]) != reference.reg(all[j]) {
                        return finish_on_reference(reference, handed_over(res.stats), Ghost(start), Ghost(n));
                    }
                    j = j + 1;
                }
                if !reference.memory_equals(&res.mem) {
                    return finish_on_reference(reference, handed_over(res.stats), Ghost(start), Ghost(n));
                }
                proof {
                    assert forall|a: ArchReg| #[trigger] res.regs.value(a) == reg_read(reference.state().regs, a) by {
                        a.lemma_all_index();
                        let q = a.spec_index() as int;
                        assert(all@[q] == a);
                    }
                    lemma_steps_retired(prog, start, n, reference.state());
                    assert(steps(prog, start, n) matches Some(fin) && run_end_state(prog, fin, res.regs, res.mem@, res.stats.insts_retired));
                }
                return Ok(res);
            }
            match writeback.next_fetch {
                Some(next_pc) => {
                    pipe = pipeline_at(next_pc, writeback, commit);
                },
                None => {
                    let issue = match cpu.stage_issue(Ghost((c + 1) as u64), Ghost(c)) {
                        Ok(issue) => issue,
                        Err(_) => {
                            return cpu.abandon(reference, true, Ghost(start), Ghost(n));
                        },
                    };
                    match issue.next_fetch {
                        Some(next_pc) => {
                            pipe = pipeline_at(next_pc, writeback, commit);
                        },
                        None => {
                            cpu.stage_execute(Ghost((c + 1) as u64), Ghost(c));
                            let rename = match cpu.stage_rename(&pipe, Ghost((c + 1) as u64), Ghost((c + 1) as u64)) {
                                Ok(rename) => rename,
                                Err(_) => {
                                    return cpu.abandon(reference, true, Ghost(start), Ghost(n));
                                },
                            };
                            match rename.next_fetch_decode {
                                Some(nxt) => {
                                    pipe = Pipeline {
                                        fetch_decode: nxt,
                                        rename: stages::wide::Rename { insts: rename.insts, next_fetch_decode: None },
                                        writeback,
                                        commit,
                                    };
                                },
                                None => {
                                    let fetch_decode = match cpu.stage_fetch_decode(&pipe, Ghost((c + 1) as u64), Ghost((c + 1) as u64)) {
                                        Ok(fetch_decode) => fetch_decode,
                                        Err(_) => {
                                            return cpu.abandon(reference, true, Ghost(start), Ghost(n));
                                        },
                                    };
                                    pipe = Pipeline { fetch_decode, rename, writeback, commit };
                                },
                            }
                        },
                    }
                },
            }
            proof {
                if cpu.bounded((c + 1) as u64, c) {
                    cpu.lemma_bounded_mono((c + 1) as u64, c, (c + 1) as u64, (c + 1) as u64);
                }
            }
            cpu.stats.cycles_taken = c + 1;
        }
    }
}

/// `fin` is where a run of `prog` ends, at the end of the program, with the
/// registers `regs`, memory `mem` and `retired` instructions retired.
pub open spec fn run_end_state(prog: Seq<Inst>, fin: EmuState, regs: RegSet, mem: Seq<u8>, retired: u64) -> bool {
    &&& fin.pc % INST_SIZE == 0
    &&& fetch_spec(prog, fin.pc) is None
    &&& forall|a: ArchReg| #[trigger] regs.value(a) == reg_read(fin.regs, a)
    &&& mem == fin.mem
    &&& fin.retired == retired
}

/// The emulator, run on `prog` from `start`, ends at the end of the program
/// with the registers `regs`, memory `mem` and `retired` instructions
/// retired.
pub open spec fn run_ends_in(prog: Seq<Inst>, start: EmuState, regs: RegSet, mem: Seq<u8>, retired: u64) -> bool {
    exists|n: nat| #[trigger] steps(prog, start, n) matches Some(fin) && run_end_state(prog, fin, regs, mem, retired)
}

/// `stats` marked as handed to the reference emulator.
fn handed_over(stats: Stats) -> (r: Stats)
    ensures
        r.cycles_taken == stats.cycles_taken,
        r.handed_to_reference,
{
    let mut stats = stats;
    stats.handed_to_reference = true;
    stats
}

/// Runs the reference emulator, standing `n` steps after `start`, to the
/// end of its run, returning its registers and memory with `stats`, whose
/// count of retired instructions becomes the emulator's.
fn finish_on_reference(reference: Emulated, stats: Stats, Ghost(start): Ghost<EmuState>, Ghost(n): Ghost<nat>) -> (r: Result<ExecResult, SimError>)
    requires
        steps(reference.program(), start, n) == Some(reference.state()),
    ensures
        r matches Ok(res) ==> res.stats.handed_to_reference == stats.handed_to_reference,
        r matches Ok(res) ==> res.stats.cycles_taken == stats.cycles_taken && run_ends_in(reference.program(), start, res.regs, res.mem@, res.stats.insts_retired),
        r matches Err(e) ==> e == SimError::Fault && run_faults(reference.program(), start),
{
    let ghost prog = reference.program();
    let ghost mid = reference.state();
    match reference.exec_all() {
        Some(res) => {
            proof {
                let m = choose|m: nat| {
                    let st = #[trigger] steps(prog, mid, m);
                    &&& st matches Some(fin)
                    &&& fin.pc % INST_SIZE == 0
                    &&& fetch_spec(prog, fin.pc) is None
                    &&& res.regs.contents() == fin.regs
                    &&& res.mem@ == fin.mem
                    &&& res.stats.cycles_taken == fin.cycles
                    &&& res.stats.insts_retired == fin.retired
                };
                lemma_steps_add(prog, start, n, m, mid);
                let fin = steps(prog, mid, m)->0;
                assert(run_end_state(prog, fin, res.regs, res.mem@, res.stats.insts_retired));
                assert(steps(prog, start, n + m) == Some(fin));
            }
            let mut stats = stats;
            stats.insts_retired = res.stats.insts_retired;
            Ok(ExecResult { regs: res.regs, mem: res.mem, stats })
        },
        None => {
            proof {
                let m = choose|m: nat|
                    #[trigger] steps(prog, mid, m) matches Some(s) && (s.pc % INST_SIZE != 0 || (fetch_spec(prog, s.pc) matches Some(
                        inst,
                    ) && !step_ok(inst, s)));
                lemma_steps_add(prog, start, n, m, mid);
                assert(steps(prog, start, n + m) == steps(prog, mid, m));
            }
            Err(SimError::Fault)
        },
    }
}

impl Cpu for OutOfOrder {
    closed spec fn ready(&self) -> bool {
        self.wf() && self.bounded(self.cycles(), self.cycles()) && self.has_reference()
    }

    /// A core about to run `prog` from address 0 on the given registers and
    /// memory, with the sizes of its structures fixed: five execution units
    /// (branch, load/store, two arithmetic, special), 250 reorder buffer
    /// entries, 70 loads and 70 stores in flight, 100 reservation station
    /// entries and 200 physical registers.
    fn new(prog: Program, regs: RegSet, mem: MainMemory) -> (r: Self)
        ensures
            r.wf(),
            r.bounded(0, 0),
            r.cycles() == 0,
            r.program() == prog.insts@,
            r.memory() == mem@,
            forall|a: ArchReg| a != ArchReg::Zero ==> #[trigger] r.register(a) == regs.value(a),
            r.has_reference(),
            r.reference_start() == initial(regs.contents(), mem@),
    {
        let mut insts: Vec<Inst> = Vec::new();
        let mut i: usize = 0;
        while i < prog.insts.len()
            invariant
                i <= prog.insts@.len(),
                insts@ == prog.insts@.take(i as int),
            decreases prog.insts@.len() - i,
        {
            insts.push(prog.insts[i]);
            i = i + 1;
            assert(insts@ == prog.insts@.take(i as int));
        }
        assert(insts@ == prog.insts@);
        let reg_file = RegFile::new(&regs, 200);
        let reference = Emulated::new(Program { insts, labels: label_table_new() }, regs, mem.clone());
        let mut execution_units: Vec<ExecutionUnit> = Vec::new();
        execution_units.push(ExecutionUnit::new(EuType::Branch));
        execution_units.push(ExecutionUnit::new(EuType::LoadStore));
        execution_units.push(ExecutionUnit::new(EuType::Alu));
        execution_units.push(ExecutionUnit::new(EuType::Alu));
        execution_units.push(ExecutionUnit::new(EuType::Special));
        let r = Self {
            mem: MemoryHierarchy::new(mem),
            prog,
            execution_units,
            rob: ReorderBuffer::new(250),
            lsq: LoadStoreQueue::new(70, 70),
            pc_map: tag_pc_table_new(),
            reservation_station: ReservationStation::new(100),
            reg_file,
            branch_predictor: BranchPredictor::new(),
            stats: Stats::default(),
            reference: Some(reference),
        };
        proof {
            assert forall|i: int| 0 <= i < r.execution_units@.len() implies eu_ok(#[trigger] r.execution_units@[i], 0, r.mem.main_mem()@.len()) by {}
            assert forall|a: ArchReg| a != ArchReg::Zero implies #[trigger] r.register(a) == regs.value(a) by {
                assert(r.reg_file.prf()[r.reg_file.rat()[a].0 as int] == PrfEntry::Active(regs.value(a)));
            }
        }
        r
    }

    /// Runs the core (see `run`): it ends as the emulator does on the same
    /// program, registers and memory, and gives `None` exactly when the
    /// program faults.
    fn exec_all(self) -> (out: Option<ExecResult>)
        ensures
            out matches Some(res) ==> run_ends_in(self.program(), self.reference_start(), res.regs, res.mem@, res.stats.insts_retired),
            out is None <==> run_faults(self.program(), self.reference_start()),
            out matches Some(res) ==> res.stats.handed_to_reference || res.stats.cycles_taken >= MAX_CYCLES - 2
                || res.stats.insts_retired <= PIPE_WIDTH * (res.stats.cycles_taken + 1),
    {
        match self.run() {
            Ok(res) => Some(res),
            Err(_) => None,
        }
    }
}

} // verus!
