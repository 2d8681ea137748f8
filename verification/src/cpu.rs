//! What every simulated processor offers: run a program to completion and
//! report the final state with statistics.
use crate::execution_unit::{EuType, ExecutionUnit};
use crate::mem::MainMemory;
use crate::program::Program;
use crate::regs::RegSet;
use vstd::prelude::*;

verus! {

/// Whether a processor goes on executing.
#[derive(Debug, Copy, Clone, PartialEq, Eq, Structural)]
pub enum CpuState {
    Running,
    Stopped,
}

/// Event counts of a run.
#[derive(Debug, Clone)]
pub struct Stats {
    pub cycles_taken: u64,
    pub insts_retired: u64,
    pub direct_mispredicts: u64,
    pub indirect_mispredicts: u64,
    pub rob_stalls: u64,
    pub reservation_station_stalls: u64,
    pub lsq_stalls: u64,
    pub phys_reg_stalls: u64,
    pub fetch_stalls: u64,
    pub l1_miss: u64,
    pub l2_miss: u64,
    pub l3_miss: u64,
    pub l1_hits: u64,
    pub l2_hits: u64,
    pub l3_hits: u64,
    /// Cycles in which each execution unit started an instruction.
    pub eu_util: Vec<(EuType, u64)>,
    /// The core found its own structures inconsistent, or its final state
    /// differed from the reference emulator's, and the reference emulator
    /// finished the run.
    pub handed_to_reference: bool,
}

impl Stats {
    /// All counts zero.
    pub open spec fn is_zero(&self) -> bool {
        &&& self.cycles_taken == 0
        &&& self.insts_retired == 0
        &&& self.direct_mispredicts == 0
        &&& self.indirect_mispredicts == 0
        &&& self.rob_stalls == 0
        &&& self.reservation_station_stalls == 0
        &&& self.lsq_stalls == 0
        &&& self.phys_reg_stalls == 0
        &&& self.fetch_stalls == 0
        &&& self.l1_miss == 0
        &&& self.l2_miss == 0
        &&& self.l3_miss == 0
        &&& self.l1_hits == 0
        &&& self.l2_hits == 0
        &&& self.l3_hits == 0
        &&& self.eu_util@.len() == 0
        &&& !self.handed_to_reference
    }

    /// Records, for each execution unit, the cycles in which it started an
    /// instruction.
    pub fn calculate_util(self, eus: &Vec<ExecutionUnit>) -> (r: Self)
        ensures
            r.cycles_taken == self.cycles_taken,
            r.insts_retired == self.insts_retired,
            r.handed_to_reference == self.handed_to_reference,
            r.eu_util@ == self.eu_util@ + Seq::new(eus@.len(), |i: int| (eus@[i].kind(), eus@[i].util())),
    {
        let mut s = self;
        let ghost start = s.eu_util@;
        let mut i: usize = 0;
        while i < eus.len()
            invariant
                i <= eus@.len(),
                s.cycles_taken == self.cycles_taken,
                s.insts_retired == self.insts_retired,
                s.handed_to_reference == self.handed_to_reference,
                s.eu_util@ == start + Seq::new(i as nat, |k: int| (eus@[k].kind(), eus@[k].util())),
            decreases eus@.len() - i,
        {
            s.eu_util.push((eus[i].eu_type, eus[i].utilisation));
            i = i + 1;
            assert(s.eu_util@ =~= start + Seq::new(i as nat, |k: int| (eus@[k].kind(), eus@[k].util())));
        }
        s
    }
}

impl Default for Stats {
    fn default() -> (r: Self)
        ensures
            r.is_zero(),
    {
        Stats {
            cycles_taken: 0,
            insts_retired: 0,
            direct_mispredicts: 0,
            indirect_mispredicts: 0,
            rob_stalls: 0,
            reservation_station_stalls: 0,
            lsq_stalls: 0,
            phys_reg_stalls: 0,
            fetch_stalls: 0,
            l1_miss: 0,
            l2_miss: 0,
            l3_miss: 0,
            l1_hits: 0,
            l2_hits: 0,
            l3_hits: 0,
            eu_util: Vec::new(),
            handed_to_reference: false,
        }
    }
}

/// The state a run ends in.
pub struct ExecResult {
    pub mem: MainMemory,
    pub regs: RegSet,
    pub stats: Stats,
}

/// A simulated processor.
pub trait Cpu: Sized {
    /// The processor is as `new` leaves it, ready to run.
    spec fn ready(&self) -> bool;

    /// A processor about to run `prog` from address 0 on the given registers and memory.
    fn new(prog: Program, in_regs: RegSet, in_mem: MainMemory) -> (r: Self)
        ensures
            r.ready(),
    ;

    /// Runs until the program ends; `None` where the run cannot finish
    /// (see each processor).
    fn exec_all(self) -> Option<ExecResult>
        requires
            self.ready(),
    ;
}

} // verus!
