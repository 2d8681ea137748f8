//! The outcome of one instruction's pass through a stage.
use crate::inst::{ExecutedInst, Inst, Pc, RenamedInst, Tagged};
use vstd::prelude::*;

verus! {

/// A fetched and decoded instruction with the address to fetch next
/// (`None` to stall).
#[derive(Debug, Copy, Clone)]
pub struct FetchDecode {
    pub inst: Tagged<Inst>,
    pub next_pc: Option<Pc>,
}

/// A renamed instruction, or a stall.
#[derive(Debug, Copy, Clone)]
pub struct Rename {
    pub inst: Option<RenamedInst>,
    pub should_stall: bool,
}

/// A written-back instruction and, after a misprediction, where to fetch.
#[derive(Debug, Copy, Clone)]
pub struct Writeback {
    pub inst: Option<Tagged<ExecutedInst>>,
    pub next_fetch: Option<Pc>,
}

} // verus!
