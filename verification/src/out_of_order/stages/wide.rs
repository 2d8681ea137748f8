//! The outcome of a stage over the whole width of the pipeline.
use crate::inst::{ExecutedInst, Inst, Pc, RenamedInst, Tagged};
use vstd::prelude::*;

verus! {

/// Instructions fetched in a cycle, with the address each fetch came from
/// followed by the next one to fetch.
#[derive(Debug, Clone)]
pub struct FetchDecode {
    pub insts: Vec<Tagged<Inst>>,
    pub next_pcs: Vec<Pc>,
    pub stalled: bool,
}

/// Instructions renamed in a cycle, and what is left to rename when the
/// stage stalled.
#[derive(Debug, Clone)]
pub struct Rename {
    pub insts: Vec<RenamedInst>,
    pub next_fetch_decode: Option<FetchDecode>,
}

/// Where to fetch from after the issue stage, if it redirects.
#[derive(Debug, Copy, Clone)]
pub struct Issue {
    pub next_fetch: Option<Pc>,
}

/// Instructions written back in a cycle and, after a misprediction, where
/// to fetch.
#[derive(Debug, Clone)]
pub struct Writeback {
    pub insts: Vec<Tagged<ExecutedInst>>,
    pub next_fetch: Option<Pc>,
}

} // verus!
