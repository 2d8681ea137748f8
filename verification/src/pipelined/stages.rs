//! What each stage of the in-order pipeline hands to the next cycle.
use crate::inst::Inst;
use crate::util::Addr;
use vstd::prelude::*;

verus! {

/// The fetched instruction and the address to fetch next.
#[derive(Debug, Copy, Clone)]
pub struct Fetch {
    pub inst: Option<Inst>,
    pub next_pc: u32,
}

/// The decoded instruction; decoding a jump or branch stalls fetch until
/// it is resolved.
#[derive(Debug, Copy, Clone)]
pub struct Decode {
    pub inst: Option<Inst>,
    pub should_stall: bool,
}

/// The executed instruction with its value (for a store, the value to
/// store) and memory address; a stall when an operand is not yet written.
#[derive(Debug, Copy, Clone)]
pub struct Execute {
    pub inst: Option<Inst>,
    pub should_stall: bool,
    pub alu_or_mem_val: u32,
    pub mem_addr: Addr,
}

/// The instruction after its memory access, with the value to write back.
#[derive(Debug, Copy, Clone)]
pub struct Memory {
    pub inst: Option<Inst>,
    pub alu_or_mem_val: u32,
}

/// Where to fetch after a jump or branch, whether to halt, and whether an
/// instruction retired.
#[derive(Debug, Copy, Clone)]
pub struct Writeback {
    pub jump_target: Option<u32>,
    pub should_halt: bool,
    pub retire: bool,
}

} // verus!
