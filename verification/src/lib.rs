//! A cycle-level simulator of a small RISC-V subset: an assembler front end,
//! a reference emulator, a five-stage in-order pipeline and an out-of-order
//! core with its building blocks.

pub mod text;
pub mod util;
pub mod execution_unit;
pub mod inst;
pub mod queue;
pub mod rob;
pub mod hazard;
pub mod rat;
pub mod lsq;
pub mod branch;
pub mod tables;
pub mod mem;
pub mod regs;
pub mod reservation_station;
pub mod program;
pub mod cpu;
pub mod emulated;
pub mod out_of_order;
pub mod pipelined;
