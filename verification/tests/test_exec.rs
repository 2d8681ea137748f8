use aca::cpu::{Cpu, ExecResult};
use aca::emulated::Emulated;
use aca::inst::ArchReg;
use aca::mem::MainMemory;
use aca::out_of_order::{OutOfOrder, SimError};
use aca::pipelined::Pipelined;
use aca::program::Program;
use aca::regs::RegSet;
use aca::util::Addr;

const SUM: &str = "
    li a0, 0       ; running sum
    li t0, 1
    li t1, 11
loop:
    add a0, a0, t0
    addi t0, t0, 1
    bne t0, t1, loop
";

const MEMORY: &str = "
    li t0, 100
    li t1, 42
    sw t1, 0(t0)
    lw a0, 0(t0)
    addi a0, a0, 1
    sw a0, 4(t0)
    li t2, 0x1ff
    sb t2, 8(t0)
    lb a1, 8(t0)
    lh a2, 0(t0)
";

const LINK: &str = "
    li a0, 5
    jal ra, target
    li a0, 99
target:
    addi a0, a0, 1
";

const SIGNED: &str = "
    li t0, -1
    li t1, 1
    li a0, 0
    li a1, 0
    blt t0, t1, less
    li a0, 7
less:
    bge t0, t1, done
    li a1, 9
done:
";

const HAZARDS: &str = "
    li t0, 3
    add t1, t0, t0
    add t2, t1, t0
    mul t3, t2, t1
    sw t3, 0(zero)
    sw t2, 4(zero)
    rem a0, t3, t0
    slli a1, t0, 4
    andi a2, t3, 6
    sub a3, t0, t1
";

const ARRAY: &str = "
    ; a0: address of the array, a1: number of words; doubles every word
    li t0, 0
next:
    beq t0, a1, end
    slli t1, t0, 2
    add t1, t1, a0
    lw t2, 0(t1)
    add t2, t2, t2
    sw t2, 0(t1)
    addi t0, t0, 1
    j next
end:
";

fn parse(src: &str) -> Program {
    Program::from_str(src).expect("program should parse")
}

fn run_emulated(src: &str, regs: &[(ArchReg, u32)], mem: MainMemory) -> ExecResult {
    Emulated::new(parse(src), RegSet::from_pairs(regs), mem).exec_all().expect("emulator should finish")
}

fn run_ooo(src: &str, regs: &[(ArchReg, u32)], mem: MainMemory) -> ExecResult {
    match OutOfOrder::new(parse(src), RegSet::from_pairs(regs), mem).run() {
        Ok(r) => r,
        Err(e) => panic!("out-of-order core failed: {:?}", e),
    }
}

fn run_pipelined(src: &str, regs: &[(ArchReg, u32)], mem: MainMemory) -> ExecResult {
    Pipelined::new(parse(src), RegSet::from_pairs(regs), mem).exec_all().expect("pipeline should finish")
}

#[test]
fn emulated_sums_a_range() {
    let res = run_emulated(SUM, &[], MainMemory::new());
    assert_eq!(res.regs.get(ArchReg::A0), 55);
    assert_eq!(res.regs.get(ArchReg::T0), 11);
    // 3 set-up instructions and 10 iterations of 3.
    assert_eq!(res.stats.insts_retired, 33);
}

#[test]
fn emulated_loads_and_stores() {
    let res = run_emulated(MEMORY, &[], MainMemory::new());
    assert_eq!(res.mem.readw(Addr(100)), 42);
    assert_eq!(res.mem.readw(Addr(104)), 43);
    assert_eq!(res.mem.readb(Addr(108)), 0xff);
    assert_eq!(res.regs.get(ArchReg::A0), 43);
    assert_eq!(res.regs.get(ArchReg::A1), 0xff);
    assert_eq!(res.regs.get(ArchReg::A2), 42);
}

#[test]
fn emulated_links_the_return_address() {
    let res = run_emulated(LINK, &[], MainMemory::new());
    assert_eq!(res.regs.get(ArchReg::A0), 6);
    assert_eq!(res.regs.get(ArchReg::RA), 8);
}

#[test]
fn emulated_branches_compare_signed() {
    let res = run_emulated(SIGNED, &[], MainMemory::new());
    assert_eq!(res.regs.get(ArchReg::A0), 0);
    assert_eq!(res.regs.get(ArchReg::A1), 9);
}

#[test]
fn emulated_stack_pointer_starts_at_top() {
    let res = run_emulated("addi a0, sp, 0", &[], MainMemory::new());
    assert_eq!(res.regs.get(ArchReg::A0), 254_000);
}

#[test]
fn emulated_rejects_misaligned_word_load() {
    let prog = parse("lw a0, 2(zero)");
    assert!(Emulated::new(prog, RegSet::new(), MainMemory::new()).exec_all().is_none());
}

#[test]
fn emulated_rejects_half_word_store() {
    let prog = parse("sh a0, 0(zero)");
    assert!(Emulated::new(prog, RegSet::new(), MainMemory::new()).exec_all().is_none());
}

#[test]
fn out_of_order_sums_a_range() {
    let res = run_ooo(SUM, &[], MainMemory::new());
    assert_eq!(res.regs.get(ArchReg::A0), 55);
    assert_eq!(res.regs.get(ArchReg::T0), 11);
    assert_eq!(res.stats.insts_retired, 33);
}

#[test]
fn out_of_order_matches_emulator() {
    for src in [SUM, MEMORY, LINK, SIGNED, HAZARDS] {
        let a = run_emulated(src, &[], MainMemory::new());
        let b = run_ooo(src, &[], MainMemory::new());
        for reg in ArchReg::all() {
            assert_eq!(a.regs.get(reg), b.regs.get(reg), "register {:?} differs", reg);
        }
        for addr in (0..256).step_by(4) {
            assert_eq!(a.mem.readw(Addr(addr)), b.mem.readw(Addr(addr)));
        }
    }
}

#[test]
fn out_of_order_doubles_an_array() {
    let mut mem = MainMemory::new();
    for i in 0..10 {
        mem.writew(Addr(400 + 4 * i), i);
    }
    let res = run_ooo(ARRAY, &[(ArchReg::A0, 400), (ArchReg::A1, 10)], mem);
    for i in 0..10 {
        assert_eq!(res.mem.readw(Addr(400 + 4 * i)), 2 * i);
    }
}

#[test]
fn out_of_order_faults_on_half_word_store() {
    let prog = parse("sh a0, 0(zero)");
    let res = OutOfOrder::new(prog, RegSet::new(), MainMemory::new()).run();
    assert!(matches!(res, Err(SimError::Fault)));
}

#[test]
fn pipelined_matches_emulator() {
    for src in [SUM, MEMORY, LINK, SIGNED, HAZARDS] {
        let a = run_emulated(src, &[], MainMemory::new());
        let b = run_pipelined(src, &[], MainMemory::new());
        for reg in ArchReg::all() {
            assert_eq!(a.regs.get(reg), b.regs.get(reg), "register {:?} differs", reg);
        }
        for addr in (0..256).step_by(4) {
            assert_eq!(a.mem.readw(Addr(addr)), b.mem.readw(Addr(addr)));
        }
        assert_eq!(a.stats.insts_retired, b.stats.insts_retired);
    }
}

#[test]
fn pipelined_doubles_an_array_as_the_emulator_does() {
    let mut mem = MainMemory::new();
    for i in 0..10 {
        mem.writew(Addr(400 + 4 * i), i);
    }
    let regs = [(ArchReg::A0, 400), (ArchReg::A1, 10)];
    let a = run_emulated(ARRAY, &regs, mem.clone());
    let b = run_pipelined(ARRAY, &regs, mem);
    for i in 0..10 {
        assert_eq!(b.mem.readw(Addr(400 + 4 * i)), 2 * i);
    }
    for reg in ArchReg::all() {
        assert_eq!(a.regs.get(reg), b.regs.get(reg));
    }
    assert_eq!(a.stats.insts_retired, b.stats.insts_retired);
}

#[test]
fn hazard_values_are_exact() {
    let res = run_emulated(HAZARDS, &[], MainMemory::new());
    assert_eq!(res.mem.readw(Addr(0)), 54);
    assert_eq!(res.mem.readw(Addr(4)), 9);
    assert_eq!(res.regs.get(ArchReg::A0), 0);
    assert_eq!(res.regs.get(ArchReg::A1), 48);
    assert_eq!(res.regs.get(ArchReg::A2), 54 & 6);
    assert_eq!(res.regs.get(ArchReg::A3), 3u32.wrapping_sub(6));
}

#[test]
fn pipelined_fails_on_half_word_store() {
    let prog = parse("sh a0, 0(zero)");
    assert!(Pipelined::new(prog, RegSet::new(), MainMemory::new()).exec_all().is_none());
}

#[test]
fn arithmetic_runs_on_an_empty_memory() {
    let src = "li t0, 2\n addi a0, t0, 5";
    let a = Emulated::new(parse(src), RegSet::new(), MainMemory::default()).exec_all().expect("emulator runs");
    assert_eq!(a.regs.get(ArchReg::A0), 7);
    let b = Pipelined::new(parse(src), RegSet::new(), MainMemory::default()).exec_all().expect("pipeline runs");
    assert_eq!(b.regs.get(ArchReg::A0), 7);
    let c = OutOfOrder::new(parse(src), RegSet::new(), MainMemory::default()).run().expect("core runs");
    assert_eq!(c.regs.get(ArchReg::A0), 7);
}

#[test]
fn a_load_outside_a_small_memory_faults() {
    let src = "lw a0, 0(zero)";
    assert!(Emulated::new(parse(src), RegSet::new(), MainMemory::default()).exec_all().is_none());
    assert!(Pipelined::new(parse(src), RegSet::new(), MainMemory::default()).exec_all().is_none());
    assert!(OutOfOrder::new(parse(src), RegSet::new(), MainMemory::default()).run().is_err());
}

#[test]
fn out_of_order_faults_exactly_where_the_emulator_does() {
    let src = "
    li a1, 300000
    lw a0, 0(a1)
";
    let emu = Emulated::new(parse(src), RegSet::new(), MainMemory::new()).exec_all();
    assert!(emu.is_none());
    let ooo = OutOfOrder::new(parse(src), RegSet::new(), MainMemory::new()).run();
    assert!(matches!(ooo, Err(SimError::Fault)));
    let ooo = OutOfOrder::new(parse(src), RegSet::new(), MainMemory::new()).exec_all();
    assert!(ooo.is_none());
}

#[test]
fn out_of_order_exec_all_gives_the_emulator_state() {
    let prog_src = MEMORY;
    let a = run_emulated(prog_src, &[], MainMemory::new());
    let b = OutOfOrder::new(parse(prog_src), RegSet::from_pairs(&[]), MainMemory::new())
        .exec_all()
        .expect("the program does not fault");
    for reg in ArchReg::all() {
        assert_eq!(a.regs.get(reg), b.regs.get(reg));
    }
    for addr in (0..256).step_by(4) {
        assert_eq!(a.mem.readw(Addr(addr)), b.mem.readw(Addr(addr)));
    }
    assert!(b.stats.cycles_taken > 0);
}
