use aca::cpu::{Cpu, ExecResult};
use aca::emulated::Emulated;
use aca::inst::ArchReg;
use aca::mem::MainMemory;
use aca::out_of_order::OutOfOrder;
use aca::program::Program;
use aca::regs::RegSet;
use aca::util::Addr;

const LOOP: &str = "
; c[i] = a[i] + b[i] for a3 words: c at a0, a at a1, b at a2
loop:
    beq a3, zero, done
    lw t0, 0(a1)
    lw t1, 0(a2)
    add t2, t0, t1
    sw t2, 0(a0)
    addi a0, a0, 4
    addi a1, a1, 4
    addi a2, a2, 4
    addi a3, a3, -1
    j loop
done:
";

const LABEL: &str = "
    j start
skip:
    sw t0, 0(zero)
start:
    li t0, 0
    beq t0, zero, next
    sw t0, 4(zero)
next:
    addi t1, t1, 1
    addi t1, t1, 1
    addi t1, t1, 1
    sw t0, 8(zero)
";

const BRANCH: &str = "
    li t0, 4
    li a0, 0
    li t1, 1
loop:
    sw t0, 0(a0)
    addi a0, a0, 4
    addi t0, t0, -1
    bne t0, t1, loop
";

const HAZARD_RAW: &str = "
    li t0, 1
    addi t1, t0, 2
    sw t1, 0(zero)
    sw t0, 4(zero)
    add t2, t0, zero
    sw t2, 8(zero)
";

const HAZARD_WAR: &str = "
    li t0, 1
    add t1, t0, zero
    li t0, 2
    sw t1, 0(zero)
    sw t0, 4(zero)
";

const HAZARD_WAW: &str = "
    li t0, 1
    li t0, 2
    sw t0, 0(zero)
    add t1, t0, zero
    sw t1, 4(zero)
";

const PRIME: &str = "
; a0 becomes 1 if a0 is prime, else 0
    li t0, 2
    li t2, 1
    blt a0, t0, notprime
loop:
    mul t1, t0, t0
    blt a0, t1, done
    rem t1, a0, t0
    beq t1, zero, notprime
    addi t0, t0, 1
    j loop
notprime:
    li t2, 0
done:
    add a0, t2, zero
";

const MATMUL: &str = "
; a0: base, a1: dimension. A and B (identity) follow each other from a0,
; C = A * B after them.
    mul s0, a1, a1
    slli s0, s0, 2
    add s1, a0, s0
    add a7, s1, s0
    li t0, 0
init:
    beq t0, a1, initdone
    mul t1, t0, a1
    add t1, t1, t0
    slli t1, t1, 2
    li t2, 1
    add t3, a0, t1
    sw t2, 0(t3)
    add t3, s1, t1
    sw t2, 0(t3)
    addi t0, t0, 1
    j init
initdone:
    li t0, 0
iloop:
    beq t0, a1, end
    li t1, 0
jloop:
    beq t1, a1, jdone
    li t2, 0
    li t6, 0
kloop:
    beq t2, a1, kdone
    mul t3, t0, a1
    add t3, t3, t2
    slli t3, t3, 2
    add t3, t3, a0
    lw t4, 0(t3)
    mul t3, t2, a1
    add t3, t3, t1
    slli t3, t3, 2
    add t3, t3, s1
    lw t5, 0(t3)
    mul t4, t4, t5
    add t6, t6, t4
    addi t2, t2, 1
    j kloop
kdone:
    mul t3, t0, a1
    add t3, t3, t1
    slli t3, t3, 2
    add t3, t3, a7
    sw t6, 0(t3)
    addi t1, t1, 1
    j jloop
jdone:
    addi t0, t0, 1
    j iloop
end:
";

fn parse(src: &str) -> Program {
    Program::from_str(src).expect("program should parse")
}

/// Runs `src` on the emulator and on the out-of-order core.
fn run_both(src: &str, regs: &[(ArchReg, u32)], mem: MainMemory) -> [ExecResult; 2] {
    let e = Emulated::new(parse(src), RegSet::from_pairs(regs), mem.clone()).exec_all().expect("emulator finishes");
    let o = <OutOfOrder as Cpu>::new(parse(src), RegSet::from_pairs(regs), mem).exec_all().expect("core finishes");
    [e, o]
}

#[test]
fn test_loop() {
    let mut mem = MainMemory::new();
    for i in 0..10 {
        mem.writew(Addr(40 + i * 4), i);
        mem.writew(Addr(80 + i * 4), 10 - i);
    }
    let regs = [(ArchReg::A0, 0), (ArchReg::A1, 40), (ArchReg::A2, 80), (ArchReg::A3, 10)];
    for res in run_both(LOOP, &regs, mem) {
        for i in 0..10 {
            assert_eq!(res.mem.readw(Addr(i * 4)), 10);
        }
    }
}

#[test]
fn test_label() {
    for res in run_both(LABEL, &[], MainMemory::new()) {
        for i in 0..10 {
            assert_eq!(res.mem.readw(Addr(i * 4)), 0);
        }
        assert_eq!(res.stats.insts_retired, 7);
    }
}

#[test]
fn test_branch() {
    for res in run_both(BRANCH, &[], MainMemory::new()) {
        assert_eq!(res.mem.readw(Addr(0)), 4);
        assert_eq!(res.mem.readw(Addr(4)), 3);
        assert_eq!(res.mem.readw(Addr(8)), 2);
    }
}

#[test]
fn test_hazard_raw() {
    for res in run_both(HAZARD_RAW, &[], MainMemory::new()) {
        assert_eq!(res.mem.readw(Addr(0)), 3);
        assert_eq!(res.mem.readw(Addr(4)), 1);
        assert_eq!(res.mem.readw(Addr(8)), 1);
    }
}

#[test]
fn test_hazard_war() {
    for res in run_both(HAZARD_WAR, &[], MainMemory::new()) {
        assert_eq!(res.mem.readw(Addr(0)), 1);
        assert_eq!(res.mem.readw(Addr(4)), 2);
    }
}

#[test]
fn test_hazard_waw() {
    for res in run_both(HAZARD_WAW, &[], MainMemory::new()) {
        assert_eq!(res.mem.readw(Addr(0)), 2);
        assert_eq!(res.mem.readw(Addr(4)), 2);
    }
}

#[test]
fn test_prime() {
    let run = |x: u32| -> [u32; 2] {
        let [e, o] = run_both(PRIME, &[(ArchReg::A0, x)], MainMemory::new());
        [e.regs.get(ArchReg::A0), o.regs.get(ArchReg::A0)]
    };
    assert_eq!(run(2), [1, 1]);
    assert_eq!(run(3), [1, 1]);
    assert_eq!(run(4), [0, 0]);
    assert_eq!(run(5), [1, 1]);
    assert_eq!(run(10), [0, 0]);
    assert_eq!(run(100), [0, 0]);
    assert_eq!(run(293), [1, 1]);
}

#[test]
fn test_matmul() {
    for dim in [1u32, 2, 4, 8, 9] {
        for res in run_both(MATMUL, &[(ArchReg::A0, 0), (ArchReg::A1, dim)], MainMemory::new()) {
            for i in 0..dim {
                for j in 0..dim {
                    let c_start = 2 * (4 * dim * dim);
                    let val = if i == j { 1 } else { 0 };
                    assert_eq!(res.mem.readw(Addr(c_start + 4 * (j * dim + i))), val);
                }
            }
        }
    }
}
