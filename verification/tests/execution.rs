use zemulator::isa::{alu_div, alu_divu, alu_mulh, alu_mulhsu, alu_mulhu, alu_rem, alu_remu};
use zemulator::mem::Mem;
use zemulator::ram::Ram;
use zemulator::riscv_cpu::RiscvCpu;
use zemulator::rv32_actor::cpu::Rv32Cpu;
use zemulator::rv32_actor::Rv32Actor;

fn r_type(f7: u32, rs2: u32, rs1: u32, f3: u32, rd: u32, op: u32) -> u32 {
    (f7 << 25) | (rs2 << 20) | (rs1 << 15) | (f3 << 12) | (rd << 7) | op
}

fn i_type(imm: u32, rs1: u32, f3: u32, rd: u32, op: u32) -> u32 {
    ((imm & 0xfff) << 20) | (rs1 << 15) | (f3 << 12) | (rd << 7) | op
}

fn s_type(imm: u32, rs2: u32, rs1: u32, f3: u32) -> u32 {
    (((imm >> 5) & 0x7f) << 25) | (rs2 << 20) | (rs1 << 15) | (f3 << 12) | ((imm & 0x1f) << 7)
        | 0x23
}

fn lui(rd: u32, imm20: u32) -> u32 {
    (imm20 << 12) | (rd << 7) | 0x37
}

fn addi(rd: u32, rs1: u32, imm: i32) -> u32 {
    i_type((imm as u32) & 0xfff, rs1, 0, rd, 0x13)
}

fn soc_with_prog(words: &[u32]) -> Rv32Actor {
    let mut soc = Rv32Actor::new("soc".to_string());
    soc.add_cpu(Rv32Cpu::new("cpu0".to_string(), 0));
    soc.add_mem(Mem::new("ram".to_string(), 0, 8192));
    let mut bytes = Vec::new();
    for w in words {
        bytes.extend_from_slice(&w.to_le_bytes());
    }
    soc.fill_mem(0, bytes, 0);
    soc
}

fn run(soc: &mut Rv32Actor, ticks: usize) {
    for _ in 0..ticks {
        soc.tick().unwrap();
    }
}

#[test]
fn addi_minus_one_gives_all_ones() {
    // ADDI x1, x0, -1 leaves x1 = 0xFFFF_FFFF
    let mut soc = soc_with_prog(&[addi(1, 0, -1)]);
    run(&mut soc, 1);
    assert_eq!(soc.get_rs(1), 0xffffffff);
    assert_eq!(soc.get_rs(0), 0);
}

#[test]
fn slt_signed_minus_one_below_zero() {
    // SLT x1, x2, x3 with x2 = 0xFFFF_FFFF (signed -1), x3 = 0 yields 1
    let prog = [
        addi(2, 0, -1),
        addi(3, 0, 0),
        r_type(0, 3, 2, 2, 1, 0x33),
    ];
    let mut soc = soc_with_prog(&prog);
    run(&mut soc, 3);
    assert_eq!(soc.get_rs(1), 1);
}

#[test]
fn sltu_unsigned_max_not_below_zero() {
    // SLTU with the same inputs yields 0
    let prog = [
        addi(2, 0, -1),
        addi(3, 0, 0),
        r_type(0, 3, 2, 3, 1, 0x33),
    ];
    let mut soc = soc_with_prog(&prog);
    run(&mut soc, 3);
    assert_eq!(soc.get_rs(1), 0);
}

#[test]
fn div_and_rem_by_zero() {
    // DIV by zero yields all-ones; REM by zero yields the dividend
    let prog = [
        addi(2, 0, 57),
        addi(3, 0, 0),
        r_type(1, 3, 2, 4, 1, 0x33),
        r_type(1, 3, 2, 6, 4, 0x33),
    ];
    let mut soc = soc_with_prog(&prog);
    run(&mut soc, 4);
    assert_eq!(soc.get_rs(1), 0xffffffff);
    assert_eq!(soc.get_rs(4), 57);
}

#[test]
fn mulh_min_times_min() {
    // MULH with rs1 = rs2 = 0x8000_0000 yields 0x4000_0000
    let prog = [
        lui(2, 0x80000),
        r_type(1, 2, 2, 1, 1, 0x33),
    ];
    let mut soc = soc_with_prog(&prog);
    run(&mut soc, 2);
    assert_eq!(soc.get_rs(1), 0x40000000);
}

#[test]
fn signed_loads_extend_the_top_bit() {
    // store 0x80 and 0x8000; lb / lh read them back with all upper bits set
    let prog = [
        addi(2, 0, 0x80),
        s_type(0x100, 2, 0, 0),             // sb x2, 0x100(x0)
        i_type(0x100, 0, 0, 1, 0x03),       // lb x1, 0x100(x0)
        lui(3, 0x8),                        // x3 = 0x8000
        s_type(0x200, 3, 0, 1),             // sh x3, 0x200(x0)
        i_type(0x200, 0, 1, 4, 0x03),       // lh x4, 0x200(x0)
        i_type(0x100, 0, 4, 5, 0x03),       // lbu x5, 0x100(x0)
        i_type(0x200, 0, 5, 6, 0x03),       // lhu x6, 0x200(x0)
    ];
    let mut soc = soc_with_prog(&prog);
    run(&mut soc, 8);
    assert_eq!(soc.get_rs(1), 0xffffff80);
    assert_eq!(soc.get_rs(1) & 0xffffff00, 0xffffff00);
    assert_eq!(soc.get_rs(4), 0xffff8000);
    assert_eq!(soc.get_rs(4) & 0xffff0000, 0xffff0000);
    // the unsigned loads leave the upper bits clear
    assert_eq!(soc.get_rs(5), 0x80);
    assert_eq!(soc.get_rs(6), 0x8000);
}

#[test]
fn alu_corner_values() {
    // divide / remainder corner table straight on the verified helpers
    assert_eq!(alu_div(20, 6), 3);
    assert_eq!(alu_div((-20i32) as u32, 6), (-3i32) as u32);
    assert_eq!(alu_div(20, (-6i32) as u32), (-3i32) as u32);
    assert_eq!(alu_div(0x80000000, 0xffffffff), 0x80000000);
    assert_eq!(alu_div(5, 0), 0xffffffff);
    assert_eq!(alu_rem(20, 6), 2);
    assert_eq!(alu_rem((-20i32) as u32, 6), (-2i32) as u32);
    assert_eq!(alu_rem(0x80000000, 0xffffffff), 0);
    assert_eq!(alu_rem(5, 0), 5);
    assert_eq!(alu_divu(0xffffffff, 2), 0x7fffffff);
    assert_eq!(alu_divu(1, 0), 0xffffffff);
    assert_eq!(alu_remu(0xffffffff, 0x10), 0xf);
    assert_eq!(alu_remu(7, 0), 7);
    assert_eq!(alu_mulh(0x80000000, 0x80000000), 0x40000000);
    assert_eq!(alu_mulh(0xffffffff, 0xffffffff), 0);
    assert_eq!(alu_mulhu(0xffffffff, 0xffffffff), 0xfffffffe);
    assert_eq!(alu_mulhsu(0xffffffff, 0xffffffff), 0xffffffff);
    assert_eq!(alu_mulh(2, 3), 0);
}

#[test]
fn riscv_cpu_runs_the_same_isa() {
    let prog = [
        addi(1, 0, -1),
        addi(2, 0, 3),
        r_type(0, 2, 1, 0, 3, 0x33),        // add x3, x1, x2 -> 2
        s_type(0x100, 2, 0, 2),             // sw x2, 0x100(x0)
        i_type(0x100, 0, 2, 4, 0x03),       // lw x4, 0x100(x0)
    ];
    let mut bytes = Vec::new();
    for w in prog.iter() {
        bytes.extend_from_slice(&w.to_le_bytes());
    }
    bytes.resize(4096, 0);
    let ram = Ram::new_with_data(bytes);
    let mut cpu = RiscvCpu::new(0, ram);
    for _ in 0..5 {
        cpu.tick();
    }
    assert_eq!(cpu.get_rs(1), 0xffffffff);
    assert_eq!(cpu.get_rs(3), 2);
    assert_eq!(cpu.get_rs(4), 3);
    assert_eq!(cpu.get_tick_cnt(), 5);
    assert_eq!(cpu.get_rs(0), 0);
}
