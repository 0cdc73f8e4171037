use zemulator::mem::Mem;
use zemulator::perips::Perips;
use zemulator::rv32_actor::SocError;
use zemulator::rv32_actor::cpu::Rv32Cpu;
use zemulator::rv32_actor::Rv32Actor;

fn r_type(f7: u32, rs2: u32, rs1: u32, f3: u32, rd: u32, op: u32) -> u32 {
    (f7 << 25) | (rs2 << 20) | (rs1 << 15) | (f3 << 12) | (rd << 7) | op
}

fn i_type(imm: u32, rs1: u32, f3: u32, rd: u32, op: u32) -> u32 {
    ((imm & 0xfff) << 20) | (rs1 << 15) | (f3 << 12) | (rd << 7) | op
}

fn s_type(imm: u32, rs2: u32, rs1: u32, f3: u32) -> u32 {
    (((imm >> 5) & 0x7f) << 25) | (rs2 << 20) | (rs1 << 15) | (f3 << 12) | ((imm & 0x1f) << 7)
        | 0x23
}

fn b_type(imm: i32, rs2: u32, rs1: u32, f3: u32) -> u32 {
    let u = imm as u32;
    (((u >> 12) & 1) << 31) | (((u >> 5) & 0x3f) << 25) | (rs2 << 20) | (rs1 << 15) | (f3 << 12)
        | (((u >> 1) & 0xf) << 8) | (((u >> 11) & 1) << 7) | 0x63
}

fn jal(rd: u32, imm: i32) -> u32 {
    let u = imm as u32;
    (((u >> 20) & 1) << 31) | (((u >> 1) & 0x3ff) << 21) | (((u >> 11) & 1) << 20) | (((u >> 12)
        & 0xff) << 12) | (rd << 7) | 0x6f
}

fn lui(rd: u32, imm20: u32) -> u32 {
    (imm20 << 12) | (rd << 7) | 0x37
}

fn addi(rd: u32, rs1: u32, imm: i32) -> u32 {
    i_type((imm as u32) & 0xfff, rs1, 0, rd, 0x13)
}

fn bne(rs1: u32, rs2: u32, imm: i32) -> u32 {
    b_type(imm, rs2, rs1, 1)
}

fn soc_with_prog(words: &[u32]) -> Rv32Actor {
    let mut soc = Rv32Actor::new("soc".to_string());
    soc.add_cpu(Rv32Cpu::new("cpu0".to_string(), 0));
    soc.add_mem(Mem::new("ram".to_string(), 0, 8192));
    let mut bytes = Vec::new();
    for w in words {
        bytes.extend_from_slice(&w.to_le_bytes());
    }
    soc.fill_mem(0, bytes, 0);
    soc
}

/// Run until the completion convention fires: x26 == 1 within 500 ticks,
/// success when additionally x27 == 1.
fn run_to_completion(soc: &mut Rv32Actor) {
    for _ in 0..500 {
        soc.tick().unwrap();
        if soc.get_rs(26) == 1 {
            break;
        }
    }
    assert_eq!(soc.get_rs(26), 1, "test program did not complete");
    assert_eq!(soc.get_rs(27), 1, "test program completed but failed");
}

#[test]
fn add_sequence_completes() {
    let prog = [
        addi(5, 0, 3),
        addi(6, 0, 4),
        r_type(0, 6, 5, 0, 7, 0x33),
        addi(8, 0, 7),
        bne(7, 8, (17 - 4) * 4),
        addi(5, 0, -100),
        addi(6, 0, 30),
        r_type(0, 6, 5, 0, 7, 0x33),
        addi(8, 0, -70),
        bne(7, 8, (17 - 9) * 4),
        lui(5, 0x80000),
        lui(6, 0x80000),
        r_type(0, 6, 5, 0, 7, 0x33),
        bne(7, 0, (17 - 13) * 4),
        addi(27, 0, 1),
        addi(26, 0, 1),
        jal(0, 0),
        // fail:
        addi(27, 0, 0),
        addi(26, 0, 1),
        jal(0, 0),
    ];
    let mut soc = soc_with_prog(&prog);
    run_to_completion(&mut soc);
}

#[test]
fn jal_writes_link_and_branches() {
    let prog = [
        jal(5, 8),
        jal(0, 0),
        addi(6, 0, 4),
        bne(5, 6, (7 - 3) * 4),
        addi(27, 0, 1),
        addi(26, 0, 1),
        jal(0, 0),
        // fail:
        addi(27, 0, 0),
        addi(26, 0, 1),
        jal(0, 0),
    ];
    let mut soc = soc_with_prog(&prog);
    run_to_completion(&mut soc);
}

#[test]
fn mul_and_high_halves_complete() {
    let prog = [
        addi(5, 0, 7),
        addi(6, 0, 6),
        r_type(1, 6, 5, 0, 7, 0x33),
        addi(8, 0, 42),
        bne(7, 8, (19 - 4) * 4),
        lui(5, 0x80000),
        r_type(1, 5, 5, 1, 7, 0x33),
        lui(8, 0x40000),
        bne(7, 8, (19 - 8) * 4),
        addi(5, 0, -1),
        r_type(1, 5, 5, 3, 7, 0x33),
        addi(8, 0, -2),
        bne(7, 8, (19 - 12) * 4),
        r_type(1, 5, 5, 2, 7, 0x33),
        addi(8, 0, -1),
        bne(7, 8, (19 - 15) * 4),
        addi(27, 0, 1),
        addi(26, 0, 1),
        jal(0, 0),
        // fail:
        addi(27, 0, 0),
        addi(26, 0, 1),
        jal(0, 0),
    ];
    let mut soc = soc_with_prog(&prog);
    run_to_completion(&mut soc);
}

#[test]
fn div_corners_complete() {
    let prog = [
        addi(5, 0, 20),
        addi(6, 0, 6),
        r_type(1, 6, 5, 4, 7, 0x33),
        addi(8, 0, 3),
        bne(7, 8, (24 - 4) * 4),
        addi(5, 0, -20),
        r_type(1, 6, 5, 4, 7, 0x33),
        addi(8, 0, -3),
        bne(7, 8, (24 - 8) * 4),
        r_type(1, 0, 5, 4, 7, 0x33),
        addi(8, 0, -1),
        bne(7, 8, (24 - 11) * 4),
        r_type(1, 0, 5, 6, 7, 0x33),
        addi(8, 0, -20),
        bne(7, 8, (24 - 14) * 4),
        lui(5, 0x80000),
        addi(6, 0, -1),
        r_type(1, 6, 5, 4, 7, 0x33),
        bne(7, 5, (24 - 18) * 4),
        r_type(1, 6, 5, 6, 7, 0x33),
        bne(7, 0, (24 - 20) * 4),
        addi(27, 0, 1),
        addi(26, 0, 1),
        jal(0, 0),
        // fail:
        addi(27, 0, 0),
        addi(26, 0, 1),
        jal(0, 0),
    ];
    let mut soc = soc_with_prog(&prog);
    run_to_completion(&mut soc);
}

#[test]
fn load_store_round_trips_complete() {
    let prog = [
        lui(5, 0x12345),
        addi(5, 5, 0x678),
        s_type(0x100, 5, 0, 2),
        i_type(0x100, 0, 2, 6, 0x03),
        bne(5, 6, (29 - 4) * 4),
        i_type(0x100, 0, 4, 7, 0x03),
        addi(8, 0, 0x78),
        bne(7, 8, (29 - 7) * 4),
        i_type(0x103, 0, 4, 7, 0x03),
        addi(8, 0, 0x12),
        bne(7, 8, (29 - 10) * 4),
        i_type(0x102, 0, 1, 7, 0x03),
        lui(8, 0x1),
        addi(8, 8, 0x234),
        bne(7, 8, (29 - 14) * 4),
        addi(9, 0, -2),
        s_type(0x200, 9, 0, 1),
        i_type(0x200, 0, 1, 10, 0x03),
        bne(10, 9, (29 - 18) * 4),
        i_type(0x200, 0, 5, 11, 0x03),
        lui(8, 0x10),
        addi(8, 8, -2),
        bne(11, 8, (29 - 22) * 4),
        s_type(0x300, 9, 0, 0),
        i_type(0x300, 0, 0, 12, 0x03),
        bne(12, 9, (29 - 25) * 4),
        addi(27, 0, 1),
        addi(26, 0, 1),
        jal(0, 0),
        // fail:
        addi(27, 0, 0),
        addi(26, 0, 1),
        jal(0, 0),
    ];
    let mut soc = soc_with_prog(&prog);
    run_to_completion(&mut soc);
}

#[test]
fn illegal_instruction_traps_and_mret_returns() {
    // set mtvec = 0x200 and enable MIE, then hit an illegal word at 0x10
    let mut words = vec![0u32; 129];
    words[0] = addi(1, 0, 0x200);
    words[1] = i_type(0x305, 1, 1, 0, 0x73);    // csrrw x0, mtvec, x1
    words[2] = i_type(0x300, 8, 6, 0, 0x73);    // csrrsi x0, mstatus, 8
    words[3] = addi(0, 0, 0);
    words[4] = 0x0000007f;                      // not in the decode table
    words[128] = i_type(0x302, 0, 0, 0, 0x73);  // mret at 0x200
    let mut soc = soc_with_prog(&words);
    for _ in 0..5 {
        soc.tick().unwrap();
    }
    assert_eq!(soc.read_csr(0, 0x341), 0x10, "mepc");
    assert_eq!(soc.read_csr(0, 0x342), 0x02, "mcause");
    assert_eq!(soc.get_pc(0), 0x200);
    assert_eq!(soc.read_csr(0, 0x300) & 0x08, 0);
    soc.tick().unwrap();
    assert_eq!(soc.get_pc(0), 0x10);
    assert_eq!(soc.read_csr(0, 0x300) & 0x08, 0x08);
}

#[test]
fn peripheral_interrupt_is_delivered_and_cleared() {
    let prog = [
        lui(2, 0x4),
        i_type(0xc, 2, 2, 1, 0x03),             // lw x1, 0xc(x2)
        jal(0, 0),
    ];
    let mut soc = soc_with_prog(&prog);
    soc.add_perips(Perips::new("gpio".to_string(), 0x4000, 4, 0x400c));
    soc.tick().unwrap();
    soc.tick().unwrap();
    assert_eq!(soc.get_rs(1), 0, "interrupt register reads zero before the poke");
    soc.set_v_d(
        &"gpio".to_string(),
        &"400c".to_string(),
        &"80000001".to_string(),
    );
    soc.tick().unwrap();
    assert_eq!(soc.read_csr(0, 0x342), 0x80000008, "external interrupt cause");
    assert_eq!(soc.read_csr(0, 0x341), 8, "mepc holds the spinning pc");
    assert_eq!(soc.get_pc(0), 0, "control moved to mtvec");
    soc.tick().unwrap();
    soc.tick().unwrap();
    assert_eq!(soc.get_rs(1), 0, "interrupt register was cleared on delivery");
}

#[test]
fn debugger_pokes_and_dumps() {
    let mut soc = soc_with_prog(&[jal(0, 0)]);
    soc.add_perips(Perips::new("gpio".to_string(), 0x4000, 4, 0x400c));
    soc.set_v_d(&"cpu0".to_string(), &"5".to_string(), &"ff".to_string());
    assert_eq!(soc.get_rs(5), 0xff);
    soc.set_v_d(&"cpu0".to_string(), &"305".to_string(), &"123".to_string());
    assert_eq!(soc.read_csr(0, 0x305), 0x123);
    // a poke at x0 is dropped
    soc.set_v_d(&"cpu0".to_string(), &"0".to_string(), &"ff".to_string());
    assert_eq!(soc.get_rs(0), 0);
    soc.set_v_d(&"ram".to_string(), &"100".to_string(), &"deadbeef".to_string());
    soc.set_v_d(&"gpio".to_string(), &"4004".to_string(), &"55".to_string());
    assert!(soc.dump_region(&"ram".to_string(), 0x100).is_some());
    assert!(soc.dump_region(&"nosuch".to_string(), 0x100).is_none());
    assert!(soc.dump_region(&"ram".to_string(), 0x3000).is_none());
    assert!(soc.dump_peripheral(&"gpio".to_string()).is_some());
    assert!(soc.dump_peripheral(&"nosuch".to_string()).is_none());
    // the poked word is visible to a load
    let prog2 = [
        i_type(0x100, 0, 2, 3, 0x03),           // lw x3, 0x100(x0)
        jal(0, 0),
    ];
    let mut soc2 = soc_with_prog(&prog2);
    soc2.set_v_d(&"ram".to_string(), &"100".to_string(), &"deadbeef".to_string());
    soc2.tick().unwrap();
    assert_eq!(soc2.get_rs(3), 0xdeadbeef);
}

#[test]
fn store_does_not_touch_other_regions() {
    // two regions; a store into the first leaves the second byte-for-byte
    let prog = [
        lui(2, 0x1),
        addi(3, 0, 77),
        s_type(0, 3, 2, 2),                      // sw x3, 0(x2) -> 0x2000
        jal(0, 0),
    ];
    let mut soc = Rv32Actor::new("soc".to_string());
    soc.add_cpu(Rv32Cpu::new("cpu0".to_string(), 0));
    soc.add_mem(Mem::new("ram".to_string(), 0, 8192));
    soc.add_mem(Mem::new("hi".to_string(), 0x100000, 4096));
    let mut bytes = Vec::new();
    for w in prog.iter() {
        bytes.extend_from_slice(&w.to_le_bytes());
    }
    soc.fill_mem(0, bytes, 0);
    soc.fill_mem(1, vec![0xaa; 256], 0x100000);
    let before = soc.dump_region(&"hi".to_string(), 0x100000).unwrap();
    for _ in 0..3 {
        soc.tick().unwrap();
    }
    let after = soc.dump_region(&"hi".to_string(), 0x100000).unwrap();
    assert_eq!(before, after);
    // and the store itself landed
    let prog_check = soc.dump_region(&"ram".to_string(), 0x1000).unwrap();
    assert!(prog_check.contains("4d"), "stored byte 77 visible in the dump");
}

#[test]
fn overlapping_regions_resolve_to_the_earliest() {
    // two regions over the same window: the first added handles the access
    let prog = [
        addi(3, 0, 0x7e),
        s_type(0x500, 3, 0, 0),                 // sb x3, 0x500(x0)
        jal(0, 0),
    ];
    let mut soc = Rv32Actor::new("soc".to_string());
    soc.add_cpu(Rv32Cpu::new("cpu0".to_string(), 0));
    soc.add_mem(Mem::new("first".to_string(), 0, 4096));
    soc.add_mem(Mem::new("second".to_string(), 0, 4096));
    let mut bytes = Vec::new();
    for w in prog.iter() {
        bytes.extend_from_slice(&w.to_le_bytes());
    }
    soc.fill_mem(0, bytes, 0);
    let second_before = soc.dump_region(&"second".to_string(), 0x500).unwrap();
    for _ in 0..2 {
        soc.tick().unwrap();
    }
    let first_after = soc.dump_region(&"first".to_string(), 0x500).unwrap();
    let second_after = soc.dump_region(&"second".to_string(), 0x500).unwrap();
    assert!(first_after.contains("7e"), "the first region took the store");
    assert_eq!(second_before, second_after, "the second region saw nothing");
}

#[test]
fn two_harts_step_in_one_tick() {
    let prog = [addi(1, 0, 9), jal(0, 0)];
    let mut soc = Rv32Actor::new("soc".to_string());
    soc.add_cpu(Rv32Cpu::new("cpu0".to_string(), 0));
    soc.add_cpu(Rv32Cpu::new("cpu1".to_string(), 0));
    soc.add_mem(Mem::new("ram".to_string(), 0, 4096));
    let mut bytes = Vec::new();
    for w in prog.iter() {
        bytes.extend_from_slice(&w.to_le_bytes());
    }
    soc.fill_mem(0, bytes, 0);
    soc.tick().unwrap();
    // the counter moves once per hart, and both harts executed the addi
    assert_eq!(soc.get_tick(), 2);
    assert_eq!(soc.get_reg(0, 1), 9);
    assert_eq!(soc.get_reg(1, 1), 9);
}

#[test]
fn unknown_csr_access_aborts_the_tick() {
    // csrrw x0, 0x123, x0: address 0x123 is not an implemented CSR
    let prog = [i_type(0x123, 0, 1, 0, 0x73)];
    let mut soc = soc_with_prog(&prog);
    match soc.tick() {
        Err(SocError::CsrUnknown(c)) => assert_eq!(c, 0x123),
        Ok(()) => panic!("the unknown CSR access was not surfaced"),
    }
    // nothing moved: the tick aborted before the hart advanced
    assert_eq!(soc.get_tick(), 0);
    assert_eq!(soc.get_pc(0), 0);
}

#[test]
fn ecall_and_ebreak_advance_the_pc() {
    // ecall, ebreak, then a marker write: all three execute in order
    let prog = [
        i_type(0, 0, 0, 0, 0x73),               // ecall
        i_type(1, 0, 0, 0, 0x73),               // ebreak
        addi(1, 0, 21),
        jal(0, 0),
    ];
    let mut soc = soc_with_prog(&prog);
    soc.tick().unwrap();
    assert_eq!(soc.get_pc(0), 4, "ecall advanced the pc");
    soc.tick().unwrap();
    assert_eq!(soc.get_pc(0), 8, "ebreak advanced the pc");
    soc.tick().unwrap();
    assert_eq!(soc.get_rs(1), 21);
}

#[test]
fn fetch_miss_latches_a_memory_exception() {
    // enable MIE, point mtvec at the handler, then jump outside every region
    let prog = [
        addi(1, 0, 0x200),
        i_type(0x305, 1, 1, 0, 0x73),           // csrrw x0, mtvec, x1
        i_type(0x300, 8, 6, 0, 0x73),           // csrrsi x0, mstatus, 8
        jal(0, 0x10000 - 0xc),                  // to 0x10000, outside the 8 KiB region
    ];
    let mut soc = soc_with_prog(&prog);
    for _ in 0..4 {
        soc.tick().unwrap();
    }
    assert_eq!(soc.get_pc(0), 0x10000);
    // the next fetch misses every region and the trap is delivered
    soc.tick().unwrap();
    assert_eq!(soc.read_csr(0, 0x341), 0x10000, "mepc");
    assert_eq!(soc.read_csr(0, 0x342), 0x02, "mcause");
    assert_eq!(soc.get_pc(0), 0x200);
}
