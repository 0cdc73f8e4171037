use zemulator::com_reg::ComReg;
use zemulator::config::{build_soc, CCpu, CMem, CPerips, CSoc};
use zemulator::mem::{Mem, MemIO};
use zemulator::perips::Perips;
use zemulator::ram::Ram;
use zemulator::rv32_actor::csr_reg::CsrReg;
use zemulator::utils::{parse_hex_u32_err_to_0, parse_i32_err_to_min, split_string, str_eq};

#[test]
fn com_reg_read_write() {
    let mut r = ComReg::new(32);
    for i in 0..32u32 {
        assert_eq!(r.read(i), 0);
    }
    r.write(5, 1234);
    assert_eq!(r.read(5), 1234);
    // slot 0 discards writes and always reads zero
    r.write(0, 77);
    assert_eq!(r.read(0), 0);
}

#[test]
fn csr_reg_round_trip() {
    let mut c = CsrReg::new();
    assert_eq!(c.read(0x300), 0);
    c.write(0x300, 0x8);
    c.write(0x305, 0x200);
    c.write(0x341, 0x44);
    c.write(0x342, 0x2);
    assert_eq!(c.read(0x300), 0x8);
    assert_eq!(c.read(0x305), 0x200);
    assert_eq!(c.read(0x341), 0x44);
    assert_eq!(c.read(0x342), 0x2);
}

#[test]
fn ram_word_round_trip() {
    // write_u32 then read_u32 returns the same word
    let mut r = Ram::new(64);
    r.write_u32(0xdeadbeef, 8);
    assert_eq!(r.read_u32(8), 0xdeadbeef);
    r.write_u32(0x01020304, 0);
    assert_eq!(r.read_u32(0), 0x01020304);
}

#[test]
fn ram_little_endian_bytes() {
    // after write_u32, each byte holds the matching eight bits, little-endian
    let mut r = Ram::new(64);
    let v: u32 = 0xa1b2c3d4;
    r.write_u32(v, 16);
    assert_eq!(r.read_u8(16), (v & 0xff) as u8);
    assert_eq!(r.read_u8(17), ((v >> 8) & 0xff) as u8);
    assert_eq!(r.read_u8(18), ((v >> 16) & 0xff) as u8);
    assert_eq!(r.read_u8(19), ((v >> 24) & 0xff) as u8);
    // byte round trip
    r.write_u8(0x5a, 3);
    assert_eq!(r.read_u8(3), 0x5a);
    // halfword round trip
    r.write_u16(0xbeef, 20);
    assert_eq!(r.read_u16(20), 0xbeef);
    assert_eq!(r.read_u8(20), 0xef);
    assert_eq!(r.read_u8(21), 0xbe);
}

#[test]
fn ram_fill_and_dump() {
    let mut r = Ram::new(256);
    r.fill(vec![1, 2, 3, 4], 10);
    assert_eq!(r.read_u8(10), 1);
    assert_eq!(r.read_u8(13), 4);
    assert_eq!(r.read_u8(9), 0);
    assert_eq!(r.read_u8(14), 0);
    let r2 = Ram::new_with_data(vec![9, 8, 7, 6]);
    assert_eq!(r2.read_u32(0), 0x06070809);
    let text = r.dump(0);
    assert!(text.len() > 0);
}

#[test]
fn mem_window_and_round_trip() {
    let mut m = Mem::new("ram0".to_string(), 0x1000, 0x100);
    assert!(m.in_range(0x1000));
    assert!(m.in_range(0x10ff));
    assert!(!m.in_range(0xfff));
    assert!(!m.in_range(0x1100));
    m.write_u32(0xcafebabe, 0x1010);
    assert_eq!(m.read_u32(0x1010), 0xcafebabe);
    assert_eq!(m.read_u8(0x1010), 0xbe);
    assert_eq!(m.read_u8(0x1013), 0xca);
    m.write_u16(0x1234, 0x1020);
    assert_eq!(m.read_u16(0x1020), 0x1234);
    m.write_u8(0xff, 0x10ff);
    assert_eq!(m.read_u8(0x10ff), 0xff);
    assert!(m.match_name(&"ram0".to_string()));
    assert!(!m.match_name(&"ram1".to_string()));
}

#[test]
fn mem_fill_in_window_and_dropped() {
    let mut m = Mem::new("m".to_string(), 0x100, 0x40);
    m.fill(vec![5, 6, 7], 0x100);
    assert_eq!(m.read_u8(0x100), 5);
    assert_eq!(m.read_u8(0x102), 7);
    // a copy ending exactly at the window end fits
    m.fill(vec![1; 0x40], 0x100);
    assert_eq!(m.read_u8(0x100), 1);
    assert_eq!(m.read_u8(0x13f), 1);
    // a copy that would run one byte past the window is dropped whole
    m.fill(vec![2; 0x41], 0x100);
    assert_eq!(m.read_u8(0x100), 1);
    assert_eq!(m.read_u8(0x13f), 1);
    // a copy below the window is dropped too
    m.fill(vec![9], 0xff);
    assert_eq!(m.read_u8(0x100), 1);
}

#[test]
fn perips_registers_and_intr() {
    let mut p = Perips::new("gpio".to_string(), 0x4000, 4, 0x400c);
    assert!(p.in_range(0x4000));
    assert!(p.in_range(0x400f));
    assert!(!p.in_range(0x4010));
    p.write_u32(0x55, 0x4004);
    assert_eq!(p.read_u32(0x4004), 0x55);
    // out-of-window accesses read zero and drop writes
    assert_eq!(p.read_u32(0x5000), 0);
    p.write_u32(0x99, 0x5000);
    assert_eq!(p.read_u32(0x5000), 0);
    p.write_u32(0x80000001, 0x400c);
    assert_eq!(p.get_intr(), 0x80000001);
    p.clear_intr();
    assert_eq!(p.get_intr(), 0);
    assert!(p.match_name(&"gpio".to_string()));
    let text = p.dump(0);
    assert!(text.len() > 0);
}

#[test]
fn parse_hex_values() {
    assert_eq!(parse_hex_u32_err_to_0("0"), 0);
    assert_eq!(parse_hex_u32_err_to_0("1A"), 26);
    assert_eq!(parse_hex_u32_err_to_0("ff"), 255);
    assert_eq!(parse_hex_u32_err_to_0("+ff"), 255);
    assert_eq!(parse_hex_u32_err_to_0("ffffffff"), 0xffffffff);
    assert_eq!(parse_hex_u32_err_to_0("00000000ff"), 255);
    // malformed or overflowing text parses as zero
    assert_eq!(parse_hex_u32_err_to_0(""), 0);
    assert_eq!(parse_hex_u32_err_to_0("+"), 0);
    assert_eq!(parse_hex_u32_err_to_0("xyz"), 0);
    assert_eq!(parse_hex_u32_err_to_0("12g"), 0);
    assert_eq!(parse_hex_u32_err_to_0("100000000"), 0);
    assert_eq!(parse_hex_u32_err_to_0("-1"), 0);
}

#[test]
fn parse_i32_values() {
    assert_eq!(parse_i32_err_to_min("0"), 0);
    assert_eq!(parse_i32_err_to_min("42"), 42);
    assert_eq!(parse_i32_err_to_min("+42"), 42);
    assert_eq!(parse_i32_err_to_min("-42"), -42);
    assert_eq!(parse_i32_err_to_min("-0"), 0);
    assert_eq!(parse_i32_err_to_min("2147483647"), 2147483647);
    assert_eq!(parse_i32_err_to_min("-2147483648"), i32::MIN);
    // malformed or overflowing text parses as i32::MIN
    assert_eq!(parse_i32_err_to_min("2147483648"), i32::MIN);
    assert_eq!(parse_i32_err_to_min("-2147483649"), i32::MIN);
    assert_eq!(parse_i32_err_to_min(""), i32::MIN);
    assert_eq!(parse_i32_err_to_min("12a"), i32::MIN);
    assert_eq!(parse_i32_err_to_min("-"), i32::MIN);
}

#[test]
fn split_string_tokens() {
    assert_eq!(split_string("  a bb  ccc ".to_string()), vec!["a", "bb", "ccc"]);
    assert_eq!(split_string("".to_string()), Vec::<String>::new());
    assert_eq!(split_string("   ".to_string()), Vec::<String>::new());
    assert_eq!(split_string("one".to_string()), vec!["one"]);
    assert_eq!(split_string("n 10\t20\n".to_string()), vec!["n", "10", "20"]);
}

#[test]
fn str_eq_compares_contents() {
    assert!(str_eq("abc", "abc"));
    assert!(!str_eq("abc", "abd"));
    assert!(!str_eq("abc", "ab"));
    assert!(str_eq("", ""));
}

#[test]
fn build_soc_from_records() {
    let cfg = CSoc {
        name: "board".to_string(),
        rst_pc: 0,
        cpus: vec![CCpu {
            name: "cpu0".to_string(),
            class: "rv32".to_string(),
            isa: "im".to_string(),
        }],
        mems: vec![CMem { name: "ram".to_string(), start: 0, size: 8192 }],
        perips: vec![CPerips {
            name: "gpio".to_string(),
            class: 0,
            start: 0x4000,
            size: 4,
            intr: 0x400c,
        }],
    };
    let soc = build_soc(cfg).unwrap();
    assert_eq!(soc.get_tick(), 0);
    assert_eq!(soc.get_rs(5), 0);
    assert_eq!(soc.get_pc(0), 0);
}

#[test]
fn build_soc_rejects_bad_windows() {
    let cfg = CSoc {
        name: "board".to_string(),
        rst_pc: 0,
        cpus: vec![],
        mems: vec![CMem { name: "ram".to_string(), start: 0xffffff00, size: 0x200 }],
        perips: vec![],
    };
    assert!(build_soc(cfg).is_err());
    let cfg2 = CSoc {
        name: "board".to_string(),
        rst_pc: 0,
        cpus: vec![],
        mems: vec![],
        perips: vec![CPerips {
            name: "gpio".to_string(),
            class: 0,
            start: 0x4000,
            size: 4,
            // interrupt register outside the window
            intr: 0x5000,
        }],
    };
    assert!(build_soc(cfg2).is_err());
}
