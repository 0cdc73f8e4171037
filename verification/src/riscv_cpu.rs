//! A minimal single-hart RV32IM core bound directly to one RAM starting at
//! address zero: no CSRs, no traps. A word that decodes to nothing simply
//! advances the program counter.

use vstd::prelude::*;

verus! {

use crate::isa::{
    add32, branch_legal, branch_taken, funct3, imm_i, imm_j, imm_s, imm_u, le16, le32, load_legal,
    math_i_legal, math_i_val, math_legal, math_val, opcode, rd_of, reg_of, rs1_of, rs2_of, set_reg,
    sext16, sext8, store_legal,
};
use crate::ram::Ram;

// ------------------------------------------------------------------
// Total semantics of RAM accesses: a miss reads zero, a store past the end
// is dropped
// ------------------------------------------------------------------

pub open spec fn rbyte(ram: Seq<u8>, addr: u32) -> u8 {
    if addr < ram.len() {
        ram[addr as int]
    } else {
        0u8
    }
}

pub open spec fn rhalf(ram: Seq<u8>, addr: u32) -> u16 {
    if addr + 2 <= ram.len() {
        le16(ram[addr as int], ram[addr as int + 1])
    } else {
        0u16
    }
}

pub open spec fn rword(ram: Seq<u8>, addr: u32) -> u32 {
    if addr + 4 <= ram.len() {
        le32(ram[addr as int], ram[addr as int + 1], ram[addr as int + 2], ram[addr as int + 3])
    } else {
        0u32
    }
}

pub open spec fn wbyte(ram: Seq<u8>, addr: u32, v: u8) -> Seq<u8> {
    if addr < ram.len() {
        ram.update(addr as int, v)
    } else {
        ram
    }
}

pub open spec fn whalf(ram: Seq<u8>, addr: u32, v: u16) -> Seq<u8> {
    if addr + 2 <= ram.len() {
        ram.update(addr as int, (v & 0xff) as u8).update(addr as int + 1, ((v >> 8) & 0xff) as u8)
    } else {
        ram
    }
}

pub open spec fn wword(ram: Seq<u8>, addr: u32, v: u32) -> Seq<u8> {
    if addr + 4 <= ram.len() {
        ram.update(addr as int, (v & 0xff) as u8).update(
            addr as int + 1,
            ((v >> 8) & 0xff) as u8,
        ).update(addr as int + 2, ((v >> 16) & 0xff) as u8).update(
            addr as int + 3,
            ((v >> 24) & 0xff) as u8,
        )
    } else {
        ram
    }
}

/// The destination value of a legal load.
pub open spec fn r_load_result(ram: Seq<u8>, regs: Seq<u32>, i: u32) -> u32 {
    let addr = add32(reg_of(regs, rs1_of(i)), imm_i(i));
    let f3 = funct3(i);
    if f3 == 0 {
        sext8(rbyte(ram, addr) as u32)
    } else if f3 == 4 {
        rbyte(ram, addr) as u32
    } else if f3 == 1 {
        sext16(rhalf(ram, addr) as u32)
    } else if f3 == 5 {
        rhalf(ram, addr) as u32
    } else {
        rword(ram, addr)
    }
}

/// The RAM after a legal store.
pub open spec fn r_store_ram(ram: Seq<u8>, regs: Seq<u32>, i: u32) -> Seq<u8> {
    let addr = add32(reg_of(regs, rs1_of(i)), imm_s(i));
    let v = reg_of(regs, rs2_of(i));
    let f3 = funct3(i);
    if f3 == 0 {
        wbyte(ram, addr, (v & 0xff) as u8)
    } else if f3 == 1 {
        whalf(ram, addr, (v & 0xffff) as u16)
    } else {
        wword(ram, addr, v)
    }
}

/// The core. The register file is 32 words with x0 hard-wired to zero.
pub struct RiscvCpu {
    pc: u32,
    reg: Vec<u32>,
    tick_cnt: u32,
    ram: Ram,
}

/// One full tick: what the fetched word at the old program counter does to
/// the registers, the program counter and the RAM. A word outside the
/// decode table (this core implements no FENCE, SYSTEM or CSR forms)
/// changes nothing and advances the program counter; only taken branches
/// and jumps move it anywhere else.
pub open spec fn rstep(pre: &RiscvCpu, post: &RiscvCpu) -> bool {
    let i = rword(pre.ram_bytes(), pre.pc());
    let op = opcode(i);
    let regs = pre.regs();
    let pc = pre.pc();
    &&& if op == 0x23 {
        post.regs() == regs && post.ram_bytes() == (if store_legal(i) {
            r_store_ram(pre.ram_bytes(), regs, i)
        } else {
            pre.ram_bytes()
        }) && post.pc() == add32(pc, 4)
    } else {
        &&& post.ram_bytes() == pre.ram_bytes()
        &&& if op == 0x37 {
            post.regs() == set_reg(regs, rd_of(i), imm_u(i)) && post.pc() == add32(pc, 4)
        } else if op == 0x17 {
            post.regs() == set_reg(regs, rd_of(i), add32(imm_u(i), pc)) && post.pc() == add32(
                pc,
                4,
            )
        } else if op == 0x6f {
            post.regs() == set_reg(regs, rd_of(i), add32(pc, 4)) && post.pc() == add32(
                pc,
                imm_j(i),
            )
        } else if op == 0x67 {
            post.regs() == set_reg(regs, rd_of(i), add32(pc, 4)) && post.pc() == add32(
                reg_of(regs, rs1_of(i)),
                imm_i(i),
            ) & 0xfffffffe
        } else if op == 0x63 {
            post.regs() == regs && post.pc() == (if branch_legal(i) {
                if branch_taken(reg_of(regs, rs1_of(i)), reg_of(regs, rs2_of(i)), funct3(i)) {
                    add32(pc, crate::isa::imm_b(i))
                } else {
                    add32(pc, 4)
                }
            } else {
                pc
            })
        } else if op == 0x13 {
            post.regs() == (if math_i_legal(i) {
                set_reg(regs, rd_of(i), math_i_val(reg_of(regs, rs1_of(i)), i))
            } else {
                regs
            }) && post.pc() == add32(pc, 4)
        } else if op == 0x33 {
            post.regs() == (if math_legal(i) {
                set_reg(regs, rd_of(i), math_val(reg_of(regs, rs1_of(i)), reg_of(regs, rs2_of(i)), i))
            } else {
                regs
            }) && post.pc() == add32(pc, 4)
        } else if op == 0x03 {
            post.regs() == (if load_legal(i) {
                set_reg(regs, rd_of(i), r_load_result(pre.ram_bytes(), regs, i))
            } else {
                regs
            }) && post.pc() == add32(pc, 4)
        } else {
            post.regs() == regs && post.pc() == add32(pc, 4)
        }
    }
}

impl RiscvCpu {
    pub closed spec fn pc(&self) -> u32 {
        self.pc
    }

    pub closed spec fn regs(&self) -> Seq<u32> {
        self.reg@
    }

    pub closed spec fn tick_count(&self) -> u32 {
        self.tick_cnt
    }

    pub closed spec fn ram_bytes(&self) -> Seq<u8> {
        self.ram@
    }

    pub open spec fn wf(&self) -> bool {
        self.regs().len() == 32 && self.regs()[0] == 0
    }

    pub fn new(reset_pc: u32, ram: Ram) -> (r: Self)
        ensures
            r.wf(),
            r.pc() == reset_pc,
            r.regs() == Seq::new(32, |i: int| 0u32),
            r.tick_count() == 0,
            r.ram_bytes() == ram@,
    {
        let mut reg: Vec<u32> = Vec::new();
        let mut i: usize = 0;
        while i < 32
            invariant
                i <= 32,
                reg@ == Seq::new(i as nat, |j: int| 0u32),
            decreases 32 - i,
        {
            reg.push(0);
            i += 1;
            proof {
                assert(reg@ =~= Seq::new(i as nat, |j: int| 0u32));
            }
        }
        RiscvCpu { pc: reset_pc, reg, tick_cnt: 0, ram }
    }

    pub fn get_tick_cnt(&self) -> (r: u32)
        ensures
            r == self.tick_count(),
    {
        self.tick_cnt
    }

    pub fn get_rs(&self, index: usize) -> (r: u32)
        requires
            index < self.regs().len(),
        ensures
            r == self.regs()[index as int],
    {
        self.reg[index]
    }

    /// Write the destination register named by `instr` and return its
    /// index; a write to x0 is dropped.
    pub fn set_rd(&mut self, instr: u32, data: u32) -> (rd: usize)
        requires
            old(self).wf(),
        ensures
            final(self).wf(),
            rd == rd_of(instr),
            final(self).regs() == set_reg(old(self).regs(), rd_of(instr), data),
            final(self).pc() == old(self).pc(),
            final(self).tick_count() == old(self).tick_count(),
            final(self).ram_bytes() == old(self).ram_bytes(),
    {
        proof {
            crate::isa::lemma_field_bounds(instr);
        }
        let rd = (instr >> 7 & 0x1f) as usize;
        if rd != 0 {
            self.reg[rd] = data;
        }
        rd
    }

    /// The rs1 field and the value read through it.
    pub fn get_rs_1(&self, instr: u32) -> (r: (usize, u32))
        requires
            self.wf(),
        ensures
            r.0 == rs1_of(instr),
            r.1 == reg_of(self.regs(), rs1_of(instr)),
    {
        proof {
            crate::isa::lemma_field_bounds(instr);
        }
        let r1 = (instr >> 15 & 0x1f) as usize;
        if r1 == 0 {
            return (0, 0);
        }
        (r1, self.reg[r1])
    }

    /// The rs2 field and the value read through it.
    pub fn get_rs_2(&mut self, instr: u32) -> (r: (usize, u32))
        requires
            old(self).wf(),
        ensures
            *final(self) == *old(self),
            r.0 == rs2_of(instr),
            r.1 == reg_of(old(self).regs(), rs2_of(instr)),
    {
        proof {
            crate::isa::lemma_field_bounds(instr);
        }
        let r2 = (instr >> 20 & 0x1f) as usize;
        if r2 == 0 {
            return (0, 0);
        }
        (r2, self.reg[r2])
    }

    /// Fetch the word at `addr`, reading zero past the end of RAM.
    fn fetch_u32(&self, addr: u32) -> (r: u32)
        ensures
            r == rword(self.ram_bytes(), addr),
    {
        let n = self.ram.length();
        let pos = addr as usize;
        if n >= 4 && pos <= n - 4 {
            self.ram.read_u32(pos)
        } else {
            0
        }
    }

    /// One instruction: fetch at the program counter, decode, execute.
    pub fn tick(&mut self)
        requires
            old(self).wf(),
            old(self).tick_count() < u32::MAX,
        ensures
            final(self).wf(),
            final(self).tick_count() == old(self).tick_count() + 1,
            rstep(old(self), final(self)),
    {
        self.tick_cnt = self.tick_cnt + 1;
        let pc = self.pc;
        let instr = self.fetch_u32(pc);
        match instr & 0x7f {
            0x37 => {
                self.execute_lui(instr);
                self.pc = crate::isa::alu_add(pc, 4);
            },
            0x17 => {
                self.execute_auipc(instr);
                self.pc = crate::isa::alu_add(pc, 4);
            },
            0x6f => {
                self.execute_jal(instr);
            },
            0x67 => {
                self.execute_jalr(instr);
            },
            0x63 => {
                self.execute_jb(instr);
            },
            0x13 => {
                self.execute_math_i(instr);
                self.pc = crate::isa::alu_add(pc, 4);
            },
            0x33 => {
                self.execute_math(instr);
                self.pc = crate::isa::alu_add(pc, 4);
            },
            0x03 => {
                self.execute_load(instr);
                self.pc = crate::isa::alu_add(pc, 4);
            },
            0x23 => {
                self.execute_store(instr);
                self.pc = crate::isa::alu_add(pc, 4);
            },
            _ => {
                self.pc = crate::isa::alu_add(pc, 4);
            },
        }
    }

    fn execute_lui(&mut self, instr: u32)
        requires
            old(self).wf(),
        ensures
            final(self).wf(),
            final(self).regs() == set_reg(old(self).regs(), rd_of(instr), imm_u(instr)),
            final(self).pc() == old(self).pc(),
            final(self).tick_count() == old(self).tick_count(),
            final(self).ram_bytes() == old(self).ram_bytes(),
    {
        let imm = instr & 0xfffff000;
        self.set_rd(instr, imm);
    }

    fn execute_auipc(&mut self, instr: u32)
        requires
            old(self).wf(),
        ensures
            final(self).wf(),
            final(self).regs() == set_reg(
                old(self).regs(),
                rd_of(instr),
                add32(imm_u(instr), old(self).pc()),
            ),
            final(self).pc() == old(self).pc(),
            final(self).tick_count() == old(self).tick_count(),
            final(self).ram_bytes() == old(self).ram_bytes(),
    {
        let imm = instr & 0xfffff000;
        let v = crate::isa::alu_add(imm, self.pc);
        self.set_rd(instr, v);
    }

    fn execute_jal(&mut self, instr: u32)
        requires
            old(self).wf(),
        ensures
            final(self).wf(),
            final(self).regs() == set_reg(
                old(self).regs(),
                rd_of(instr),
                add32(old(self).pc(), 4),
            ),
            final(self).pc() == add32(old(self).pc(), imm_j(instr)),
            final(self).tick_count() == old(self).tick_count(),
            final(self).ram_bytes() == old(self).ram_bytes(),
    {
        let pc = self.pc;
        let offset = crate::isa::decode_imm_j(instr);
        self.set_rd(instr, crate::isa::alu_add(pc, 4));
        self.pc = crate::isa::alu_add(pc, offset);
    }

    fn execute_jalr(&mut self, instr: u32)
        requires
            old(self).wf(),
        ensures
            final(self).wf(),
            final(self).regs() == set_reg(
                old(self).regs(),
                rd_of(instr),
                add32(old(self).pc(), 4),
            ),
            final(self).pc() == add32(reg_of(old(self).regs(), rs1_of(instr)), imm_i(instr))
                & 0xfffffffe,
            final(self).tick_count() == old(self).tick_count(),
            final(self).ram_bytes() == old(self).ram_bytes(),
    {
        let pc = self.pc;
        let offset = crate::isa::decode_imm_i(instr);
        let (_rs1, r1_data) = self.get_rs_1(instr);
        self.set_rd(instr, crate::isa::alu_add(pc, 4));
        self.pc = crate::isa::alu_add(r1_data, offset) & 0xfffffffe;
    }

    fn execute_jb(&mut self, instr: u32)
        requires
            old(self).wf(),
        ensures
            final(self).wf(),
            final(self).regs() == old(self).regs(),
            final(self).tick_count() == old(self).tick_count(),
            final(self).ram_bytes() == old(self).ram_bytes(),
            final(self).pc() == (if branch_legal(instr) {
                if branch_taken(
                    reg_of(old(self).regs(), rs1_of(instr)),
                    reg_of(old(self).regs(), rs2_of(instr)),
                    funct3(instr),
                ) {
                    add32(old(self).pc(), crate::isa::imm_b(instr))
                } else {
                    add32(old(self).pc(), 4)
                }
            } else {
                old(self).pc()
            }),
    {
        let pc = self.pc;
        let f3 = instr >> 12 & 0x07;
        if !(f3 == 0 || f3 == 1 || f3 == 4 || f3 == 5 || f3 == 6 || f3 == 7) {
            return ;
        }
        let (_rs1, rs1_data) = self.get_rs_1(instr);
        let (_rs2, rs2_data) = self.get_rs_2(instr);
        let offset = crate::isa::decode_imm_b(instr);
        let taken = match f3 {
            0x00 => rs1_data == rs2_data,
            0x01 => rs1_data != rs2_data,
            0x04 => crate::isa::alu_slt(rs1_data, rs2_data) == 1,
            0x05 => crate::isa::alu_slt(rs1_data, rs2_data) == 0,
            0x06 => rs1_data < rs2_data,
            _ => rs1_data >= rs2_data,
        };
        if taken {
            self.pc = crate::isa::alu_add(pc, offset);
        } else {
            self.pc = crate::isa::alu_add(pc, 4);
        }
    }

    fn execute_math_i(&mut self, instr: u32)
        requires
            old(self).wf(),
        ensures
            final(self).wf(),
            final(self).regs() == (if math_i_legal(instr) {
                set_reg(
                    old(self).regs(),
                    rd_of(instr),
                    math_i_val(reg_of(old(self).regs(), rs1_of(instr)), instr),
                )
            } else {
                old(self).regs()
            }),
            final(self).pc() == old(self).pc(),
            final(self).tick_count() == old(self).tick_count(),
            final(self).ram_bytes() == old(self).ram_bytes(),
    {
        let f3 = instr >> 12 & 0x07;
        let f7 = instr >> 25 & 0x7f;
        if f3 == 5 && !(f7 == 0x00 || f7 == 0x20) {
            return ;
        }
        let (_rs1, rs1_data) = self.get_rs_1(instr);
        let s_imm = crate::isa::decode_imm_i(instr);
        let rd_data = match f3 {
            0x00 => crate::isa::alu_add(rs1_data, s_imm),
            0x01 => crate::isa::alu_sll(rs1_data, s_imm),
            0x02 => crate::isa::alu_slt(rs1_data, s_imm),
            0x03 => crate::isa::alu_sltu(rs1_data, s_imm),
            0x04 => rs1_data ^ s_imm,
            0x05 => if f7 == 0x20 {
                crate::isa::alu_sra(rs1_data, s_imm)
            } else {
                crate::isa::alu_srl(rs1_data, s_imm)
            },
            0x06 => rs1_data | s_imm,
            _ => rs1_data & s_imm,
        };
        self.set_rd(instr, rd_data);
    }

    fn execute_math(&mut self, instr: u32)
        requires
            old(self).wf(),
        ensures
            final(self).wf(),
            final(self).regs() == (if math_legal(instr) {
                set_reg(
                    old(self).regs(),
                    rd_of(instr),
                    math_val(
                        reg_of(old(self).regs(), rs1_of(instr)),
                        reg_of(old(self).regs(), rs2_of(instr)),
                        instr,
                    ),
                )
            } else {
                old(self).regs()
            }),
            final(self).pc() == old(self).pc(),
            final(self).tick_count() == old(self).tick_count(),
            final(self).ram_bytes() == old(self).ram_bytes(),
    {
        proof {
            crate::isa::lemma_field_bounds(instr);
        }
        let f3 = instr >> 12 & 0x07;
        let f7 = instr >> 25 & 0x7f;
        if !(f7 == 0x00 || f7 == 0x01 || (f7 == 0x20 && (f3 == 0 || f3 == 5))) {
            return ;
        }
        let (_rs1, a) = self.get_rs_1(instr);
        let (_rs2, b) = self.get_rs_2(instr);
        let rd_data = match f3 {
            0x00 => if f7 == 0x20 {
                crate::isa::alu_sub(a, b)
            } else if f7 == 0x01 {
                crate::isa::alu_mul(a, b)
            } else {
                crate::isa::alu_add(a, b)
            },
            0x01 => if f7 == 0x01 {
                crate::isa::alu_mulh(a, b)
            } else {
                crate::isa::alu_sll(a, b)
            },
            0x02 => if f7 == 0x01 {
                crate::isa::alu_mulhsu(a, b)
            } else {
                crate::isa::alu_slt(a, b)
            },
            0x03 => if f7 == 0x01 {
                crate::isa::alu_mulhu(a, b)
            } else {
                crate::isa::alu_sltu(a, b)
            },
            0x04 => if f7 == 0x01 {
                crate::isa::alu_div(a, b)
            } else {
                a ^ b
            },
            0x05 => if f7 == 0x01 {
                crate::isa::alu_divu(a, b)
            } else if f7 == 0x20 {
                crate::isa::alu_sra(a, b)
            } else {
                crate::isa::alu_srl(a, b)
            },
            0x06 => if f7 == 0x01 {
                crate::isa::alu_rem(a, b)
            } else {
                a | b
            },
            _ => if f7 == 0x01 {
                crate::isa::alu_remu(a, b)
            } else {
                a & b
            },
        };
        self.set_rd(instr, rd_data);
    }

    fn execute_load(&mut self, instr: u32)
        requires
            old(self).wf(),
        ensures
            final(self).wf(),
            final(self).regs() == (if load_legal(instr) {
                set_reg(
                    old(self).regs(),
                    rd_of(instr),
                    r_load_result(old(self).ram_bytes(), old(self).regs(), instr),
                )
            } else {
                old(self).regs()
            }),
            final(self).pc() == old(self).pc(),
            final(self).tick_count() == old(self).tick_count(),
            final(self).ram_bytes() == old(self).ram_bytes(),
    {
        let f3 = instr >> 12 & 0x07;
        if !(f3 == 0 || f3 == 1 || f3 == 2 || f3 == 4 || f3 == 5) {
            return ;
        }
        let (_rs1, rs1_data) = self.get_rs_1(instr);
        let s_imm = crate::isa::decode_imm_i(instr);
        let addr = crate::isa::alu_add(rs1_data, s_imm);
        let n = self.ram.length();
        let pos = addr as usize;
        match f3 {
            0x00 => {
                let b: u32 = if pos < n {
                    self.ram.read_u8(pos) as u32
                } else {
                    0
                };
                let v = crate::isa::extend_byte(b);
                self.set_rd(instr, v);
            },
            0x04 => {
                let b: u32 = if pos < n {
                    self.ram.read_u8(pos) as u32
                } else {
                    0
                };
                self.set_rd(instr, b);
            },
            0x01 => {
                let h: u32 = if n >= 2 && pos <= n - 2 {
                    self.ram.read_u16(pos) as u32
                } else {
                    0
                };
                let v = crate::isa::extend_half(h);
                self.set_rd(instr, v);
            },
            0x05 => {
                let h: u32 = if n >= 2 && pos <= n - 2 {
                    self.ram.read_u16(pos) as u32
                } else {
                    0
                };
                self.set_rd(instr, h);
            },
            _ => {
                let w: u32 = if n >= 4 && pos <= n - 4 {
                    self.ram.read_u32(pos)
                } else {
                    0
                };
                self.set_rd(instr, w);
            },
        }
    }

    fn execute_store(&mut self, instr: u32)
        requires
            old(self).wf(),
        ensures
            final(self).wf(),
            final(self).regs() == old(self).regs(),
            final(self).pc() == old(self).pc(),
            final(self).tick_count() == old(self).tick_count(),
            final(self).ram_bytes() == (if store_legal(instr) {
                r_store_ram(old(self).ram_bytes(), old(self).regs(), instr)
            } else {
                old(self).ram_bytes()
            }),
    {
        let f3 = instr >> 12 & 0x07;
        if !(f3 == 0 || f3 == 1 || f3 == 2) {
            return ;
        }
        let (_rs1, rs1_data) = self.get_rs_1(instr);
        let (_rs2, rs2_data) = self.get_rs_2(instr);
        let s_imm = crate::isa::decode_imm_s(instr);
        let addr = crate::isa::alu_add(rs1_data, s_imm);
        let n = self.ram.length();
        let pos = addr as usize;
        match f3 {
            0x00 => {
                if pos < n {
                    self.ram.write_u8((rs2_data & 0xff) as u8, pos);
                }
            },
            0x01 => {
                if n >= 2 && pos <= n - 2 {
                    self.ram.write_u16((rs2_data & 0xffff) as u16, pos);
                }
            },
            _ => {
                if n >= 4 && pos <= n - 4 {
                    self.ram.write_u32(rs2_data, pos);
                }
            },
        }
    }
}

} // verus!
