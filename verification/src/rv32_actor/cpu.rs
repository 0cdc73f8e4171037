//! One RV32 hart: program counter, register file, CSR file and the pending
//! trap slot.

use vstd::prelude::*;

verus! {

use crate::com_reg::ComReg;
use crate::intrrupt::IntrType;
use crate::isa::{reg_of, rd_of, rs1_of, rs2_of, set_reg};
use crate::rv32_actor::csr_reg::{csr_known, CsrReg};

pub struct Rv32Cpu {
    name: String,
    pc: u32,
    exception: IntrType,
    reg: ComReg,
    csr: CsrReg,
}

impl Rv32Cpu {
    pub closed spec fn pc(&self) -> u32 {
        self.pc
    }

    pub closed spec fn regs(&self) -> Seq<u32> {
        self.reg@
    }

    pub closed spec fn csrs(&self) -> CsrReg {
        self.csr
    }

    pub closed spec fn exc(&self) -> IntrType {
        self.exception
    }

    pub closed spec fn name_seq(&self) -> Seq<char> {
        self.name@
    }

    /// 32 registers, with x0 hard-wired to zero.
    pub open spec fn wf(&self) -> bool {
        self.regs().len() == 32 && self.regs()[0] == 0
    }

    /// The register bank, CSRs and name are unchanged.
    pub open spec fn same_state(&self, o: &Rv32Cpu) -> bool {
        self.regs() == o.regs() && self.csrs() == o.csrs() && self.name_seq() == o.name_seq()
    }

    pub fn new(name: String, rst_pc: u32) -> (r: Self)
        ensures
            r.wf(),
            r.pc() == rst_pc,
            r.regs() == Seq::new(32, |i: int| 0u32),
            r.csrs().mepc() == 0,
            r.csrs().mcause() == 0,
            r.csrs().mstatus() == 0,
            r.csrs().mtvec() == 0,
            r.exc() is NoIntr,
            r.name_seq() == name@,
    {
        Rv32Cpu {
            name,
            pc: rst_pc,
            exception: IntrType::NoIntr,
            reg: ComReg::new(32),
            csr: CsrReg::new(),
        }
    }

    pub fn name(&self) -> (r: &String)
        ensures
            r@ == self.name_seq(),
    {
        &self.name
    }

    pub fn match_name(&self, name: &String) -> (r: bool)
        ensures
            r <==> self.name_seq() == name@,
    {
        crate::utils::str_eq(self.name.as_str(), name.as_str())
    }

    pub fn exception(&self) -> (r: IntrType)
        ensures
            r == self.exc(),
    {
        self.exception
    }

    pub fn set_exception(&mut self, exce: IntrType)
        ensures
            final(self).exc() == exce,
            final(self).pc() == old(self).pc(),
            final(self).same_state(old(self)),
            final(self).wf() == old(self).wf(),
    {
        self.exception = exce;
    }

    pub fn get_pc(&self) -> (r: u32)
        ensures
            r == self.pc(),
    {
        self.pc
    }

    pub fn set_pc(&mut self, pc: u32)
        ensures
            final(self).pc() == pc,
            final(self).exc() == old(self).exc(),
            final(self).same_state(old(self)),
            final(self).wf() == old(self).wf(),
    {
        self.pc = pc;
    }

    pub fn get_rs(&self, index: u32) -> (r: u32)
        requires
            index < self.regs().len(),
        ensures
            r == self.regs()[index as int],
    {
        self.reg.read(index)
    }

    /// Direct register mutation for the debugger; a write to x0 is dropped.
    pub fn set_rs(&mut self, index: u32, data: u32)
        requires
            index < old(self).regs().len(),
        ensures
            final(self).regs() == set_reg(old(self).regs(), index, data),
            final(self).pc() == old(self).pc(),
            final(self).exc() == old(self).exc(),
            final(self).csrs() == old(self).csrs(),
            final(self).name_seq() == old(self).name_seq(),
            old(self).wf() ==> final(self).wf(),
    {
        self.reg.write(index, data);
    }

    /// Write the destination register named by `instr` and return its index.
    pub fn set_rd(&mut self, instr: u32, data: u32) -> (rd: usize)
        requires
            old(self).wf(),
        ensures
            final(self).wf(),
            rd == rd_of(instr),
            final(self).regs() == set_reg(old(self).regs(), rd_of(instr), data),
            final(self).pc() == old(self).pc(),
            final(self).exc() == old(self).exc(),
            final(self).csrs() == old(self).csrs(),
            final(self).name_seq() == old(self).name_seq(),
    {
        proof {
            crate::isa::lemma_field_bounds(instr);
        }
        let rd = instr >> 7 & 0x1f;
        if rd != 0 {
            self.reg.write(rd, data);
        }
        rd as usize
    }

    /// The rs1 field and the value an instruction reads through it.
    pub fn get_rs_1(&self, instr: u32) -> (r: (usize, u32))
        requires
            self.wf(),
        ensures
            r.0 == rs1_of(instr),
            r.1 == reg_of(self.regs(), rs1_of(instr)),
    {
        proof {
            crate::isa::lemma_field_bounds(instr);
        }
        let r1 = instr >> 15 & 0x1f;
        if r1 == 0 {
            return (0, 0);
        }
        (r1 as usize, self.reg.read(r1))
    }

    /// The rs2 field and the value an instruction reads through it.
    pub fn get_rs_2(&mut self, instr: u32) -> (r: (usize, u32))
        requires
            old(self).wf(),
        ensures
            *final(self) == *old(self),
            r.0 == rs2_of(instr),
            r.1 == reg_of(old(self).regs(), rs2_of(instr)),
    {
        proof {
            crate::isa::lemma_field_bounds(instr);
        }
        let r2 = instr >> 20 & 0x1f;
        if r2 == 0 {
            return (0, 0);
        }
        (r2 as usize, self.reg.read(r2))
    }

    pub fn read_csr(&self, addr: u32) -> (r: u32)
        requires
            csr_known(addr),
        ensures
            r == self.csrs().spec_read(addr),
    {
        self.csr.read(addr)
    }

    pub fn write_csr(&mut self, addr: u32, dat: u32)
        requires
            csr_known(addr),
        ensures
            final(self).wf() == old(self).wf(),
            final(self).pc() == old(self).pc(),
            final(self).exc() == old(self).exc(),
            final(self).regs() == old(self).regs(),
            final(self).name_seq() == old(self).name_seq(),
            final(self).csrs().mepc() == (if addr == 0x341 {
                dat
            } else {
                old(self).csrs().mepc()
            }),
            final(self).csrs().mcause() == (if addr == 0x342 {
                dat
            } else {
                old(self).csrs().mcause()
            }),
            final(self).csrs().mstatus() == (if addr == 0x300 {
                dat
            } else {
                old(self).csrs().mstatus()
            }),
            final(self).csrs().mtvec() == (if addr == 0x305 {
                dat
            } else {
                old(self).csrs().mtvec()
            }),
    {
        self.csr.write(addr, dat);
    }
}

} // verus!
