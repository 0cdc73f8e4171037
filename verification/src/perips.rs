//! A memory-mapped peripheral: an array of 32-bit registers, one of which
//! is the interrupt line.

use vstd::prelude::*;

verus! {

use crate::mem::MemIO;
use vstd::string::StringExecFns;

/// Registers live at word-aligned offsets in `[start, start + size * 4)`;
/// `intr` is the absolute address of the register whose top bit signals a
/// pending interrupt. Word accesses outside the window read zero and drop
/// writes; sub-word accesses are never routed to a peripheral.
pub struct Perips {
    name: String,
    registers: Vec<u32>,
    start: u32,
    size: u32,
    intr: u32,
}

impl Perips {
    pub closed spec fn base(&self) -> u32 {
        self.start
    }

    pub closed spec fn reg_count(&self) -> u32 {
        self.size
    }

    pub closed spec fn regs(&self) -> Seq<u32> {
        self.registers@
    }

    pub closed spec fn intr_addr(&self) -> u32 {
        self.intr
    }

    pub closed spec fn name_seq(&self) -> Seq<char> {
        self.name@
    }

    pub open spec fn same_shape(&self, other: &Perips) -> bool {
        self.base() == other.base() && self.reg_count() == other.reg_count()
            && self.intr_addr() == other.intr_addr() && self.name_seq() == other.name_seq()
    }

    /// The index of the register a word access at `addr` touches.
    pub open spec fn reg_index(&self, addr: u32) -> int {
        (addr - self.base()) / 4
    }

    /// The value of the interrupt register.
    pub open spec fn intr_val(&self) -> u32 {
        self.regs()[self.reg_index(self.intr_addr())]
    }

    pub fn new(name: String, start: u32, size: u32, intr: u32) -> (r: Self)
        requires
            start + size * 4 <= 0xffffffff,
            start <= intr < start + size * 4,
        ensures
            r.inv(),
            r.base() == start,
            r.reg_count() == size,
            r.intr_addr() == intr,
            r.name_seq() == name@,
            r.regs() == Seq::new(size as nat, |i: int| 0u32),
    {
        let mut registers: Vec<u32> = Vec::new();
        let mut i: usize = 0;
        let n = size as usize;
        while i < n
            invariant
                i <= n,
                registers@ == Seq::new(i as nat, |j: int| 0u32),
            decreases n - i,
        {
            registers.push(0);
            i += 1;
            proof {
                assert(registers@ =~= Seq::new(i as nat, |j: int| 0u32));
            }
        }
        Perips { name, registers, start, size, intr }
    }

    pub fn match_name(&self, name: &String) -> (r: bool)
        ensures
            r <==> self.name_seq() == name@,
    {
        crate::utils::str_eq(self.name.as_str(), name.as_str())
    }

    pub fn get_intr(&self) -> (r: u32)
        requires
            self.inv(),
        ensures
            r == self.intr_val(),
    {
        proof {
            self.lemma_intr_index();
        }
        self.registers[((self.intr - self.start) / 4) as usize]
    }

    pub fn clear_intr(&mut self)
        requires
            old(self).inv(),
        ensures
            final(self).inv(),
            final(self).same_shape(old(self)),
            final(self).regs() == old(self).regs().update(
                old(self).reg_index(old(self).intr_addr()),
                0u32,
            ),
    {
        proof {
            self.lemma_intr_index();
        }
        let idx = ((self.intr - self.start) / 4) as usize;
        self.registers[idx] = 0;
    }

    /// The interrupt register's index lies inside the register array.
    proof fn lemma_intr_index(&self)
        requires
            self.inv(),
        ensures
            0 <= self.reg_index(self.intr_addr()) < self.regs().len(),
    {
        assert((self.intr_addr() - self.base()) / 4 < self.reg_count()) by (nonlinear_arith)
            requires
                0 <= self.intr_addr() - self.base() < self.reg_count() * 4,
        ;
    }

    /// Any in-window address indexes inside the register array.
    proof fn lemma_word_index(&self, addr: u32)
        requires
            self.inv(),
            self.contains(addr),
        ensures
            0 <= self.reg_index(addr) < self.regs().len(),
    {
        assert((addr - self.base()) / 4 < self.reg_count()) by (nonlinear_arith)
            requires
                0 <= addr - self.base() < self.reg_count() * 4,
        ;
    }
}

impl MemIO for Perips {
    open spec fn inv(&self) -> bool {
        self.regs().len() == self.reg_count() && self.base() + self.reg_count() * 4 <= 0xffffffff
            && self.base() <= self.intr_addr() < self.base() + self.reg_count() * 4
    }

    open spec fn contains(&self, addr: u32) -> bool {
        self.base() <= addr < self.base() + self.reg_count() * 4
    }

    /// Word accesses are defined everywhere: misses read zero / drop writes.
    open spec fn word_ok(&self, addr: u32) -> bool {
        true
    }

    open spec fn word_at(&self, addr: u32) -> u32 {
        if self.contains(addr) {
            self.regs()[self.reg_index(addr)]
        } else {
            0u32
        }
    }

    open spec fn wrote(&self, pre: &Perips, data: u32, addr: u32) -> bool {
        self.same_shape(pre) && self.regs() == (if pre.contains(addr) {
            pre.regs().update(pre.reg_index(addr), data)
        } else {
            pre.regs()
        })
    }

    open spec fn dump_ok(&self, addr: u32) -> bool {
        true
    }

    fn in_range(&self, addr: u32) -> (r: bool)
        ensures
            r == self.contains(addr),
    {
        addr >= self.start && addr < self.start + self.size * 4
    }

    fn read_u32(&self, addr: u32) -> (r: u32)
        ensures
            r == self.word_at(addr),
    {
        if addr >= self.start && addr < self.start + self.size * 4 {
            proof {
                self.lemma_word_index(addr);
            }
            self.registers[((addr - self.start) / 4) as usize]
        } else {
            0
        }
    }

    fn write_u32(&mut self, data: u32, addr: u32)
        ensures
            final(self).inv(),
            final(self).wrote(old(self), data, addr),
    {
        if addr >= self.start && addr < self.start + self.size * 4 {
            proof {
                self.lemma_word_index(addr);
            }
            let idx = ((addr - self.start) / 4) as usize;
            self.registers[idx] = data;
        }
    }

    /// Render the whole register array as hex words. The exact text is not
    /// part of any contract.
    fn dump(&self, addr: u32) -> String {
        let mut res = String::new();
        res.append("+");
        crate::utils::push_hex_u32(&mut res, self.start);
        res.append(" intr ");
        crate::utils::push_hex_u32(&mut res, self.intr);
        res.append("\n");
        let n = self.registers.len();
        let mut i: usize = 0;
        while i < n
            invariant
                i <= n,
                n == self.regs().len(),
            decreases n - i,
        {
            crate::utils::push_hex_u32(&mut res, self.registers[i]);
            res.append(" ");
            i += 1;
        }
        res
    }
}

} // verus!
