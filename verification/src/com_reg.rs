//! The integer register file: a bank of 32-bit registers in which slot 0 is
//! hard-wired to zero (reads return 0, writes are discarded).

use vstd::prelude::*;

verus! {

pub struct ComReg {
    reg: Vec<u32>,
}

impl View for ComReg {
    type V = Seq<u32>;

    closed spec fn view(&self) -> Seq<u32> {
        self.reg@
    }
}

impl ComReg {
    /// Slot 0, when it exists, holds zero. Established by `new` and kept by
    /// `write`, so a register file never shows a nonzero x0.
    pub open spec fn x0_is_zero(&self) -> bool {
        self@.len() > 0 ==> self@[0] == 0
    }

    pub fn new(size: usize) -> (r: Self)
        ensures
            r@ == Seq::new(size as nat, |i: int| 0u32),
            r.x0_is_zero(),
    {
        let mut reg: Vec<u32> = Vec::new();
        let mut i: usize = 0;
        while i < size
            invariant
                i <= size,
                reg@ == Seq::new(i as nat, |j: int| 0u32),
            decreases size - i,
        {
            reg.push(0);
            i += 1;
            proof {
                assert(reg@ =~= Seq::new(i as nat, |j: int| 0u32));
            }
        }
        ComReg { reg }
    }

    pub fn read(&self, rs: u32) -> (r: u32)
        requires
            rs < self@.len(),
        ensures
            r == self@[rs as int],
    {
        self.reg[rs as usize]
    }

    /// Writes to slot 0 are discarded; every other slot takes the new value.
    pub fn write(&mut self, rs: u32, dat: u32)
        requires
            rs < old(self)@.len(),
        ensures
            final(self)@ == (if rs == 0 {
                old(self)@
            } else {
                old(self)@.update(rs as int, dat)
            }),
    {
        if rs != 0 {
            self.reg[rs as usize] = dat;
        }
    }
}

} // verus!
