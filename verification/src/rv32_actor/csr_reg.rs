//! The machine-mode CSR file: `mstatus`, `mtvec`, `mepc`, `mcause`.

use vstd::prelude::*;

verus! {

/// The four CSR addresses this machine recognises. Any access outside this
/// set is a fatal host-level error, so the accessors require it.
pub open spec fn csr_known(addr: u32) -> bool {
    addr == 0x300 || addr == 0x305 || addr == 0x341 || addr == 0x342
}

/// Executable twin of `csr_known`.
pub fn is_csr_known(addr: u32) -> (r: bool)
    ensures
        r == csr_known(addr),
{
    addr == 0x300 || addr == 0x305 || addr == 0x341 || addr == 0x342
}

pub struct CsrReg {
    mepc: u32,
    mcause: u32,
    mstatus: u32,
    mtvec: u32,
}

impl CsrReg {
    pub closed spec fn mepc(&self) -> u32 {
        self.mepc
    }

    pub closed spec fn mcause(&self) -> u32 {
        self.mcause
    }

    pub closed spec fn mstatus(&self) -> u32 {
        self.mstatus
    }

    pub closed spec fn mtvec(&self) -> u32 {
        self.mtvec
    }

    /// The value stored at a recognised CSR address.
    pub open spec fn spec_read(&self, addr: u32) -> u32 {
        if addr == 0x341 {
            self.mepc()
        } else if addr == 0x342 {
            self.mcause()
        } else if addr == 0x300 {
            self.mstatus()
        } else {
            self.mtvec()
        }
    }

    pub fn new() -> (r: Self)
        ensures
            r.mepc() == 0,
            r.mcause() == 0,
            r.mstatus() == 0,
            r.mtvec() == 0,
    {
        CsrReg { mepc: 0, mcause: 0, mstatus: 0, mtvec: 0 }
    }

    pub fn read(&self, addr: u32) -> (r: u32)
        requires
            csr_known(addr),
        ensures
            r == self.spec_read(addr),
    {
        match addr {
            0x341 => self.mepc,
            0x342 => self.mcause,
            0x300 => self.mstatus,
            _ => self.mtvec,
        }
    }

    pub fn write(&mut self, addr: u32, dat: u32)
        requires
            csr_known(addr),
        ensures
            final(self).mepc() == (if addr == 0x341 {
                dat
            } else {
                old(self).mepc()
            }),
            final(self).mcause() == (if addr == 0x342 {
                dat
            } else {
                old(self).mcause()
            }),
            final(self).mstatus() == (if addr == 0x300 {
                dat
            } else {
                old(self).mstatus()
            }),
            final(self).mtvec() == (if addr == 0x305 {
                dat
            } else {
                old(self).mtvec()
            }),
    {
        match addr {
            0x341 => self.mepc = dat,
            0x342 => self.mcause = dat,
            0x300 => self.mstatus = dat,
            _ => self.mtvec = dat,
        }
    }
}

} // verus!
