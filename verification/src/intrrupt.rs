//! The kinds of trap a hart can have pending.

use vstd::prelude::*;

verus! {

/// A pending trap slot for one hart. `NoIntr` means nothing is pending.
/// The payload of an exception is the program counter (or the faulting
/// address) at the time the exception was latched.
#[derive(Clone, Copy)]
pub enum IntrType {
    NoIntr,
    IntrUserSoft(u32),
    IntrByExt(u32),
    ExceInstruction(u32),
    ExceMem(u32),
}

} // verus!
