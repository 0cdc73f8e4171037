//! An instruction-set simulator for the 32-bit RISC-V integer architecture
//! with the multiply/divide extension (RV32IM), plus a minimal machine-mode
//! privilege model: CSRs, trap delivery and `mret`.
//!
//! The crate is organised around a small system-on-chip model: one or more
//! CPU cores (`rv32_actor::cpu::Rv32Cpu`) share an address-routed bus of RAM
//! regions (`mem::Mem`) and memory-mapped peripherals (`perips::Perips`),
//! all owned and stepped by `rv32_actor::Rv32Actor`. A simpler single-RAM
//! core lives in `riscv_cpu`. Instruction decode and the exact arithmetic of
//! every instruction are specified in `isa`.

pub mod com_reg;
pub mod config;
pub mod intrrupt;
pub mod isa;
pub mod mem;
pub mod perips;
pub mod ram;
pub mod riscv_cpu;
pub mod rv32_actor;
pub mod utils;
