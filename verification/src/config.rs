//! Building a SoC from plain configuration records. Reading those records
//! from a file is the caller's business; an inconsistent configuration is
//! rejected here, before the first tick.

use vstd::prelude::*;

verus! {

use crate::mem::Mem;
use crate::mem::MemIO;
use crate::perips::Perips;
use crate::rv32_actor::cpu::Rv32Cpu;
use crate::rv32_actor::Rv32Actor;

/// One CPU record. `class` and `isa` are advisory and not interpreted.
pub struct CCpu {
    pub name: String,
    pub class: String,
    pub isa: String,
}

/// One RAM region record.
pub struct CMem {
    pub name: String,
    pub start: u32,
    pub size: u32,
}

/// One peripheral record. `class` is advisory and not interpreted.
pub struct CPerips {
    pub name: String,
    pub class: u32,
    pub start: u32,
    pub size: u32,
    pub intr: u32,
}

pub struct CSoc {
    pub name: String,
    pub rst_pc: u32,
    pub cpus: Vec<CCpu>,
    pub mems: Vec<CMem>,
    pub perips: Vec<CPerips>,
}

/// A region's window must not run past the top of the address space.
pub open spec fn mem_cfg_ok(m: &CMem) -> bool {
    m.start + m.size <= 0xffffffff
}

/// A peripheral's window must fit, and its interrupt register must lie
/// inside the window.
pub open spec fn perips_cfg_ok(p: &CPerips) -> bool {
    p.start + p.size * 4 <= 0xffffffff && p.start <= p.intr < p.start + p.size * 4
}

#[derive(Clone, Copy, Debug, PartialEq, Eq, Structural)]
pub enum ConfigError {
    MemWindow(usize),
    PeripsWindow(usize),
}

/// Build the SoC the records describe: every hart starts at `rst_pc` with
/// zeroed registers and CSRs, every region and peripheral starts zeroed.
/// The first inconsistent record is reported instead.
pub fn build_soc(cfg: CSoc) -> (r: Result<Rv32Actor, ConfigError>)
    ensures
        r is Ok <==> (forall|j: int|
            0 <= j < cfg.mems@.len() ==> mem_cfg_ok(&#[trigger] cfg.mems@[j])) && (forall|j: int|
            0 <= j < cfg.perips@.len() ==> perips_cfg_ok(&#[trigger] cfg.perips@[j])),
        r matches Err(ConfigError::MemWindow(i)) ==> 0 <= i < cfg.mems@.len() && !mem_cfg_ok(
            &cfg.mems@[i as int],
        ) && (forall|j: int| 0 <= j < i ==> mem_cfg_ok(&#[trigger] cfg.mems@[j])),
        r matches Err(ConfigError::PeripsWindow(i)) ==> 0 <= i < cfg.perips@.len()
            && !perips_cfg_ok(&cfg.perips@[i as int]) && (forall|j: int|
            0 <= j < i ==> perips_cfg_ok(&#[trigger] cfg.perips@[j])) && (forall|j: int|
            0 <= j < cfg.mems@.len() ==> mem_cfg_ok(&#[trigger] cfg.mems@[j])),
        r matches Ok(soc) ==> {
            &&& soc.wf()
            &&& soc.name_seq() == cfg.name@
            &&& soc.tick_count() == 0
            &&& soc.cpus_s().len() == cfg.cpus@.len()
            &&& forall|k: int|
                0 <= k < cfg.cpus@.len() ==> {
                    let c = #[trigger] soc.cpus_s()[k];
                    &&& c.name_seq() == cfg.cpus@[k].name@
                    &&& c.pc() == cfg.rst_pc
                    &&& c.regs() == Seq::new(32, |j: int| 0u32)
                    &&& c.csrs().mepc() == 0
                    &&& c.csrs().mcause() == 0
                    &&& c.csrs().mstatus() == 0
                    &&& c.csrs().mtvec() == 0
                    &&& c.exc() is NoIntr
                }
            &&& soc.mems_s().len() == cfg.mems@.len()
            &&& forall|k: int|
                0 <= k < cfg.mems@.len() ==> {
                    let m = #[trigger] soc.mems_s()[k];
                    &&& m.name_seq() == cfg.mems@[k].name@
                    &&& m.base() == cfg.mems@[k].start
                    &&& m.len_bytes() == cfg.mems@[k].size
                    &&& m.bytes() == Seq::new(cfg.mems@[k].size as nat, |j: int| 0u8)
                }
            &&& soc.perips_s().len() == cfg.perips@.len()
            &&& forall|k: int|
                0 <= k < cfg.perips@.len() ==> {
                    let p = #[trigger] soc.perips_s()[k];
                    &&& p.name_seq() == cfg.perips@[k].name@
                    &&& p.base() == cfg.perips@[k].start
                    &&& p.reg_count() == cfg.perips@[k].size
                    &&& p.intr_addr() == cfg.perips@[k].intr
                    &&& p.regs() == Seq::new(cfg.perips@[k].size as nat, |j: int| 0u32)
                }
        },
{
    let mut i: usize = 0;
    let nm = cfg.mems.len();
    while i < nm
        invariant
            i <= nm,
            nm == cfg.mems@.len(),
            forall|j: int| 0 <= j < i ==> mem_cfg_ok(&#[trigger] cfg.mems@[j]),
        decreases nm - i,
    {
        let m = &cfg.mems[i];
        if !((m.start as u64) + (m.size as u64) <= 0xffffffffu64) {
            return Err(ConfigError::MemWindow(i));
        }
        i += 1;
    }
    let mut i2: usize = 0;
    let np = cfg.perips.len();
    while i2 < np
        invariant
            i2 <= np,
            np == cfg.perips@.len(),
            forall|j: int| 0 <= j < cfg.mems@.len() ==> mem_cfg_ok(&#[trigger] cfg.mems@[j]),
            forall|j: int| 0 <= j < i2 ==> perips_cfg_ok(&#[trigger] cfg.perips@[j]),
        decreases np - i2,
    {
        let p = &cfg.perips[i2];
        let ok = (p.start as u64) + (p.size as u64) * 4 <= 0xffffffffu64 && p.start <= p.intr && (
        p.intr as u64) < (p.start as u64) + (p.size as u64) * 4;
        if !ok {
            return Err(ConfigError::PeripsWindow(i2));
        }
        i2 += 1;
    }
    let ghost gcpus = cfg.cpus@;
    let ghost gmems = cfg.mems@;
    let ghost gperips = cfg.perips@;
    let ghost grst = cfg.rst_pc;
    let CSoc { name, rst_pc, mut cpus, mut mems, mut perips } = cfg;
    let mut soc = Rv32Actor::new(name);
    while cpus.len() > 0
        invariant
            soc.wf(),
            cpus@ == gcpus.skip(soc.cpus_s().len() as int),
            soc.cpus_s().len() <= gcpus.len(),
            rst_pc == grst,
            soc.mems_s().len() == 0,
            soc.perips_s().len() == 0,
            soc.tick_count() == 0,
            soc.name_seq() == cfg.name@,
            forall|k: int|
                0 <= k < soc.cpus_s().len() ==> {
                    let c = #[trigger] soc.cpus_s()[k];
                    &&& c.name_seq() == gcpus[k].name@
                    &&& c.pc() == grst
                    &&& c.regs() == Seq::new(32, |j: int| 0u32)
                    &&& c.csrs().mepc() == 0
                    &&& c.csrs().mcause() == 0
                    &&& c.csrs().mstatus() == 0
                    &&& c.csrs().mtvec() == 0
                    &&& c.exc() is NoIntr
                },
        decreases cpus@.len(),
    {
        let c = cpus.remove(0);
        let cpu = Rv32Cpu::new(c.name, rst_pc);
        soc.add_cpu(cpu);
        proof {
            assert(cpus@ =~= gcpus.skip(soc.cpus_s().len() as int));
        }
    }
    while mems.len() > 0
        invariant
            soc.wf(),
            mems@ == gmems.skip(soc.mems_s().len() as int),
            soc.mems_s().len() <= gmems.len(),
            forall|j: int| 0 <= j < gmems.len() ==> mem_cfg_ok(&#[trigger] gmems[j]),
            soc.perips_s().len() == 0,
            soc.tick_count() == 0,
            soc.name_seq() == cfg.name@,
            soc.cpus_s().len() == gcpus.len(),
            forall|k: int|
                0 <= k < soc.cpus_s().len() ==> {
                    let c = #[trigger] soc.cpus_s()[k];
                    &&& c.name_seq() == gcpus[k].name@
                    &&& c.pc() == grst
                    &&& c.regs() == Seq::new(32, |j: int| 0u32)
                    &&& c.csrs().mepc() == 0
                    &&& c.csrs().mcause() == 0
                    &&& c.csrs().mstatus() == 0
                    &&& c.csrs().mtvec() == 0
                    &&& c.exc() is NoIntr
                },
            forall|k: int|
                0 <= k < soc.mems_s().len() ==> {
                    let m = #[trigger] soc.mems_s()[k];
                    &&& m.name_seq() == gmems[k].name@
                    &&& m.base() == gmems[k].start
                    &&& m.len_bytes() == gmems[k].size
                    &&& m.bytes() == Seq::new(gmems[k].size as nat, |j: int| 0u8)
                },
        decreases mems@.len(),
    {
        proof {
            assert(mems@[0] == gmems[soc.mems_s().len() as int]);
            assert(mem_cfg_ok(&mems@[0]));
        }
        let m = mems.remove(0);
        let mem = Mem::new(m.name, m.start, m.size);
        soc.add_mem(mem);
        proof {
            assert(mems@ =~= gmems.skip(soc.mems_s().len() as int));
        }
    }
    while perips.len() > 0
        invariant
            soc.wf(),
            perips@ == gperips.skip(soc.perips_s().len() as int),
            soc.perips_s().len() <= gperips.len(),
            forall|j: int| 0 <= j < gperips.len() ==> perips_cfg_ok(&#[trigger] gperips[j]),
            soc.tick_count() == 0,
            soc.name_seq() == cfg.name@,
            soc.cpus_s().len() == gcpus.len(),
            soc.mems_s().len() == gmems.len(),
            forall|k: int|
                0 <= k < soc.cpus_s().len() ==> {
                    let c = #[trigger] soc.cpus_s()[k];
                    &&& c.name_seq() == gcpus[k].name@
                    &&& c.pc() == grst
                    &&& c.regs() == Seq::new(32, |j: int| 0u32)
                    &&& c.csrs().mepc() == 0
                    &&& c.csrs().mcause() == 0
                    &&& c.csrs().mstatus() == 0
                    &&& c.csrs().mtvec() == 0
                    &&& c.exc() is NoIntr
                },
            forall|k: int|
                0 <= k < soc.mems_s().len() ==> {
                    let m = #[trigger] soc.mems_s()[k];
                    &&& m.name_seq() == gmems[k].name@
                    &&& m.base() == gmems[k].start
                    &&& m.len_bytes() == gmems[k].size
                    &&& m.bytes() == Seq::new(gmems[k].size as nat, |j: int| 0u8)
                },
            forall|k: int|
                0 <= k < soc.perips_s().len() ==> {
                    let p = #[trigger] soc.perips_s()[k];
                    &&& p.name_seq() == gperips[k].name@
                    &&& p.base() == gperips[k].start
                    &&& p.reg_count() == gperips[k].size
                    &&& p.intr_addr() == gperips[k].intr
                    &&& p.regs() == Seq::new(gperips[k].size as nat, |j: int| 0u32)
                },
        decreases perips@.len(),
    {
        proof {
            assert(perips@[0] == gperips[soc.perips_s().len() as int]);
            assert(perips_cfg_ok(&perips@[0]));
        }
        let p = perips.remove(0);
        let pp = Perips::new(p.name, p.start, p.size, p.intr);
        soc.add_perips(pp);
        proof {
            assert(perips@ =~= gperips.skip(soc.perips_s().len() as int));
        }
    }
    Ok(soc)
}

} // verus!
