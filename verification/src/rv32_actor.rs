//! The system-on-chip model: harts, RAM regions and peripherals joined by
//! an address-routed bus, stepped one instruction per hart per tick, with
//! machine-mode trap delivery after each tick.

pub mod cpu;
pub mod csr_reg;

use vstd::prelude::*;

verus! {

use crate::intrrupt::IntrType;
use crate::isa::{add32, branch_legal, branch_taken, csr_of, fence_legal, funct3, imm_b, imm_i,
    imm_j, imm_s, imm_u, le16, load_legal, math_i_legal, math_i_val, math_legal, math_val, opcode,
    rd_of, reg_of, rs1_of, rs2_of, set_reg, sext16, sext8, store_legal};
use crate::mem::{Mem, MemIO};
use crate::perips::Perips;
use crate::rv32_actor::cpu::Rv32Cpu;
use crate::rv32_actor::csr_reg::{csr_known, is_csr_known};

/// A host-level fault that aborts a tick: the guest touched a CSR address
/// the machine does not implement. This is a bug surfaced to the caller,
/// not a guest-visible trap.
#[derive(Clone, Copy, Debug, PartialEq, Eq, Structural)]
pub enum SocError {
    CsrUnknown(u32),
}

// ------------------------------------------------------------------
// Bus dispatch: the first device whose window contains the address wins
// ------------------------------------------------------------------

/// Every device in the sequence satisfies its invariant.
pub open spec fn devs_wf<T: MemIO>(devs: Seq<T>) -> bool {
    forall|i: int| 0 <= i < devs.len() ==> #[trigger] devs[i].inv()
}

/// The index of the first device whose window contains `addr`, or -1.
pub open spec fn dev_hit<T: MemIO>(devs: Seq<T>, addr: u32) -> int
    decreases devs.len(),
{
    if devs.len() <= 0 {
        -1
    } else if devs[0].contains(addr) {
        0
    } else {
        let r = dev_hit(devs.drop_first(), addr);
        if r < 0 {
            -1
        } else {
            r + 1
        }
    }
}

/// What the first-hit index means: it is in range, its device contains the
/// address, no earlier device does; a miss means no device contains it.
pub proof fn lemma_dev_hit<T: MemIO>(devs: Seq<T>, addr: u32)
    ensures
        dev_hit(devs, addr) >= 0 ==> dev_hit(devs, addr) < devs.len() && devs[dev_hit(
            devs,
            addr,
        )].contains(addr),
        forall|j: int| 0 <= j < dev_hit(devs, addr) ==> !(#[trigger] devs[j].contains(addr)),
        dev_hit(devs, addr) < 0 ==> forall|j: int|
            0 <= j < devs.len() ==> !(#[trigger] devs[j].contains(addr)),
    decreases devs.len(),
{
    if devs.len() == 0 {
    } else if devs[0].contains(addr) {
    } else {
        let rest = devs.drop_first();
        lemma_dev_hit(rest, addr);
        assert(forall|j: int| 0 <= j < rest.len() ==> rest[j] == devs[j + 1]);
        let hr = dev_hit(rest, addr);
        if hr >= 0 {
            assert(dev_hit(devs, addr) == hr + 1);
            assert(devs[hr + 1] == rest[hr]);
            assert forall|j: int| 1 <= j < hr + 1 implies !(#[trigger] devs[j].contains(
                addr,
            )) by {
                assert(!rest[j - 1].contains(addr));
            }
        } else {
            assert forall|j: int| 1 <= j < devs.len() implies !(#[trigger] devs[j].contains(
                addr,
            )) by {
                assert(!rest[j - 1].contains(addr));
            }
        }
    }
}

/// Whether an instruction fetch at `pc` succeeds: some region contains the
/// address and the whole word lies inside it.
pub open spec fn fetch_ok(mems: Seq<Mem>, pc: u32) -> bool {
    let h = dev_hit(mems, pc);
    h >= 0 && mems[h].word_ok(pc)
}

/// The word a successful instruction fetch at `pc` returns, supplied by
/// the first region containing the address; a failed fetch reads as zero.
pub open spec fn fetch_word(mems: Seq<Mem>, pc: u32) -> u32 {
    let h = dev_hit(mems, pc);
    if h >= 0 && mems[h].word_ok(pc) {
        mems[h].word_at(pc)
    } else {
        0
    }
}

// ------------------------------------------------------------------
// Data loads and stores through the bus
// ------------------------------------------------------------------

/// The byte a byte-wide load returns: the first region containing the
/// address supplies it, everything else reads zero.
pub open spec fn mem_byte(mems: Seq<Mem>, addr: u32) -> u8 {
    let h = dev_hit(mems, addr);
    if h >= 0 {
        mems[h].bytes()[addr - mems[h].base()]
    } else {
        0u8
    }
}

/// The halfword a halfword load returns; one that straddles the end of its
/// region reads zero.
pub open spec fn mem_half(mems: Seq<Mem>, addr: u32) -> u16 {
    let h = dev_hit(mems, addr);
    if h >= 0 && mems[h].fits(addr, 2) {
        le16(mems[h].bytes()[addr - mems[h].base()], mems[h].bytes()[addr - mems[h].base() + 1])
    } else {
        0u16
    }
}

/// The word a data load returns: regions are searched first, peripherals
/// only when no region contains the address.
pub open spec fn lw_result(mems: Seq<Mem>, perips: Seq<Perips>, addr: u32) -> u32 {
    let h = dev_hit(mems, addr);
    if h >= 0 {
        if mems[h].word_ok(addr) {
            mems[h].word_at(addr)
        } else {
            0u32
        }
    } else {
        let hp = dev_hit(perips, addr);
        if hp >= 0 {
            perips[hp].word_at(addr)
        } else {
            0u32
        }
    }
}

/// The destination value of a legal load instruction.
pub open spec fn load_result(mems: Seq<Mem>, perips: Seq<Perips>, regs: Seq<u32>, i: u32) -> u32 {
    let addr = add32(reg_of(regs, rs1_of(i)), imm_i(i));
    let f3 = funct3(i);
    if f3 == 0 {
        sext8(mem_byte(mems, addr) as u32)
    } else if f3 == 4 {
        mem_byte(mems, addr) as u32
    } else if f3 == 1 {
        sext16(mem_half(mems, addr) as u32)
    } else if f3 == 5 {
        mem_half(mems, addr) as u32
    } else {
        lw_result(mems, perips, addr)
    }
}

/// A byte store lands in the first region containing the address and
/// changes nothing else; with no region hit it is dropped.
pub open spec fn mems_updated_byte(pre: Seq<Mem>, post: Seq<Mem>, addr: u32, v: u8) -> bool {
    let h = dev_hit(pre, addr);
    &&& post.len() == pre.len()
    &&& if h >= 0 {
        &&& forall|j: int| 0 <= j < pre.len() && j != h ==> post[j] == pre[j]
        &&& post[h].same_shape(&pre[h])
        &&& post[h].bytes() == pre[h].bytes().update(addr - pre[h].base(), v)
    } else {
        post == pre
    }
}

/// A halfword store; one that straddles the end of its region is dropped.
pub open spec fn mems_updated_half(pre: Seq<Mem>, post: Seq<Mem>, addr: u32, v: u16) -> bool {
    let h = dev_hit(pre, addr);
    &&& post.len() == pre.len()
    &&& if h >= 0 && pre[h].fits(addr, 2) {
        &&& forall|j: int| 0 <= j < pre.len() && j != h ==> post[j] == pre[j]
        &&& post[h].same_shape(&pre[h])
        &&& post[h].bytes() == pre[h].bytes().update(addr - pre[h].base(), (v & 0xff) as u8).update(
            addr - pre[h].base() + 1,
            ((v >> 8) & 0xff) as u8,
        )
    } else {
        post == pre
    }
}

/// A word store into the region list; one that straddles is dropped.
pub open spec fn mems_updated_word(pre: Seq<Mem>, post: Seq<Mem>, addr: u32, v: u32) -> bool {
    let h = dev_hit(pre, addr);
    &&& post.len() == pre.len()
    &&& if h >= 0 && pre[h].fits(addr, 4) {
        &&& forall|j: int| 0 <= j < pre.len() && j != h ==> post[j] == pre[j]
        &&& post[h].wrote(&pre[h], v, addr)
    } else {
        post == pre
    }
}

/// A word store into the peripheral list.
pub open spec fn perips_updated_word(pre: Seq<Perips>, post: Seq<Perips>, addr: u32, v: u32) -> bool {
    let hp = dev_hit(pre, addr);
    &&& post.len() == pre.len()
    &&& if hp >= 0 {
        &&& forall|j: int| 0 <= j < pre.len() && j != hp ==> post[j] == pre[j]
        &&& post[hp].wrote(&pre[hp], v, addr)
    } else {
        post == pre
    }
}

/// The whole effect of a legal store on the bus devices. Sub-word stores
/// are never routed to peripherals; a word store reaches them only when no
/// region contains the address.
pub open spec fn store_effect(
    pre_m: Seq<Mem>,
    post_m: Seq<Mem>,
    pre_p: Seq<Perips>,
    post_p: Seq<Perips>,
    addr: u32,
    rs2val: u32,
    i: u32,
) -> bool {
    let f3 = funct3(i);
    if f3 == 0 {
        post_p == pre_p && mems_updated_byte(pre_m, post_m, addr, (rs2val & 0xff) as u8)
    } else if f3 == 1 {
        post_p == pre_p && mems_updated_half(pre_m, post_m, addr, (rs2val & 0xffff) as u16)
    } else {
        if dev_hit(pre_m, addr) >= 0 {
            post_p == pre_p && mems_updated_word(pre_m, post_m, addr, rs2val)
        } else {
            post_m == pre_m && perips_updated_word(pre_p, post_p, addr, rs2val)
        }
    }
}

// ------------------------------------------------------------------
// Per-instruction transitions of one hart
// ------------------------------------------------------------------

/// The hart keeps its CSRs, pending slot and name, and moves to exactly the
/// given register bank and program counter.
pub open spec fn only_regs_pc(pre: &Rv32Cpu, post: &Rv32Cpu, regs: Seq<u32>, pc: u32) -> bool {
    &&& post.regs() == regs
    &&& post.pc() == pc
    &&& post.csrs() == pre.csrs()
    &&& post.exc() == pre.exc()
    &&& post.name_seq() == pre.name_seq()
}

/// Whether a SYSTEM instruction is a CSR access (as opposed to
/// ECALL/EBREAK/MRET or an illegal encoding).
pub open spec fn sys_csr_op(i: u32) -> bool {
    funct3(i) == 1 || funct3(i) == 2 || funct3(i) == 3 || funct3(i) == 5 || funct3(i) == 6
        || funct3(i) == 7
}

pub open spec fn sys_legal(i: u32) -> bool {
    (funct3(i) == 0 && (csr_of(i) == 0 || csr_of(i) == 1 || csr_of(i) == 0x302)) || sys_csr_op(i)
}

/// The value a CSR access writes back: `t` is the old CSR value, `rs1val`
/// the value read through rs1, `zimm` the zero-extended rs1 field itself.
pub open spec fn csr_new_val(i: u32, t: u32, rs1val: u32, zimm: u32) -> u32 {
    if funct3(i) == 1 {
        rs1val
    } else if funct3(i) == 2 {
        rs1val | t
    } else if funct3(i) == 3 {
        !rs1val & t
    } else if funct3(i) == 5 {
        zimm
    } else if funct3(i) == 6 {
        zimm | t
    } else {
        !zimm & t
    }
}

/// The transition a legal SYSTEM instruction makes on the hart.
pub open spec fn sys_step(pre: &Rv32Cpu, post: &Rv32Cpu, i: u32) -> bool {
    if funct3(i) == 0 {
        if csr_of(i) == 0x302 {
            // mret: re-enable machine interrupts and return to mepc.
            &&& post.regs() == pre.regs()
            &&& post.pc() == pre.csrs().mepc()
            &&& post.exc() == pre.exc()
            &&& post.name_seq() == pre.name_seq()
            &&& post.csrs().mstatus() == pre.csrs().mstatus() | 0x08
            &&& post.csrs().mepc() == pre.csrs().mepc()
            &&& post.csrs().mcause() == pre.csrs().mcause()
            &&& post.csrs().mtvec() == pre.csrs().mtvec()
        } else {
            // ecall / ebreak: diagnostic only in this subset (no trap); the
            // program counter still advances.
            only_regs_pc(pre, post, pre.regs(), add32(pre.pc(), 4))
        }
    } else {
        // CSR read-modify-write; the read value lands in rd even when the
        // write is dropped for x0.
        let c = csr_of(i);
        let t = pre.csrs().spec_read(c);
        let v = csr_new_val(i, t, reg_of(pre.regs(), rs1_of(i)), rs1_of(i));
        &&& post.regs() == set_reg(pre.regs(), rd_of(i), t)
        &&& post.pc() == add32(pre.pc(), 4)
        &&& post.exc() == pre.exc()
        &&& post.name_seq() == pre.name_seq()
        &&& post.csrs().mepc() == (if c == 0x341 {
            v
        } else {
            pre.csrs().mepc()
        })
        &&& post.csrs().mcause() == (if c == 0x342 {
            v
        } else {
            pre.csrs().mcause()
        })
        &&& post.csrs().mstatus() == (if c == 0x300 {
            v
        } else {
            pre.csrs().mstatus()
        })
        &&& post.csrs().mtvec() == (if c == 0x305 {
            v
        } else {
            pre.csrs().mtvec()
        })
    }
}

// ------------------------------------------------------------------
// Trap coordination
// ------------------------------------------------------------------

/// Machine interrupts enabled: bit 3 of mstatus.
pub open spec fn mie_set(c: &Rv32Cpu) -> bool {
    c.csrs().mstatus() & 0x08 == 0x08
}

pub open spec fn has_pending(c: &Rv32Cpu) -> bool {
    !(c.exc() is NoIntr)
}

/// A synchronous exception is delivered on a hart exactly when one is
/// pending and machine interrupts are enabled.
pub open spec fn sync_fires(c: &Rv32Cpu) -> bool {
    mie_set(c) && has_pending(c)
}

/// The CSR and control transfer of a delivered trap: mepc holds the PC as
/// it stood after the faulting instruction aborted, mcause the cause code,
/// MIE is cleared, control moves to mtvec, and the pending slot empties.
pub open spec fn trap_entered(pre: &Rv32Cpu, post: &Rv32Cpu, cause: u32) -> bool {
    &&& post.regs() == pre.regs()
    &&& post.name_seq() == pre.name_seq()
    &&& post.csrs().mepc() == pre.pc()
    &&& post.csrs().mcause() == cause
    &&& post.csrs().mstatus() == pre.csrs().mstatus() & !0x08u32
    &&& post.csrs().mtvec() == pre.csrs().mtvec()
    &&& post.pc() == pre.csrs().mtvec()
    &&& post.exc() is NoIntr
}

/// What the synchronous scan does to one hart: deliver, or leave alone (a
/// pending exception with interrupts disabled stays pending).
pub open spec fn sync_phase_cpu(pre: &Rv32Cpu, post: &Rv32Cpu) -> bool {
    if sync_fires(pre) {
        trap_entered(pre, post, 0x02)
    } else {
        *post == *pre
    }
}

pub open spec fn any_sync_fires(cpus: Seq<Rv32Cpu>) -> bool {
    exists|i: int| 0 <= i < cpus.len() && sync_fires(&cpus[i])
}

/// The top bit of the interrupt register signals a pending interrupt.
pub open spec fn intr_flagged(p: &Perips) -> bool {
    p.intr_val() & 0x80000000 == 0x80000000
}

pub open spec fn any_intr_flagged(perips: Seq<Perips>) -> bool {
    exists|i: int| 0 <= i < perips.len() && intr_flagged(&perips[i])
}

/// Every flagged peripheral has its interrupt register cleared; the others
/// are untouched.
pub open spec fn perips_cleared(pre: Seq<Perips>, post: Seq<Perips>) -> bool {
    &&& post.len() == pre.len()
    &&& forall|i: int|
        0 <= i < pre.len() ==> (#[trigger] post[i]).same_shape(&pre[i]) && post[i].regs() == (
        if intr_flagged(&pre[i]) {
            pre[i].regs().update(pre[i].reg_index(pre[i].intr_addr()), 0u32)
        } else {
            pre[i].regs()
        })
}

/// The whole trap-coordination phase: synchronous exceptions are delivered
/// per hart; if none was delivered anywhere, every flagged peripheral is
/// cleared and, when one was flagged, an external interrupt is delivered to
/// hart 0 (with cause 0x80000008 and no MIE gate).
pub open spec fn trap_rel(
    pre_c: Seq<Rv32Cpu>,
    post_c: Seq<Rv32Cpu>,
    pre_p: Seq<Perips>,
    post_p: Seq<Perips>,
) -> bool {
    let async_fires = !any_sync_fires(pre_c) && any_intr_flagged(pre_p) && pre_c.len() > 0;
    &&& post_c.len() == pre_c.len()
    &&& forall|i: int| 1 <= i < pre_c.len() ==> sync_phase_cpu(&pre_c[i], &#[trigger] post_c[i])
    &&& pre_c.len() > 0 ==> (if async_fires {
        trap_entered(&pre_c[0], &post_c[0], 0x80000008)
    } else {
        sync_phase_cpu(&pre_c[0], &post_c[0])
    })
    &&& if any_sync_fires(pre_c) {
        post_p == pre_p
    } else {
        perips_cleared(pre_p, post_p)
    }
}

/// Whether the instruction a hart is about to execute would abort the tick
/// with a host-level CSR fault.
pub open spec fn hart_fault(c: &Rv32Cpu, mems: Seq<Mem>) -> bool {
    let i = fetch_word(mems, c.pc());
    fetch_ok(mems, c.pc()) && opcode(i) == 0x73 && sys_csr_op(i) && !csr_known(csr_of(i))
}

/// One hart's fetch-and-execute step. A failed fetch (no region contains
/// the program counter, or the word straddles its region's end) latches a
/// memory exception; a fetched word outside the decode table (a zero word
/// included) latches an illegal-instruction exception; anything else
/// executes.
pub open spec fn hart_step(
    pre: &Rv32Cpu,
    post: &Rv32Cpu,
    pre_m: Seq<Mem>,
    post_m: Seq<Mem>,
    pre_p: Seq<Perips>,
    post_p: Seq<Perips>,
) -> bool {
    let i = fetch_word(pre_m, pre.pc());
    if !fetch_ok(pre_m, pre.pc()) {
        &&& post_m == pre_m
        &&& post_p == pre_p
        &&& post.exc() == IntrType::ExceMem(pre.pc())
        &&& post.pc() == pre.pc()
        &&& post.same_state(pre)
    } else if instr_legal(i) {
        cpu_step(pre, post, pre_m, post_m, pre_p, post_p, i)
    } else {
        &&& post_m == pre_m
        &&& post_p == pre_p
        &&& post.exc() == IntrType::ExceInstruction(pre.pc())
        &&& post.pc() == pre.pc()
        &&& post.same_state(pre)
    }
}

/// The first `k` harts have stepped, in array order, each seeing the
/// memory and peripheral state its predecessors left behind; the harts from
/// `k` on are untouched.
pub open spec fn harts_chain(
    c0: Seq<Rv32Cpu>,
    c1: Seq<Rv32Cpu>,
    m0: Seq<Mem>,
    m1: Seq<Mem>,
    p0: Seq<Perips>,
    p1: Seq<Perips>,
    k: int,
) -> bool
    decreases k,
{
    if k <= 0 {
        c1 == c0 && m1 == m0 && p1 == p0
    } else {
        exists|cm: Seq<Rv32Cpu>, mm: Seq<Mem>, pm: Seq<Perips>|
            {
                &&& harts_chain(c0, cm, m0, mm, p0, pm, k - 1)
                &&& 0 < k <= cm.len()
                &&& c1.len() == cm.len()
                &&& #[trigger] hart_step(&cm[k - 1], &c1[k - 1], mm, m1, pm, p1)
                &&& forall|j: int| 0 <= j < cm.len() && j != k - 1 ==> c1[j] == (#[trigger] cm[j])
            }
    }
}

/// Extending a chain of hart steps by one more hart.
pub proof fn lemma_harts_chain_snoc(
    c0: Seq<Rv32Cpu>,
    cm: Seq<Rv32Cpu>,
    c1: Seq<Rv32Cpu>,
    m0: Seq<Mem>,
    mm: Seq<Mem>,
    m1: Seq<Mem>,
    p0: Seq<Perips>,
    pm: Seq<Perips>,
    p1: Seq<Perips>,
    k: int,
)
    requires
        harts_chain(c0, cm, m0, mm, p0, pm, k - 1),
        0 < k <= cm.len(),
        c1.len() == cm.len(),
        hart_step(&cm[k - 1], &c1[k - 1], mm, m1, pm, p1),
        forall|j: int| 0 <= j < cm.len() && j != k - 1 ==> c1[j] == (#[trigger] cm[j]),
    ensures
        harts_chain(c0, c1, m0, m1, p0, p1, k),
{
    assert(harts_chain(c0, cm, m0, mm, p0, pm, k - 1));
}

/// A full tick of any SoC: every hart steps once, in array order, then the
/// trap coordinator runs on the resulting state.
pub open spec fn tick_full_rel(pre: &Rv32Actor, post: &Rv32Actor) -> bool {
    exists|mid_c: Seq<Rv32Cpu>, mid_m: Seq<Mem>, mid_p: Seq<Perips>|
        {
            &&& #[trigger] harts_chain(
                pre.cpus_s(),
                mid_c,
                pre.mems_s(),
                mid_m,
                pre.perips_s(),
                mid_p,
                pre.cpus_s().len() as int,
            )
            &&& post.mems_s() == mid_m
            &&& trap_rel(mid_c, post.cpus_s(), mid_p, post.perips_s())
        }
}

/// An aborted tick: the first `k` harts stepped, hart `k` then faulted on
/// an unimplemented CSR, and the trap coordinator never ran.
pub open spec fn tick_err_rel(pre: &Rv32Actor, post: &Rv32Actor, e: SocError) -> bool {
    exists|k: int|
        {
            &&& 0 <= k < pre.cpus_s().len()
            &&& #[trigger] harts_chain(
                pre.cpus_s(),
                post.cpus_s(),
                pre.mems_s(),
                post.mems_s(),
                pre.perips_s(),
                post.perips_s(),
                k,
            )
            &&& hart_fault(&post.cpus_s()[k], post.mems_s())
            &&& e == SocError::CsrUnknown(
                csr_of(fetch_word(post.mems_s(), post.cpus_s()[k].pc())),
            )
            &&& post.tick_count() == pre.tick_count() + k
        }
}

/// A full tick of a single-hart SoC: the hart steps, then the trap
/// coordinator runs on the resulting state.
pub open spec fn tick_rel_single(pre: &Rv32Actor, post: &Rv32Actor) -> bool {
    exists|mid_c: Rv32Cpu, mid_m: Seq<Mem>, mid_p: Seq<Perips>|
        {
            &&& #[trigger] hart_step(
                &pre.cpus_s()[0],
                &mid_c,
                pre.mems_s(),
                mid_m,
                pre.perips_s(),
                mid_p,
            )
            &&& post.mems_s() == mid_m
            &&& trap_rel(seq![mid_c], post.cpus_s(), mid_p, post.perips_s())
        }
}

/// Whether an instruction word is in the decode table at all.
pub open spec fn instr_legal(i: u32) -> bool {
    let op = opcode(i);
    (op == 0x37 || op == 0x17 || op == 0x6f || op == 0x67) || (op == 0x63 && branch_legal(i)) || (
    op == 0x13 && math_i_legal(i)) || (op == 0x33 && math_legal(i)) || (op == 0x03 && load_legal(
        i,
    )) || (op == 0x23 && store_legal(i)) || (op == 0x0f && fence_legal(i)) || (op == 0x73
        && sys_legal(i))
}

/// The complete transition one legal instruction makes on a hart and the
/// bus devices.
pub open spec fn cpu_step(
    pre: &Rv32Cpu,
    post: &Rv32Cpu,
    pre_m: Seq<Mem>,
    post_m: Seq<Mem>,
    pre_p: Seq<Perips>,
    post_p: Seq<Perips>,
    i: u32,
) -> bool {
    let op = opcode(i);
    let pc = pre.pc();
    let regs = pre.regs();
    if op == 0x23 {
        only_regs_pc(pre, post, regs, add32(pc, 4)) && store_effect(
            pre_m,
            post_m,
            pre_p,
            post_p,
            add32(reg_of(regs, rs1_of(i)), imm_s(i)),
            reg_of(regs, rs2_of(i)),
            i,
        )
    } else {
        &&& post_m == pre_m
        &&& post_p == pre_p
        &&& if op == 0x37 {
            only_regs_pc(pre, post, set_reg(regs, rd_of(i), imm_u(i)), add32(pc, 4))
        } else if op == 0x17 {
            only_regs_pc(pre, post, set_reg(regs, rd_of(i), add32(imm_u(i), pc)), add32(pc, 4))
        } else if op == 0x6f {
            only_regs_pc(pre, post, set_reg(regs, rd_of(i), add32(pc, 4)), add32(pc, imm_j(i)))
        } else if op == 0x67 {
            only_regs_pc(
                pre,
                post,
                set_reg(regs, rd_of(i), add32(pc, 4)),
                add32(reg_of(regs, rs1_of(i)), imm_i(i)) & 0xfffffffe,
            )
        } else if op == 0x63 {
            only_regs_pc(
                pre,
                post,
                regs,
                if branch_taken(reg_of(regs, rs1_of(i)), reg_of(regs, rs2_of(i)), funct3(i)) {
                    add32(pc, imm_b(i))
                } else {
                    add32(pc, 4)
                },
            )
        } else if op == 0x13 {
            only_regs_pc(
                pre,
                post,
                set_reg(regs, rd_of(i), math_i_val(reg_of(regs, rs1_of(i)), i)),
                add32(pc, 4),
            )
        } else if op == 0x33 {
            only_regs_pc(
                pre,
                post,
                set_reg(
                    regs,
                    rd_of(i),
                    math_val(reg_of(regs, rs1_of(i)), reg_of(regs, rs2_of(i)), i),
                ),
                add32(pc, 4),
            )
        } else if op == 0x03 {
            only_regs_pc(
                pre,
                post,
                set_reg(regs, rd_of(i), load_result(pre_m, pre_p, regs, i)),
                add32(pc, 4),
            )
        } else if op == 0x0f {
            only_regs_pc(pre, post, regs, add32(pc, 4))
        } else {
            sys_step(pre, post, i)
        }
    }
}

// ------------------------------------------------------------------
// Lookup by component name (first match wins)
// ------------------------------------------------------------------

pub open spec fn cpu_name_hit(cpus: Seq<Rv32Cpu>, name: Seq<char>) -> int
    decreases cpus.len(),
{
    if cpus.len() <= 0 {
        -1
    } else if cpus[0].name_seq() == name {
        0
    } else {
        let r = cpu_name_hit(cpus.drop_first(), name);
        if r < 0 {
            -1
        } else {
            r + 1
        }
    }
}

pub open spec fn mem_name_hit(mems: Seq<Mem>, name: Seq<char>) -> int
    decreases mems.len(),
{
    if mems.len() <= 0 {
        -1
    } else if mems[0].name_seq() == name {
        0
    } else {
        let r = mem_name_hit(mems.drop_first(), name);
        if r < 0 {
            -1
        } else {
            r + 1
        }
    }
}

pub open spec fn perips_name_hit(perips: Seq<Perips>, name: Seq<char>) -> int
    decreases perips.len(),
{
    if perips.len() <= 0 {
        -1
    } else if perips[0].name_seq() == name {
        0
    } else {
        let r = perips_name_hit(perips.drop_first(), name);
        if r < 0 {
            -1
        } else {
            r + 1
        }
    }
}

pub proof fn lemma_cpu_name_hit(cpus: Seq<Rv32Cpu>, name: Seq<char>)
    ensures
        cpu_name_hit(cpus, name) >= 0 ==> cpu_name_hit(cpus, name) < cpus.len() && cpus[
            cpu_name_hit(cpus, name)
        ].name_seq() == name,
        forall|j: int|
            0 <= j < cpu_name_hit(cpus, name) ==> (#[trigger] cpus[j].name_seq()) != name,
        cpu_name_hit(cpus, name) < 0 ==> forall|j: int|
            0 <= j < cpus.len() ==> (#[trigger] cpus[j].name_seq()) != name,
    decreases cpus.len(),
{
    if cpus.len() == 0 {
    } else if cpus[0].name_seq() == name {
    } else {
        let rest = cpus.drop_first();
        lemma_cpu_name_hit(rest, name);
        assert(forall|j: int| 0 <= j < rest.len() ==> rest[j] == cpus[j + 1]);
        let hr = cpu_name_hit(rest, name);
        if hr >= 0 {
            assert forall|j: int| 1 <= j < hr + 1 implies (#[trigger] cpus[j].name_seq())
                != name by {
                assert(rest[j - 1].name_seq() != name);
            }
        } else {
            assert forall|j: int| 1 <= j < cpus.len() implies (#[trigger] cpus[j].name_seq())
                != name by {
                assert(rest[j - 1].name_seq() != name);
            }
        }
    }
}

pub proof fn lemma_mem_name_hit(mems: Seq<Mem>, name: Seq<char>)
    ensures
        mem_name_hit(mems, name) >= 0 ==> mem_name_hit(mems, name) < mems.len() && mems[
            mem_name_hit(mems, name)
        ].name_seq() == name,
        forall|j: int|
            0 <= j < mem_name_hit(mems, name) ==> (#[trigger] mems[j].name_seq()) != name,
        mem_name_hit(mems, name) < 0 ==> forall|j: int|
            0 <= j < mems.len() ==> (#[trigger] mems[j].name_seq()) != name,
    decreases mems.len(),
{
    if mems.len() == 0 {
    } else if mems[0].name_seq() == name {
    } else {
        let rest = mems.drop_first();
        lemma_mem_name_hit(rest, name);
        assert(forall|j: int| 0 <= j < rest.len() ==> rest[j] == mems[j + 1]);
        let hr = mem_name_hit(rest, name);
        if hr >= 0 {
            assert forall|j: int| 1 <= j < hr + 1 implies (#[trigger] mems[j].name_seq())
                != name by {
                assert(rest[j - 1].name_seq() != name);
            }
        } else {
            assert forall|j: int| 1 <= j < mems.len() implies (#[trigger] mems[j].name_seq())
                != name by {
                assert(rest[j - 1].name_seq() != name);
            }
        }
    }
}

pub proof fn lemma_perips_name_hit(perips: Seq<Perips>, name: Seq<char>)
    ensures
        perips_name_hit(perips, name) >= 0 ==> perips_name_hit(perips, name) < perips.len()
            && perips[perips_name_hit(perips, name)].name_seq() == name,
        forall|j: int|
            0 <= j < perips_name_hit(perips, name) ==> (#[trigger] perips[j].name_seq()) != name,
        perips_name_hit(perips, name) < 0 ==> forall|j: int|
            0 <= j < perips.len() ==> (#[trigger] perips[j].name_seq()) != name,
    decreases perips.len(),
{
    if perips.len() == 0 {
    } else if perips[0].name_seq() == name {
    } else {
        let rest = perips.drop_first();
        lemma_perips_name_hit(rest, name);
        assert(forall|j: int| 0 <= j < rest.len() ==> rest[j] == perips[j + 1]);
        let hr = perips_name_hit(rest, name);
        if hr >= 0 {
            assert forall|j: int| 1 <= j < hr + 1 implies (#[trigger] perips[j].name_seq())
                != name by {
                assert(rest[j - 1].name_seq() != name);
            }
        } else {
            assert forall|j: int| 1 <= j < perips.len() implies (#[trigger] perips[
                j
            ].name_seq()) != name by {
                assert(rest[j - 1].name_seq() != name);
            }
        }
    }
}

/// What the debugger's poke does: the first component bearing the name is
/// targeted; a CSR address the machine lacks, a miss, or a straddling word
/// write changes nothing.
pub open spec fn set_v_rel(
    pre: &Rv32Actor,
    post: &Rv32Actor,
    name: Seq<char>,
    addr: u32,
    val: u32,
) -> bool {
    let hc = cpu_name_hit(pre.cpus_s(), name);
    let hm = mem_name_hit(pre.mems_s(), name);
    let hp = perips_name_hit(pre.perips_s(), name);
    if hc >= 0 {
        &&& post.mems_s() == pre.mems_s()
        &&& post.perips_s() == pre.perips_s()
        &&& post.cpus_s().len() == pre.cpus_s().len()
        &&& forall|j: int|
            0 <= j < pre.cpus_s().len() && j != hc ==> (#[trigger] post.cpus_s()[j])
                == pre.cpus_s()[j]
        &&& {
            let c0 = pre.cpus_s()[hc];
            let c1 = post.cpus_s()[hc];
            if addr < 32 {
                &&& c1.regs() == set_reg(c0.regs(), addr, val)
                &&& c1.pc() == c0.pc()
                &&& c1.exc() == c0.exc()
                &&& c1.csrs() == c0.csrs()
                &&& c1.name_seq() == c0.name_seq()
            } else if csr_known(addr) {
                &&& c1.regs() == c0.regs()
                &&& c1.pc() == c0.pc()
                &&& c1.exc() == c0.exc()
                &&& c1.name_seq() == c0.name_seq()
                &&& c1.csrs().spec_read(0x300) == (if addr == 0x300 {
                    val
                } else {
                    c0.csrs().spec_read(0x300)
                })
                &&& c1.csrs().spec_read(0x305) == (if addr == 0x305 {
                    val
                } else {
                    c0.csrs().spec_read(0x305)
                })
                &&& c1.csrs().spec_read(0x341) == (if addr == 0x341 {
                    val
                } else {
                    c0.csrs().spec_read(0x341)
                })
                &&& c1.csrs().spec_read(0x342) == (if addr == 0x342 {
                    val
                } else {
                    c0.csrs().spec_read(0x342)
                })
            } else {
                c1 == c0
            }
        }
    } else if hm >= 0 {
        &&& post.cpus_s() == pre.cpus_s()
        &&& post.perips_s() == pre.perips_s()
        &&& post.mems_s().len() == pre.mems_s().len()
        &&& forall|j: int|
            0 <= j < pre.mems_s().len() && j != hm ==> (#[trigger] post.mems_s()[j])
                == pre.mems_s()[j]
        &&& if pre.mems_s()[hm].fits(addr, 4) {
            post.mems_s()[hm].wrote(&pre.mems_s()[hm], val, addr)
        } else {
            post.mems_s()[hm] == pre.mems_s()[hm]
        }
    } else if hp >= 0 {
        &&& post.cpus_s() == pre.cpus_s()
        &&& post.mems_s() == pre.mems_s()
        &&& post.perips_s().len() == pre.perips_s().len()
        &&& forall|j: int|
            0 <= j < pre.perips_s().len() && j != hp ==> (#[trigger] post.perips_s()[j])
                == pre.perips_s()[j]
        &&& post.perips_s()[hp].wrote(&pre.perips_s()[hp], val, addr)
    } else {
        &&& post.cpus_s() == pre.cpus_s()
        &&& post.mems_s() == pre.mems_s()
        &&& post.perips_s() == pre.perips_s()
    }
}

// ------------------------------------------------------------------
// Laws about stores and delivered traps
// ------------------------------------------------------------------

/// A store never touches the bytes of a region that does not contain its
/// address: only the first region containing the address changes at all.
pub proof fn lemma_store_preserves_other_regions(
    pre: Seq<Mem>,
    post: Seq<Mem>,
    addr: u32,
    j: int,
)
    requires
        0 <= j < pre.len(),
        !pre[j].contains(addr),
    ensures
        forall|v: u8| mems_updated_byte(pre, post, addr, v) ==> post[j] == pre[j],
        forall|v: u16| mems_updated_half(pre, post, addr, v) ==> post[j] == pre[j],
        forall|v: u32| mems_updated_word(pre, post, addr, v) ==> post[j] == pre[j],
{
    lemma_dev_hit(pre, addr);
}

/// The same, lifted to the whole store effect of an instruction step (the
/// relation `cpu_step` and `tick_full_rel` use): whatever width a legal
/// store has, a region that does not contain its address is untouched, and
/// so are all peripherals unless no region contained the address.
pub proof fn lemma_step_preserves_other_regions(
    pre_m: Seq<Mem>,
    post_m: Seq<Mem>,
    pre_p: Seq<Perips>,
    post_p: Seq<Perips>,
    addr: u32,
    rs2val: u32,
    i: u32,
    j: int,
)
    requires
        store_effect(pre_m, post_m, pre_p, post_p, addr, rs2val, i),
        0 <= j < pre_m.len(),
        !pre_m[j].contains(addr),
    ensures
        post_m[j] == pre_m[j],
{
    lemma_dev_hit(pre_m, addr);
}

/// After any tick every hart still reads zero from x0 (it is part of the
/// well-formedness every public operation preserves).
pub proof fn lemma_x0_reads_zero(soc: &Rv32Actor, h: int)
    requires
        soc.wf(),
        0 <= h < soc.cpus_s().len(),
    ensures
        soc.cpus_s()[h].regs()[0] == 0,
{
}

// ------------------------------------------------------------------
// The SoC
// ------------------------------------------------------------------

pub struct Rv32Actor {
    name: String,
    tick_cnt: u32,
    cpus: Vec<Rv32Cpu>,
    mems: Vec<Mem>,
    perips: Vec<Perips>,
}

impl Rv32Actor {
    pub closed spec fn name_seq(&self) -> Seq<char> {
        self.name@
    }

    pub closed spec fn tick_count(&self) -> u32 {
        self.tick_cnt
    }

    pub closed spec fn cpus_s(&self) -> Seq<Rv32Cpu> {
        self.cpus@
    }

    pub closed spec fn mems_s(&self) -> Seq<Mem> {
        self.mems@
    }

    pub closed spec fn perips_s(&self) -> Seq<Perips> {
        self.perips@
    }

    pub open spec fn wf(&self) -> bool {
        &&& forall|i: int| 0 <= i < self.cpus_s().len() ==> (#[trigger] self.cpus_s()[i]).wf()
        &&& devs_wf(self.mems_s())
        &&& devs_wf(self.perips_s())
    }

    pub fn new(name: String) -> (r: Self)
        ensures
            r.wf(),
            r.name_seq() == name@,
            r.tick_count() == 0,
            r.cpus_s().len() == 0,
            r.mems_s().len() == 0,
            r.perips_s().len() == 0,
    {
        Rv32Actor { name, tick_cnt: 0, cpus: Vec::new(), mems: Vec::new(), perips: Vec::new() }
    }

    pub fn add_cpu(&mut self, cpu: Rv32Cpu)
        requires
            cpu.wf(),
        ensures
            final(self).cpus_s() == old(self).cpus_s().push(cpu),
            final(self).mems_s() == old(self).mems_s(),
            final(self).perips_s() == old(self).perips_s(),
            final(self).tick_count() == old(self).tick_count(),
            final(self).name_seq() == old(self).name_seq(),
            old(self).wf() ==> final(self).wf(),
    {
        self.cpus.push(cpu);
        proof {
            if old(self).wf() {
                assert forall|i: int|
                    0 <= i < self.cpus_s().len() implies (#[trigger] self.cpus_s()[i]).wf() by {
                    if i < old(self).cpus_s().len() {
                        assert(self.cpus_s()[i] == old(self).cpus_s()[i]);
                        assert(old(self).cpus_s()[i].wf());
                    } else {
                        assert(self.cpus_s()[i] == cpu);
                    }
                }
                assert(devs_wf(self.mems_s()));
                assert(devs_wf(self.perips_s()));
            }
        }
    }

    pub fn add_mem(&mut self, mem: Mem)
        requires
            mem.inv(),
        ensures
            final(self).mems_s() == old(self).mems_s().push(mem),
            final(self).cpus_s() == old(self).cpus_s(),
            final(self).perips_s() == old(self).perips_s(),
            final(self).tick_count() == old(self).tick_count(),
            final(self).name_seq() == old(self).name_seq(),
            old(self).wf() ==> final(self).wf(),
    {
        self.mems.push(mem);
        proof {
            if old(self).wf() {
                assert forall|i: int|
                    0 <= i < self.mems_s().len() implies (#[trigger] self.mems_s()[i]).inv() by {
                    if i < old(self).mems_s().len() {
                        assert(self.mems_s()[i] == old(self).mems_s()[i]);
                        assert(old(self).mems_s()[i].inv());
                    } else {
                        assert(self.mems_s()[i] == mem);
                    }
                }
                assert forall|i: int|
                    0 <= i < self.cpus_s().len() implies (#[trigger] self.cpus_s()[i]).wf() by {
                    assert(self.cpus_s()[i] == old(self).cpus_s()[i]);
                    assert(old(self).cpus_s()[i].wf());
                }
                assert(devs_wf(self.perips_s()));
            }
        }
    }

    pub fn add_perips(&mut self, p: Perips)
        requires
            p.inv(),
        ensures
            final(self).perips_s() == old(self).perips_s().push(p),
            final(self).cpus_s() == old(self).cpus_s(),
            final(self).mems_s() == old(self).mems_s(),
            final(self).tick_count() == old(self).tick_count(),
            final(self).name_seq() == old(self).name_seq(),
            old(self).wf() ==> final(self).wf(),
    {
        self.perips.push(p);
        proof {
            if old(self).wf() {
                assert forall|i: int|
                    0 <= i < self.perips_s().len() implies (#[trigger] self.perips_s()[
                    i
                ]).inv() by {
                    if i < old(self).perips_s().len() {
                        assert(self.perips_s()[i] == old(self).perips_s()[i]);
                        assert(old(self).perips_s()[i].inv());
                    } else {
                        assert(self.perips_s()[i] == p);
                    }
                }
                assert(devs_wf(self.perips_s()));
                assert(self.cpus_s() == old(self).cpus_s());
                assert forall|i: int|
                    0 <= i < self.cpus_s().len() implies (#[trigger] self.cpus_s()[i]).wf() by {
                    assert(self.cpus_s()[i] == old(self).cpus_s()[i]);
                    assert(old(self).cpus_s()[i].wf());
                }
                assert(devs_wf(self.mems_s()));
            }
        }
    }

    /// Load program bytes into region `m_index` at region offset `pos`.
    /// An index past the region list does nothing.
    pub fn fill_mem(&mut self, m_index: usize, data: Vec<u8>, pos: u32)
        requires
            old(self).wf(),
        ensures
            final(self).wf(),
            final(self).cpus_s() == old(self).cpus_s(),
            final(self).perips_s() == old(self).perips_s(),
            final(self).tick_count() == old(self).tick_count(),
            final(self).name_seq() == old(self).name_seq(),
            final(self).mems_s().len() == old(self).mems_s().len(),
            if m_index < old(self).mems_s().len() {
                crate::mem::fill_rel(
                    &old(self).mems_s()[m_index as int],
                    &final(self).mems_s()[m_index as int],
                    data@,
                    pos,
                ) && (forall|i: int|
                    0 <= i < old(self).mems_s().len() && i != m_index
                        ==> final(self).mems_s()[i] == old(self).mems_s()[i])
            } else {
                final(self).mems_s() == old(self).mems_s()
            },
    {
        if m_index < self.mems.len() {
            let m = &mut self.mems[m_index];
            m.fill(data, pos);
            proof {
                assert(self.mems_s()[m_index as int].inv());
                assert forall|i: int|
                    0 <= i < self.mems_s().len() implies (#[trigger] self.mems_s()[
                    i
                ]).inv() by {
                    if i != m_index {
                        assert(self.mems_s()[i] == old(self).mems_s()[i]);
                    }
                }
                assert(devs_wf(self.mems_s()));
                assert(self.cpus_s() == old(self).cpus_s());
                assert(forall|i: int|
                    0 <= i < self.cpus_s().len() ==> (#[trigger] self.cpus_s()[i]).wf());
                assert(devs_wf(self.perips_s()));
            }
        }
    }

    pub fn get_rs(&self, index: u32) -> (r: u32)
        requires
            self.cpus_s().len() > 0,
            index < 32,
            self.wf(),
        ensures
            r == self.cpus_s()[0].regs()[index as int],
    {
        self.cpus[0].get_rs(index)
    }

    pub fn get_tick(&self) -> (r: u32)
        ensures
            r == self.tick_count(),
    {
        self.tick_cnt
    }

    /// Inspect a hart's program counter between ticks.
    pub fn get_pc(&self, hart: usize) -> (r: u32)
        requires
            hart < self.cpus_s().len(),
        ensures
            r == self.cpus_s()[hart as int].pc(),
    {
        self.cpus[hart].get_pc()
    }

    /// Inspect a hart's CSR between ticks.
    pub fn read_csr(&self, hart: usize, addr: u32) -> (r: u32)
        requires
            hart < self.cpus_s().len(),
            csr_known(addr),
        ensures
            r == self.cpus_s()[hart as int].csrs().spec_read(addr),
    {
        self.cpus[hart].read_csr(addr)
    }

    /// The first hart bearing the name, in insertion order.
    fn find_cpu_by_name(cpus: &Vec<Rv32Cpu>, name: &String) -> (r: Option<usize>)
        ensures
            match r {
                Some(i) => cpu_name_hit(cpus@, name@) == i && i < cpus@.len(),
                None => cpu_name_hit(cpus@, name@) == -1,
            },
    {
        let mut i: usize = 0;
        let n = cpus.len();
        while i < n
            invariant
                i <= n,
                n == cpus@.len(),
                forall|j: int| 0 <= j < i ==> (#[trigger] cpus@[j].name_seq()) != name@,
            decreases n - i,
        {
            if cpus[i].match_name(name) {
                proof {
                    lemma_cpu_name_hit(cpus@, name@);
                }
                return Some(i);
            }
            i += 1;
        }
        proof {
            lemma_cpu_name_hit(cpus@, name@);
        }
        None
    }

    /// The first region bearing the name, in insertion order.
    fn find_mem_by_name(mems: &Vec<Mem>, name: &String) -> (r: Option<usize>)
        ensures
            match r {
                Some(i) => mem_name_hit(mems@, name@) == i && i < mems@.len(),
                None => mem_name_hit(mems@, name@) == -1,
            },
    {
        let mut i: usize = 0;
        let n = mems.len();
        while i < n
            invariant
                i <= n,
                n == mems@.len(),
                forall|j: int| 0 <= j < i ==> (#[trigger] mems@[j].name_seq()) != name@,
            decreases n - i,
        {
            if mems[i].match_name(name) {
                proof {
                    lemma_mem_name_hit(mems@, name@);
                }
                return Some(i);
            }
            i += 1;
        }
        proof {
            lemma_mem_name_hit(mems@, name@);
        }
        None
    }

    /// The first peripheral bearing the name, in insertion order.
    fn find_perips_by_name(perips: &Vec<Perips>, name: &String) -> (r: Option<usize>)
        ensures
            match r {
                Some(i) => perips_name_hit(perips@, name@) == i && i < perips@.len(),
                None => perips_name_hit(perips@, name@) == -1,
            },
    {
        let mut i: usize = 0;
        let n = perips.len();
        while i < n
            invariant
                i <= n,
                n == perips@.len(),
                forall|j: int| 0 <= j < i ==> (#[trigger] perips@[j].name_seq()) != name@,
            decreases n - i,
        {
            if perips[i].match_name(name) {
                proof {
                    lemma_perips_name_hit(perips@, name@);
                }
                return Some(i);
            }
            i += 1;
        }
        proof {
            lemma_perips_name_hit(perips@, name@);
        }
        None
    }

    /// Inspect one register of one hart between ticks.
    pub fn get_reg(&self, hart: usize, index: u32) -> (r: u32)
        requires
            self.wf(),
            hart < self.cpus_s().len(),
            index < 32,
        ensures
            r == self.cpus_s()[hart as int].regs()[index as int],
    {
        proof {
            assert(self.cpus_s()[hart as int].wf());
        }
        self.cpus[hart].get_rs(index)
    }

    /// Render 128 bytes of the named region around `addr`; nothing when no
    /// region bears the name or the window would run past its end. The
    /// dump text itself is not part of any contract.
    pub fn dump_region(&self, name: &String, addr: u32) -> (r: Option<String>)
        requires
            self.wf(),
        ensures
            ({
                let hm = mem_name_hit(self.mems_s(), name@);
                r is Some <==> hm >= 0 && self.mems_s()[hm].dump_ok(addr)
            }),
    {
        match Self::find_mem_by_name(&self.mems, name) {
            Some(i) => {
                proof {
                    assert(self.mems_s()[i as int].inv());
                }
                let m = &self.mems[i];
                if addr <= 0xffffff80 && m.in_range(addr) && m.in_range(addr + 127) {
                    proof {
                        assert(m.dump_ok(addr));
                    }
                    Some(m.dump(addr))
                } else {
                    proof {
                        assert(!m.dump_ok(addr));
                    }
                    None
                }
            },
            None => None,
        }
    }

    /// Render the named peripheral's registers; nothing when no peripheral
    /// bears the name. The dump text itself is not part of any contract.
    pub fn dump_peripheral(&self, name: &String) -> (r: Option<String>)
        requires
            self.wf(),
        ensures
            r is Some <==> perips_name_hit(self.perips_s(), name@) >= 0,
    {
        match Self::find_perips_by_name(&self.perips, name) {
            Some(i) => {
                proof {
                    assert(self.perips_s()[i as int].inv());
                }
                Some(self.perips[i].dump(0))
            },
            None => None,
        }
    }

    /// The debugger's poke: both arguments are hex text; the first
    /// component bearing the name takes the write as `set_v_rel` says.
    /// A poke at a CSR address the machine lacks, or a word poke that
    /// would straddle its region's end, is dropped without effect rather
    /// than surfaced.
    pub fn set_v_d(&mut self, name: &String, arg1: &String, arg2: &String)
        requires
            old(self).wf(),
        ensures
            final(self).wf(),
            final(self).name_seq() == old(self).name_seq(),
            final(self).tick_count() == old(self).tick_count(),
            set_v_rel(
                old(self),
                final(self),
                name@,
                crate::utils::parse_hex_spec(arg1@),
                crate::utils::parse_hex_spec(arg2@),
            ),
    {
        let addr = crate::utils::parse_hex_u32_err_to_0(arg1.as_str());
        let val = crate::utils::parse_hex_u32_err_to_0(arg2.as_str());
        match Self::find_cpu_by_name(&self.cpus, name) {
            Some(i) => {
                proof {
                    assert(self.cpus_s()[i as int].wf());
                }
                let cpu = &mut self.cpus[i];
                if addr < 32 {
                    cpu.set_rs(addr, val);
                } else if is_csr_known(addr) {
                    cpu.write_csr(addr, val);
                }
                proof {
                    assert forall|j: int|
                        0 <= j < self.cpus_s().len() implies (#[trigger] self.cpus_s()[
                        j
                    ]).wf() by {
                        if j != i {
                            assert(self.cpus_s()[j] == old(self).cpus_s()[j]);
                        }
                    }
                }
                return ;
            },
            None => {},
        }
        match Self::find_mem_by_name(&self.mems, name) {
            Some(i) => {
                proof {
                    assert(self.mems_s()[i as int].inv());
                }
                if addr <= 0xfffffffc && self.mems[i].in_range(addr) && self.mems[i].in_range(
                    addr + 3,
                ) {
                    proof {
                        assert(self.mems_s()[i as int].fits(addr, 4));
                    }
                    let m = &mut self.mems[i];
                    m.write_u32(val, addr);
                    proof {
                        assert forall|j: int|
                            0 <= j < self.mems_s().len() implies (#[trigger] self.mems_s()[
                            j
                        ]).inv() by {
                            if j != i {
                                assert(self.mems_s()[j] == old(self).mems_s()[j]);
                            }
                        }
                    }
                } else {
                    proof {
                        assert(!self.mems_s()[i as int].fits(addr, 4));
                    }
                }
                return ;
            },
            None => {},
        }
        match Self::find_perips_by_name(&self.perips, name) {
            Some(i) => {
                proof {
                    assert(self.perips_s()[i as int].inv());
                }
                let p = &mut self.perips[i];
                p.write_u32(val, addr);
                proof {
                    assert forall|j: int|
                        0 <= j < self.perips_s().len() implies (#[trigger] self.perips_s()[
                        j
                    ]).inv() by {
                        if j != i {
                            assert(self.perips_s()[j] == old(self).perips_s()[j]);
                        }
                    }
                }
            },
            None => {},
        }
    }

    /// The first region containing `addr`, as the bus searches them.
    fn find_mem(mems: &Vec<Mem>, addr: u32) -> (r: Option<usize>)
        requires
            devs_wf(mems@),
        ensures
            match r {
                Some(i) => dev_hit(mems@, addr) == i && i < mems@.len() && mems@[i as int].contains(
                    addr,
                ),
                None => dev_hit(mems@, addr) == -1,
            },
    {
        let mut i: usize = 0;
        let n = mems.len();
        while i < n
            invariant
                i <= n,
                n == mems@.len(),
                devs_wf(mems@),
                forall|j: int| 0 <= j < i ==> !(#[trigger] mems@[j].contains(addr)),
            decreases n - i,
        {
            if mems[i].in_range(addr) {
                proof {
                    lemma_dev_hit(mems@, addr);
                }
                return Some(i);
            }
            i += 1;
        }
        proof {
            lemma_dev_hit(mems@, addr);
        }
        None
    }

    /// The first peripheral containing `addr`, as the bus searches them.
    fn find_perips(perips: &Vec<Perips>, addr: u32) -> (r: Option<usize>)
        requires
            devs_wf(perips@),
        ensures
            match r {
                Some(i) => dev_hit(perips@, addr) == i && i < perips@.len() && perips@[
                    i as int
                ].contains(addr),
                None => dev_hit(perips@, addr) == -1,
            },
    {
        let mut i: usize = 0;
        let n = perips.len();
        while i < n
            invariant
                i <= n,
                n == perips@.len(),
                devs_wf(perips@),
                forall|j: int| 0 <= j < i ==> !(#[trigger] perips@[j].contains(addr)),
            decreases n - i,
        {
            if perips[i].in_range(addr) {
                proof {
                    lemma_dev_hit(perips@, addr);
                }
                return Some(i);
            }
            i += 1;
        }
        proof {
            lemma_dev_hit(perips@, addr);
        }
        None
    }

    /// Fetch the instruction word at `pc` through the region list;
    /// `None` when no region supplies the whole word.
    fn read_instr(mems: &Vec<Mem>, pc: u32) -> (r: Option<u32>)
        requires
            devs_wf(mems@),
        ensures
            match r {
                Some(w) => fetch_ok(mems@, pc) && w == fetch_word(mems@, pc),
                None => !fetch_ok(mems@, pc),
            },
    {
        match Self::find_mem(mems, pc) {
            Some(i) => {
                proof {
                    assert(mems@[i as int].inv());
                }
                let m = &mems[i];
                if pc <= 0xfffffffc && m.in_range(pc + 3) {
                    proof {
                        assert(m.word_ok(pc));
                    }
                    Some(m.read_u32(pc))
                } else {
                    proof {
                        assert(!m.word_ok(pc));
                    }
                    None
                }
            },
            None => None,
        }
    }

    fn execute_lui(cpu: &mut Rv32Cpu, instr: u32)
        requires
            old(cpu).wf(),
        ensures
            final(cpu).wf(),
            only_regs_pc(
                old(cpu),
                final(cpu),
                set_reg(old(cpu).regs(), rd_of(instr), imm_u(instr)),
                old(cpu).pc(),
            ),
    {
        let imm = instr & 0xfffff000;
        cpu.set_rd(instr, imm);
    }

    fn execute_auipc(cpu: &mut Rv32Cpu, instr: u32)
        requires
            old(cpu).wf(),
        ensures
            final(cpu).wf(),
            only_regs_pc(
                old(cpu),
                final(cpu),
                set_reg(old(cpu).regs(), rd_of(instr), add32(imm_u(instr), old(cpu).pc())),
                old(cpu).pc(),
            ),
    {
        let pc = cpu.get_pc();
        let imm = instr & 0xfffff000;
        cpu.set_rd(instr, crate::isa::alu_add(imm, pc));
    }

    fn execute_jal(cpu: &mut Rv32Cpu, instr: u32)
        requires
            old(cpu).wf(),
        ensures
            final(cpu).wf(),
            only_regs_pc(
                old(cpu),
                final(cpu),
                set_reg(old(cpu).regs(), rd_of(instr), add32(old(cpu).pc(), 4)),
                add32(old(cpu).pc(), imm_j(instr)),
            ),
    {
        let pc = cpu.get_pc();
        let offset = crate::isa::decode_imm_j(instr);
        cpu.set_rd(instr, crate::isa::alu_add(pc, 4));
        cpu.set_pc(crate::isa::alu_add(pc, offset));
    }

    fn execute_jalr(cpu: &mut Rv32Cpu, instr: u32)
        requires
            old(cpu).wf(),
        ensures
            final(cpu).wf(),
            only_regs_pc(
                old(cpu),
                final(cpu),
                set_reg(old(cpu).regs(), rd_of(instr), add32(old(cpu).pc(), 4)),
                add32(reg_of(old(cpu).regs(), rs1_of(instr)), imm_i(instr)) & 0xfffffffe,
            ),
    {
        let pc = cpu.get_pc();
        let offset = crate::isa::decode_imm_i(instr);
        let (_rs1, r1_data) = cpu.get_rs_1(instr);
        cpu.set_rd(instr, crate::isa::alu_add(pc, 4));
        cpu.set_pc(crate::isa::alu_add(r1_data, offset) & 0xfffffffe);
    }

    fn execute_jb(cpu: &mut Rv32Cpu, instr: u32) -> (legal: bool)
        requires
            old(cpu).wf(),
        ensures
            final(cpu).wf(),
            legal == branch_legal(instr),
            legal ==> only_regs_pc(
                old(cpu),
                final(cpu),
                old(cpu).regs(),
                if branch_taken(
                    reg_of(old(cpu).regs(), rs1_of(instr)),
                    reg_of(old(cpu).regs(), rs2_of(instr)),
                    funct3(instr),
                ) {
                    add32(old(cpu).pc(), imm_b(instr))
                } else {
                    add32(old(cpu).pc(), 4)
                },
            ),
            !legal ==> *final(cpu) == *old(cpu),
    {
        let f3 = instr >> 12 & 0x07;
        if !(f3 == 0 || f3 == 1 || f3 == 4 || f3 == 5 || f3 == 6 || f3 == 7) {
            return false;
        }
        let pc = cpu.get_pc();
        let (_rs1, rs1_data) = cpu.get_rs_1(instr);
        let (_rs2, rs2_data) = cpu.get_rs_2(instr);
        let offset = crate::isa::decode_imm_b(instr);
        let taken = match f3 {
            0x00 => rs1_data == rs2_data,
            0x01 => rs1_data != rs2_data,
            0x04 => crate::isa::alu_slt(rs1_data, rs2_data) == 1,
            0x05 => crate::isa::alu_slt(rs1_data, rs2_data) == 0,
            0x06 => rs1_data < rs2_data,
            _ => rs1_data >= rs2_data,
        };
        if taken {
            cpu.set_pc(crate::isa::alu_add(pc, offset));
        } else {
            cpu.set_pc(crate::isa::alu_add(pc, 4));
        }
        true
    }

    fn execute_math_i(cpu: &mut Rv32Cpu, instr: u32) -> (legal: bool)
        requires
            old(cpu).wf(),
        ensures
            final(cpu).wf(),
            legal == math_i_legal(instr),
            legal ==> only_regs_pc(
                old(cpu),
                final(cpu),
                set_reg(
                    old(cpu).regs(),
                    rd_of(instr),
                    math_i_val(reg_of(old(cpu).regs(), rs1_of(instr)), instr),
                ),
                old(cpu).pc(),
            ),
            !legal ==> *final(cpu) == *old(cpu),
    {
        let f3 = instr >> 12 & 0x07;
        let f7 = instr >> 25 & 0x7f;
        if f3 == 5 && !(f7 == 0x00 || f7 == 0x20) {
            return false;
        }
        let (_rs1, rs1_data) = cpu.get_rs_1(instr);
        let s_imm = crate::isa::decode_imm_i(instr);
        let rd_data = match f3 {
            0x00 => crate::isa::alu_add(rs1_data, s_imm),
            0x01 => crate::isa::alu_sll(rs1_data, s_imm),
            0x02 => crate::isa::alu_slt(rs1_data, s_imm),
            0x03 => crate::isa::alu_sltu(rs1_data, s_imm),
            0x04 => rs1_data ^ s_imm,
            0x05 => if f7 == 0x20 {
                crate::isa::alu_sra(rs1_data, s_imm)
            } else {
                crate::isa::alu_srl(rs1_data, s_imm)
            },
            0x06 => rs1_data | s_imm,
            _ => rs1_data & s_imm,
        };
        cpu.set_rd(instr, rd_data);
        true
    }

    fn execute_math(cpu: &mut Rv32Cpu, instr: u32) -> (legal: bool)
        requires
            old(cpu).wf(),
        ensures
            final(cpu).wf(),
            legal == math_legal(instr),
            legal ==> only_regs_pc(
                old(cpu),
                final(cpu),
                set_reg(
                    old(cpu).regs(),
                    rd_of(instr),
                    math_val(
                        reg_of(old(cpu).regs(), rs1_of(instr)),
                        reg_of(old(cpu).regs(), rs2_of(instr)),
                        instr,
                    ),
                ),
                old(cpu).pc(),
            ),
            !legal ==> *final(cpu) == *old(cpu),
    {
        proof {
            crate::isa::lemma_field_bounds(instr);
        }
        let f3 = instr >> 12 & 0x07;
        let f7 = instr >> 25 & 0x7f;
        if !(f7 == 0x00 || f7 == 0x01 || (f7 == 0x20 && (f3 == 0 || f3 == 5))) {
            return false;
        }
        let (_rs1, a) = cpu.get_rs_1(instr);
        let (_rs2, b) = cpu.get_rs_2(instr);
        let rd_data = match f3 {
            0x00 => if f7 == 0x20 {
                crate::isa::alu_sub(a, b)
            } else if f7 == 0x01 {
                crate::isa::alu_mul(a, b)
            } else {
                crate::isa::alu_add(a, b)
            },
            0x01 => if f7 == 0x01 {
                crate::isa::alu_mulh(a, b)
            } else {
                crate::isa::alu_sll(a, b)
            },
            0x02 => if f7 == 0x01 {
                crate::isa::alu_mulhsu(a, b)
            } else {
                crate::isa::alu_slt(a, b)
            },
            0x03 => if f7 == 0x01 {
                crate::isa::alu_mulhu(a, b)
            } else {
                crate::isa::alu_sltu(a, b)
            },
            0x04 => if f7 == 0x01 {
                crate::isa::alu_div(a, b)
            } else {
                a ^ b
            },
            0x05 => if f7 == 0x01 {
                crate::isa::alu_divu(a, b)
            } else if f7 == 0x20 {
                crate::isa::alu_sra(a, b)
            } else {
                crate::isa::alu_srl(a, b)
            },
            0x06 => if f7 == 0x01 {
                crate::isa::alu_rem(a, b)
            } else {
                a | b
            },
            _ => if f7 == 0x01 {
                crate::isa::alu_remu(a, b)
            } else {
                a & b
            },
        };
        cpu.set_rd(instr, rd_data);
        true
    }

    /// A byte load through the region list.
    fn load_byte(mems: &Vec<Mem>, addr: u32) -> (r: u8)
        requires
            devs_wf(mems@),
        ensures
            r == mem_byte(mems@, addr),
    {
        match Self::find_mem(mems, addr) {
            Some(i) => {
                proof {
                    assert(mems@[i as int].inv());
                }
                mems[i].read_u8(addr)
            },
            None => 0,
        }
    }

    /// A halfword load through the region list.
    fn load_half(mems: &Vec<Mem>, addr: u32) -> (r: u16)
        requires
            devs_wf(mems@),
        ensures
            r == mem_half(mems@, addr),
    {
        match Self::find_mem(mems, addr) {
            Some(i) => {
                proof {
                    assert(mems@[i as int].inv());
                }
                let m = &mems[i];
                if addr <= 0xfffffffe && m.in_range(addr + 1) {
                    proof {
                        assert(m.fits(addr, 2));
                    }
                    m.read_u16(addr)
                } else {
                    proof {
                        assert(!m.fits(addr, 2));
                    }
                    0
                }
            },
            None => 0,
        }
    }

    /// A word load: regions first, then peripherals.
    fn load_word(mems: &Vec<Mem>, perips: &Vec<Perips>, addr: u32) -> (r: u32)
        requires
            devs_wf(mems@),
            devs_wf(perips@),
        ensures
            r == lw_result(mems@, perips@, addr),
    {
        match Self::find_mem(mems, addr) {
            Some(i) => {
                proof {
                    assert(mems@[i as int].inv());
                }
                let m = &mems[i];
                if addr <= 0xfffffffc && m.in_range(addr + 3) {
                    proof {
                        assert(m.word_ok(addr));
                    }
                    m.read_u32(addr)
                } else {
                    proof {
                        assert(!m.word_ok(addr));
                    }
                    0
                }
            },
            None => {
                match Self::find_perips(perips, addr) {
                    Some(i) => {
                        proof {
                            assert(perips@[i as int].inv());
                        }
                        perips[i].read_u32(addr)
                    },
                    None => 0,
                }
            },
        }
    }

    /// A byte store through the region list.
    fn store_byte(mems: &mut Vec<Mem>, addr: u32, v: u8)
        requires
            devs_wf(old(mems)@),
        ensures
            devs_wf(final(mems)@),
            mems_updated_byte(old(mems)@, final(mems)@, addr, v),
    {
        match Self::find_mem(mems, addr) {
            Some(i) => {
                proof {
                    assert(mems@[i as int].inv());
                }
                let m = &mut mems[i];
                m.write_u8(v, addr);
                proof {
                    assert forall|j: int| 0 <= j < mems@.len() implies (#[trigger] mems@[
                        j
                    ]).inv() by {
                        if j != i {
                            assert(mems@[j] == old(mems)@[j]);
                        }
                    }
                }
            },
            None => {},
        }
    }

    /// A halfword store through the region list.
    fn store_half(mems: &mut Vec<Mem>, addr: u32, v: u16)
        requires
            devs_wf(old(mems)@),
        ensures
            devs_wf(final(mems)@),
            mems_updated_half(old(mems)@, final(mems)@, addr, v),
    {
        match Self::find_mem(mems, addr) {
            Some(i) => {
                proof {
                    assert(mems@[i as int].inv());
                }
                if addr <= 0xfffffffe && mems[i].in_range(addr + 1) {
                    proof {
                        assert(mems@[i as int].fits(addr, 2));
                    }
                    let m = &mut mems[i];
                    m.write_u16(v, addr);
                    proof {
                        assert forall|j: int| 0 <= j < mems@.len() implies (#[trigger] mems@[
                            j
                        ]).inv() by {
                            if j != i {
                                assert(mems@[j] == old(mems)@[j]);
                            }
                        }
                    }
                } else {
                    proof {
                        assert(!mems@[i as int].fits(addr, 2));
                    }
                }
            },
            None => {},
        }
    }

    /// A word store: into the first region containing the address, or, when
    /// none does, into the first peripheral containing it.
    fn store_word(mems: &mut Vec<Mem>, perips: &mut Vec<Perips>, addr: u32, v: u32)
        requires
            devs_wf(old(mems)@),
            devs_wf(old(perips)@),
        ensures
            devs_wf(final(mems)@),
            devs_wf(final(perips)@),
            if dev_hit(old(mems)@, addr) >= 0 {
                final(perips)@ == old(perips)@ && mems_updated_word(
                    old(mems)@,
                    final(mems)@,
                    addr,
                    v,
                )
            } else {
                final(mems)@ == old(mems)@ && perips_updated_word(
                    old(perips)@,
                    final(perips)@,
                    addr,
                    v,
                )
            },
    {
        match Self::find_mem(mems, addr) {
            Some(i) => {
                proof {
                    assert(mems@[i as int].inv());
                }
                if addr <= 0xfffffffc && mems[i].in_range(addr + 3) {
                    proof {
                        assert(mems@[i as int].word_ok(addr));
                    }
                    let m = &mut mems[i];
                    m.write_u32(v, addr);
                    proof {
                        assert forall|j: int| 0 <= j < mems@.len() implies (#[trigger] mems@[
                            j
                        ]).inv() by {
                            if j != i {
                                assert(mems@[j] == old(mems)@[j]);
                            }
                        }
                    }
                } else {
                    proof {
                        assert(!mems@[i as int].fits(addr, 4));
                    }
                }
            },
            None => {
                match Self::find_perips(perips, addr) {
                    Some(i) => {
                        proof {
                            assert(perips@[i as int].inv());
                        }
                        let p = &mut perips[i];
                        p.write_u32(v, addr);
                        proof {
                            assert forall|j: int|
                                0 <= j < perips@.len() implies (#[trigger] perips@[
                                j
                            ]).inv() by {
                                if j != i {
                                    assert(perips@[j] == old(perips)@[j]);
                                }
                            }
                        }
                    },
                    None => {},
                }
            },
        }
    }

    fn execute_load(cpu: &mut Rv32Cpu, instr: u32, mems: &Vec<Mem>, perips: &Vec<Perips>) -> (legal:
        bool)
        requires
            old(cpu).wf(),
            devs_wf(mems@),
            devs_wf(perips@),
        ensures
            final(cpu).wf(),
            legal == load_legal(instr),
            legal ==> only_regs_pc(
                old(cpu),
                final(cpu),
                set_reg(
                    old(cpu).regs(),
                    rd_of(instr),
                    load_result(mems@, perips@, old(cpu).regs(), instr),
                ),
                old(cpu).pc(),
            ),
            !legal ==> *final(cpu) == *old(cpu),
    {
        let f3 = instr >> 12 & 0x07;
        if !(f3 == 0 || f3 == 1 || f3 == 2 || f3 == 4 || f3 == 5) {
            return false;
        }
        let (_rs1, rs1_data) = cpu.get_rs_1(instr);
        let s_imm = crate::isa::decode_imm_i(instr);
        let r_addr = crate::isa::alu_add(rs1_data, s_imm);
        match f3 {
            0x00 => {
                let b = Self::load_byte(mems, r_addr);
                cpu.set_rd(instr, crate::isa::extend_byte(b as u32));
            },
            0x04 => {
                let b = Self::load_byte(mems, r_addr);
                cpu.set_rd(instr, b as u32);
            },
            0x01 => {
                let h = Self::load_half(mems, r_addr);
                cpu.set_rd(instr, crate::isa::extend_half(h as u32));
            },
            0x05 => {
                let h = Self::load_half(mems, r_addr);
                cpu.set_rd(instr, h as u32);
            },
            _ => {
                let w = Self::load_word(mems, perips, r_addr);
                cpu.set_rd(instr, w);
            },
        }
        true
    }

    fn execute_store(
        cpu: &mut Rv32Cpu,
        instr: u32,
        mems: &mut Vec<Mem>,
        perips: &mut Vec<Perips>,
    ) -> (legal: bool)
        requires
            old(cpu).wf(),
            devs_wf(old(mems)@),
            devs_wf(old(perips)@),
        ensures
            final(cpu).wf(),
            devs_wf(final(mems)@),
            devs_wf(final(perips)@),
            *final(cpu) == *old(cpu),
            legal == store_legal(instr),
            legal ==> store_effect(
                old(mems)@,
                final(mems)@,
                old(perips)@,
                final(perips)@,
                add32(reg_of(old(cpu).regs(), rs1_of(instr)), imm_s(instr)),
                reg_of(old(cpu).regs(), rs2_of(instr)),
                instr,
            ),
            !legal ==> final(mems)@ == old(mems)@ && final(perips)@ == old(perips)@,
    {
        let f3 = instr >> 12 & 0x07;
        if !(f3 == 0 || f3 == 1 || f3 == 2) {
            return false;
        }
        let (_rs1, rs1_data) = cpu.get_rs_1(instr);
        let (_rs2, rs2_data) = cpu.get_rs_2(instr);
        let s_imm = crate::isa::decode_imm_s(instr);
        let wr_addr = crate::isa::alu_add(rs1_data, s_imm);
        match f3 {
            0x00 => {
                Self::store_byte(mems, wr_addr, (rs2_data & 0xff) as u8);
            },
            0x01 => {
                Self::store_half(mems, wr_addr, (rs2_data & 0xffff) as u16);
            },
            _ => {
                Self::store_word(mems, perips, wr_addr, rs2_data);
            },
        }
        true
    }

    fn execute_fence(cpu: &mut Rv32Cpu, instr: u32) -> (legal: bool)
        requires
            old(cpu).wf(),
        ensures
            final(cpu).wf(),
            legal == fence_legal(instr),
            *final(cpu) == *old(cpu),
    {
        let f3 = instr >> 12 & 0x07;
        f3 == 0 || f3 == 1
    }

    fn execute_sys(cpu: &mut Rv32Cpu, instr: u32) -> (r: Result<bool, SocError>)
        requires
            old(cpu).wf(),
        ensures
            final(cpu).wf(),
            match r {
                Ok(legal) => {
                    &&& legal == sys_legal(instr)
                    &&& !(sys_csr_op(instr) && !csr_known(csr_of(instr)))
                    &&& legal ==> sys_step(old(cpu), final(cpu), instr)
                    &&& !legal ==> *final(cpu) == *old(cpu)
                },
                Err(e) => {
                    &&& e == SocError::CsrUnknown(csr_of(instr))
                    &&& sys_csr_op(instr)
                    &&& !csr_known(csr_of(instr))
                    &&& *final(cpu) == *old(cpu)
                },
            },
    {
        proof {
            crate::isa::lemma_field_bounds(instr);
        }
        let f3 = instr >> 12 & 0x07;
        let csr = instr >> 20 & 0xfff;
        if f3 == 0 {
            if csr == 0x302 {
                let status = cpu.read_csr(0x300);
                cpu.write_csr(0x300, status | 0x08);
                let mepc = cpu.read_csr(0x341);
                cpu.set_pc(mepc);
                Ok(true)
            } else if csr == 0x000 || csr == 0x001 {
                let pc = cpu.get_pc();
                cpu.set_pc(crate::isa::alu_add(pc, 4));
                Ok(true)
            } else {
                Ok(false)
            }
        } else if f3 == 4 {
            Ok(false)
        } else {
            if !is_csr_known(csr) {
                return Err(SocError::CsrUnknown(csr));
            }
            let (rs1, rs1_data) = cpu.get_rs_1(instr);
            let pc = cpu.get_pc();
            let t = cpu.read_csr(csr);
            let v = match f3 {
                0x01 => rs1_data,
                0x02 => rs1_data | t,
                0x03 => !rs1_data & t,
                0x05 => rs1 as u32,
                0x06 => (rs1 as u32) | t,
                _ => !(rs1 as u32) & t,
            };
            cpu.write_csr(csr, v);
            cpu.set_rd(instr, t);
            cpu.set_pc(crate::isa::alu_add(pc, 4));
            Ok(true)
        }
    }

    /// Decode and execute one fetched instruction word. A word outside the
    /// decode table latches an illegal-instruction exception and leaves the
    /// hart otherwise untouched; an unimplemented CSR address aborts with a
    /// host error.
    fn execute(
        cpu: &mut Rv32Cpu,
        pc: u32,
        instr: u32,
        mems: &mut Vec<Mem>,
        perips: &mut Vec<Perips>,
    ) -> (r: Result<(), SocError>)
        requires
            old(cpu).wf(),
            pc == old(cpu).pc(),
            devs_wf(old(mems)@),
            devs_wf(old(perips)@),
        ensures
            final(cpu).wf(),
            devs_wf(final(mems)@),
            devs_wf(final(perips)@),
            match r {
                Ok(u) => {
                    &&& !(opcode(instr) == 0x73 && sys_csr_op(instr) && !csr_known(csr_of(instr)))
                    &&& if instr_legal(instr) {
                        cpu_step(
                            old(cpu),
                            final(cpu),
                            old(mems)@,
                            final(mems)@,
                            old(perips)@,
                            final(perips)@,
                            instr,
                        )
                    } else {
                        &&& final(mems)@ == old(mems)@
                        &&& final(perips)@ == old(perips)@
                        &&& final(cpu).exc() == IntrType::ExceInstruction(old(cpu).pc())
                        &&& final(cpu).pc() == old(cpu).pc()
                        &&& final(cpu).same_state(old(cpu))
                    }
                },
                Err(e) => {
                    &&& e == SocError::CsrUnknown(csr_of(instr))
                    &&& opcode(instr) == 0x73
                    &&& sys_csr_op(instr)
                    &&& !csr_known(csr_of(instr))
                    &&& *final(cpu) == *old(cpu)
                    &&& final(mems)@ == old(mems)@
                    &&& final(perips)@ == old(perips)@
                },
            },
    {
        match instr & 0x7f {
            0x37 => {
                Self::execute_lui(cpu, instr);
                cpu.set_pc(crate::isa::alu_add(pc, 4));
                Ok(())
            },
            0x17 => {
                Self::execute_auipc(cpu, instr);
                cpu.set_pc(crate::isa::alu_add(pc, 4));
                Ok(())
            },
            0x6f => {
                Self::execute_jal(cpu, instr);
                Ok(())
            },
            0x67 => {
                Self::execute_jalr(cpu, instr);
                Ok(())
            },
            0x63 => {
                if !Self::execute_jb(cpu, instr) {
                    cpu.set_exception(IntrType::ExceInstruction(pc));
                }
                Ok(())
            },
            0x13 => {
                if Self::execute_math_i(cpu, instr) {
                    cpu.set_pc(crate::isa::alu_add(pc, 4));
                } else {
                    cpu.set_exception(IntrType::ExceInstruction(pc));
                }
                Ok(())
            },
            0x33 => {
                if Self::execute_math(cpu, instr) {
                    cpu.set_pc(crate::isa::alu_add(pc, 4));
                } else {
                    cpu.set_exception(IntrType::ExceInstruction(pc));
                }
                Ok(())
            },
            0x03 => {
                if Self::execute_load(cpu, instr, mems, perips) {
                    cpu.set_pc(crate::isa::alu_add(pc, 4));
                } else {
                    cpu.set_exception(IntrType::ExceInstruction(pc));
                }
                Ok(())
            },
            0x23 => {
                if Self::execute_store(cpu, instr, mems, perips) {
                    cpu.set_pc(crate::isa::alu_add(pc, 4));
                } else {
                    cpu.set_exception(IntrType::ExceInstruction(pc));
                }
                Ok(())
            },
            0x0f => {
                if Self::execute_fence(cpu, instr) {
                    cpu.set_pc(crate::isa::alu_add(pc, 4));
                } else {
                    cpu.set_exception(IntrType::ExceInstruction(pc));
                }
                Ok(())
            },
            0x73 => {
                match Self::execute_sys(cpu, instr) {
                    Ok(true) => Ok(()),
                    Ok(false) => {
                        cpu.set_exception(IntrType::ExceInstruction(pc));
                        Ok(())
                    },
                    Err(e) => Err(e),
                }
            },
            _ => {
                cpu.set_exception(IntrType::ExceInstruction(pc));
                Ok(())
            },
        }
    }

    /// Step every hart once (fetch, decode, execute, latch exceptions),
    /// advancing the tick counter per hart, then run the trap coordinator.
    /// An access to an unimplemented CSR aborts the tick with `Err`; the
    /// states of harts already stepped this tick are kept.
    pub fn tick(&mut self) -> (r: Result<(), SocError>)
        requires
            old(self).wf(),
            old(self).tick_count() + old(self).cpus_s().len() <= u32::MAX,
        ensures
            final(self).wf(),
            final(self).name_seq() == old(self).name_seq(),
            final(self).cpus_s().len() == old(self).cpus_s().len(),
            final(self).mems_s().len() == old(self).mems_s().len(),
            final(self).perips_s().len() == old(self).perips_s().len(),
            r is Ok ==> final(self).tick_count() == old(self).tick_count() + old(
                self,
            ).cpus_s().len(),
            r is Ok ==> tick_full_rel(old(self), final(self)),
            r matches Err(e) ==> tick_err_rel(old(self), final(self), e),
            old(self).cpus_s().len() == 1 ==> (r is Err <==> hart_fault(
                &old(self).cpus_s()[0],
                old(self).mems_s(),
            )),
            old(self).cpus_s().len() == 1 ==> match r {
                Ok(u) => tick_rel_single(old(self), final(self)),
                Err(e) => {
                    &&& e == SocError::CsrUnknown(
                        csr_of(fetch_word(old(self).mems_s(), old(self).cpus_s()[0].pc())),
                    )
                    &&& final(self).cpus_s() == old(self).cpus_s()
                    &&& final(self).mems_s() == old(self).mems_s()
                    &&& final(self).perips_s() == old(self).perips_s()
                    &&& final(self).tick_count() == old(self).tick_count()
                },
            },
    {
        let ncpu = self.cpus.len();
        let mut k: usize = 0;
        while k < ncpu
            invariant
                old(self).wf(),
                self.wf(),
                k <= ncpu,
                ncpu == self.cpus_s().len(),
                self.cpus_s().len() == old(self).cpus_s().len(),
                self.mems_s().len() == old(self).mems_s().len(),
                self.perips_s().len() == old(self).perips_s().len(),
                self.name_seq() == old(self).name_seq(),
                old(self).tick_count() + ncpu <= u32::MAX,
                self.tick_count() == old(self).tick_count() + k,
                k == 0 ==> self.cpus_s() == old(self).cpus_s() && self.mems_s() == old(
                    self,
                ).mems_s() && self.perips_s() == old(self).perips_s(),
                harts_chain(
                    old(self).cpus_s(),
                    self.cpus_s(),
                    old(self).mems_s(),
                    self.mems_s(),
                    old(self).perips_s(),
                    self.perips_s(),
                    k as int,
                ),
                ncpu == 1 && k == 1 ==> !hart_fault(&old(self).cpus_s()[0], old(self).mems_s()),
                ncpu == 1 && k == 1 ==> hart_step(
                    &old(self).cpus_s()[0],
                    &self.cpus_s()[0],
                    old(self).mems_s(),
                    self.mems_s(),
                    old(self).perips_s(),
                    self.perips_s(),
                ),
            decreases ncpu - k,
        {
            proof {
                assert(self.cpus_s()[k as int].wf());
            }
            let ghost cpus_top = self.cpus_s();
            let ghost mems_top = self.mems_s();
            let ghost perips_top = self.perips_s();
            let cpu = &mut self.cpus[k];
            let pc = cpu.get_pc();
            if let Some(instr) = Self::read_instr(&self.mems, pc) {
                match Self::execute(cpu, pc, instr, &mut self.mems, &mut self.perips) {
                    Ok(_) => {},
                    Err(e) => {
                        proof {
                            if ncpu == 1 {
                                assert(self.cpus_s() =~= old(self).cpus_s());
                            }
                            assert forall|j: int|
                                0 <= j < self.cpus_s().len() implies (#[trigger] self.cpus_s()[
                                j
                            ]).wf() by {
                                if j != k {
                                    assert(self.cpus_s()[j] == cpus_top[j]);
                                }
                            }
                            assert(self.cpus_s() =~= cpus_top);
                            assert(self.mems_s() == mems_top);
                            assert(self.perips_s() == perips_top);
                            assert(harts_chain(
                                old(self).cpus_s(),
                                cpus_top,
                                old(self).mems_s(),
                                mems_top,
                                old(self).perips_s(),
                                perips_top,
                                k as int,
                            ));
                            assert(harts_chain(
                                old(self).cpus_s(),
                                self.cpus_s(),
                                old(self).mems_s(),
                                self.mems_s(),
                                old(self).perips_s(),
                                self.perips_s(),
                                k as int,
                            ));
                            assert(hart_fault(&self.cpus_s()[k as int], self.mems_s()));
                            assert(tick_err_rel(old(self), self, e));
                        }
                        return Err(e);
                    },
                }
            } else {
                cpu.set_exception(IntrType::ExceMem(pc));
            }
            self.tick_cnt = self.tick_cnt + 1;
            k += 1;
            proof {
                assert forall|j: int|
                    0 <= j < self.cpus_s().len() implies (#[trigger] self.cpus_s()[j]).wf() by {
                    if j != k - 1 {
                        assert(self.cpus_s()[j] == cpus_top[j]);
                        assert(cpus_top[j].wf());
                    }
                }
                assert(harts_chain(
                    old(self).cpus_s(),
                    cpus_top,
                    old(self).mems_s(),
                    mems_top,
                    old(self).perips_s(),
                    perips_top,
                    k - 1,
                ));
                assert(hart_step(
                    &cpus_top[k - 1],
                    &self.cpus_s()[k - 1],
                    mems_top,
                    self.mems_s(),
                    perips_top,
                    self.perips_s(),
                ));
                assert(forall|j: int|
                    0 <= j < cpus_top.len() && j != k - 1 ==> self.cpus_s()[j] == (
                    #[trigger] cpus_top[j]));
                lemma_harts_chain_snoc(
                    old(self).cpus_s(),
                    cpus_top,
                    self.cpus_s(),
                    old(self).mems_s(),
                    mems_top,
                    self.mems_s(),
                    old(self).perips_s(),
                    perips_top,
                    self.perips_s(),
                    k as int,
                );
            }
        }
        let ghost mid_cpus = self.cpus_s();
        let ghost mid_mems = self.mems_s();
        let ghost mid_perips = self.perips_s();
        self.handle_exception();
        proof {
            assert(harts_chain(
                old(self).cpus_s(),
                mid_cpus,
                old(self).mems_s(),
                mid_mems,
                old(self).perips_s(),
                mid_perips,
                old(self).cpus_s().len() as int,
            ));
            assert(trap_rel(mid_cpus, self.cpus_s(), mid_perips, self.perips_s()));
            assert(tick_full_rel(old(self), self));
            if old(self).cpus_s().len() == 1 {
                assert(seq![mid_cpus[0]] =~= mid_cpus);
                assert(hart_step(
                    &old(self).cpus_s()[0],
                    &mid_cpus[0],
                    old(self).mems_s(),
                    mid_mems,
                    old(self).perips_s(),
                    mid_perips,
                ));
                assert(trap_rel(seq![mid_cpus[0]], self.cpus_s(), mid_perips, self.perips_s()));
                assert(tick_rel_single(old(self), self));
            }
        }
        Ok(())
    }

    /// Run the trap coordinator: deliver pending synchronous exceptions on
    /// each hart, then, if none was delivered anywhere, clear flagged
    /// peripheral interrupts and deliver one external interrupt to hart 0.
    fn handle_exception(&mut self)
        requires
            old(self).wf(),
        ensures
            final(self).wf(),
            final(self).name_seq() == old(self).name_seq(),
            final(self).tick_count() == old(self).tick_count(),
            final(self).mems_s() == old(self).mems_s(),
            trap_rel(
                old(self).cpus_s(),
                final(self).cpus_s(),
                old(self).perips_s(),
                final(self).perips_s(),
            ),
    {
        let ncpu = self.cpus.len();
        let mut any_sync = false;
        let mut k: usize = 0;
        while k < ncpu
            invariant
                old(self).wf(),
                self.wf(),
                k <= ncpu,
                ncpu == self.cpus_s().len(),
                self.cpus_s().len() == old(self).cpus_s().len(),
                self.name_seq() == old(self).name_seq(),
                self.tick_count() == old(self).tick_count(),
                self.mems_s() == old(self).mems_s(),
                self.perips_s() == old(self).perips_s(),
                forall|j: int|
                    0 <= j < k ==> sync_phase_cpu(
                        &old(self).cpus_s()[j],
                        &(#[trigger] self.cpus_s()[j]),
                    ),
                forall|j: int|
                    k <= j < ncpu ==> (#[trigger] self.cpus_s()[j]) == old(self).cpus_s()[j],
                any_sync <==> exists|j: int| 0 <= j < k && sync_fires(&old(self).cpus_s()[j]),
            decreases ncpu - k,
        {
            proof {
                assert(self.cpus_s()[k as int] == old(self).cpus_s()[k as int]);
                assert(self.cpus_s()[k as int].wf());
            }
            let cpu = &mut self.cpus[k];
            let status = cpu.read_csr(0x300);
            let mut delivered = false;
            if status & 0x08 == 0x08 {
                let pending = match cpu.exception() {
                    IntrType::NoIntr => false,
                    _ => true,
                };
                if pending {
                    let pc = cpu.get_pc();
                    cpu.write_csr(0x341, pc);
                    cpu.write_csr(0x342, 0x02);
                    cpu.write_csr(0x300, status & !0x08u32);
                    let tv = cpu.read_csr(0x305);
                    cpu.set_pc(tv);
                    cpu.set_exception(IntrType::NoIntr);
                    any_sync = true;
                    delivered = true;
                }
            }
            k += 1;
            proof {
                if delivered {
                    assert(sync_fires(&old(self).cpus_s()[k - 1]));
                    assert(trap_entered(
                        &old(self).cpus_s()[k - 1],
                        &self.cpus_s()[k - 1],
                        0x02,
                    ));
                } else {
                    assert(!sync_fires(&old(self).cpus_s()[k - 1]));
                    assert(self.cpus_s()[k - 1] == old(self).cpus_s()[k - 1]);
                }
                assert(sync_phase_cpu(&old(self).cpus_s()[k - 1], &self.cpus_s()[k - 1]));
                assert forall|j: int|
                    0 <= j < self.cpus_s().len() implies (#[trigger] self.cpus_s()[j]).wf() by {
                    assert(old(self).cpus_s()[j].wf());
                    if j < k {
                        assert(sync_phase_cpu(&old(self).cpus_s()[j], &self.cpus_s()[j]));
                    } else {
                        assert(self.cpus_s()[j] == old(self).cpus_s()[j]);
                    }
                }
            }
        }
        proof {
            assert(any_sync <==> any_sync_fires(old(self).cpus_s()));
        }
        if !any_sync {
            let ghost cpus_mid = self.cpus_s();
            let nper = self.perips.len();
            let mut any_intr = false;
            let mut k2: usize = 0;
            while k2 < nper
                invariant
                    old(self).wf(),
                    self.wf(),
                    k2 <= nper,
                    nper == self.perips_s().len(),
                    self.perips_s().len() == old(self).perips_s().len(),
                    self.name_seq() == old(self).name_seq(),
                    self.tick_count() == old(self).tick_count(),
                    self.mems_s() == old(self).mems_s(),
                    self.cpus_s() == cpus_mid,
                    forall|j: int|
                        0 <= j < k2 ==> (#[trigger] self.perips_s()[j]).same_shape(
                            &old(self).perips_s()[j],
                        ) && self.perips_s()[j].regs() == (if intr_flagged(
                            &old(self).perips_s()[j],
                        ) {
                            old(self).perips_s()[j].regs().update(
                                old(self).perips_s()[j].reg_index(
                                    old(self).perips_s()[j].intr_addr(),
                                ),
                                0u32,
                            )
                        } else {
                            old(self).perips_s()[j].regs()
                        }),
                    forall|j: int|
                        k2 <= j < nper ==> (#[trigger] self.perips_s()[j]) == old(self).perips_s()[
                            j
                        ],
                    any_intr <==> exists|j: int|
                        0 <= j < k2 && intr_flagged(&old(self).perips_s()[j]),
                decreases nper - k2,
            {
                proof {
                    assert(self.perips_s()[k2 as int] == old(self).perips_s()[k2 as int]);
                    assert(self.perips_s()[k2 as int].inv());
                }
                let flagged = self.perips[k2].get_intr() & 0x80000000 == 0x80000000;
                if flagged {
                    let p = &mut self.perips[k2];
                    p.clear_intr();
                    any_intr = true;
                }
                k2 += 1;
                proof {
                    assert forall|j: int|
                        0 <= j < self.perips_s().len() implies (#[trigger] self.perips_s()[
                        j
                    ]).inv() by {
                        assert(old(self).perips_s()[j].inv());
                        if j == k2 - 1 {
                        } else if j < k2 {
                            assert(self.perips_s()[j].regs().len() == old(self).perips_s()[
                                j
                            ].regs().len());
                        } else {
                            assert(self.perips_s()[j] == old(self).perips_s()[j]);
                        }
                    }
                }
            }
            proof {
                assert(any_intr <==> any_intr_flagged(old(self).perips_s()));
                assert(perips_cleared(old(self).perips_s(), self.perips_s()));
            }
            if any_intr && self.cpus.len() > 0 {
                proof {
                    assert(self.cpus_s()[0] == old(self).cpus_s()[0]);
                }
                let cpu = &mut self.cpus[0];
                let status = cpu.read_csr(0x300);
                let pc = cpu.get_pc();
                cpu.write_csr(0x341, pc);
                cpu.write_csr(0x342, 0x80000008);
                cpu.write_csr(0x300, status & !0x08u32);
                let tv = cpu.read_csr(0x305);
                cpu.set_pc(tv);
                cpu.set_exception(IntrType::NoIntr);
                proof {
                    assert(trap_entered(&old(self).cpus_s()[0], &self.cpus_s()[0], 0x80000008));
                    assert forall|j: int|
                        0 <= j < self.cpus_s().len() implies (#[trigger] self.cpus_s()[
                        j
                    ]).wf() by {
                        assert(old(self).cpus_s()[j].wf());
                        if j != 0 {
                            assert(self.cpus_s()[j] == old(self).cpus_s()[j]);
                        }
                    }
                }
            }
        }
    }
}

} // verus!
