//! Decode and arithmetic of the RV32IM instruction set.
//!
//! The spec functions here are the single source of truth for what every
//! instruction computes: field extraction, immediate construction,
//! sign-extension, and the exact result of each ALU operation, including the
//! wrap-around, divide-by-zero and signed-overflow rules of the M extension.
//! The executable helpers are proved against them and are shared by both CPU
//! cores.

use vstd::prelude::*;

verus! {

use vstd::arithmetic::div_mod::{
    lemma_fundamental_div_mod_converse, lemma_hoist_over_denominator,
};
use vstd::bits::lemma_u64_shr_is_div;

// ------------------------------------------------------------------
// Instruction field extraction
// ------------------------------------------------------------------

pub open spec fn opcode(i: u32) -> u32 {
    i & 0x7f
}

pub open spec fn funct3(i: u32) -> u32 {
    (i >> 12) & 0x07
}

pub open spec fn funct7(i: u32) -> u32 {
    (i >> 25) & 0x7f
}

pub open spec fn rd_of(i: u32) -> u32 {
    (i >> 7) & 0x1f
}

pub open spec fn rs1_of(i: u32) -> u32 {
    (i >> 15) & 0x1f
}

pub open spec fn rs2_of(i: u32) -> u32 {
    (i >> 20) & 0x1f
}

/// The 12-bit CSR address field of a SYSTEM instruction.
pub open spec fn csr_of(i: u32) -> u32 {
    (i >> 20) & 0xfff
}

// ------------------------------------------------------------------
// Immediates (bit 31 is the sign bit and fills the high bits when set)
// ------------------------------------------------------------------

pub open spec fn imm_u(i: u32) -> u32 {
    i & 0xfffff000
}

pub open spec fn imm_i(i: u32) -> u32 {
    let x = (i >> 20) & 0xfff;
    if i & 0x80000000 == 0x80000000 {
        0xfffff000 | x
    } else {
        x
    }
}

pub open spec fn imm_s(i: u32) -> u32 {
    let x = ((i >> 20) & 0x7e0) | ((i >> 7) & 0x1f);
    if i & 0x80000000 == 0x80000000 {
        0xfffff800 | x
    } else {
        x
    }
}

pub open spec fn imm_b(i: u32) -> u32 {
    let x = ((i << 4) & 0x800) | ((i >> 20) & 0x7e0) | ((i >> 7) & 0x1e);
    if i & 0x80000000 == 0x80000000 {
        0xfffff000 | x
    } else {
        x
    }
}

pub open spec fn imm_j(i: u32) -> u32 {
    let x = (i & 0xff000) | ((i >> 9) & 0x800) | ((i >> 20) & 0x7fe);
    if i & 0x80000000 == 0x80000000 {
        0xfff00000 | x
    } else {
        x
    }
}

// ------------------------------------------------------------------
// Two's-complement views
// ------------------------------------------------------------------

/// The signed reading of a 32-bit word.
pub open spec fn s32(a: u32) -> int {
    if a >= 0x80000000 {
        a - 0x100000000
    } else {
        a as int
    }
}

/// The 32-bit word holding `x` modulo 2^32.
pub open spec fn to_u32(x: int) -> u32 {
    (x % 0x100000000) as u32
}

/// The magnitude of the signed reading of `a`.
pub open spec fn sabs(a: u32) -> int {
    if s32(a) < 0 {
        -s32(a)
    } else {
        s32(a)
    }
}

// ------------------------------------------------------------------
// ALU results
// ------------------------------------------------------------------

pub open spec fn add32(a: u32, b: u32) -> u32 {
    if a + b > u32::MAX {
        (a + b - 0x100000000) as u32
    } else {
        (a + b) as u32
    }
}

pub open spec fn sub32(a: u32, b: u32) -> u32 {
    if a - b < 0 {
        (a - b + 0x100000000) as u32
    } else {
        (a - b) as u32
    }
}

pub open spec fn mul32(a: u32, b: u32) -> u32 {
    ((a as nat * b as nat) % (0x100000000 as nat)) as u32
}

/// Shifts take the low five bits of their amount.
pub open spec fn shamt(b: u32) -> u32 {
    b % 32
}

pub open spec fn sll32(a: u32, b: u32) -> u32 {
    a << shamt(b)
}

pub open spec fn srl32(a: u32, b: u32) -> u32 {
    a >> shamt(b)
}

/// Arithmetic shift right: the sign bit fills the vacated high bits.
pub open spec fn sra32(a: u32, b: u32) -> u32 {
    if a < 0x80000000 {
        a >> shamt(b)
    } else {
        (a >> shamt(b)) | !(0xffffffffu32 >> shamt(b))
    }
}

pub open spec fn slt32(a: u32, b: u32) -> u32 {
    if s32(a) < s32(b) {
        1u32
    } else {
        0u32
    }
}

pub open spec fn sltu32(a: u32, b: u32) -> u32 {
    if a < b {
        1u32
    } else {
        0u32
    }
}

/// High half of the unsigned 64-bit product.
pub open spec fn mulhu32(a: u32, b: u32) -> u32 {
    to_u32((a * b) / 0x100000000)
}

/// High half of the signed 64-bit product.
pub open spec fn mulh32(a: u32, b: u32) -> u32 {
    to_u32((s32(a) * s32(b)) / 0x100000000)
}

/// High half of the signed-times-unsigned 64-bit product.
pub open spec fn mulhsu32(a: u32, b: u32) -> u32 {
    to_u32((s32(a) * b) / 0x100000000)
}

/// Signed division, rounding toward zero. Division by zero yields all-ones;
/// the overflowing quotient INT_MIN / -1 comes out as INT_MIN again.
pub open spec fn div32(a: u32, b: u32) -> u32 {
    if b == 0 {
        0xffffffffu32
    } else {
        let q = sabs(a) / sabs(b);
        if (s32(a) < 0) != (s32(b) < 0) {
            to_u32(-q)
        } else {
            to_u32(q)
        }
    }
}

/// Signed remainder, with the sign of the dividend. Division by zero yields
/// the dividend; INT_MIN % -1 is zero.
pub open spec fn rem32(a: u32, b: u32) -> u32 {
    if b == 0 {
        a
    } else {
        let r = sabs(a) % sabs(b);
        if s32(a) < 0 {
            to_u32(-r)
        } else {
            to_u32(r)
        }
    }
}

pub open spec fn divu32(a: u32, b: u32) -> u32 {
    if b == 0 {
        0xffffffffu32
    } else {
        a / b
    }
}

pub open spec fn remu32(a: u32, b: u32) -> u32 {
    if b == 0 {
        a
    } else {
        a % b
    }
}

// ------------------------------------------------------------------
// Sign extension of loaded bytes and halfwords
// ------------------------------------------------------------------

pub open spec fn sext8(b: u32) -> u32 {
    if b >= 0x80 {
        0xffffff00 | b
    } else {
        b
    }
}

pub open spec fn sext16(h: u32) -> u32 {
    if h >= 0x8000 {
        0xffff0000 | h
    } else {
        h
    }
}

// ------------------------------------------------------------------
// Little-endian composition of memory bytes
// ------------------------------------------------------------------

pub open spec fn le16(b0: u8, b1: u8) -> u16 {
    ((b1 as u16) << 8) | (b0 as u16)
}

pub open spec fn le32(b0: u8, b1: u8, b2: u8, b3: u8) -> u32 {
    ((b3 as u32) << 24) | ((b2 as u32) << 16) | ((b1 as u32) << 8) | (b0 as u32)
}

// ------------------------------------------------------------------
// Register bank as a sequence
// ------------------------------------------------------------------

/// The value an instruction reads from register `idx`: x0 always reads zero.
pub open spec fn reg_of(regs: Seq<u32>, idx: u32) -> u32 {
    if idx == 0 {
        0u32
    } else {
        regs[idx as int]
    }
}

/// The register bank after a write to `idx`: writes to x0 are dropped.
pub open spec fn set_reg(regs: Seq<u32>, idx: u32, v: u32) -> Seq<u32> {
    if idx == 0 {
        regs
    } else {
        regs.update(idx as int, v)
    }
}

// ------------------------------------------------------------------
// Legality of each major opcode's sub-encodings
// ------------------------------------------------------------------

pub open spec fn math_i_legal(i: u32) -> bool {
    funct3(i) != 5 || funct7(i) == 0x00 || funct7(i) == 0x20
}

pub open spec fn math_legal(i: u32) -> bool {
    let f3 = funct3(i);
    let f7 = funct7(i);
    (f7 == 0x00 && f3 <= 7) || (f7 == 0x01 && f3 <= 7) || (f7 == 0x20 && (f3 == 0 || f3 == 5))
}

pub open spec fn branch_legal(i: u32) -> bool {
    let f3 = funct3(i);
    f3 == 0 || f3 == 1 || f3 == 4 || f3 == 5 || f3 == 6 || f3 == 7
}

pub open spec fn load_legal(i: u32) -> bool {
    let f3 = funct3(i);
    f3 == 0 || f3 == 1 || f3 == 2 || f3 == 4 || f3 == 5
}

pub open spec fn store_legal(i: u32) -> bool {
    let f3 = funct3(i);
    f3 == 0 || f3 == 1 || f3 == 2
}

pub open spec fn fence_legal(i: u32) -> bool {
    funct3(i) == 0 || funct3(i) == 1
}

// ------------------------------------------------------------------
// Results of the register-register and register-immediate groups
// ------------------------------------------------------------------

/// The destination value of a legal OP-IMM instruction, given the value `a`
/// read from rs1.
pub open spec fn math_i_val(a: u32, i: u32) -> u32 {
    let imm = imm_i(i);
    match funct3(i) {
        0 => add32(a, imm),
        1 => sll32(a, imm),
        2 => slt32(a, imm),
        3 => sltu32(a, imm),
        4 => a ^ imm,
        5 => if funct7(i) == 0x20 {
            sra32(a, imm)
        } else {
            srl32(a, imm)
        },
        6 => a | imm,
        _ => a & imm,
    }
}

/// The destination value of a legal OP instruction, given the values `a` and
/// `b` read from rs1 and rs2.
pub open spec fn math_val(a: u32, b: u32, i: u32) -> u32 {
    let f7 = funct7(i);
    match funct3(i) {
        0 => if f7 == 0x20 {
            sub32(a, b)
        } else if f7 == 0x01 {
            mul32(a, b)
        } else {
            add32(a, b)
        },
        1 => if f7 == 0x01 {
            mulh32(a, b)
        } else {
            sll32(a, b)
        },
        2 => if f7 == 0x01 {
            mulhsu32(a, b)
        } else {
            slt32(a, b)
        },
        3 => if f7 == 0x01 {
            mulhu32(a, b)
        } else {
            sltu32(a, b)
        },
        4 => if f7 == 0x01 {
            div32(a, b)
        } else {
            a ^ b
        },
        5 => if f7 == 0x01 {
            divu32(a, b)
        } else if f7 == 0x20 {
            sra32(a, b)
        } else {
            srl32(a, b)
        },
        6 => if f7 == 0x01 {
            rem32(a, b)
        } else {
            a | b
        },
        _ => if f7 == 0x01 {
            remu32(a, b)
        } else {
            a & b
        },
    }
}

/// Whether a legal branch is taken, given the values read from rs1 and rs2.
pub open spec fn branch_taken(a: u32, b: u32, f3: u32) -> bool {
    match f3 {
        0 => a == b,
        1 => a != b,
        4 => s32(a) < s32(b),
        5 => s32(a) >= s32(b),
        6 => a < b,
        _ => a >= b,
    }
}

// ------------------------------------------------------------------
// Laws about the arithmetic
// ------------------------------------------------------------------

/// Division by zero yields the all-ones word and remainder by zero yields
/// the dividend, for every dividend, signed or unsigned.
pub proof fn lemma_div_rem_by_zero(a: u32)
    ensures
        div32(a, 0) == 0xffffffffu32,
        rem32(a, 0) == a,
        divu32(a, 0) == 0xffffffffu32,
        remu32(a, 0) == a,
{
}

/// A sign-extended byte whose top bit is set has all upper 24 bits set.
pub proof fn lemma_sext8_negative(b: u32)
    by (bit_vector)
    requires
        b < 0x100,
        b & 0x80 == 0x80,
    ensures
        sext8(b) & 0xffffff00 == 0xffffff00,
{
}

/// A sign-extended halfword whose top bit is set has all upper 16 bits set.
pub proof fn lemma_sext16_negative(h: u32)
    by (bit_vector)
    requires
        h < 0x10000,
        h & 0x8000 == 0x8000,
    ensures
        sext16(h) & 0xffff0000 == 0xffff0000,
{
}

/// Reading back the four bytes of a stored word, least significant first,
/// reassembles exactly the stored word.
pub proof fn lemma_word_bytes_round_trip(v: u32)
    by (bit_vector)
    ensures
        le32(
            (v & 0xff) as u8,
            ((v >> 8) & 0xff) as u8,
            ((v >> 16) & 0xff) as u8,
            ((v >> 24) & 0xff) as u8,
        ) == v,
{
}

/// Reading back the two bytes of a stored halfword reassembles the halfword.
pub proof fn lemma_half_bytes_round_trip(v: u16)
    by (bit_vector)
    ensures
        le16((v & 0xff) as u8, ((v >> 8) & 0xff) as u8) == v,
{
}

/// The byte written at each offset of a stored word is exactly the
/// corresponding eight bits of the word (little-endian: offset 0 holds the
/// least significant byte).
pub proof fn lemma_word_store_byte_values(v: u32)
    by (bit_vector)
    ensures
        ((v & 0xff) as u8) as u32 == v & 0xff,
        (((v >> 8) & 0xff) as u8) as u32 == (v >> 8) & 0xff,
        (((v >> 16) & 0xff) as u8) as u32 == (v >> 16) & 0xff,
        (((v >> 24) & 0xff) as u8) as u32 == (v >> 24) & 0xff,
        v & 0xff < 0x100,
        (v >> 8) & 0xff < 0x100,
        (v >> 16) & 0xff < 0x100,
        (v >> 24) & 0xff < 0x100,
{
}

/// Bounds of the masked instruction fields, used wherever a field indexes
/// the register bank or drives a shift.
pub proof fn lemma_field_bounds(i: u32)
    by (bit_vector)
    ensures
        i & 0x7f < 0x80,
        (i >> 12) & 0x07 < 8,
        (i >> 25) & 0x7f < 0x80,
        (i >> 7) & 0x1f < 32,
        (i >> 15) & 0x1f < 32,
        (i >> 20) & 0x1f < 32,
        (i >> 20) & 0xfff < 0x1000,
{
}

// ------------------------------------------------------------------
// Executable helpers, proved against the spec functions above
// ------------------------------------------------------------------

/// The OP-IMM / load / JALR / SYSTEM immediate.
pub fn decode_imm_i(i: u32) -> (r: u32)
    ensures
        r == imm_i(i),
{
    let x = (i >> 20) & 0xfff;
    if i & 0x80000000 == 0x80000000 {
        0xfffff000 | x
    } else {
        x
    }
}

/// The store immediate.
pub fn decode_imm_s(i: u32) -> (r: u32)
    ensures
        r == imm_s(i),
{
    let x = ((i >> 20) & 0x7e0) | ((i >> 7) & 0x1f);
    if i & 0x80000000 == 0x80000000 {
        0xfffff800 | x
    } else {
        x
    }
}

/// The branch immediate.
pub fn decode_imm_b(i: u32) -> (r: u32)
    ensures
        r == imm_b(i),
{
    let x = ((i << 4) & 0x800) | ((i >> 20) & 0x7e0) | ((i >> 7) & 0x1e);
    if i & 0x80000000 == 0x80000000 {
        0xfffff000 | x
    } else {
        x
    }
}

/// The jump immediate.
pub fn decode_imm_j(i: u32) -> (r: u32)
    ensures
        r == imm_j(i),
{
    let x = (i & 0xff000) | ((i >> 9) & 0x800) | ((i >> 20) & 0x7fe);
    if i & 0x80000000 == 0x80000000 {
        0xfff00000 | x
    } else {
        x
    }
}

pub fn alu_add(a: u32, b: u32) -> (r: u32)
    ensures
        r == add32(a, b),
{
    a.wrapping_add(b)
}

pub fn alu_sub(a: u32, b: u32) -> (r: u32)
    ensures
        r == sub32(a, b),
{
    a.wrapping_sub(b)
}

pub fn alu_mul(a: u32, b: u32) -> (r: u32)
    ensures
        r == mul32(a, b),
{
    a.wrapping_mul(b)
}

pub fn alu_sll(a: u32, b: u32) -> (r: u32)
    ensures
        r == sll32(a, b),
{
    a << (b % 32)
}

pub fn alu_srl(a: u32, b: u32) -> (r: u32)
    ensures
        r == srl32(a, b),
{
    a >> (b % 32)
}

pub fn alu_sra(a: u32, b: u32) -> (r: u32)
    ensures
        r == sra32(a, b),
{
    let sh = b % 32;
    if a < 0x80000000 {
        a >> sh
    } else {
        (a >> sh) | !(0xffffffffu32 >> sh)
    }
}

pub fn alu_slt(a: u32, b: u32) -> (r: u32)
    ensures
        r == slt32(a, b),
{
    let a_neg = a >= 0x80000000;
    let b_neg = b >= 0x80000000;
    let lt = if a_neg == b_neg {
        a < b
    } else {
        a_neg
    };
    if lt {
        1
    } else {
        0
    }
}

pub fn alu_sltu(a: u32, b: u32) -> (r: u32)
    ensures
        r == sltu32(a, b),
{
    if a < b {
        1
    } else {
        0
    }
}

pub fn alu_mulhu(a: u32, b: u32) -> (r: u32)
    ensures
        r == mulhu32(a, b),
{
    proof {
        assert((a as int) * (b as int) <= 0xffffffff * 0xffffffff) by (nonlinear_arith)
            requires
                a <= 0xffffffff,
                b <= 0xffffffff,
        ;
    }
    let p: u64 = (a as u64) * (b as u64);
    let h: u64 = p >> 32;
    proof {
        lemma_u64_shr_is_div(p, 32);
        assert(vstd::arithmetic::power2::pow2(32) == 0x100000000) by {
            vstd::arithmetic::power2::lemma2_to64();
        };
        assert(h == (a * b) / 0x100000000);
        assert(0 <= (a * b) / 0x100000000 < 0x100000000);
        lemma_fundamental_div_mod_converse(
            (a * b) / 0x100000000,
            0x100000000,
            0,
            (a * b) / 0x100000000,
        );
    }
    h as u32
}

pub fn alu_mulh(a: u32, b: u32) -> (r: u32)
    ensures
        r == mulh32(a, b),
{
    let h = alu_mulhu(a, b);
    let h1 = if a >= 0x80000000 {
        h.wrapping_sub(b)
    } else {
        h
    };
    let h2 = if b >= 0x80000000 {
        h1.wrapping_sub(a)
    } else {
        h1
    };
    proof {
        lemma_mulh_from_mulhu(a, b);
    }
    h2
}

pub fn alu_mulhsu(a: u32, b: u32) -> (r: u32)
    ensures
        r == mulhsu32(a, b),
{
    let h = alu_mulhu(a, b);
    let h1 = if a >= 0x80000000 {
        h.wrapping_sub(b)
    } else {
        h
    };
    proof {
        lemma_mulhsu_from_mulhu(a, b);
    }
    h1
}

/// The magnitude of the signed reading, as a 32-bit word (the magnitude of
/// INT_MIN still fits).
fn abs_mag(a: u32) -> (r: u32)
    ensures
        r == sabs(a),
{
    if a >= 0x80000000 {
        0xffffffffu32 - a + 1
    } else {
        a
    }
}

/// The word holding the negation of a magnitude `m <= 2^31`.
fn neg_mag(m: u32) -> (r: u32)
    requires
        m <= 0x80000000,
    ensures
        r == to_u32(-(m as int)),
{
    proof {
        if m > 0 {
            lemma_fundamental_div_mod_converse(
                -(m as int),
                0x100000000,
                -1,
                0x100000000 - m,
            );
        } else {
            lemma_fundamental_div_mod_converse(0, 0x100000000, 0, 0);
        }
    }
    if m == 0 {
        0
    } else {
        0xffffffffu32 - m + 1
    }
}

pub fn alu_div(a: u32, b: u32) -> (r: u32)
    ensures
        r == div32(a, b),
{
    if b == 0 {
        return 0xffffffff;
    }
    let ua = abs_mag(a);
    let ub = abs_mag(b);
    let q = ua / ub;
    let a_neg = a >= 0x80000000;
    let b_neg = b >= 0x80000000;
    if a_neg != b_neg {
        neg_mag(q)
    } else {
        proof {
            assert(sabs(a) / sabs(b) <= sabs(a)) by (nonlinear_arith)
                requires
                    sabs(a) >= 0,
                    sabs(b) >= 1,
            ;
            lemma_fundamental_div_mod_converse(q as int, 0x100000000, 0, q as int);
        }
        q
    }
}

pub fn alu_divu(a: u32, b: u32) -> (r: u32)
    ensures
        r == divu32(a, b),
{
    if b == 0 {
        0xffffffff
    } else {
        a / b
    }
}

pub fn alu_rem(a: u32, b: u32) -> (r: u32)
    ensures
        r == rem32(a, b),
{
    if b == 0 {
        return a;
    }
    let ua = abs_mag(a);
    let ub = abs_mag(b);
    let rr = ua % ub;
    if a >= 0x80000000 {
        neg_mag(rr)
    } else {
        proof {
            lemma_fundamental_div_mod_converse(rr as int, 0x100000000, 0, rr as int);
        }
        rr
    }
}

pub fn alu_remu(a: u32, b: u32) -> (r: u32)
    ensures
        r == remu32(a, b),
{
    if b == 0 {
        a
    } else {
        a % b
    }
}

/// Sign-extend a loaded byte (given as a word below 0x100).
pub fn extend_byte(b: u32) -> (r: u32)
    requires
        b < 0x100,
    ensures
        r == sext8(b),
{
    if b >= 0x80 {
        0xffffff00 | b
    } else {
        b
    }
}

/// Sign-extend a loaded halfword (given as a word below 0x10000).
pub fn extend_half(h: u32) -> (r: u32)
    requires
        h < 0x10000,
    ensures
        r == sext16(h),
{
    if h >= 0x8000 {
        0xffff0000 | h
    } else {
        h
    }
}

// ------------------------------------------------------------------
// Proofs for the high-multiply reductions
// ------------------------------------------------------------------

/// The signed high half follows from the unsigned one by subtracting each
/// operand under the other's sign bit.
proof fn lemma_mulh_from_mulhu(a: u32, b: u32)
    ensures
        mulh32(a, b) == (if b >= 0x80000000 {
            sub32(
                if a >= 0x80000000 {
                    sub32(mulhu32(a, b), b)
                } else {
                    mulhu32(a, b)
                },
                a,
            )
        } else {
            if a >= 0x80000000 {
                sub32(mulhu32(a, b), b)
            } else {
                mulhu32(a, b)
            }
        }),
{
    let d = 0x100000000int;
    let ka: int = if a >= 0x80000000 {
        1
    } else {
        0
    };
    let kb: int = if b >= 0x80000000 {
        1
    } else {
        0
    };
    let k: int = -(ka * b) - (kb * a) + ka * kb * d;
    assert(s32(a) * s32(b) == a * b + k * d) by (nonlinear_arith)
        requires
            s32(a) == a - ka * d,
            s32(b) == b - kb * d,
            k == -(ka * b) - (kb * a) + ka * kb * d,
            d == 0x100000000,
    ;
    lemma_hoist_over_denominator(a * b, k, 0x100000000nat);
    assert((s32(a) * s32(b)) / d == (a * b) / d + k);
    lemma_to_u32_add_multiple_free(a * b / d, k, -(ka * b) - (kb * a));
    assert(mulh32(a, b) == to_u32((a * b) / d - ka * b - kb * a));
    lemma_prod_high_range(a, b);
    lemma_sub32_chain(a, b, (a * b) / d, ka, kb);
}

/// The signed-unsigned high half follows from the unsigned one by
/// subtracting the unsigned operand under the signed operand's sign bit.
proof fn lemma_mulhsu_from_mulhu(a: u32, b: u32)
    ensures
        mulhsu32(a, b) == (if a >= 0x80000000 {
            sub32(mulhu32(a, b), b)
        } else {
            mulhu32(a, b)
        }),
{
    let d = 0x100000000int;
    let ka: int = if a >= 0x80000000 {
        1
    } else {
        0
    };
    assert(s32(a) * b == a * b + (-(ka * b)) * d) by (nonlinear_arith)
        requires
            s32(a) == a - ka * d,
            d == 0x100000000,
    ;
    lemma_hoist_over_denominator(a * b, -(ka * b), 0x100000000nat);
    assert((s32(a) * b) / d == (a * b) / d - ka * b);
    lemma_to_u32_add_multiple_free(a * b / d, -(ka * b), -(ka * b));
    lemma_prod_high_range(a, b);
    lemma_sub32_chain(a, b, (a * b) / d, ka, 0);
}

/// The unsigned high half of a 32-by-32-bit product fits in 32 bits.
proof fn lemma_prod_high_range(a: u32, b: u32)
    ensures
        0 <= (a * b) / 0x100000000 < 0x100000000,
{
    assert(0 <= a * b <= 0xffffffff * 0xffffffff) by (nonlinear_arith)
        requires
            a <= 0xffffffff,
            b <= 0xffffffff,
    ;
    vstd::arithmetic::div_mod::lemma_div_is_ordered(a * b, 0xffffffffint * 0xffffffffint, 0x100000000);
    vstd::arithmetic::div_mod::lemma_div_pos_is_pos(a * b, 0x100000000);
    lemma_fundamental_div_mod_converse(
        0xffffffffint * 0xffffffffint,
        0x100000000,
        0xfffffffe,
        0x1,
    );
}

/// Adding a multiple of 2^32 does not change the 32-bit word of a value.
proof fn lemma_to_u32_add_multiple_free(x: int, k: int, k2: int)
    requires
        k % 0x100000000 == k2 % 0x100000000,
    ensures
        to_u32(x + k) == to_u32(x + k2),
{
    let d = 0x100000000int;
    vstd::arithmetic::div_mod::lemma_add_mod_noop(x, k, d);
    vstd::arithmetic::div_mod::lemma_add_mod_noop(x, k2, d);
    vstd::arithmetic::div_mod::lemma_mod_twice(x, d);
}

/// Folding the modulus through two wrapped subtractions.
proof fn lemma_sub32_chain(a: u32, b: u32, h: int, ka: int, kb: int)
    requires
        0 <= h < 0x100000000,
        ka == 0 || ka == 1,
        kb == 0 || kb == 1,
        ka == 1 <==> a >= 0x80000000,
    ensures
        to_u32(h - ka * b - kb * a) == (if kb == 1 {
            sub32(
                if ka == 1 {
                    sub32(to_u32(h), b)
                } else {
                    to_u32(h)
                },
                a,
            )
        } else {
            if ka == 1 {
                sub32(to_u32(h), b)
            } else {
                to_u32(h)
            }
        }),
{
    let d = 0x100000000int;
    lemma_fundamental_div_mod_converse(h, d, 0, h);
    assert(to_u32(h) == h);
    let h1: int = if ka == 1 {
        s32_mod_step(h, b as int)
    } else {
        h
    };
    let h2: int = if kb == 1 {
        s32_mod_step(h1, a as int)
    } else {
        h1
    };
    vstd::arithmetic::div_mod::lemma_sub_mod_noop(h, ka * b, d);
    vstd::arithmetic::div_mod::lemma_sub_mod_noop(h1, kb * a, d);
    vstd::arithmetic::div_mod::lemma_mod_twice(h - ka * b, d);
    assert((h - ka * b - kb * a) % d == (h1 - kb * a) % d) by {
        if ka == 1 {
            lemma_mod_shift_witness(h - ka * b, h1);
        }
    };
    assert(to_u32(h - ka * b - kb * a) == h2) by {
        if kb == 1 {
            lemma_mod_shift_witness(h1 - kb * a, h2);
        } else {
            lemma_fundamental_div_mod_converse(h1, d, 0, h1);
        }
    };
}

/// One wrapped subtraction step on plain integers in [0, 2^32).
proof fn s32_mod_step(h: int, s: int) -> (r: int)
    requires
        0 <= h < 0x100000000,
        0 <= s < 0x100000000,
    ensures
        0 <= r < 0x100000000,
        r % 0x100000000 == (h - s) % 0x100000000,
        r == (if h - s < 0 {
            h - s + 0x100000000
        } else {
            h - s
        }),
{
    let d = 0x100000000int;
    if h - s < 0 {
        lemma_fundamental_div_mod_converse(h - s, d, -1, h - s + d);
        lemma_fundamental_div_mod_converse(h - s + d, d, 0, h - s + d);
        h - s + d
    } else {
        lemma_fundamental_div_mod_converse(h - s, d, 0, h - s);
        h - s
    }
}

/// Two integers equal up to a multiple of 2^32, the second in range, have
/// equal 32-bit words.
proof fn lemma_mod_shift_witness(x: int, y: int)
    requires
        x % 0x100000000 == y % 0x100000000,
        0 <= y < 0x100000000,
    ensures
        to_u32(x) == y,
        x % 0x100000000 == y,
{
    lemma_fundamental_div_mod_converse(y, 0x100000000, 0, y);
}

} // verus!
