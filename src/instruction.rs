use vstd::prelude::*;

verus! {

/// Register-register operands.
#[derive(Clone, Copy, Debug, PartialEq, Eq, Structural, Hash)]
pub struct RType {
    pub rd: u32,
    pub rs1: u32,
    pub rs2: u32,
}

/// Register-immediate operands; `imm` is the raw 12-bit field.
#[derive(Clone, Copy, Debug, PartialEq, Eq, Structural, Hash)]
pub struct IType {
    pub rd: u32,
    pub rs1: u32,
    pub imm: u32,
}

/// Store operands; `imm` is the raw 12-bit offset.
#[derive(Clone, Copy, Debug, PartialEq, Eq, Structural, Hash)]
pub struct SType {
    pub rs1: u32,
    pub rs2: u32,
    pub imm: u32,
}

/// Branch operands; `imm` is the raw offset field.
#[derive(Clone, Copy, Debug, PartialEq, Eq, Structural, Hash)]
pub struct BType {
    pub rs1: u32,
    pub rs2: u32,
    pub imm: u32,
}

/// Upper-immediate operands; `imm` holds the upper 20 bits in place.
#[derive(Clone, Copy, Debug, PartialEq, Eq, Structural, Hash)]
pub struct UType {
    pub rd: u32,
    pub imm: u32,
}

/// Jump operands; `imm` is the raw offset field.
#[derive(Clone, Copy, Debug, PartialEq, Eq, Structural, Hash)]
pub struct JType {
    pub rd: u32,
    pub imm: u32,
}

/// A decoded RISC-U instruction. `Other` carries the raw word of any
/// instruction outside the RISC-U subset.
#[derive(Clone, Copy, Debug, PartialEq, Eq, Structural, Hash)]
pub enum Instruction {
    Lui(UType),
    Jal(JType),
    Jalr(IType),
    Beq(BType),
    Ld(IType),
    Sd(SType),
    Addi(IType),
    Add(RType),
    Sub(RType),
    Sltu(RType),
    Mul(RType),
    Divu(RType),
    Remu(RType),
    Ecall,
    Other(u32),
}

pub open spec fn is_reg(r: u32) -> bool {
    r < 32
}

impl Instruction {
    /// Register fields name one of the 32 registers and 12-bit
    /// immediates fit their field.
    pub open spec fn wf(self) -> bool {
        match self {
            Instruction::Lui(u) => is_reg(u.rd),
            Instruction::Jal(j) => is_reg(j.rd),
            Instruction::Jalr(i) => is_reg(i.rd) && is_reg(i.rs1) && i.imm < 4096,
            Instruction::Beq(b) => is_reg(b.rs1) && is_reg(b.rs2),
            Instruction::Ld(i) => is_reg(i.rd) && is_reg(i.rs1) && i.imm < 4096,
            Instruction::Sd(s) => is_reg(s.rs1) && is_reg(s.rs2) && s.imm < 4096,
            Instruction::Addi(i) => is_reg(i.rd) && is_reg(i.rs1) && i.imm < 4096,
            Instruction::Add(r) | Instruction::Sub(r) | Instruction::Sltu(r) | Instruction::Mul(r)
            | Instruction::Divu(r) | Instruction::Remu(r) => is_reg(r.rd) && is_reg(r.rs1)
                && is_reg(r.rs2),
            Instruction::Ecall | Instruction::Other(_) => true,
        }
    }

    pub fn is_well_formed(&self) -> (r: bool)
        ensures
            r == self.wf(),
    {
        match *self {
            Instruction::Lui(u) => u.rd < 32,
            Instruction::Jal(j) => j.rd < 32,
            Instruction::Jalr(i) | Instruction::Ld(i) | Instruction::Addi(i) => i.rd < 32 && i.rs1
                < 32 && i.imm < 4096,
            Instruction::Beq(b) => b.rs1 < 32 && b.rs2 < 32,
            Instruction::Sd(s) => s.rs1 < 32 && s.rs2 < 32 && s.imm < 4096,
            Instruction::Add(r) | Instruction::Sub(r) | Instruction::Sltu(r) | Instruction::Mul(r)
            | Instruction::Divu(r) | Instruction::Remu(r) => r.rd < 32 && r.rs1 < 32 && r.rs2 < 32,
            Instruction::Ecall | Instruction::Other(_) => true,
        }
    }

    /// Whether this is one of the binary operators that can stand in a
    /// formula graph.
    pub open spec fn is_binary(self) -> bool {
        match self {
            Instruction::Addi(_) | Instruction::Add(_) | Instruction::Sub(_) | Instruction::Mul(_)
            | Instruction::Divu(_) | Instruction::Remu(_) | Instruction::Sltu(_) => true,
            _ => false,
        }
    }
}

pub open spec fn spec_divu(a: u64, b: u64) -> u64 {
    if b == 0 {
        u64::MAX
    } else {
        a / b
    }
}

pub open spec fn spec_remu(a: u64, b: u64) -> u64 {
    if b == 0 {
        a
    } else {
        a % b
    }
}

/// The value of a binary operator on two words: wrapping addition,
/// subtraction and multiplication, unsigned division and remainder (a
/// zero divisor gives all ones, resp. the dividend, as in RISC-V and
/// SMT-LIB), and unsigned less-than as 0 or 1.
pub open spec fn alu(instruction: Instruction, a: u64, b: u64) -> u64 {
    match instruction {
        Instruction::Addi(_) | Instruction::Add(_) => vstd::wrapping::u64_specs::wrapping_add(a, b),
        Instruction::Sub(_) => vstd::wrapping::u64_specs::wrapping_sub(a, b),
        Instruction::Mul(_) => vstd::wrapping::u64_specs::wrapping_mul(a, b),
        Instruction::Divu(_) => spec_divu(a, b),
        Instruction::Remu(_) => spec_remu(a, b),
        Instruction::Sltu(_) => if a < b {
            1
        } else {
            0
        },
        _ => 0,
    }
}

/// Computes `alu(instruction, a, b)`.
pub fn evaluate(instruction: Instruction, a: u64, b: u64) -> (r: u64)
    ensures
        r == alu(instruction, a, b),
{
    match instruction {
        Instruction::Addi(_) | Instruction::Add(_) => a.wrapping_add(b),
        Instruction::Sub(_) => a.wrapping_sub(b),
        Instruction::Mul(_) => a.wrapping_mul(b),
        Instruction::Divu(_) => if b == 0 {
            u64::MAX
        } else {
            a / b
        },
        Instruction::Remu(_) => if b == 0 {
            a
        } else {
            a % b
        },
        Instruction::Sltu(_) => if a < b {
            1
        } else {
            0
        },
        _ => 0,
    }
}

/// The mnemonic of an instruction; `unknown` outside RISC-U.
pub open spec fn mnemonic(i: Instruction) -> Seq<char> {
    match i {
        Instruction::Lui(_) => "lui"@,
        Instruction::Jal(_) => "jal"@,
        Instruction::Jalr(_) => "jalr"@,
        Instruction::Beq(_) => "beq"@,
        Instruction::Ld(_) => "ld"@,
        Instruction::Sd(_) => "sd"@,
        Instruction::Addi(_) => "addi"@,
        Instruction::Add(_) => "add"@,
        Instruction::Sub(_) => "sub"@,
        Instruction::Sltu(_) => "sltu"@,
        Instruction::Mul(_) => "mul"@,
        Instruction::Divu(_) => "divu"@,
        Instruction::Remu(_) => "remu"@,
        Instruction::Ecall => "ecall"@,
        Instruction::Other(_) => "unknown"@,
    }
}

/// Computes `mnemonic`.
pub fn instruction_to_str(i: Instruction) -> (r: &'static str)
    ensures
        r@ == mnemonic(i),
{
    match i {
        Instruction::Lui(_) => "lui",
        Instruction::Jal(_) => "jal",
        Instruction::Jalr(_) => "jalr",
        Instruction::Beq(_) => "beq",
        Instruction::Ld(_) => "ld",
        Instruction::Sd(_) => "sd",
        Instruction::Addi(_) => "addi",
        Instruction::Add(_) => "add",
        Instruction::Sub(_) => "sub",
        Instruction::Sltu(_) => "sltu",
        Instruction::Mul(_) => "mul",
        Instruction::Divu(_) => "divu",
        Instruction::Remu(_) => "remu",
        Instruction::Ecall => "ecall",
        Instruction::Other(_) => "unknown",
    }
}

/// The two's-complement value of the `b`-bit number `n`, as a 64-bit word.
pub open spec fn spec_sign_extend(n: u64, b: u32) -> u64 {
    if (n as int) < vstd::arithmetic::power2::pow2((b - 1) as nat) {
        n
    } else {
        (n - vstd::arithmetic::power2::pow2(b as nat) + 0x1_0000_0000_0000_0000) as u64
    }
}

/// Sign-extends the `b`-bit number `n` to 64 bits.
pub fn sign_extend(n: u64, b: u32) -> (r: u64)
    requires
        0 < b < 64,
        (n as int) < vstd::arithmetic::power2::pow2(b as nat),
    ensures
        r == spec_sign_extend(n, b),
{
    proof {
        vstd::arithmetic::power2::lemma_pow2_strictly_increases((b - 1) as nat, b as nat);
        vstd::arithmetic::power2::lemma_pow2_strictly_increases(b as nat, 64);
        vstd::bits::lemma_u64_pow2_no_overflow((b - 1) as nat);
        vstd::bits::lemma_u64_pow2_no_overflow(b as nat);
        vstd::bits::lemma_u64_shl_is_mul(1, (b - 1) as u64);
        vstd::bits::lemma_u64_shl_is_mul(1, b as u64);
        vstd::arithmetic::power2::lemma2_to64();
    }
    let half: u64 = 1u64 << ((b - 1) as u64);
    let full: u64 = 1u64 << (b as u64);
    if n < half {
        n
    } else {
        n.wrapping_sub(full)
    }
}

/// Sign-extends the 12-bit immediate of an I- or S-type instruction.
pub fn sign_extend_itype_stype(imm: u32) -> (r: u64)
    requires
        imm < 4096,
    ensures
        r == spec_sign_extend(imm as u64, 12),
{
    proof {
        vstd::arithmetic::power2::lemma2_to64();
    }
    sign_extend(imm as u64, 12)
}

/// Sign-extends the 20-bit immediate of a U-type instruction.
pub fn sign_extend_utype(imm: u32) -> (r: u64)
    requires
        imm < 0x10_0000,
    ensures
        r == spec_sign_extend(imm as u64, 20),
{
    proof {
        vstd::arithmetic::power2::lemma2_to64();
    }
    sign_extend(imm as u64, 20)
}

} // verus!
