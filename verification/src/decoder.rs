//! Instruction records and the decoder from 32-bit words.

use vstd::prelude::*;

verus! {

/// The closed set of operations.
#[derive(Debug, Clone, Copy, PartialEq, Eq, Structural)]
pub enum Opcode {
    Add,
    Sub,
    And,
    Or,
    Xor,
    Sll,
    Srl,
    Sra,
    Addi,
    Andi,
    Ori,
    Xori,
    Slli,
    Srli,
    Srai,
    Lw,
    Jalr,
    Sw,
    Beq,
    Bne,
    Blt,
    Bge,
    Lui,
    Auipc,
    Jal,
    Unknown,
}

/// Number of operations, `Unknown` included.
pub const NUM_OPCODES: usize = 26;

impl Opcode {
    /// The position of the operation in the enumeration, from 0.
    pub open spec fn index_spec(self) -> int {
        match self {
            Opcode::Add => 0,
            Opcode::Sub => 1,
            Opcode::And => 2,
            Opcode::Or => 3,
            Opcode::Xor => 4,
            Opcode::Sll => 5,
            Opcode::Srl => 6,
            Opcode::Sra => 7,
            Opcode::Addi => 8,
            Opcode::Andi => 9,
            Opcode::Ori => 10,
            Opcode::Xori => 11,
            Opcode::Slli => 12,
            Opcode::Srli => 13,
            Opcode::Srai => 14,
            Opcode::Lw => 15,
            Opcode::Jalr => 16,
            Opcode::Sw => 17,
            Opcode::Beq => 18,
            Opcode::Bne => 19,
            Opcode::Blt => 20,
            Opcode::Bge => 21,
            Opcode::Lui => 22,
            Opcode::Auipc => 23,
            Opcode::Jal => 24,
            Opcode::Unknown => 25,
        }
    }

    /// The operation is one of the four conditional branches.
    pub open spec fn is_branch(self) -> bool {
        self == Opcode::Beq || self == Opcode::Bne || self == Opcode::Blt || self == Opcode::Bge
    }

    /// The position of the operation in the enumeration, from 0.
    pub fn index(self) -> (i: usize)
        ensures
            i == self.index_spec(),
            i < NUM_OPCODES,
    {
        match self {
            Opcode::Add => 0,
            Opcode::Sub => 1,
            Opcode::And => 2,
            Opcode::Or => 3,
            Opcode::Xor => 4,
            Opcode::Sll => 5,
            Opcode::Srl => 6,
            Opcode::Sra => 7,
            Opcode::Addi => 8,
            Opcode::Andi => 9,
            Opcode::Ori => 10,
            Opcode::Xori => 11,
            Opcode::Slli => 12,
            Opcode::Srli => 13,
            Opcode::Srai => 14,
            Opcode::Lw => 15,
            Opcode::Jalr => 16,
            Opcode::Sw => 17,
            Opcode::Beq => 18,
            Opcode::Bne => 19,
            Opcode::Blt => 20,
            Opcode::Bge => 21,
            Opcode::Lui => 22,
            Opcode::Auipc => 23,
            Opcode::Jal => 24,
            Opcode::Unknown => 25,
        }
    }

    /// The operation at position `i` of the enumeration.
    pub fn from_index(i: usize) -> (r: Option<Opcode>)
        ensures
            i < NUM_OPCODES ==> r is Some && r->0.index_spec() == i,
            i >= NUM_OPCODES ==> r is None,
    {
        match i {
            0 => Some(Opcode::Add),
            1 => Some(Opcode::Sub),
            2 => Some(Opcode::And),
            3 => Some(Opcode::Or),
            4 => Some(Opcode::Xor),
            5 => Some(Opcode::Sll),
            6 => Some(Opcode::Srl),
            7 => Some(Opcode::Sra),
            8 => Some(Opcode::Addi),
            9 => Some(Opcode::Andi),
            10 => Some(Opcode::Ori),
            11 => Some(Opcode::Xori),
            12 => Some(Opcode::Slli),
            13 => Some(Opcode::Srli),
            14 => Some(Opcode::Srai),
            15 => Some(Opcode::Lw),
            16 => Some(Opcode::Jalr),
            17 => Some(Opcode::Sw),
            18 => Some(Opcode::Beq),
            19 => Some(Opcode::Bne),
            20 => Some(Opcode::Blt),
            21 => Some(Opcode::Bge),
            22 => Some(Opcode::Lui),
            23 => Some(Opcode::Auipc),
            24 => Some(Opcode::Jal),
            25 => Some(Opcode::Unknown),
            _ => None,
        }
    }
}

/// A decoded instruction: operation, register indices and sign-extended immediate.
#[derive(Debug, Clone, Copy, PartialEq, Eq, Structural)]
pub struct Instruction {
    pub opcode: Opcode,
    pub rd: usize,
    pub rs1: usize,
    pub rs2: usize,
    pub imm: i32,
}

/// The value of the low `bits` bits of `val` read as a two's-complement number.
pub open spec fn sign_extended(val: u32, bits: u32) -> int
    recommends
        1 <= bits <= 32,
{
    let low = (val as u64) & (((1u64 << bits) - 1) as u64);
    if low >= (1u64 << ((bits - 1) as u32)) {
        low - (1u64 << bits)
    } else {
        low as int
    }
}

/// Sign-extends the low `bits` bits of `val` to a full signed word.
pub fn sign_extend(val: u32, bits: u32) -> (r: i32)
    requires
        1 <= bits <= 32,
    ensures
        r == sign_extended(val, bits),
{
    let shift = 32 - bits;
    let r = (#[verifier::truncate] ((val << shift) as i32)) >> shift;
    assert(r == sign_extended(val, bits)) by (bit_vector)
        requires
            1 <= bits <= 32,
            shift == 32 - bits,
            r == (((val << shift) as i32) >> shift),
    ;
    r
}

/// Bits 6..0 of an instruction word: the major opcode.
pub open spec fn opcode_field(w: u32) -> u32 {
    w & 0x7f
}

/// Bits 11..7: the destination register.
pub open spec fn rd_field(w: u32) -> u32 {
    (w >> 7) & 0x1f
}

/// Bits 14..12.
pub open spec fn funct3_field(w: u32) -> u32 {
    (w >> 12) & 0x7
}

/// Bits 19..15: the first source register.
pub open spec fn rs1_field(w: u32) -> u32 {
    (w >> 15) & 0x1f
}

/// Bits 24..20: the second source register.
pub open spec fn rs2_field(w: u32) -> u32 {
    (w >> 20) & 0x1f
}

/// Bits 31..25.
pub open spec fn funct7_field(w: u32) -> u32 {
    (w >> 25) & 0x7f
}

/// The I-type immediate: bits 31..20, sign-extended from 12 bits.
pub open spec fn imm_i(w: u32) -> i32 {
    sign_extended(w >> 20, 12) as i32
}

/// The S-type immediate: bits 31..25 over bits 11..7, sign-extended from 12 bits.
pub open spec fn imm_s(w: u32) -> i32 {
    sign_extended((((w >> 25) & 0x7f) << 5) | ((w >> 7) & 0x1f), 12) as i32
}

/// The B-type immediate: bit 31, bit 7, bits 30..25, bits 11..8 and a zero,
/// sign-extended from 13 bits.
pub open spec fn imm_b(w: u32) -> i32 {
    sign_extended(
        (((w >> 31) & 0x1) << 12) | (((w >> 7) & 0x1) << 11) | (((w >> 25) & 0x3f) << 5) | (((w
            >> 8) & 0xf) << 1),
        13,
    ) as i32
}

/// The U-type immediate: bits 31..12 in place, the low twelve bits zero.
pub open spec fn imm_u(w: u32) -> i32 {
    (w & 0xfffff000) as i32
}

/// The J-type immediate: bit 31, bits 19..12, bit 20, bits 30..21 and a zero,
/// sign-extended from 21 bits.
pub open spec fn imm_j(w: u32) -> i32 {
    sign_extended(
        (((w >> 31) & 0x1) << 20) | (((w >> 12) & 0xff) << 12) | (((w >> 20) & 0x1) << 11) | (((w
            >> 21) & 0x3ff) << 1),
        21,
    ) as i32
}

/// The register-register operation selected by `funct3` and `funct7`.
pub open spec fn rtype_opcode(funct3: u32, funct7: u32) -> Opcode {
    if funct3 == 0 && funct7 == 0x00 {
        Opcode::Add
    } else if funct3 == 0 && funct7 == 0x20 {
        Opcode::Sub
    } else if funct3 == 7 && funct7 == 0x00 {
        Opcode::And
    } else if funct3 == 6 && funct7 == 0x00 {
        Opcode::Or
    } else if funct3 == 4 && funct7 == 0x00 {
        Opcode::Xor
    } else if funct3 == 1 && funct7 == 0x00 {
        Opcode::Sll
    } else if funct3 == 5 && funct7 == 0x00 {
        Opcode::Srl
    } else if funct3 == 5 && funct7 == 0x20 {
        Opcode::Sra
    } else {
        Opcode::Unknown
    }
}

/// The register-immediate operation selected by `funct3`, and by `funct7` for
/// the right shifts.
pub open spec fn itype_opcode(funct3: u32, funct7: u32) -> Opcode {
    if funct3 == 0 {
        Opcode::Addi
    } else if funct3 == 7 {
        Opcode::Andi
    } else if funct3 == 6 {
        Opcode::Ori
    } else if funct3 == 4 {
        Opcode::Xori
    } else if funct3 == 1 {
        Opcode::Slli
    } else if funct3 == 5 && funct7 == 0x00 {
        Opcode::Srli
    } else if funct3 == 5 && funct7 == 0x20 {
        Opcode::Srai
    } else {
        Opcode::Unknown
    }
}

/// The load selected by `funct3`: the word load, and no other.
pub open spec fn load_opcode(funct3: u32) -> Opcode {
    if funct3 == 2 {
        Opcode::Lw
    } else {
        Opcode::Unknown
    }
}

/// The store selected by `funct3`: the word store, and no other.
pub open spec fn store_opcode(funct3: u32) -> Opcode {
    if funct3 == 2 {
        Opcode::Sw
    } else {
        Opcode::Unknown
    }
}

/// The conditional branch selected by `funct3`.
pub open spec fn branch_opcode(funct3: u32) -> Opcode {
    if funct3 == 0 {
        Opcode::Beq
    } else if funct3 == 1 {
        Opcode::Bne
    } else if funct3 == 4 {
        Opcode::Blt
    } else if funct3 == 5 {
        Opcode::Bge
    } else {
        Opcode::Unknown
    }
}

/// The instruction that a word stands for. Fields that a format does not use
/// are zero; a word that matches no format gives `Unknown`.
pub open spec fn decode_spec(w: u32) -> Instruction {
    let op = opcode_field(w);
    let rd = rd_field(w) as usize;
    let rs1 = rs1_field(w) as usize;
    let rs2 = rs2_field(w) as usize;
    if op == 0x33 {
        Instruction {
            opcode: rtype_opcode(funct3_field(w), funct7_field(w)),
            rd,
            rs1,
            rs2,
            imm: 0,
        }
    } else if op == 0x13 {
        Instruction {
            opcode: itype_opcode(funct3_field(w), funct7_field(w)),
            rd,
            rs1,
            rs2: 0,
            imm: imm_i(w),
        }
    } else if op == 0x03 {
        Instruction { opcode: load_opcode(funct3_field(w)), rd, rs1, rs2: 0, imm: imm_i(w) }
    } else if op == 0x23 {
        Instruction { opcode: store_opcode(funct3_field(w)), rd: 0, rs1, rs2, imm: imm_s(w) }
    } else if op == 0x63 {
        Instruction { opcode: branch_opcode(funct3_field(w)), rd: 0, rs1, rs2, imm: imm_b(w) }
    } else if op == 0x37 {
        Instruction { opcode: Opcode::Lui, rd, rs1: 0, rs2: 0, imm: imm_u(w) }
    } else if op == 0x17 {
        Instruction { opcode: Opcode::Auipc, rd, rs1: 0, rs2: 0, imm: imm_u(w) }
    } else if op == 0x6f {
        Instruction { opcode: Opcode::Jal, rd, rs1: 0, rs2: 0, imm: imm_j(w) }
    } else if op == 0x67 {
        Instruction { opcode: Opcode::Jalr, rd, rs1, rs2: 0, imm: imm_i(w) }
    } else {
        Instruction { opcode: Opcode::Unknown, rd: 0, rs1: 0, rs2: 0, imm: 0 }
    }
}

/// A five-bit field names one of the 32 registers.
pub proof fn lemma_register_fields_in_range(w: u32)
    ensures
        rd_field(w) < 32,
        rs1_field(w) < 32,
        rs2_field(w) < 32,
{
    assert(((w >> 7) & 0x1f) < 32 && ((w >> 15) & 0x1f) < 32 && ((w >> 20) & 0x1f) < 32)
        by (bit_vector);
}

impl Instruction {
    /// All three register indices name a register.
    pub open spec fn wf(&self) -> bool {
        self.rd < 32 && self.rs1 < 32 && self.rs2 < 32
    }

    /// Decodes an instruction word. Never fails: a word that matches no
    /// format decodes to `Unknown`.
    pub fn decode(raw: u32) -> (inst: Instruction)
        ensures
            inst == decode_spec(raw),
            inst.wf(),
    {
        proof {
            lemma_register_fields_in_range(raw);
        }
        let opcode_bits = raw & 0x7f;
        let rd = ((raw >> 7) & 0x1f) as usize;
        let funct3 = (raw >> 12) & 0x7;
        let rs1 = ((raw >> 15) & 0x1f) as usize;
        let rs2 = ((raw >> 20) & 0x1f) as usize;
        let funct7 = (raw >> 25) & 0x7f;

        match opcode_bits {
            0x33 => {
                let opcode = match (funct3, funct7) {
                    (0x0, 0x00) => Opcode::Add,
                    (0x0, 0x20) => Opcode::Sub,
                    (0x7, 0x00) => Opcode::And,
                    (0x6, 0x00) => Opcode::Or,
                    (0x4, 0x00) => Opcode::Xor,
                    (0x1, 0x00) => Opcode::Sll,
                    (0x5, 0x00) => Opcode::Srl,
                    (0x5, 0x20) => Opcode::Sra,
                    _ => Opcode::Unknown,
                };
                Instruction { opcode, rd, rs1, rs2, imm: 0 }
            },
            0x13 => {
                let imm = sign_extend(raw >> 20, 12);
                let opcode = match funct3 {
                    0x0 => Opcode::Addi,
                    0x7 => Opcode::Andi,
                    0x6 => Opcode::Ori,
                    0x4 => Opcode::Xori,
                    0x1 => Opcode::Slli,
                    0x5 => {
                        if funct7 == 0x00 {
                            Opcode::Srli
                        } else if funct7 == 0x20 {
                            Opcode::Srai
                        } else {
                            Opcode::Unknown
                        }
                    },
                    _ => Opcode::Unknown,
                };
                Instruction { opcode, rd, rs1, rs2: 0, imm }
            },
            0x03 => {
                let imm = sign_extend(raw >> 20, 12);
                let opcode = match funct3 {
                    0x2 => Opcode::Lw,
                    _ => Opcode::Unknown,
                };
                Instruction { opcode, rd, rs1, rs2: 0, imm }
            },
            0x23 => {
                let imm_low = (raw >> 7) & 0x1f;
                let imm_high = (raw >> 25) & 0x7f;
                let imm = sign_extend((imm_high << 5) | imm_low, 12);
                let opcode = match funct3 {
                    0x2 => Opcode::Sw,
                    _ => Opcode::Unknown,
                };
                Instruction { opcode, rd: 0, rs1, rs2, imm }
            },
            0x63 => {
                let imm_11 = (raw >> 7) & 0x1;
                let imm_4_1 = (raw >> 8) & 0xf;
                let imm_10_5 = (raw >> 25) & 0x3f;
                let imm_12 = (raw >> 31) & 0x1;
                let imm = (imm_12 << 12) | (imm_11 << 11) | (imm_10_5 << 5) | (imm_4_1 << 1);
                let imm = sign_extend(imm, 13);
                let opcode = match funct3 {
                    0x0 => Opcode::Beq,
                    0x1 => Opcode::Bne,
                    0x4 => Opcode::Blt,
                    0x5 => Opcode::Bge,
                    _ => Opcode::Unknown,
                };
                Instruction { opcode, rd: 0, rs1, rs2, imm }
            },
            0x37 => {
                let imm = #[verifier::truncate] ((raw & 0xfffff000) as i32);
                Instruction { opcode: Opcode::Lui, rd, rs1: 0, rs2: 0, imm }
            },
            0x17 => {
                let imm = #[verifier::truncate] ((raw & 0xfffff000) as i32);
                Instruction { opcode: Opcode::Auipc, rd, rs1: 0, rs2: 0, imm }
            },
            0x6f => {
                let imm_19_12 = (raw >> 12) & 0xff;
                let imm_11 = (raw >> 20) & 0x1;
                let imm_10_1 = (raw >> 21) & 0x3ff;
                let imm_20 = (raw >> 31) & 0x1;
                let imm = (imm_20 << 20) | (imm_19_12 << 12) | (imm_11 << 11) | (imm_10_1 << 1);
                let imm = sign_extend(imm, 21);
                Instruction { opcode: Opcode::Jal, rd, rs1: 0, rs2: 0, imm }
            },
            0x67 => {
                let imm = sign_extend(raw >> 20, 12);
                Instruction { opcode: Opcode::Jalr, rd, rs1, rs2: 0, imm }
            },
            _ => Instruction { opcode: Opcode::Unknown, rd: 0, rs1: 0, rs2: 0, imm: 0 },
        }
    }
}

} // verus!
