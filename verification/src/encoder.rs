//! The encoder from instruction records to 32-bit words, and the proof that
//! the decoder inverts it.

use vstd::prelude::*;
use crate::decoder::{
    Instruction, Opcode, decode_spec, funct3_field, funct7_field, imm_b, imm_i, imm_j, imm_s,
    imm_u, opcode_field, rd_field, rs1_field, rs2_field, sign_extended,
};

verus! {

/// The encoding format of an operation.
#[derive(Debug, Clone, Copy, PartialEq, Eq, Structural)]
pub enum Format {
    /// Register-register.
    R,
    /// Register-immediate, loads and `jalr`.
    I,
    /// Stores.
    S,
    /// Conditional branches.
    B,
    /// Upper immediates.
    U,
    /// `jal`.
    J,
}

/// One row of the encoding table: format, major opcode, `funct3`, `funct7`.
/// Fields that a format does not have are zero.
#[derive(Debug, Clone, Copy, PartialEq, Eq, Structural)]
pub struct Encoding {
    pub format: Format,
    pub opcode7: u32,
    pub funct3: u32,
    pub funct7: u32,
}

/// The encoding table. `Unknown` has no row.
pub open spec fn encoding_of(op: Opcode) -> Option<Encoding> {
    match op {
        Opcode::Add => Some(Encoding { format: Format::R, opcode7: 0x33, funct3: 0, funct7: 0x00 }),
        Opcode::Sub => Some(Encoding { format: Format::R, opcode7: 0x33, funct3: 0, funct7: 0x20 }),
        Opcode::And => Some(Encoding { format: Format::R, opcode7: 0x33, funct3: 7, funct7: 0x00 }),
        Opcode::Or => Some(Encoding { format: Format::R, opcode7: 0x33, funct3: 6, funct7: 0x00 }),
        Opcode::Xor => Some(Encoding { format: Format::R, opcode7: 0x33, funct3: 4, funct7: 0x00 }),
        Opcode::Sll => Some(Encoding { format: Format::R, opcode7: 0x33, funct3: 1, funct7: 0x00 }),
        Opcode::Srl => Some(Encoding { format: Format::R, opcode7: 0x33, funct3: 5, funct7: 0x00 }),
        Opcode::Sra => Some(Encoding { format: Format::R, opcode7: 0x33, funct3: 5, funct7: 0x20 }),
        Opcode::Addi => Some(Encoding { format: Format::I, opcode7: 0x13, funct3: 0, funct7: 0 }),
        Opcode::Andi => Some(Encoding { format: Format::I, opcode7: 0x13, funct3: 7, funct7: 0 }),
        Opcode::Ori => Some(Encoding { format: Format::I, opcode7: 0x13, funct3: 6, funct7: 0 }),
        Opcode::Xori => Some(Encoding { format: Format::I, opcode7: 0x13, funct3: 4, funct7: 0 }),
        Opcode::Slli => Some(
            Encoding { format: Format::I, opcode7: 0x13, funct3: 1, funct7: 0x00 },
        ),
        Opcode::Srli => Some(
            Encoding { format: Format::I, opcode7: 0x13, funct3: 5, funct7: 0x00 },
        ),
        Opcode::Srai => Some(
            Encoding { format: Format::I, opcode7: 0x13, funct3: 5, funct7: 0x20 },
        ),
        Opcode::Lw => Some(Encoding { format: Format::I, opcode7: 0x03, funct3: 2, funct7: 0 }),
        Opcode::Jalr => Some(Encoding { format: Format::I, opcode7: 0x67, funct3: 0, funct7: 0 }),
        Opcode::Sw => Some(Encoding { format: Format::S, opcode7: 0x23, funct3: 2, funct7: 0 }),
        Opcode::Beq => Some(Encoding { format: Format::B, opcode7: 0x63, funct3: 0, funct7: 0 }),
        Opcode::Bne => Some(Encoding { format: Format::B, opcode7: 0x63, funct3: 1, funct7: 0 }),
        Opcode::Blt => Some(Encoding { format: Format::B, opcode7: 0x63, funct3: 4, funct7: 0 }),
        Opcode::Bge => Some(Encoding { format: Format::B, opcode7: 0x63, funct3: 5, funct7: 0 }),
        Opcode::Lui => Some(Encoding { format: Format::U, opcode7: 0x37, funct3: 0, funct7: 0 }),
        Opcode::Auipc => Some(Encoding { format: Format::U, opcode7: 0x17, funct3: 0, funct7: 0 }),
        Opcode::Jal => Some(Encoding { format: Format::J, opcode7: 0x6f, funct3: 0, funct7: 0 }),
        Opcode::Unknown => None,
    }
}

/// The operation is one of the three immediate shifts.
pub open spec fn is_shift_imm(op: Opcode) -> bool {
    op == Opcode::Slli || op == Opcode::Srli || op == Opcode::Srai
}

/// `imm` can stand in the immediate field of `op`: it fits the field's signed
/// width, has zeros where the field has no bits, and a shift amount is below 32.
pub open spec fn imm_fits(op: Opcode, imm: int) -> bool {
    match encoding_of(op) {
        None => false,
        Some(e) => match e.format {
            Format::R => imm == 0,
            Format::I => if is_shift_imm(op) {
                0 <= imm < 32
            } else {
                -2048 <= imm < 2048
            },
            Format::S => -2048 <= imm < 2048,
            Format::B => -4096 <= imm < 4096 && imm % 2 == 0,
            Format::U => -2147483648 <= imm < 2147483648 && imm % 4096 == 0,
            Format::J => -1048576 <= imm < 1048576 && imm % 2 == 0,
        },
    }
}

/// The registers that the format of `op` uses are in 0..32 and the others are zero.
pub open spec fn regs_fit(op: Opcode, rd: int, rs1: int, rs2: int) -> bool {
    match encoding_of(op) {
        None => false,
        Some(e) => match e.format {
            Format::R => 0 <= rd < 32 && 0 <= rs1 < 32 && 0 <= rs2 < 32,
            Format::I => 0 <= rd < 32 && 0 <= rs1 < 32 && rs2 == 0,
            Format::S | Format::B => rd == 0 && 0 <= rs1 < 32 && 0 <= rs2 < 32,
            Format::U | Format::J => 0 <= rd < 32 && rs1 == 0 && rs2 == 0,
        },
    }
}

/// The word for an R-type instruction.
pub open spec fn pack_r(funct7: u32, rs2: u32, rs1: u32, funct3: u32, rd: u32, opcode7: u32) -> u32 {
    (funct7 << 25) | (rs2 << 20) | (rs1 << 15) | (funct3 << 12) | (rd << 7) | opcode7
}

/// The word for an I-type instruction, from the twelve bits of its immediate field.
pub open spec fn pack_i(imm12: u32, rs1: u32, funct3: u32, rd: u32, opcode7: u32) -> u32 {
    (imm12 << 20) | (rs1 << 15) | (funct3 << 12) | (rd << 7) | opcode7
}

/// The word for an S-type instruction, from the low twelve bits of `imm`.
pub open spec fn pack_s(imm: u32, rs2: u32, rs1: u32, funct3: u32, opcode7: u32) -> u32 {
    (((imm >> 5) & 0x7f) << 25) | (rs2 << 20) | (rs1 << 15) | (funct3 << 12) | ((imm & 0x1f) << 7)
        | opcode7
}

/// The word for a B-type instruction, from bits 12..1 of `imm`.
pub open spec fn pack_b(imm: u32, rs2: u32, rs1: u32, funct3: u32, opcode7: u32) -> u32 {
    (((imm >> 12) & 0x1) << 31) | (((imm >> 5) & 0x3f) << 25) | (rs2 << 20) | (rs1 << 15) | (funct3
        << 12) | (((imm >> 1) & 0xf) << 8) | (((imm >> 11) & 0x1) << 7) | opcode7
}

/// The word for a U-type instruction, from bits 31..12 of `imm`.
pub open spec fn pack_u(imm: u32, rd: u32, opcode7: u32) -> u32 {
    (imm & 0xfffff000) | (rd << 7) | opcode7
}

/// The word for a J-type instruction, from bits 20..1 of `imm`.
pub open spec fn pack_j(imm: u32, rd: u32, opcode7: u32) -> u32 {
    (((imm >> 20) & 0x1) << 31) | (((imm >> 1) & 0x3ff) << 21) | (((imm >> 11) & 0x1) << 20) | (((
    imm >> 12) & 0xff) << 12) | (rd << 7) | opcode7
}

/// The twelve bits that stand in the immediate field of an I-type word:
/// the low bits of `imm`, with bit 10 set for `srai`.
pub open spec fn imm12_of(op: Opcode, imm: i32) -> u32 {
    if op == Opcode::Srai {
        ((imm as u32) & 0xfff) | 0x400
    } else {
        (imm as u32) & 0xfff
    }
}

/// The word that encodes `inst`.
pub open spec fn encode_spec(inst: Instruction) -> u32
    recommends
        inst.encodable(),
{
    let e = encoding_of(inst.opcode).unwrap();
    let rd = inst.rd as u32;
    let rs1 = inst.rs1 as u32;
    let rs2 = inst.rs2 as u32;
    let imm = inst.imm as u32;
    match e.format {
        Format::R => pack_r(e.funct7, rs2, rs1, e.funct3, rd, e.opcode7),
        Format::I => pack_i(imm12_of(inst.opcode, inst.imm), rs1, e.funct3, rd, e.opcode7),
        Format::S => pack_s(imm, rs2, rs1, e.funct3, e.opcode7),
        Format::B => pack_b(imm, rs2, rs1, e.funct3, e.opcode7),
        Format::U => pack_u(imm, rd, e.opcode7),
        Format::J => pack_j(imm, rd, e.opcode7),
    }
}

/// What the decoder gives back for an encoded instruction: the instruction
/// itself, except that the immediate of `srai` carries bit 10 of its field.
pub open spec fn decoded_form(inst: Instruction) -> Instruction {
    if inst.opcode == Opcode::Srai {
        Instruction { imm: (inst.imm + 0x400) as i32, ..inst }
    } else {
        inst
    }
}

impl Instruction {
    /// The instruction has an encoding: its operation is known, its registers
    /// and its immediate fit their fields, and unused fields are zero.
    pub open spec fn encodable(&self) -> bool {
        &&& regs_fit(self.opcode, self.rd as int, self.rs1 as int, self.rs2 as int)
        &&& imm_fits(self.opcode, self.imm as int)
    }
}

/// The fields of an R-type word are the values it was packed from.
pub proof fn lemma_unpack_r(funct7: u32, rs2: u32, rs1: u32, funct3: u32, rd: u32, opcode7: u32)
    by (bit_vector)
    requires
        funct7 < 128,
        rs2 < 32,
        rs1 < 32,
        funct3 < 8,
        rd < 32,
        opcode7 < 128,
    ensures
        opcode_field(pack_r(funct7, rs2, rs1, funct3, rd, opcode7)) == opcode7,
        rd_field(pack_r(funct7, rs2, rs1, funct3, rd, opcode7)) == rd,
        funct3_field(pack_r(funct7, rs2, rs1, funct3, rd, opcode7)) == funct3,
        rs1_field(pack_r(funct7, rs2, rs1, funct3, rd, opcode7)) == rs1,
        rs2_field(pack_r(funct7, rs2, rs1, funct3, rd, opcode7)) == rs2,
        funct7_field(pack_r(funct7, rs2, rs1, funct3, rd, opcode7)) == funct7,
{
}

/// The fields of an I-type word are the values it was packed from; its
/// immediate is the sign extension of the twelve bits.
pub proof fn lemma_unpack_i(imm12: u32, rs1: u32, funct3: u32, rd: u32, opcode7: u32)
    by (bit_vector)
    requires
        imm12 < 4096,
        rs1 < 32,
        funct3 < 8,
        rd < 32,
        opcode7 < 128,
    ensures
        opcode_field(pack_i(imm12, rs1, funct3, rd, opcode7)) == opcode7,
        rd_field(pack_i(imm12, rs1, funct3, rd, opcode7)) == rd,
        funct3_field(pack_i(imm12, rs1, funct3, rd, opcode7)) == funct3,
        rs1_field(pack_i(imm12, rs1, funct3, rd, opcode7)) == rs1,
        funct7_field(pack_i(imm12, rs1, funct3, rd, opcode7)) == imm12 >> 5,
        imm_i(pack_i(imm12, rs1, funct3, rd, opcode7)) == sign_extended(imm12, 12),
{
}

/// The twelve-bit field of an immediate in -2048..2048 sign-extends to it;
/// for a shift amount the upper seven bits name the shift.
pub proof fn lemma_imm12(imm: i32)
    by (bit_vector)
    ensures
        -2048 <= imm < 2048 ==> ((imm as u32) & 0xfff) < 4096 && sign_extended(
            (imm as u32) & 0xfff,
            12,
        ) == imm,
        0 <= imm < 32 ==> ((imm as u32) & 0xfff) >> 5 == 0 && (((imm as u32) & 0xfff) | 0x400)
            < 4096 && (((imm as u32) & 0xfff) | 0x400) >> 5 == 0x20 && sign_extended(
            ((imm as u32) & 0xfff) | 0x400,
            12,
        ) == imm + 0x400,
{
}

/// The fields of an S-type word are the values it was packed from.
pub proof fn lemma_unpack_s(imm: i32, rs2: u32, rs1: u32, funct3: u32, opcode7: u32)
    by (bit_vector)
    requires
        -2048 <= imm < 2048,
        rs2 < 32,
        rs1 < 32,
        funct3 < 8,
        opcode7 < 128,
    ensures
        opcode_field(pack_s(imm as u32, rs2, rs1, funct3, opcode7)) == opcode7,
        funct3_field(pack_s(imm as u32, rs2, rs1, funct3, opcode7)) == funct3,
        rs1_field(pack_s(imm as u32, rs2, rs1, funct3, opcode7)) == rs1,
        rs2_field(pack_s(imm as u32, rs2, rs1, funct3, opcode7)) == rs2,
        imm_s(pack_s(imm as u32, rs2, rs1, funct3, opcode7)) == imm,
{
}

/// The fields of a B-type word are the values it was packed from.
pub proof fn lemma_unpack_b(imm: i32, rs2: u32, rs1: u32, funct3: u32, opcode7: u32)
    by (bit_vector)
    requires
        -4096 <= imm < 4096,
        imm % 2 == 0,
        rs2 < 32,
        rs1 < 32,
        funct3 < 8,
        opcode7 < 128,
    ensures
        opcode_field(pack_b(imm as u32, rs2, rs1, funct3, opcode7)) == opcode7,
        funct3_field(pack_b(imm as u32, rs2, rs1, funct3, opcode7)) == funct3,
        rs1_field(pack_b(imm as u32, rs2, rs1, funct3, opcode7)) == rs1,
        rs2_field(pack_b(imm as u32, rs2, rs1, funct3, opcode7)) == rs2,
        imm_b(pack_b(imm as u32, rs2, rs1, funct3, opcode7)) == imm,
{
}

/// The fields of a U-type word are the values it was packed from.
pub proof fn lemma_unpack_u(imm: i32, rd: u32, opcode7: u32)
    by (bit_vector)
    requires
        imm % 4096 == 0,
        rd < 32,
        opcode7 < 128,
    ensures
        opcode_field(pack_u(imm as u32, rd, opcode7)) == opcode7,
        rd_field(pack_u(imm as u32, rd, opcode7)) == rd,
        imm_u(pack_u(imm as u32, rd, opcode7)) == imm,
{
}

/// The fields of a J-type word are the values it was packed from.
pub proof fn lemma_unpack_j(imm: i32, rd: u32, opcode7: u32)
    by (bit_vector)
    requires
        -1048576 <= imm < 1048576,
        imm % 2 == 0,
        rd < 32,
        opcode7 < 128,
    ensures
        opcode_field(pack_j(imm as u32, rd, opcode7)) == opcode7,
        rd_field(pack_j(imm as u32, rd, opcode7)) == rd,
        imm_j(pack_j(imm as u32, rd, opcode7)) == imm,
{
}

/// Whether the decoder tells `op` apart by `funct3`: every operation of a
/// format that has the field does, but for `jalr`, which is alone under
/// its major opcode.
pub open spec fn discriminates_funct3(op: Opcode) -> bool {
    match encoding_of(op) {
        None => false,
        Some(e) => op != Opcode::Jalr && (e.format == Format::R || e.format == Format::I
            || e.format == Format::S || e.format == Format::B),
    }
}

/// Whether the decoder tells `op` apart by `funct7`: the register-register
/// operations and the two right shifts by an immediate.
pub open spec fn discriminates_funct7(op: Opcode) -> bool {
    match encoding_of(op) {
        None => false,
        Some(e) => e.format == Format::R || op == Opcode::Srli || op == Opcode::Srai,
    }
}

/// Whether the word `w` matches the row of `op` in the encoding table: it
/// has the major opcode of the row, and the `funct3` and `funct7` of the
/// row where the operation is told apart by them.
pub open spec fn matches_row(op: Opcode, w: u32) -> bool {
    match encoding_of(op) {
        None => false,
        Some(e) => {
            &&& opcode_field(w) == e.opcode7
            &&& discriminates_funct3(op) ==> funct3_field(w) == e.funct3
            &&& discriminates_funct7(op) ==> funct7_field(w) == e.funct7
        },
    }
}

/// The decoder follows the encoding table: a word decodes to an operation
/// exactly when it matches the row of that operation, and to `Unknown`
/// exactly when it matches no row.
pub proof fn lemma_decode_follows_table(w: u32, op: Opcode)
    ensures
        op != Opcode::Unknown ==> (decode_spec(w).opcode == op <==> matches_row(op, w)),
        decode_spec(w).opcode != Opcode::Unknown ==> matches_row(decode_spec(w).opcode, w),
{
}

/// An immediate has zeros in its low bits exactly when it is a multiple of
/// the matching power of two.
pub proof fn lemma_low_bits_zero(imm: i32)
    by (bit_vector)
    ensures
        (imm & 0x1 == 0) <==> imm % 2 == 0,
        (imm & 0xfff == 0) <==> imm % 4096 == 0,
{
}

/// Decoding the encoding of an instruction gives the instruction back, with
/// the operation, the registers and the immediate it was encoded from. The
/// one difference is the immediate of `srai`, which comes back with bit 10
/// of its field set; its low five bits are still the shift amount.
pub proof fn lemma_decode_encode(inst: Instruction)
    requires
        inst.encodable(),
    ensures
        decode_spec(encode_spec(inst)) == decoded_form(inst),
        decoded_form(inst).opcode == inst.opcode,
{
    let e = encoding_of(inst.opcode).unwrap();
    let rd = inst.rd as u32;
    let rs1 = inst.rs1 as u32;
    let rs2 = inst.rs2 as u32;
    match e.format {
        Format::R => {
            lemma_unpack_r(e.funct7, rs2, rs1, e.funct3, rd, e.opcode7);
        },
        Format::I => {
            lemma_imm12(inst.imm);
            lemma_unpack_i(imm12_of(inst.opcode, inst.imm), rs1, e.funct3, rd, e.opcode7);
        },
        Format::S => {
            lemma_unpack_s(inst.imm, rs2, rs1, e.funct3, e.opcode7);
        },
        Format::B => {
            lemma_unpack_b(inst.imm, rs2, rs1, e.funct3, e.opcode7);
        },
        Format::U => {
            lemma_unpack_u(inst.imm, rd, e.opcode7);
        },
        Format::J => {
            lemma_unpack_j(inst.imm, rd, e.opcode7);
        },
    }
}

impl Opcode {
    /// The row of the encoding table for this operation.
    pub fn encoding(self) -> (r: Option<Encoding>)
        ensures
            r == encoding_of(self),
    {
        match self {
            Opcode::Add => Some(
                Encoding { format: Format::R, opcode7: 0x33, funct3: 0, funct7: 0x00 },
            ),
            Opcode::Sub => Some(
                Encoding { format: Format::R, opcode7: 0x33, funct3: 0, funct7: 0x20 },
            ),
            Opcode::And => Some(
                Encoding { format: Format::R, opcode7: 0x33, funct3: 7, funct7: 0x00 },
            ),
            Opcode::Or => Some(
                Encoding { format: Format::R, opcode7: 0x33, funct3: 6, funct7: 0x00 },
            ),
            Opcode::Xor => Some(
                Encoding { format: Format::R, opcode7: 0x33, funct3: 4, funct7: 0x00 },
            ),
            Opcode::Sll => Some(
                Encoding { format: Format::R, opcode7: 0x33, funct3: 1, funct7: 0x00 },
            ),
            Opcode::Srl => Some(
                Encoding { format: Format::R, opcode7: 0x33, funct3: 5, funct7: 0x00 },
            ),
            Opcode::Sra => Some(
                Encoding { format: Format::R, opcode7: 0x33, funct3: 5, funct7: 0x20 },
            ),
            Opcode::Addi => Some(
                Encoding { format: Format::I, opcode7: 0x13, funct3: 0, funct7: 0 },
            ),
            Opcode::Andi => Some(
                Encoding { format: Format::I, opcode7: 0x13, funct3: 7, funct7: 0 },
            ),
            Opcode::Ori => Some(
                Encoding { format: Format::I, opcode7: 0x13, funct3: 6, funct7: 0 },
            ),
            Opcode::Xori => Some(
                Encoding { format: Format::I, opcode7: 0x13, funct3: 4, funct7: 0 },
            ),
            Opcode::Slli => Some(
                Encoding { format: Format::I, opcode7: 0x13, funct3: 1, funct7: 0x00 },
            ),
            Opcode::Srli => Some(
                Encoding { format: Format::I, opcode7: 0x13, funct3: 5, funct7: 0x00 },
            ),
            Opcode::Srai => Some(
                Encoding { format: Format::I, opcode7: 0x13, funct3: 5, funct7: 0x20 },
            ),
            Opcode::Lw => Some(Encoding { format: Format::I, opcode7: 0x03, funct3: 2, funct7: 0 }),
            Opcode::Jalr => Some(
                Encoding { format: Format::I, opcode7: 0x67, funct3: 0, funct7: 0 },
            ),
            Opcode::Sw => Some(Encoding { format: Format::S, opcode7: 0x23, funct3: 2, funct7: 0 }),
            Opcode::Beq => Some(
                Encoding { format: Format::B, opcode7: 0x63, funct3: 0, funct7: 0 },
            ),
            Opcode::Bne => Some(
                Encoding { format: Format::B, opcode7: 0x63, funct3: 1, funct7: 0 },
            ),
            Opcode::Blt => Some(
                Encoding { format: Format::B, opcode7: 0x63, funct3: 4, funct7: 0 },
            ),
            Opcode::Bge => Some(
                Encoding { format: Format::B, opcode7: 0x63, funct3: 5, funct7: 0 },
            ),
            Opcode::Lui => Some(
                Encoding { format: Format::U, opcode7: 0x37, funct3: 0, funct7: 0 },
            ),
            Opcode::Auipc => Some(
                Encoding { format: Format::U, opcode7: 0x17, funct3: 0, funct7: 0 },
            ),
            Opcode::Jal => Some(
                Encoding { format: Format::J, opcode7: 0x6f, funct3: 0, funct7: 0 },
            ),
            Opcode::Unknown => None,
        }
    }

    /// Whether `imm` fits the immediate field of this operation.
    pub fn accepts_imm(self, imm: i32) -> (b: bool)
        ensures
            b == imm_fits(self, imm as int),
    {
        proof {
            lemma_low_bits_zero(imm);
        }
        match self.encoding() {
            None => false,
            Some(e) => match e.format {
                Format::R => imm == 0,
                Format::I => match self {
                    Opcode::Slli | Opcode::Srli | Opcode::Srai => 0 <= imm && imm < 32,
                    _ => -2048 <= imm && imm < 2048,
                },
                Format::S => -2048 <= imm && imm < 2048,
                Format::B => -4096 <= imm && imm < 4096 && imm & 0x1 == 0,
                Format::U => imm & 0xfff == 0,
                Format::J => -1048576 <= imm && imm < 1048576 && imm & 0x1 == 0,
            },
        }
    }
}

impl Instruction {
    /// Whether the instruction has an encoding.
    pub fn is_encodable(&self) -> (b: bool)
        ensures
            b == self.encodable(),
    {
        let e = match self.opcode.encoding() {
            Some(e) => e,
            None => {
                return false;
            },
        };
        if !self.opcode.accepts_imm(self.imm) {
            return false;
        }
        match e.format {
            Format::R => self.rd < 32 && self.rs1 < 32 && self.rs2 < 32,
            Format::I => self.rd < 32 && self.rs1 < 32 && self.rs2 == 0,
            Format::S | Format::B => self.rd == 0 && self.rs1 < 32 && self.rs2 < 32,
            Format::U | Format::J => self.rd < 32 && self.rs1 == 0 && self.rs2 == 0,
        }
    }

    /// The word that encodes an instruction that has an encoding.
    pub(crate) fn pack(&self) -> (w: u32)
        requires
            self.encodable(),
        ensures
            w == encode_spec(*self),
    {
        let e = self.opcode.encoding().unwrap();
        let rd = self.rd as u32;
        let rs1 = self.rs1 as u32;
        let rs2 = self.rs2 as u32;
        let imm = #[verifier::truncate] (self.imm as u32);
        match e.format {
            Format::R => (e.funct7 << 25) | (rs2 << 20) | (rs1 << 15) | (e.funct3 << 12) | (rd << 7)
                | e.opcode7,
            Format::I => {
                let imm12 = match self.opcode {
                    Opcode::Srai => (imm & 0xfff) | 0x400,
                    _ => imm & 0xfff,
                };
                (imm12 << 20) | (rs1 << 15) | (e.funct3 << 12) | (rd << 7) | e.opcode7
            },
            Format::S => (((imm >> 5) & 0x7f) << 25) | (rs2 << 20) | (rs1 << 15) | (e.funct3 << 12)
                | ((imm & 0x1f) << 7) | e.opcode7,
            Format::B => (((imm >> 12) & 0x1) << 31) | (((imm >> 5) & 0x3f) << 25) | (rs2 << 20) | (
            rs1 << 15) | (e.funct3 << 12) | (((imm >> 1) & 0xf) << 8) | (((imm >> 11) & 0x1) << 7)
                | e.opcode7,
            Format::U => (imm & 0xfffff000) | (rd << 7) | e.opcode7,
            Format::J => (((imm >> 20) & 0x1) << 31) | (((imm >> 1) & 0x3ff) << 21) | (((imm >> 11)
                & 0x1) << 20) | (((imm >> 12) & 0xff) << 12) | (rd << 7) | e.opcode7,
        }
    }

    /// The word that encodes this instruction, or `None` when it has no encoding.
    pub fn encode(&self) -> (r: Option<u32>)
        ensures
            r == (if self.encodable() {
                Some(encode_spec(*self))
            } else {
                None
            }),
    {
        if self.is_encodable() {
            Some(self.pack())
        } else {
            None
        }
    }
}

} // verus!
