//! The disassembler: canonical text for an instruction record.

use vstd::prelude::*;
use vstd::string::*;
use crate::decoder::{Instruction, Opcode};
use crate::numeral::{append_numeral, append_signed, numeral, signed_decimal};

verus! {

/// The mnemonic of an operation; `unknown` for `Unknown`.
pub open spec fn mnemonic(op: Opcode) -> Seq<char> {
    match op {
        Opcode::Add => "add"@,
        Opcode::Sub => "sub"@,
        Opcode::And => "and"@,
        Opcode::Or => "or"@,
        Opcode::Xor => "xor"@,
        Opcode::Sll => "sll"@,
        Opcode::Srl => "srl"@,
        Opcode::Sra => "sra"@,
        Opcode::Addi => "addi"@,
        Opcode::Andi => "andi"@,
        Opcode::Ori => "ori"@,
        Opcode::Xori => "xori"@,
        Opcode::Slli => "slli"@,
        Opcode::Srli => "srli"@,
        Opcode::Srai => "srai"@,
        Opcode::Lw => "lw"@,
        Opcode::Jalr => "jalr"@,
        Opcode::Sw => "sw"@,
        Opcode::Beq => "beq"@,
        Opcode::Bne => "bne"@,
        Opcode::Blt => "blt"@,
        Opcode::Bge => "bge"@,
        Opcode::Lui => "lui"@,
        Opcode::Auipc => "auipc"@,
        Opcode::Jal => "jal"@,
        Opcode::Unknown => "unknown"@,
    }
}

/// The name of register `r`: `x` and its decimal number.
pub open spec fn reg_name(r: usize) -> Seq<char> {
    "x"@ + numeral(r as nat, false)
}

/// `head` followed by the operands of an instruction, each format in its
/// own layout. A shift prints the low five bits of its immediate; `lui` and
/// `auipc` print the upper twenty bits of theirs in hexadecimal.
pub open spec fn with_operands(head: Seq<char>, inst: Instruction) -> Seq<char> {
    let rd = reg_name(inst.rd);
    let rs1 = reg_name(inst.rs1);
    let rs2 = reg_name(inst.rs2);
    let imm = signed_decimal(inst.imm as int);
    match inst.opcode {
        Opcode::Add
        | Opcode::Sub
        | Opcode::And
        | Opcode::Or
        | Opcode::Xor
        | Opcode::Sll
        | Opcode::Srl
        | Opcode::Sra => head + rd + ", "@ + rs1 + ", "@ + rs2,
        Opcode::Addi | Opcode::Andi | Opcode::Ori | Opcode::Xori => head + rd + ", "@ + rs1
            + ", "@ + imm,
        Opcode::Slli | Opcode::Srli | Opcode::Srai => head + rd + ", "@ + rs1 + ", "@
            + signed_decimal((inst.imm & 0x1f) as int),
        Opcode::Lw | Opcode::Jalr => head + rd + ", "@ + imm + "("@ + rs1 + ")"@,
        Opcode::Sw => head + rs2 + ", "@ + imm + "("@ + rs1 + ")"@,
        Opcode::Beq | Opcode::Bne | Opcode::Blt | Opcode::Bge => head + rs1 + ", "@ + rs2 + ", "@
            + imm,
        Opcode::Lui | Opcode::Auipc => head + rd + ", 0x"@ + numeral(
            ((inst.imm as u32) >> 12) as nat,
            true,
        ),
        Opcode::Jal => head + rd + ", "@ + imm,
        Opcode::Unknown => head,
    }
}

/// The text of an instruction: the mnemonic, and for a known operation a
/// space and the operands.
pub open spec fn disassemble_spec(inst: Instruction) -> Seq<char> {
    if inst.opcode == Opcode::Unknown {
        mnemonic(inst.opcode)
    } else {
        with_operands(mnemonic(inst.opcode) + " "@, inst)
    }
}

/// Appends the name of register `r`.
fn append_reg(out: &mut String, r: usize)
    ensures
        final(out)@ == old(out)@ + reg_name(r),
{
    out.append("x");
    append_numeral(out, r as u64, false);
    assert(out@ =~= old(out)@ + reg_name(r));
}

impl Opcode {
    /// The mnemonic of the operation; `unknown` for `Unknown`.
    pub fn mnemonic(self) -> (m: &'static str)
        ensures
            m@ == mnemonic(self),
    {
        match self {
            Opcode::Add => "add",
            Opcode::Sub => "sub",
            Opcode::And => "and",
            Opcode::Or => "or",
            Opcode::Xor => "xor",
            Opcode::Sll => "sll",
            Opcode::Srl => "srl",
            Opcode::Sra => "sra",
            Opcode::Addi => "addi",
            Opcode::Andi => "andi",
            Opcode::Ori => "ori",
            Opcode::Xori => "xori",
            Opcode::Slli => "slli",
            Opcode::Srli => "srli",
            Opcode::Srai => "srai",
            Opcode::Lw => "lw",
            Opcode::Jalr => "jalr",
            Opcode::Sw => "sw",
            Opcode::Beq => "beq",
            Opcode::Bne => "bne",
            Opcode::Blt => "blt",
            Opcode::Bge => "bge",
            Opcode::Lui => "lui",
            Opcode::Auipc => "auipc",
            Opcode::Jal => "jal",
            Opcode::Unknown => "unknown",
        }
    }
}

impl Instruction {
    /// The canonical text of the instruction.
    pub fn disassemble(&self) -> (text: String)
        ensures
            text@ == disassemble_spec(*self),
    {
        let mut out = String::new();
        out.append(self.opcode.mnemonic());
        match self.opcode {
            Opcode::Unknown => {
                return out;
            },
            _ => {},
        }
        out.append(" ");
        match self.opcode {
            Opcode::Add
            | Opcode::Sub
            | Opcode::And
            | Opcode::Or
            | Opcode::Xor
            | Opcode::Sll
            | Opcode::Srl
            | Opcode::Sra => {
                append_reg(&mut out, self.rd);
                out.append(", ");
                append_reg(&mut out, self.rs1);
                out.append(", ");
                append_reg(&mut out, self.rs2);
            },
            Opcode::Addi | Opcode::Andi | Opcode::Ori | Opcode::Xori => {
                append_reg(&mut out, self.rd);
                out.append(", ");
                append_reg(&mut out, self.rs1);
                out.append(", ");
                append_signed(&mut out, self.imm);
            },
            Opcode::Slli | Opcode::Srli | Opcode::Srai => {
                append_reg(&mut out, self.rd);
                out.append(", ");
                append_reg(&mut out, self.rs1);
                out.append(", ");
                append_signed(&mut out, self.imm & 0x1f);
            },
            Opcode::Lw | Opcode::Jalr => {
                append_reg(&mut out, self.rd);
                out.append(", ");
                append_signed(&mut out, self.imm);
                out.append("(");
                append_reg(&mut out, self.rs1);
                out.append(")");
            },
            Opcode::Sw => {
                append_reg(&mut out, self.rs2);
                out.append(", ");
                append_signed(&mut out, self.imm);
                out.append("(");
                append_reg(&mut out, self.rs1);
                out.append(")");
            },
            Opcode::Beq | Opcode::Bne | Opcode::Blt | Opcode::Bge => {
                append_reg(&mut out, self.rs1);
                out.append(", ");
                append_reg(&mut out, self.rs2);
                out.append(", ");
                append_signed(&mut out, self.imm);
            },
            Opcode::Lui | Opcode::Auipc => {
                append_reg(&mut out, self.rd);
                out.append(", 0x");
                let upper = (#[verifier::truncate] (self.imm as u32)) >> 12;
                append_numeral(&mut out, upper as u64, true);
            },
            Opcode::Jal => {
                append_reg(&mut out, self.rd);
                out.append(", ");
                append_signed(&mut out, self.imm);
            },
            Opcode::Unknown => {},
        }
        out
    }
}

} // verus!
