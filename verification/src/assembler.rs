//! The two-pass assembler: from source text to a byte image.

use vstd::prelude::*;
use vstd::string::*;
use crate::cpu::word_bytes;
use crate::decoder::{Instruction, Opcode, decode_spec};
use crate::disassembler::mnemonic;
use crate::encoder::{
    Format, decoded_form, encode_spec, encoding_of, imm_fits, lemma_decode_encode, regs_fit,
};
use crate::executor::{as_signed, signed, wrap32};
use crate::numeral::{NumeralError, has_hex_prefix, is_numeral, numeral_value, parse_numeral};
use crate::text::{
    CharClass, append_chars, chars_of, copy_range, lines, run_len, same_chars, same_text, scan, split_lines,
    split_tokens, tokens, trim, trimmed, views,
};

verus! {

/// What was wrong with the source.
#[derive(Debug, Clone, Copy, PartialEq, Eq, Structural)]
pub enum AsmErrorKind {
    /// The first word of an instruction is no mnemonic.
    UnknownMnemonic,
    /// The instruction has too few or too many operands.
    OperandCount,
    /// An operand is not `x0` to `x31`.
    BadRegister,
    /// An operand is neither a decimal nor a `0x` numeral.
    BadImmediate,
    /// An operand does not have the form `offset(register)`.
    BadMemOperand,
    /// A branch or jump names a label that the source does not define.
    UndefinedLabel,
    /// An immediate or an offset does not fit its field.
    OutOfRange,
    /// The image would not fit a 32-bit address space.
    ProgramTooLarge,
}

/// The three classes of assembler failures.
#[derive(Debug, Clone, Copy, PartialEq, Eq, Structural)]
pub enum AsmErrorClass {
    Syntax,
    Label,
    Range,
}

/// An assembler failure with the token that caused it.
#[derive(Debug, PartialEq, Eq)]
pub struct AsmError {
    pub kind: AsmErrorKind,
    pub token: Vec<char>,
}

/// Mathematical model of an assembler failure.
pub struct AsmFault {
    pub kind: AsmErrorKind,
    pub token: Seq<char>,
}

impl View for AsmError {
    type V = AsmFault;

    open spec fn view(&self) -> AsmFault {
        AsmFault { kind: self.kind, token: self.token@ }
    }
}

/// The class that a kind of failure belongs to.
pub open spec fn class_of(kind: AsmErrorKind) -> AsmErrorClass {
    match kind {
        AsmErrorKind::UndefinedLabel => AsmErrorClass::Label,
        AsmErrorKind::OutOfRange | AsmErrorKind::ProgramTooLarge => AsmErrorClass::Range,
        _ => AsmErrorClass::Syntax,
    }
}

impl AsmError {
    /// The class of this failure.
    pub fn class(&self) -> (c: AsmErrorClass)
        ensures
            c == class_of(self.kind),
    {
        match self.kind {
            AsmErrorKind::UndefinedLabel => AsmErrorClass::Label,
            AsmErrorKind::OutOfRange | AsmErrorKind::ProgramTooLarge => AsmErrorClass::Range,
            _ => AsmErrorClass::Syntax,
        }
    }
}

/// What the diagnostic of a kind of failure says before the token.
pub open spec fn kind_text(kind: AsmErrorKind) -> Seq<char> {
    match kind {
        AsmErrorKind::UnknownMnemonic => "unknown instruction: "@,
        AsmErrorKind::OperandCount => "wrong number of args for "@,
        AsmErrorKind::BadRegister => "invalid register: "@,
        AsmErrorKind::BadImmediate => "invalid immediate: "@,
        AsmErrorKind::BadMemOperand => "invalid memory operand: "@,
        AsmErrorKind::UndefinedLabel => "undefined label: "@,
        AsmErrorKind::OutOfRange => "immediate out of range: "@,
        AsmErrorKind::ProgramTooLarge => "program too large"@,
    }
}

/// The one-line diagnostic of an assembler failure: what went wrong, and
/// the offending token.
pub open spec fn asm_message(f: AsmFault) -> Seq<char> {
    kind_text(f.kind) + f.token
}

impl AsmError {
    /// The one-line diagnostic of this failure.
    pub fn message(&self) -> (text: String)
        ensures
            text@ == asm_message(self@),
    {
        let mut text = String::new();
        match self.kind {
            AsmErrorKind::UnknownMnemonic => text.append("unknown instruction: "),
            AsmErrorKind::OperandCount => text.append("wrong number of args for "),
            AsmErrorKind::BadRegister => text.append("invalid register: "),
            AsmErrorKind::BadImmediate => text.append("invalid immediate: "),
            AsmErrorKind::BadMemOperand => text.append("invalid memory operand: "),
            AsmErrorKind::UndefinedLabel => text.append("undefined label: "),
            AsmErrorKind::OutOfRange => text.append("immediate out of range: "),
            AsmErrorKind::ProgramTooLarge => text.append("program too large"),
        }
        append_chars(&mut text, self.token.as_slice());
        text
    }
}

/// The failure of kind `kind` on `token`.
pub open spec fn fault<T>(kind: AsmErrorKind, token: Seq<char>) -> Result<T, AsmFault> {
    Err(AsmFault { kind, token })
}

/// An executable result is the one that the model gives: the same value,
/// or a failure of the same kind on the same token.
pub open spec fn agrees<T>(r: Result<T, AsmError>, model: Result<T, AsmFault>) -> bool {
    match r {
        Ok(v) => model == Ok::<T, AsmFault>(v),
        Err(e) => model == Err::<T, AsmFault>(e@),
    }
}

/// Builds the failure of kind `kind` on a copy of `token`.
fn fail<T>(kind: AsmErrorKind, token: &[char]) -> (r: Result<T, AsmError>)
    ensures
        agrees(r, fault::<T>(kind, token@)),
{
    let copy = copy_range(token, 0, token.len());
    assert(copy@ =~= token@);
    Err(AsmError { kind, token: copy })
}

/// The register that a token names: `x` and a decimal number below 32.
pub open spec fn reg_spec(tok: Seq<char>) -> Result<u32, AsmFault> {
    if tok.len() > 0 && tok[0] == 'x' && is_numeral(tok.skip(1), false) && numeral_value(
        tok.skip(1),
        false,
    ) < 32 {
        Ok(numeral_value(tok.skip(1), false) as u32)
    } else {
        fault(AsmErrorKind::BadRegister, tok)
    }
}

/// The token starts with a sign.
pub open spec fn has_sign(tok: Seq<char>) -> bool {
    tok.len() >= 1 && (tok[0] == '-' || tok[0] == '+')
}

/// The 32 bits that an immediate token stands for. A token that starts
/// with `0x` is a hexadecimal numeral of at most 32 bits; any other is a
/// decimal numeral with an optional sign, in the range of a signed 32-bit
/// number, and stands for its two's complement.
pub open spec fn imm_spec(tok: Seq<char>) -> Result<u32, AsmFault> {
    if has_hex_prefix(tok) {
        let digits = tok.skip(2);
        if !is_numeral(digits, true) {
            fault(AsmErrorKind::BadImmediate, tok)
        } else if numeral_value(digits, true) > u32::MAX {
            fault(AsmErrorKind::OutOfRange, tok)
        } else {
            Ok(numeral_value(digits, true) as u32)
        }
    } else {
        let digits = if has_sign(tok) {
            tok.skip(1)
        } else {
            tok
        };
        let negative = has_sign(tok) && tok[0] == '-';
        if !is_numeral(digits, false) {
            fault(AsmErrorKind::BadImmediate, tok)
        } else if negative {
            if numeral_value(digits, false) > 0x8000_0000 {
                fault(AsmErrorKind::OutOfRange, tok)
            } else {
                Ok(wrap32(-numeral_value(digits, false)))
            }
        } else {
            if numeral_value(digits, false) > 0x7fff_ffff {
                fault(AsmErrorKind::OutOfRange, tok)
            } else {
                Ok(numeral_value(digits, false) as u32)
            }
        }
    }
}

/// The offset bits and the register of a memory operand `offset(register)`.
/// The offset may be left out and is then zero.
pub open spec fn mem_spec(tok: Seq<char>) -> Result<(u32, u32), AsmFault> {
    let open = run_len(tok, CharClass::OpenParen, false) as int;
    if open >= tok.len() || tok.last() != ')' {
        fault(AsmErrorKind::BadMemOperand, tok)
    } else {
        let offset_text = tok.take(open);
        let reg_text = tok.subrange(open + 1, tok.len() - 1);
        let offset = if offset_text.len() == 0 {
            Ok(0u32)
        } else {
            imm_spec(offset_text)
        };
        match offset {
            Err(e) => Err(e),
            Ok(bits) => match reg_spec(reg_text) {
                Err(e) => Err(e),
                Ok(reg) => Ok((bits, reg)),
            },
        }
    }
}

/// Reads a register operand.
pub fn parse_reg(tok: &[char]) -> (r: Result<u32, AsmError>)
    ensures
        agrees(r, reg_spec(tok@)),
        r matches Ok(n) ==> n < 32,
{
    if tok.len() == 0 || tok[0] != 'x' {
        return fail(AsmErrorKind::BadRegister, tok);
    }
    let digits = &tok[1..tok.len()];
    assert(digits@ =~= tok@.skip(1));
    match parse_numeral(digits, false, 31) {
        Ok(n) => Ok(n as u32),
        Err(_) => fail(AsmErrorKind::BadRegister, tok),
    }
}

/// Reads an immediate operand.
pub fn parse_imm(tok: &[char]) -> (r: Result<u32, AsmError>)
    ensures
        agrees(r, imm_spec(tok@)),
{
    if tok.len() >= 2 && tok[0] == '0' && tok[1] == 'x' {
        let digits = &tok[2..tok.len()];
        assert(digits@ =~= tok@.skip(2));
        return match parse_numeral(digits, true, u32::MAX as u64) {
            Ok(v) => Ok(v as u32),
            Err(NumeralError::Malformed) => fail(AsmErrorKind::BadImmediate, tok),
            Err(NumeralError::TooLarge) => fail(AsmErrorKind::OutOfRange, tok),
        };
    }
    let signed = tok.len() >= 1 && (tok[0] == '-' || tok[0] == '+');
    let negative = signed && tok[0] == '-';
    let digits = if signed {
        &tok[1..tok.len()]
    } else {
        tok
    };
    proof {
        if signed {
            assert(digits@ =~= tok@.skip(1));
        } else {
            assert(digits@ =~= tok@);
        }
    }
    let limit: u64 = if negative {
        0x8000_0000
    } else {
        0x7fff_ffff
    };
    match parse_numeral(digits, false, limit) {
        Ok(v) => if negative {
            Ok(0u32.wrapping_sub(v as u32))
        } else {
            Ok(v as u32)
        },
        Err(NumeralError::Malformed) => fail(AsmErrorKind::BadImmediate, tok),
        Err(NumeralError::TooLarge) => fail(AsmErrorKind::OutOfRange, tok),
    }
}

/// Reads a memory operand: the offset bits and the register.
pub fn parse_mem_operand(tok: &[char]) -> (r: Result<(u32, u32), AsmError>)
    ensures
        agrees(r, mem_spec(tok@)),
        r matches Ok(operand) ==> operand.1 < 32,
{
    let open = scan(tok, 0, CharClass::OpenParen, false);
    assert(tok@.skip(0) =~= tok@);
    if open >= tok.len() || tok[tok.len() - 1] != ')' {
        return fail(AsmErrorKind::BadMemOperand, tok);
    }
    proof {
        crate::text::lemma_run_len(tok@, CharClass::OpenParen, false);
    }
    let offset_text = &tok[0..open];
    let reg_text = &tok[open + 1..tok.len() - 1];
    assert(offset_text@ =~= tok@.take(open as int));
    let offset = if offset_text.len() == 0 {
        0
    } else {
        match parse_imm(offset_text) {
            Ok(bits) => bits,
            Err(e) => {
                return Err(e);
            },
        }
    };
    match parse_reg(reg_text) {
        Ok(reg) => Ok((offset, reg)),
        Err(e) => Err(e),
    }
}

/// The operation that a mnemonic names.
pub open spec fn opcode_named(name: Seq<char>) -> Option<Opcode> {
    if name == "add"@ {
        Some(Opcode::Add)
    } else if name == "sub"@ {
        Some(Opcode::Sub)
    } else if name == "and"@ {
        Some(Opcode::And)
    } else if name == "or"@ {
        Some(Opcode::Or)
    } else if name == "xor"@ {
        Some(Opcode::Xor)
    } else if name == "sll"@ {
        Some(Opcode::Sll)
    } else if name == "srl"@ {
        Some(Opcode::Srl)
    } else if name == "sra"@ {
        Some(Opcode::Sra)
    } else if name == "addi"@ {
        Some(Opcode::Addi)
    } else if name == "andi"@ {
        Some(Opcode::Andi)
    } else if name == "ori"@ {
        Some(Opcode::Ori)
    } else if name == "xori"@ {
        Some(Opcode::Xori)
    } else if name == "slli"@ {
        Some(Opcode::Slli)
    } else if name == "srli"@ {
        Some(Opcode::Srli)
    } else if name == "srai"@ {
        Some(Opcode::Srai)
    } else if name == "lw"@ {
        Some(Opcode::Lw)
    } else if name == "sw"@ {
        Some(Opcode::Sw)
    } else if name == "beq"@ {
        Some(Opcode::Beq)
    } else if name == "bne"@ {
        Some(Opcode::Bne)
    } else if name == "blt"@ {
        Some(Opcode::Blt)
    } else if name == "bge"@ {
        Some(Opcode::Bge)
    } else if name == "lui"@ {
        Some(Opcode::Lui)
    } else if name == "auipc"@ {
        Some(Opcode::Auipc)
    } else if name == "jal"@ {
        Some(Opcode::Jal)
    } else if name == "jalr"@ {
        Some(Opcode::Jalr)
    } else {
        None
    }
}

/// Looks a mnemonic up.
pub fn lookup_mnemonic(name: &[char]) -> (r: Option<Opcode>)
    ensures
        r == opcode_named(name@),
{
    if same_text(name, "add") {
        Some(Opcode::Add)
    } else if same_text(name, "sub") {
        Some(Opcode::Sub)
    } else if same_text(name, "and") {
        Some(Opcode::And)
    } else if same_text(name, "or") {
        Some(Opcode::Or)
    } else if same_text(name, "xor") {
        Some(Opcode::Xor)
    } else if same_text(name, "sll") {
        Some(Opcode::Sll)
    } else if same_text(name, "srl") {
        Some(Opcode::Srl)
    } else if same_text(name, "sra") {
        Some(Opcode::Sra)
    } else if same_text(name, "addi") {
        Some(Opcode::Addi)
    } else if same_text(name, "andi") {
        Some(Opcode::Andi)
    } else if same_text(name, "ori") {
        Some(Opcode::Ori)
    } else if same_text(name, "xori") {
        Some(Opcode::Xori)
    } else if same_text(name, "slli") {
        Some(Opcode::Slli)
    } else if same_text(name, "srli") {
        Some(Opcode::Srli)
    } else if same_text(name, "srai") {
        Some(Opcode::Srai)
    } else if same_text(name, "lw") {
        Some(Opcode::Lw)
    } else if same_text(name, "sw") {
        Some(Opcode::Sw)
    } else if same_text(name, "beq") {
        Some(Opcode::Beq)
    } else if same_text(name, "bne") {
        Some(Opcode::Bne)
    } else if same_text(name, "blt") {
        Some(Opcode::Blt)
    } else if same_text(name, "bge") {
        Some(Opcode::Bge)
    } else if same_text(name, "lui") {
        Some(Opcode::Lui)
    } else if same_text(name, "auipc") {
        Some(Opcode::Auipc)
    } else if same_text(name, "jal") {
        Some(Opcode::Jal)
    } else if same_text(name, "jalr") {
        Some(Opcode::Jalr)
    } else {
        None
    }
}

/// A label and the address it stands for.
pub struct Label {
    pub name: Vec<char>,
    pub addr: u32,
}

/// The mapping that a list of labels defines. Where a name occurs more
/// than once, the last entry counts.
pub open spec fn table_map(table: Seq<Label>) -> Map<Seq<char>, int>
    decreases table.len(),
{
    if table.len() == 0 {
        Map::empty()
    } else {
        table_map(table.drop_last()).insert(table.last().name@, table.last().addr as int)
    }
}

/// Entries after position `k` that do not have the name `name` do not
/// change what the table says of `name`.
proof fn lemma_table_tail(table: Seq<Label>, k: int, name: Seq<char>)
    requires
        0 <= k <= table.len(),
        forall|j: int| k <= j < table.len() ==> (#[trigger] table[j]).name@ != name,
    ensures
        table_map(table).contains_key(name) == table_map(table.take(k)).contains_key(name),
        table_map(table).contains_key(name) ==> table_map(table)[name] == table_map(
            table.take(k),
        )[name],
    decreases table.len() - k,
{
    if k == table.len() {
        assert(table.take(k) =~= table);
    } else {
        let shorter = table.drop_last();
        assert(table.last() == table[table.len() - 1]);
        assert forall|j: int| k <= j < shorter.len() implies (#[trigger] shorter[j]).name@
            != name by {
            assert(shorter[j] == table[j]);
        }
        lemma_table_tail(shorter, k, name);
        assert(shorter.take(k) =~= table.take(k));
    }
}

/// The address that `table` gives for `name`, if it defines it.
fn lookup_label(table: &Vec<Label>, name: &[char]) -> (r: Option<u32>)
    ensures
        r == (if table_map(table@).contains_key(name@) {
            Some(table_map(table@)[name@] as u32)
        } else {
            None
        }),
        r matches Some(a) ==> a == table_map(table@)[name@],
{
    let mut i: usize = table.len();
    while i > 0
        invariant
            i <= table.len(),
            forall|j: int| i <= j < table.len() ==> (#[trigger] table@[j]).name@ != name@,
        decreases i,
    {
        if same_chars(table[i - 1].name.as_slice(), name) {
            proof {
                lemma_table_tail(table@, i as int, name@);
                assert(table@.take(i as int).drop_last() =~= table@.take(i - 1));
                assert(table@.take(i as int).last() == table@[i - 1]);
            }
            return Some(table[i - 1].addr);
        }
        i -= 1;
    }
    proof {
        lemma_table_tail(table@, 0, name@);
        assert(table@.take(0) =~= Seq::<Label>::empty());
    }
    None
}

/// The token starts like a number: with a digit or a sign.
pub open spec fn looks_numeric(tok: Seq<char>) -> bool {
    tok.len() > 0 && ('0' <= tok[0] <= '9' || tok[0] == '-' || tok[0] == '+')
}

/// The offset that the target operand of a branch or jump at `pc` stands
/// for. A defined label stands for its distance from `pc`; any other token
/// that starts like a number is the offset itself, read as a signed
/// immediate; anything else is an undefined label.
pub open spec fn target_offset(tok: Seq<char>, pc: int, labels: Map<Seq<char>, int>) -> Result<
    int,
    AsmFault,
> {
    if labels.contains_key(tok) {
        Ok(labels[tok] - pc)
    } else if looks_numeric(tok) {
        match imm_spec(tok) {
            Ok(bits) => Ok(signed(bits)),
            Err(e) => Err(e),
        }
    } else {
        fault(AsmErrorKind::UndefinedLabel, tok)
    }
}

/// The instruction with the given fields, if `imm` fits the immediate field
/// of `op`; else the range failure on `tok`.
pub open spec fn fitted(op: Opcode, rd: u32, rs1: u32, rs2: u32, imm: int, tok: Seq<char>) -> Result<
    Instruction,
    AsmFault,
> {
    if imm_fits(op, imm) {
        Ok(
            Instruction {
                opcode: op,
                rd: rd as usize,
                rs1: rs1 as usize,
                rs2: rs2 as usize,
                imm: imm as i32,
            },
        )
    } else {
        fault(AsmErrorKind::OutOfRange, tok)
    }
}

/// Whether `op` has format `f`.
pub open spec fn has_format(op: Opcode, f: Format) -> bool {
    encoding_of(op) matches Some(e) && e.format == f
}

/// The failure for an operation that the called function does not assemble.
pub open spec fn wrong_operation<T>(op: Opcode) -> Result<T, AsmFault> {
    fault(AsmErrorKind::UnknownMnemonic, mnemonic(op))
}

/// The failure for a wrong number of operands.
pub open spec fn wrong_count<T>(op: Opcode) -> Result<T, AsmFault> {
    fault(AsmErrorKind::OperandCount, mnemonic(op))
}

/// A register-register instruction from its three register operands.
pub open spec fn rtype_spec(op: Opcode, args: Seq<Seq<char>>) -> Result<Instruction, AsmFault> {
    if !has_format(op, Format::R) {
        wrong_operation(op)
    } else if args.len() != 3 {
        wrong_count(op)
    } else {
        match reg_spec(args[0]) {
            Err(e) => Err(e),
            Ok(rd) => match reg_spec(args[1]) {
                Err(e) => Err(e),
                Ok(rs1) => match reg_spec(args[2]) {
                    Err(e) => Err(e),
                    Ok(rs2) => fitted(op, rd, rs1, rs2, 0, args[2]),
                },
            },
        }
    }
}

/// A register-immediate instruction from two registers and an immediate.
pub open spec fn itype_spec(op: Opcode, args: Seq<Seq<char>>) -> Result<Instruction, AsmFault> {
    if !has_format(op, Format::I) || op == Opcode::Lw || op == Opcode::Jalr {
        wrong_operation(op)
    } else if args.len() != 3 {
        wrong_count(op)
    } else {
        match reg_spec(args[0]) {
            Err(e) => Err(e),
            Ok(rd) => match reg_spec(args[1]) {
                Err(e) => Err(e),
                Ok(rs1) => match imm_spec(args[2]) {
                    Err(e) => Err(e),
                    Ok(bits) => fitted(op, rd, rs1, 0, signed(bits), args[2]),
                },
            },
        }
    }
}

/// `lw` or `jalr` from a register and a memory operand.
pub open spec fn load_form_spec(op: Opcode, args: Seq<Seq<char>>) -> Result<
    Instruction,
    AsmFault,
> {
    if args.len() != 2 {
        wrong_count(op)
    } else {
        match reg_spec(args[0]) {
            Err(e) => Err(e),
            Ok(rd) => match mem_spec(args[1]) {
                Err(e) => Err(e),
                Ok(mem) => fitted(op, rd, mem.1, 0, signed(mem.0), args[1]),
            },
        }
    }
}

/// `sw` from the register to store and a memory operand.
pub open spec fn store_spec(args: Seq<Seq<char>>) -> Result<Instruction, AsmFault> {
    if args.len() != 2 {
        wrong_count(Opcode::Sw)
    } else {
        match reg_spec(args[0]) {
            Err(e) => Err(e),
            Ok(rs2) => match mem_spec(args[1]) {
                Err(e) => Err(e),
                Ok(mem) => fitted(Opcode::Sw, 0, mem.1, rs2, signed(mem.0), args[1]),
            },
        }
    }
}

/// A conditional branch at `pc` from two registers and a target.
pub open spec fn branch_spec(
    op: Opcode,
    args: Seq<Seq<char>>,
    pc: int,
    labels: Map<Seq<char>, int>,
) -> Result<Instruction, AsmFault> {
    if !has_format(op, Format::B) {
        wrong_operation(op)
    } else if args.len() != 3 {
        wrong_count(op)
    } else {
        match reg_spec(args[0]) {
            Err(e) => Err(e),
            Ok(rs1) => match reg_spec(args[1]) {
                Err(e) => Err(e),
                Ok(rs2) => match target_offset(args[2], pc, labels) {
                    Err(e) => Err(e),
                    Ok(offset) => fitted(op, 0, rs1, rs2, offset, args[2]),
                },
            },
        }
    }
}

/// `lui` or `auipc` from a register and the upper twenty bits.
pub open spec fn upper_spec(op: Opcode, args: Seq<Seq<char>>) -> Result<Instruction, AsmFault> {
    if args.len() != 2 {
        wrong_count(op)
    } else {
        match reg_spec(args[0]) {
            Err(e) => Err(e),
            Ok(rd) => match imm_spec(args[1]) {
                Err(e) => Err(e),
                Ok(bits) => if bits > 0xfffff {
                    fault(AsmErrorKind::OutOfRange, args[1])
                } else {
                    fitted(op, rd, 0, 0, signed((bits * 4096) as u32), args[1])
                },
            },
        }
    }
}

/// `jal` at `pc` from a register and a target.
pub open spec fn jal_spec(args: Seq<Seq<char>>, pc: int, labels: Map<Seq<char>, int>) -> Result<
    Instruction,
    AsmFault,
> {
    if args.len() != 2 {
        wrong_count(Opcode::Jal)
    } else {
        match reg_spec(args[0]) {
            Err(e) => Err(e),
            Ok(rd) => match target_offset(args[1], pc, labels) {
                Err(e) => Err(e),
                Ok(offset) => fitted(Opcode::Jal, rd, 0, 0, offset, args[1]),
            },
        }
    }
}

/// The word of an instruction that was read, or the failure to read it.
pub open spec fn encoded(r: Result<Instruction, AsmFault>) -> Result<u32, AsmFault> {
    match r {
        Ok(inst) => Ok(encode_spec(inst)),
        Err(e) => Err(e),
    }
}

/// The instruction that a statement at `pc` stands for: its first token
/// names the operation, the others are the operands.
pub open spec fn statement_spec(stmt: Seq<char>, pc: int, labels: Map<Seq<char>, int>) -> Result<
    Instruction,
    AsmFault,
> {
    let toks = tokens(stmt);
    if toks.len() == 0 {
        fault(AsmErrorKind::UnknownMnemonic, stmt)
    } else {
        match opcode_named(toks[0]) {
            None => fault(AsmErrorKind::UnknownMnemonic, toks[0]),
            Some(op) => {
                let args = toks.skip(1);
                match op {
                    Opcode::Lw | Opcode::Jalr => load_form_spec(op, args),
                    Opcode::Sw => store_spec(args),
                    Opcode::Lui | Opcode::Auipc => upper_spec(op, args),
                    Opcode::Jal => jal_spec(args, pc, labels),
                    Opcode::Beq | Opcode::Bne | Opcode::Blt | Opcode::Bge => branch_spec(
                        op,
                        args,
                        pc,
                        labels,
                    ),
                    Opcode::Addi
                    | Opcode::Andi
                    | Opcode::Ori
                    | Opcode::Xori
                    | Opcode::Slli
                    | Opcode::Srli
                    | Opcode::Srai => itype_spec(op, args),
                    _ => rtype_spec(op, args),
                }
            },
        }
    }
}

/// The statement on a line: the line up to its first `#`, without the
/// white space around it.
pub open spec fn statement_of(line: Seq<char>) -> Seq<char> {
    trimmed(line.take(run_len(line, CharClass::CommentMark, false) as int))
}

/// The statement declares a label: it ends in a colon.
pub open spec fn is_label(stmt: Seq<char>) -> bool {
    stmt.len() > 0 && stmt.last() == ':'
}

/// The statement is an instruction: it is not empty and declares no label.
pub open spec fn is_instruction(stmt: Seq<char>) -> bool {
    stmt.len() > 0 && stmt.last() != ':'
}

/// The instructions among the lines, in order.
pub open spec fn instructions(ls: Seq<Seq<char>>) -> Seq<Seq<char>>
    decreases ls.len(),
{
    if ls.len() == 0 {
        Seq::empty()
    } else if is_instruction(statement_of(ls.last())) {
        instructions(ls.drop_last()).push(statement_of(ls.last()))
    } else {
        instructions(ls.drop_last())
    }
}

/// The labels that the lines declare. A label stands for the address of
/// the next instruction: four times the number of instructions before it.
/// Where a label is declared more than once, the last declaration counts.
pub open spec fn labels_of(ls: Seq<Seq<char>>) -> Map<Seq<char>, int>
    decreases ls.len(),
{
    if ls.len() == 0 {
        Map::empty()
    } else if is_label(statement_of(ls.last())) {
        labels_of(ls.drop_last()).insert(
            statement_of(ls.last()).drop_last(),
            4 * instructions(ls.drop_last()).len() as int,
        )
    } else {
        labels_of(ls.drop_last())
    }
}

/// The words of the first `n` instructions, each assembled at its address,
/// or the failure of the first instruction that fails.
pub open spec fn words(insts: Seq<Seq<char>>, labels: Map<Seq<char>, int>, n: nat) -> Result<
    Seq<u32>,
    AsmFault,
>
    decreases n,
{
    if n == 0 {
        Ok(Seq::empty())
    } else {
        match words(insts, labels, (n - 1) as nat) {
            Err(e) => Err(e),
            Ok(ws) => match encoded(statement_spec(insts[n - 1], 4 * (n - 1), labels)) {
                Err(e) => Err(e),
                Ok(w) => Ok(ws.push(w)),
            },
        }
    }
}

/// The bytes of a sequence of words, each word least significant byte first.
pub open spec fn image(ws: Seq<u32>) -> Seq<u8>
    decreases ws.len(),
{
    if ws.len() == 0 {
        Seq::empty()
    } else {
        image(ws.drop_last()) + word_bytes(ws.last())
    }
}

/// The image would be larger than a 32-bit address can reach.
pub open spec fn too_large(src: Seq<char>) -> bool {
    4 * instructions(lines(src)).len() > u32::MAX
}

/// The byte image of a source text, or the failure that stops the assembly.
pub open spec fn assemble_spec(src: Seq<char>) -> Result<Seq<u8>, AsmFault> {
    let insts = instructions(lines(src));
    if too_large(src) {
        fault(AsmErrorKind::ProgramTooLarge, Seq::empty())
    } else {
        match words(insts, labels_of(lines(src)), insts.len()) {
            Ok(ws) => Ok(image(ws)),
            Err(e) => Err(e),
        }
    }
}

/// More lines do not make fewer instructions.
proof fn lemma_instructions_grow(ls: Seq<Seq<char>>, k: int)
    requires
        0 <= k <= ls.len(),
    ensures
        instructions(ls.take(k)).len() <= instructions(ls).len(),
    decreases ls.len() - k,
{
    if k == ls.len() {
        assert(ls.take(k) =~= ls);
    } else {
        lemma_instructions_grow(ls, k + 1);
        assert(ls.take(k + 1).drop_last() =~= ls.take(k));
    }
}

/// Once an instruction has failed, the failure stays.
proof fn lemma_first_failure_stays(
    insts: Seq<Seq<char>>,
    labels: Map<Seq<char>, int>,
    k: nat,
    n: nat,
)
    requires
        k <= n,
        words(insts, labels, k) is Err,
    ensures
        words(insts, labels, n) == words(insts, labels, k),
    decreases n,
{
    if k < n {
        lemma_first_failure_stays(insts, labels, k, (n - 1) as nat);
    }
}

/// Each word of an image stands at four times its index, least significant
/// byte first.
pub proof fn lemma_image_word(ws: Seq<u32>, i: int)
    requires
        0 <= i < ws.len(),
    ensures
        image(ws).len() == 4 * ws.len(),
        crate::cpu::word_at(image(ws), 4 * i) == ws[i],
    decreases ws.len(),
{
    let head = image(ws.drop_last());
    let bytes = word_bytes(ws.last());
    lemma_image_len(ws);
    lemma_image_len(ws.drop_last());
    if i < ws.len() - 1 {
        lemma_image_word(ws.drop_last(), i);
        assert(image(ws)[4 * i] == head[4 * i]);
        assert(image(ws)[4 * i + 1] == head[4 * i + 1]);
        assert(image(ws)[4 * i + 2] == head[4 * i + 2]);
        assert(image(ws)[4 * i + 3] == head[4 * i + 3]);
    } else {
        let w = ws.last();
        assert(image(ws)[4 * i] == bytes[0]);
        assert(image(ws)[4 * i + 1] == bytes[1]);
        assert(image(ws)[4 * i + 2] == bytes[2]);
        assert(image(ws)[4 * i + 3] == bytes[3]);
        assert(w % 256 + 256 * ((w / 256) % 256) + 65536 * ((w / 65536) % 256) + 16777216 * ((w
            / 16777216) % 256) == w);
    }
}

/// The length of a text with its first two and its last two characters.
spec fn outline(s: Seq<char>) -> (int, char, char, char, char) {
    (s.len() as int, s[0], s[1], s[s.len() - 2], s.last())
}

/// The mnemonic that the disassembler prints for an operation is the one
/// that the assembler reads for it.
pub proof fn lemma_mnemonic_names_operation(op: Opcode)
    requires
        op != Opcode::Unknown,
    ensures
        opcode_named(mnemonic(op)) == Some(op),
{
    reveal_strlit("add");
    reveal_strlit("sub");
    reveal_strlit("and");
    reveal_strlit("or");
    reveal_strlit("xor");
    reveal_strlit("sll");
    reveal_strlit("srl");
    reveal_strlit("sra");
    reveal_strlit("addi");
    reveal_strlit("andi");
    reveal_strlit("ori");
    reveal_strlit("xori");
    reveal_strlit("slli");
    reveal_strlit("srli");
    reveal_strlit("srai");
    reveal_strlit("lw");
    reveal_strlit("sw");
    reveal_strlit("beq");
    reveal_strlit("bne");
    reveal_strlit("blt");
    reveal_strlit("bge");
    reveal_strlit("lui");
    reveal_strlit("auipc");
    reveal_strlit("jal");
    reveal_strlit("jalr");
    assert(outline("add"@) == (3int, 'a', 'd', 'd', 'd'));
    assert(outline("sub"@) == (3int, 's', 'u', 'u', 'b'));
    assert(outline("and"@) == (3int, 'a', 'n', 'n', 'd'));
    assert(outline("or"@) == (2int, 'o', 'r', 'o', 'r'));
    assert(outline("xor"@) == (3int, 'x', 'o', 'o', 'r'));
    assert(outline("sll"@) == (3int, 's', 'l', 'l', 'l'));
    assert(outline("srl"@) == (3int, 's', 'r', 'r', 'l'));
    assert(outline("sra"@) == (3int, 's', 'r', 'r', 'a'));
    assert(outline("addi"@) == (4int, 'a', 'd', 'd', 'i'));
    assert(outline("andi"@) == (4int, 'a', 'n', 'd', 'i'));
    assert(outline("ori"@) == (3int, 'o', 'r', 'r', 'i'));
    assert(outline("xori"@) == (4int, 'x', 'o', 'r', 'i'));
    assert(outline("slli"@) == (4int, 's', 'l', 'l', 'i'));
    assert(outline("srli"@) == (4int, 's', 'r', 'l', 'i'));
    assert(outline("srai"@) == (4int, 's', 'r', 'a', 'i'));
    assert(outline("lw"@) == (2int, 'l', 'w', 'l', 'w'));
    assert(outline("sw"@) == (2int, 's', 'w', 's', 'w'));
    assert(outline("beq"@) == (3int, 'b', 'e', 'e', 'q'));
    assert(outline("bne"@) == (3int, 'b', 'n', 'n', 'e'));
    assert(outline("blt"@) == (3int, 'b', 'l', 'l', 't'));
    assert(outline("bge"@) == (3int, 'b', 'g', 'g', 'e'));
    assert(outline("lui"@) == (3int, 'l', 'u', 'u', 'i'));
    assert(outline("auipc"@) == (5int, 'a', 'u', 'p', 'c'));
    assert(outline("jal"@) == (3int, 'j', 'a', 'a', 'l'));
    assert(outline("jalr"@) == (4int, 'j', 'a', 'l', 'r'));
    assert(opcode_named("add"@) == Some(Opcode::Add));
    assert(opcode_named("sub"@) == Some(Opcode::Sub));
    assert(opcode_named("and"@) == Some(Opcode::And));
    assert(opcode_named("or"@) == Some(Opcode::Or));
    assert(opcode_named("xor"@) == Some(Opcode::Xor));
    assert(opcode_named("sll"@) == Some(Opcode::Sll));
    assert(opcode_named("srl"@) == Some(Opcode::Srl));
    assert(opcode_named("sra"@) == Some(Opcode::Sra));
    assert(opcode_named("addi"@) == Some(Opcode::Addi));
    assert(opcode_named("andi"@) == Some(Opcode::Andi));
    assert(opcode_named("ori"@) == Some(Opcode::Ori));
    assert(opcode_named("xori"@) == Some(Opcode::Xori));
    assert(opcode_named("slli"@) == Some(Opcode::Slli));
    assert(opcode_named("srli"@) == Some(Opcode::Srli));
    assert(opcode_named("srai"@) == Some(Opcode::Srai));
    assert(opcode_named("lw"@) == Some(Opcode::Lw));
    assert(opcode_named("sw"@) == Some(Opcode::Sw));
    assert(opcode_named("beq"@) == Some(Opcode::Beq));
    assert(opcode_named("bne"@) == Some(Opcode::Bne));
    assert(opcode_named("blt"@) == Some(Opcode::Blt));
    assert(opcode_named("bge"@) == Some(Opcode::Bge));
    assert(opcode_named("lui"@) == Some(Opcode::Lui));
    assert(opcode_named("auipc"@) == Some(Opcode::Auipc));
    assert(opcode_named("jal"@) == Some(Opcode::Jal));
    assert(opcode_named("jalr"@) == Some(Opcode::Jalr));
}

/// A name stands for an operation exactly when it is the mnemonic of that
/// operation.
pub proof fn lemma_opcode_named(name: Seq<char>, op: Opcode)
    ensures
        opcode_named(name) == Some(op) <==> op != Opcode::Unknown && name == mnemonic(op),
{
    if op != Opcode::Unknown && name == mnemonic(op) {
        lemma_mnemonic_names_operation(op);
    }
}

/// A register that was read is one of the 32.
pub proof fn lemma_reg_in_range(tok: Seq<char>)
    ensures
        reg_spec(tok) matches Ok(r) ==> r < 32,
{
    crate::numeral::lemma_value_nonnegative(tok.skip(1), false);
}

/// An instruction that the assembler reads has an encoding.
pub proof fn lemma_statement_encodable(stmt: Seq<char>, pc: int, labels: Map<Seq<char>, int>)
    ensures
        statement_spec(stmt, pc, labels) matches Ok(inst) ==> inst.encodable(),
{
    let toks = tokens(stmt);
    if toks.len() > 0 {
        let args = toks.skip(1);
        if args.len() > 0 {
            lemma_reg_in_range(args[0]);
        }
        if args.len() > 1 {
            lemma_reg_in_range(args[1]);
            let operand = args[1];
            let open = run_len(operand, CharClass::OpenParen, false) as int;
            lemma_reg_in_range(operand.subrange(open + 1, operand.len() - 1));
        }
        if args.len() > 2 {
            lemma_reg_in_range(args[2]);
        }
    }
}

/// The word of an instruction that the assembler reads decodes to that
/// instruction: the same operation, the same registers and the same
/// immediate. The one difference is the immediate of `srai`, which decodes
/// with bit 10 set; its low five bits are still the shift amount read.
pub proof fn lemma_assembled_word_decodes(stmt: Seq<char>, pc: int, labels: Map<Seq<char>, int>)
    ensures
        statement_spec(stmt, pc, labels) matches Ok(inst) ==> {
            let back = decode_spec(encode_spec(inst));
            &&& back == decoded_form(inst)
            &&& back.opcode == inst.opcode
            &&& back.rd == inst.rd
            &&& back.rs1 == inst.rs1
            &&& back.rs2 == inst.rs2
            &&& inst.opcode != Opcode::Srai ==> back.imm == inst.imm
            &&& inst.opcode == Opcode::Srai ==> back.imm == inst.imm + 0x400 && 0 <= inst.imm < 32
        },
{
    lemma_statement_encodable(stmt, pc, labels);
    if let Ok(inst) = statement_spec(stmt, pc, labels) {
        lemma_decode_encode(inst);
    }
}

/// A branch to a label is assembled with the offset that leads from the
/// branch to the label: the address of the branch plus the immediate that
/// its word decodes to is the address of the label.
pub proof fn lemma_branch_reaches_label(
    op: Opcode,
    args: Seq<Seq<char>>,
    pc: int,
    labels: Map<Seq<char>, int>,
)
    requires
        branch_spec(op, args, pc, labels) is Ok,
        labels.contains_key(args[2]),
    ensures
        pc + decode_spec(encode_spec(branch_spec(op, args, pc, labels)->Ok_0)).imm
            == labels[args[2]],
{
    lemma_reg_in_range(args[0]);
    lemma_reg_in_range(args[1]);
    lemma_decode_encode(branch_spec(op, args, pc, labels)->Ok_0);
}

/// A jump to a label is assembled with the offset that leads from the jump
/// to the label.
pub proof fn lemma_jal_reaches_label(args: Seq<Seq<char>>, pc: int, labels: Map<Seq<char>, int>)
    requires
        jal_spec(args, pc, labels) is Ok,
        labels.contains_key(args[1]),
    ensures
        pc + decode_spec(encode_spec(jal_spec(args, pc, labels)->Ok_0)).imm == labels[args[1]],
{
    lemma_reg_in_range(args[0]);
    lemma_decode_encode(jal_spec(args, pc, labels)->Ok_0);
}

/// When the first `n` instructions assemble, there are `n` words, and each
/// is the word of its instruction at its address.
pub proof fn lemma_words_each(insts: Seq<Seq<char>>, labels: Map<Seq<char>, int>, n: nat, i: int)
    requires
        n <= insts.len(),
        words(insts, labels, n) is Ok,
        0 <= i < n,
    ensures
        words(insts, labels, n)->Ok_0.len() == n,
        encoded(statement_spec(insts[i], 4 * i, labels)) == Ok::<u32, AsmFault>(
            words(insts, labels, n)->Ok_0[i],
        ),
    decreases n,
{
    let before = words(insts, labels, (n - 1) as nat);
    assert(before is Ok);
    if n == 1 {
        assert(before->Ok_0.len() == 0);
    } else if i < n - 1 {
        lemma_words_each(insts, labels, (n - 1) as nat, i);
    } else {
        lemma_words_each(insts, labels, (n - 1) as nat, 0);
    }
}

/// Every instruction of a source that assembles can be read back from the
/// image: the word at four times its index decodes to the instruction that
/// the statement stands for, with the operation, the registers and the
/// immediate that were written (but for bit 10 in the immediate of `srai`).
pub proof fn lemma_image_decodes(src: Seq<char>, i: int)
    requires
        assemble_spec(src) is Ok,
        0 <= i < instructions(lines(src)).len(),
    ensures
        ({
            let stmt = instructions(lines(src))[i];
            let read = statement_spec(stmt, 4 * i, labels_of(lines(src)));
            &&& assemble_spec(src)->Ok_0.len() == 4 * instructions(lines(src)).len()
            &&& read is Ok
            &&& decode_spec(crate::cpu::word_at(assemble_spec(src)->Ok_0, 4 * i)) == decoded_form(
                read->Ok_0,
            )
        }),
{
    let insts = instructions(lines(src));
    let labels = labels_of(lines(src));
    let ws = words(insts, labels, insts.len())->Ok_0;
    lemma_words_each(insts, labels, insts.len(), i);
    lemma_image_word(ws, i);
    lemma_assembled_word_decodes(insts[i], 4 * i, labels);
}

/// The words of one more instruction: those before it and its own, or the
/// failure.
proof fn lemma_words_step(insts: Seq<Seq<char>>, labels: Map<Seq<char>, int>, k: nat)
    requires
        words(insts, labels, k) is Ok,
    ensures
        words(insts, labels, k + 1) == match encoded(
            statement_spec(insts[k as int], 4 * k as int, labels),
        ) {
            Ok(w) => Ok::<Seq<u32>, AsmFault>(words(insts, labels, k)->Ok_0.push(w)),
            Err(e) => Err::<Seq<u32>, AsmFault>(e),
        },
{
    assert((k + 1 - 1) as nat == k);
}

/// The image of `n` words has `4 * n` bytes.
pub proof fn lemma_image_len(ws: Seq<u32>)
    ensures
        image(ws).len() == 4 * ws.len(),
    decreases ws.len(),
{
    if ws.len() > 0 {
        lemma_image_len(ws.drop_last());
    }
}

/// Builds the word of the instruction with the given fields, or the range
/// failure on `tok` when `imm` does not fit.
fn fit(op: Opcode, rd: u32, rs1: u32, rs2: u32, imm: i64, tok: &[char]) -> (r: Result<
    u32,
    AsmError,
>)
    requires
        regs_fit(op, rd as int, rs1 as int, rs2 as int),
    ensures
        agrees(r, encoded(fitted(op, rd, rs1, rs2, imm as int, tok@))),
{
    if imm < -2147483648 || imm > 2147483647 || !op.accepts_imm(imm as i32) {
        return fail(AsmErrorKind::OutOfRange, tok);
    }
    let inst = Instruction {
        opcode: op,
        rd: rd as usize,
        rs1: rs1 as usize,
        rs2: rs2 as usize,
        imm: imm as i32,
    };
    Ok(inst.pack())
}

/// Builds the failure for an operation that the calling function does not assemble.
fn reject_operation<T>(op: Opcode) -> (r: Result<T, AsmError>)
    ensures
        agrees(r, wrong_operation::<T>(op)),
{
    let name = chars_of(op.mnemonic());
    fail(AsmErrorKind::UnknownMnemonic, name.as_slice())
}

/// Builds the failure for a wrong number of operands.
fn reject_count<T>(op: Opcode) -> (r: Result<T, AsmError>)
    ensures
        agrees(r, wrong_count::<T>(op)),
{
    let name = chars_of(op.mnemonic());
    fail(AsmErrorKind::OperandCount, name.as_slice())
}

/// The assembler. It keeps the labels of the source it assembled last.
pub struct Assembler {
    labels: Vec<Label>,
}

impl Assembler {
    /// The labels that the assembler holds, each with its address.
    pub closed spec fn label_map(&self) -> Map<Seq<char>, int> {
        table_map(self.labels@)
    }

    /// An assembler that holds no label.
    pub fn new() -> (fresh: Assembler)
        ensures
            fresh.label_map() == Map::<Seq<char>, int>::empty(),
    {
        Assembler { labels: Vec::new() }
    }

    /// Assembles a register-register instruction from its operands.
    pub fn assemble_rtype(&self, op: Opcode, args: &[Vec<char>]) -> (r: Result<u32, AsmError>)
        ensures
            agrees(r, encoded(rtype_spec(op, views(args@)))),
    {
        match op {
            Opcode::Add
            | Opcode::Sub
            | Opcode::And
            | Opcode::Or
            | Opcode::Xor
            | Opcode::Sll
            | Opcode::Srl
            | Opcode::Sra => {},
            _ => {
                return reject_operation(op);
            },
        }
        if args.len() != 3 {
            return reject_count(op);
        }
        let rd = parse_reg(args[0].as_slice())?;
        let rs1 = parse_reg(args[1].as_slice())?;
        let rs2 = parse_reg(args[2].as_slice())?;
        fit(op, rd, rs1, rs2, 0, args[2].as_slice())
    }

    /// Assembles a register-immediate instruction from its operands.
    pub fn assemble_itype(&self, op: Opcode, args: &[Vec<char>]) -> (r: Result<u32, AsmError>)
        ensures
            agrees(r, encoded(itype_spec(op, views(args@)))),
    {
        match op {
            Opcode::Addi
            | Opcode::Andi
            | Opcode::Ori
            | Opcode::Xori
            | Opcode::Slli
            | Opcode::Srli
            | Opcode::Srai => {},
            _ => {
                return reject_operation(op);
            },
        }
        if args.len() != 3 {
            return reject_count(op);
        }
        let rd = parse_reg(args[0].as_slice())?;
        let rs1 = parse_reg(args[1].as_slice())?;
        let imm = parse_imm(args[2].as_slice())?;
        fit(op, rd, rs1, 0, as_signed(imm) as i64, args[2].as_slice())
    }

    /// Assembles `lw` from its operands.
    pub fn assemble_load(&self, args: &[Vec<char>]) -> (r: Result<u32, AsmError>)
        ensures
            agrees(r, encoded(load_form_spec(Opcode::Lw, views(args@)))),
    {
        if args.len() != 2 {
            return reject_count(Opcode::Lw);
        }
        let rd = parse_reg(args[0].as_slice())?;
        let (imm, rs1) = parse_mem_operand(args[1].as_slice())?;
        fit(Opcode::Lw, rd, rs1, 0, as_signed(imm) as i64, args[1].as_slice())
    }

    /// Assembles `sw` from its operands.
    pub fn assemble_store(&self, args: &[Vec<char>]) -> (r: Result<u32, AsmError>)
        ensures
            agrees(r, encoded(store_spec(views(args@)))),
    {
        if args.len() != 2 {
            return reject_count(Opcode::Sw);
        }
        let rs2 = parse_reg(args[0].as_slice())?;
        let (imm, rs1) = parse_mem_operand(args[1].as_slice())?;
        fit(Opcode::Sw, 0, rs1, rs2, as_signed(imm) as i64, args[1].as_slice())
    }

    /// The offset that a target operand of a branch or jump at `pc` stands for.
    pub fn resolve_target(&self, tok: &[char], pc: u32) -> (r: Result<i64, AsmError>)
        ensures
            agrees(
                match r {
                    Ok(v) => Ok(v as int),
                    Err(e) => Err(e),
                },
                target_offset(tok@, pc as int, self.label_map()),
            ),
    {
        if let Some(addr) = lookup_label(&self.labels, tok) {
            return Ok(addr as i64 - pc as i64);
        }
        if tok.len() > 0 && (('0' <= tok[0] && tok[0] <= '9') || tok[0] == '-' || tok[0] == '+') {
            let bits = parse_imm(tok)?;
            return Ok(as_signed(bits) as i64);
        }
        fail(AsmErrorKind::UndefinedLabel, tok)
    }

    /// Assembles a conditional branch at `pc` from its operands.
    pub fn assemble_branch(&self, op: Opcode, args: &[Vec<char>], pc: u32) -> (r: Result<
        u32,
        AsmError,
    >)
        ensures
            agrees(r, encoded(branch_spec(op, views(args@), pc as int, self.label_map()))),
    {
        match op {
            Opcode::Beq | Opcode::Bne | Opcode::Blt | Opcode::Bge => {},
            _ => {
                return reject_operation(op);
            },
        }
        if args.len() != 3 {
            return reject_count(op);
        }
        let rs1 = parse_reg(args[0].as_slice())?;
        let rs2 = parse_reg(args[1].as_slice())?;
        let offset = self.resolve_target(args[2].as_slice(), pc)?;
        fit(op, 0, rs1, rs2, offset, args[2].as_slice())
    }

    /// Assembles `lui` or `auipc` from its operands.
    fn assemble_upper(&self, op: Opcode, args: &[Vec<char>]) -> (r: Result<u32, AsmError>)
        requires
            op == Opcode::Lui || op == Opcode::Auipc,
        ensures
            agrees(r, encoded(upper_spec(op, views(args@)))),
    {
        if args.len() != 2 {
            return reject_count(op);
        }
        let rd = parse_reg(args[0].as_slice())?;
        let imm = parse_imm(args[1].as_slice())?;
        if imm > 0xfffff {
            return fail(AsmErrorKind::OutOfRange, args[1].as_slice());
        }
        fit(op, rd, 0, 0, as_signed(imm * 4096) as i64, args[1].as_slice())
    }

    /// Assembles `lui` from its operands.
    pub fn assemble_lui(&self, args: &[Vec<char>]) -> (r: Result<u32, AsmError>)
        ensures
            agrees(r, encoded(upper_spec(Opcode::Lui, views(args@)))),
    {
        self.assemble_upper(Opcode::Lui, args)
    }

    /// Assembles `auipc` from its operands.
    pub fn assemble_auipc(&self, args: &[Vec<char>]) -> (r: Result<u32, AsmError>)
        ensures
            agrees(r, encoded(upper_spec(Opcode::Auipc, views(args@)))),
    {
        self.assemble_upper(Opcode::Auipc, args)
    }

    /// Assembles `jal` at `pc` from its operands.
    pub fn assemble_jal(&self, args: &[Vec<char>], pc: u32) -> (r: Result<u32, AsmError>)
        ensures
            agrees(r, encoded(jal_spec(views(args@), pc as int, self.label_map()))),
    {
        if args.len() != 2 {
            return reject_count(Opcode::Jal);
        }
        let rd = parse_reg(args[0].as_slice())?;
        let offset = self.resolve_target(args[1].as_slice(), pc)?;
        fit(Opcode::Jal, rd, 0, 0, offset, args[1].as_slice())
    }

    /// Assembles `jalr` from its operands.
    pub fn assemble_jalr(&self, args: &[Vec<char>]) -> (r: Result<u32, AsmError>)
        ensures
            agrees(r, encoded(load_form_spec(Opcode::Jalr, views(args@)))),
    {
        if args.len() != 2 {
            return reject_count(Opcode::Jalr);
        }
        let rd = parse_reg(args[0].as_slice())?;
        let (imm, rs1) = parse_mem_operand(args[1].as_slice())?;
        fit(Opcode::Jalr, rd, rs1, 0, as_signed(imm) as i64, args[1].as_slice())
    }

    /// The first pass: forgets the labels held, then walks the lines, gives
    /// each label the address of the instruction that follows it, and
    /// returns the instructions in order.
    fn first_pass(&mut self, ls: &Vec<Vec<char>>) -> (r: Result<Vec<Vec<char>>, AsmError>)
        ensures
            4 * instructions(views(ls@)).len() > u32::MAX ==> agrees(
                r,
                fault::<Vec<Vec<char>>>(AsmErrorKind::ProgramTooLarge, Seq::empty()),
            ),
            4 * instructions(views(ls@)).len() <= u32::MAX ==> r is Ok && views(r->Ok_0@)
                == instructions(views(ls@)) && final(self).label_map() == labels_of(views(ls@)),
    {
        let ghost all = views(ls@);
        self.labels = Vec::new();
        let mut cleaned: Vec<Vec<char>> = Vec::new();
        let mut pc: u32 = 0;
        let mut i: usize = 0;
        proof {
            assert(all.take(0) =~= Seq::<Seq<char>>::empty());
            assert(views(cleaned@) =~= instructions(all.take(0)));
        }
        while i < ls.len()
            invariant
                i <= ls.len(),
                all == views(ls@),
                views(cleaned@) == instructions(all.take(i as int)),
                table_map(self.labels@) == labels_of(all.take(i as int)),
                pc == 4 * cleaned@.len(),
            decreases ls.len() - i,
        {
            let line = ls[i].as_slice();
            let cut = scan(line, 0, CharClass::CommentMark, false);
            let stmt = trim(&line[0..cut]);
            proof {
                assert(line@.skip(0) =~= line@);
                assert(line@.subrange(0, cut as int) =~= line@.take(cut as int));
                assert(all.take(i + 1).drop_last() =~= all.take(i as int));
                assert(all.take(i + 1).last() == line@);
                assert(stmt@ == statement_of(all.take(i + 1).last()));
            }
            if stmt.len() > 0 {
                if stmt[stmt.len() - 1] == ':' {
                    let name = copy_range(stmt.as_slice(), 0, stmt.len() - 1);
                    assert(name@ =~= stmt@.drop_last());
                    let ghost before = self.labels@;
                    self.labels.push(Label { name, addr: pc });
                    assert(self.labels@.drop_last() =~= before);
                } else {
                    if pc > u32::MAX - 4 {
                        proof {
                            lemma_instructions_grow(all, i + 1);
                            assert(instructions(all.take(i + 1)).len() == cleaned@.len() + 1);
                            assert(line@.subrange(0, 0) =~= Seq::<char>::empty());
                        }
                        return fail(AsmErrorKind::ProgramTooLarge, &line[0..0]);
                    }
                    let ghost before = views(cleaned@);
                    cleaned.push(stmt);
                    assert(views(cleaned@) =~= before.push(stmt@));
                    pc += 4;
                }
            }
            i += 1;
        }
        proof {
            assert(all.take(i as int) =~= all);
        }
        Ok(cleaned)
    }

    /// The second pass: assembles the instructions in order, each at its
    /// address, and lays the words out least significant byte first.
    fn second_pass(&self, cleaned: &Vec<Vec<char>>) -> (r: Result<Vec<u8>, AsmError>)
        requires
            4 * cleaned@.len() <= u32::MAX,
        ensures
            match words(views(cleaned@), self.label_map(), cleaned@.len()) {
                Ok(ws) => r is Ok && r->Ok_0@ == image(ws),
                Err(f) => r is Err && r->Err_0@ == f,
            },
    {
        let mut code: Vec<u8> = Vec::new();
        let mut current_pc: u32 = 0;
        let mut k: usize = 0;
        let ghost insts = views(cleaned@);
        let ghost labels = self.label_map();
        let ghost done: Seq<u32> = Seq::empty();
        while k < cleaned.len()
            invariant
                k <= cleaned.len(),
                insts == views(cleaned@),
                4 * cleaned@.len() <= u32::MAX,
                labels == self.label_map(),
                current_pc == 4 * k,
                words(insts, labels, k as nat) == Ok::<Seq<u32>, AsmFault>(done),
                code@ == image(done),
            decreases cleaned.len() - k,
        {
            assert(insts[k as int] == cleaned@[k as int]@);
            let word = match self.assemble_instruction(cleaned[k].as_slice(), current_pc) {
                Ok(word) => word,
                Err(e) => {
                    proof {
                        lemma_words_step(insts, labels, k as nat);
                        lemma_first_failure_stays(insts, labels, (k + 1) as nat, insts.len());
                    }
                    return Err(e);
                },
            };
            let ghost bytes_before = code@;
            code.push((word % 256) as u8);
            code.push(((word / 256) % 256) as u8);
            code.push(((word / 65536) % 256) as u8);
            code.push(((word / 16777216) % 256) as u8);
            proof {
                lemma_words_step(insts, labels, k as nat);
                assert(code@ =~= bytes_before + word_bytes(word));
                assert(done.push(word).drop_last() =~= done);
                done = done.push(word);
            }
            k += 1;
            current_pc += 4;
        }
        Ok(code)
    }

    /// Assembles a source text into its byte image.
    ///
    /// The first pass drops comments and blank lines and gives each label
    /// the address of the instruction that follows it; the second pass
    /// assembles the instructions in order. The first instruction that
    /// fails stops the assembly with its failure. The labels that the
    /// assembler held before are forgotten.
    pub fn assemble(&mut self, source: &str) -> (r: Result<Vec<u8>, AsmError>)
        ensures
            match r {
                Ok(code) => assemble_spec(source@) == Ok::<Seq<u8>, AsmFault>(code@),
                Err(e) => assemble_spec(source@) == Err::<Seq<u8>, AsmFault>(e@),
            },
            !too_large(source@) ==> final(self).label_map() == labels_of(lines(source@)),
    {
        let text = chars_of(source);
        let ls = split_lines(text.as_slice());
        let cleaned = self.first_pass(&ls)?;
        self.second_pass(&cleaned)
    }

    /// Assembles the statement `line`, which stands at address `pc`, with
    /// the labels that the assembler holds.
    pub fn assemble_instruction(&self, line: &[char], pc: u32) -> (r: Result<u32, AsmError>)
        ensures
            agrees(r, encoded(statement_spec(line@, pc as int, self.label_map()))),
    {
        let parts = split_tokens(line);
        if parts.len() == 0 {
            return fail(AsmErrorKind::UnknownMnemonic, line);
        }
        let op = match lookup_mnemonic(parts[0].as_slice()) {
            Some(op) => op,
            None => {
                return fail(AsmErrorKind::UnknownMnemonic, parts[0].as_slice());
            },
        };
        let args = &parts[1..parts.len()];
        assert(views(args@) =~= tokens(line@).skip(1));
        match op {
            Opcode::Add
            | Opcode::Sub
            | Opcode::And
            | Opcode::Or
            | Opcode::Xor
            | Opcode::Sll
            | Opcode::Srl
            | Opcode::Sra => self.assemble_rtype(op, args),
            Opcode::Addi
            | Opcode::Andi
            | Opcode::Ori
            | Opcode::Xori
            | Opcode::Slli
            | Opcode::Srli
            | Opcode::Srai => self.assemble_itype(op, args),
            Opcode::Lw => self.assemble_load(args),
            Opcode::Sw => self.assemble_store(args),
            Opcode::Beq | Opcode::Bne | Opcode::Blt | Opcode::Bge => self.assemble_branch(
                op,
                args,
                pc,
            ),
            Opcode::Lui => self.assemble_lui(args),
            Opcode::Auipc => self.assemble_auipc(args),
            Opcode::Jal => self.assemble_jal(args, pc),
            Opcode::Jalr => self.assemble_jalr(args),
            Opcode::Unknown => reject_operation(op),
        }
    }
}

} // verus!
