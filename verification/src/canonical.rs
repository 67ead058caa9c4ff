//! The canonical text of an instruction, as the disassembler prints it, is
//! read back by the assembler as that instruction.

use vstd::prelude::*;
use crate::assembler::{
    AsmFault, assemble_spec, branch_spec, encoded, has_sign, image, imm_spec, instructions,
    is_instruction, itype_spec, jal_spec, labels_of, lemma_mnemonic_names_operation,
    load_form_spec, looks_numeric, mem_spec, reg_spec, rtype_spec, statement_of, statement_spec,
    store_spec, target_offset, too_large, upper_spec, words,
};
use crate::cpu::{word_at, word_bytes};
use crate::decoder::{Instruction, Opcode, decode_spec};
use crate::disassembler::{disassemble_spec, mnemonic, reg_name};
use crate::encoder::{Format, decoded_form, encode_spec, encoding_of, lemma_decode_encode};
use crate::executor::{signed, wrap32};
use crate::numeral::{
    digit_value, has_hex_prefix, is_numeral, lemma_numeral_round_trip, numeral, numeral_value,
    signed_decimal,
};
use crate::text::{
    CharClass, in_class, lemma_run_len, lemma_run_len_is, lemma_tail_len_is, lines, run_len,
    tokens, trimmed,
};

verus! {

/// A character that may stand in a token of a statement: no separator, no
/// comment mark and no colon.
pub open spec fn is_word_char(c: char) -> bool {
    !in_class(c, CharClass::Separator) && c != '#' && c != ':'
}

/// A token: not empty, and made of word characters only.
pub open spec fn is_word(s: Seq<char>) -> bool {
    &&& s.len() > 0
    &&& forall|i: int| 0 <= i < s.len() ==> is_word_char(#[trigger] s[i])
}

/// A gap between tokens: not empty, and made of separators only.
pub open spec fn is_gap(s: Seq<char>) -> bool {
    &&& s.len() > 0
    &&& forall|i: int| 0 <= i < s.len() ==> in_class(#[trigger] s[i], CharClass::Separator)
}

/// A digit is a word character, and is none of the characters that give
/// an operand its shape.
pub proof fn lemma_digit_is_plain(c: char)
    requires
        digit_value(c) < 16,
    ensures
        is_word_char(c),
        c != '(' && c != ')' && c != '-' && c != '+' && c != 'x',
        digit_value(c) < 10 ==> '0' <= c <= '9',
{
}

/// Separators before a text do not change its tokens.
pub proof fn lemma_tokens_after_gap(gap: Seq<char>, rest: Seq<char>)
    requires
        forall|i: int| 0 <= i < gap.len() ==> in_class(#[trigger] gap[i], CharClass::Separator),
    ensures
        tokens(gap + rest) == tokens(rest),
{
    let k = CharClass::Separator;
    let s = gap + rest;
    let lead = run_len(rest, k, true) as int;
    lemma_run_len(rest, k, true);
    assert forall|i: int| 0 <= i < gap.len() + lead implies in_class(#[trigger] s[i], k)
        == true by {
        if i < gap.len() {
            assert(s[i] == gap[i]);
        } else {
            assert(s[i] == rest[i - gap.len()]);
        }
    }
    if gap.len() + lead < s.len() {
        assert(s[gap.len() + lead] == rest[lead]);
    }
    lemma_run_len_is(s, k, true, gap.len() + lead);
    assert(s.skip(gap.len() + lead) =~= rest.skip(lead));
}

/// A token at the start of a text, followed by nothing or by a separator,
/// is the first token of the text.
pub proof fn lemma_tokens_first(word: Seq<char>, rest: Seq<char>)
    requires
        is_word(word),
        rest.len() > 0 ==> in_class(rest[0], CharClass::Separator),
    ensures
        tokens(word + rest) == seq![word] + tokens(rest),
{
    let k = CharClass::Separator;
    let s = word + rest;
    assert(s[0] == word[0]);
    lemma_run_len_is(s, k, true, 0);
    assert(s.skip(0) =~= s);
    assert forall|i: int| 0 <= i < word.len() implies in_class(#[trigger] s[i], k) == false by {
        assert(s[i] == word[i]);
    }
    if word.len() < s.len() {
        assert(s[word.len() as int] == rest[0]);
    }
    lemma_run_len_is(s, k, false, word.len() as int);
    assert(s.take(word.len() as int) =~= word);
    assert(s.skip(word.len() as int) =~= rest);
}

/// The tokens of one token followed by a gap and a text.
pub proof fn lemma_tokens_cons(word: Seq<char>, gap: Seq<char>, rest: Seq<char>)
    requires
        is_word(word),
        is_gap(gap),
    ensures
        tokens(word + (gap + rest)) == seq![word] + tokens(rest),
{
    assert((gap + rest)[0] == gap[0]);
    lemma_tokens_first(word, gap + rest);
    lemma_tokens_after_gap(gap, rest);
}

/// A token alone is its own only token.
pub proof fn lemma_tokens_one(word: Seq<char>)
    requires
        is_word(word),
    ensures
        tokens(word) == seq![word],
{
    let none = Seq::<char>::empty();
    lemma_tokens_first(word, none);
    assert(word + none =~= word);
    lemma_run_len_is(none, CharClass::Separator, true, 0);
    assert(none.skip(0) =~= none);
    lemma_run_len_is(none, CharClass::Separator, false, 0);
    assert(tokens(none) =~= Seq::<Seq<char>>::empty());
    assert(seq![word] + Seq::<Seq<char>>::empty() =~= seq![word]);
}


/// A token without an opening parenthesis.
pub open spec fn is_bare(s: Seq<char>) -> bool {
    &&& is_word(s)
    &&& forall|i: int| 0 <= i < s.len() ==> #[trigger] s[i] != '('
}

/// The numeral written for a number is a bare token of digits.
pub proof fn lemma_numeral_is_bare(n: nat, hex: bool)
    ensures
        is_bare(numeral(n, hex)),
        is_numeral(numeral(n, hex), hex),
        numeral_value(numeral(n, hex), hex) == n,
        forall|i: int|
            0 <= i < numeral(n, hex).len() ==> digit_value(#[trigger] numeral(n, hex)[i]) < 16,
{
    lemma_numeral_round_trip(n, hex);
    let t = numeral(n, hex);
    assert forall|i: int| 0 <= i < t.len() implies is_word_char(#[trigger] t[i]) && t[i] != '('
        && digit_value(t[i]) < 16 by {
        lemma_digit_is_plain(t[i]);
    }
}

/// The name of a register is a bare token, and is read back as the register.
pub proof fn lemma_reg_reads_back(r: usize)
    requires
        r < 32,
    ensures
        is_bare(reg_name(r)),
        reg_spec(reg_name(r)) == Ok::<u32, AsmFault>(r as u32),
{
    reveal_strlit("x");
    lemma_numeral_is_bare(r as nat, false);
    let digits = numeral(r as nat, false);
    let t = reg_name(r);
    assert(t =~= seq!['x'] + digits);
    assert(t[0] == 'x');
    assert(t.skip(1) =~= digits);
    assert forall|i: int| 0 <= i < t.len() implies is_word_char(#[trigger] t[i]) && t[i]
        != '(' by {
        if i > 0 {
            assert(t[i] == digits[i - 1]);
        }
    }
}

/// The decimal text of a signed 32-bit number is a bare token, and is read
/// back as the bits of that number.
pub proof fn lemma_imm_reads_back(v: i32)
    ensures
        is_bare(signed_decimal(v as int)),
        looks_numeric(signed_decimal(v as int)),
        imm_spec(signed_decimal(v as int)) == Ok::<u32, AsmFault>(wrap32(v as int)),
        signed(wrap32(v as int)) == v,
{
    let t = signed_decimal(v as int);
    if v < 0 {
        let digits = numeral((-v) as nat, false);
        lemma_numeral_is_bare((-v) as nat, false);
        assert(t =~= seq!['-'] + digits);
        assert(t[0] == '-');
        assert(t.skip(1) =~= digits);
        assert forall|i: int| 0 <= i < t.len() implies is_word_char(#[trigger] t[i]) && t[i]
            != '(' by {
            if i > 0 {
                assert(t[i] == digits[i - 1]);
            }
        }
        assert(!has_hex_prefix(t));
        assert(has_sign(t));
    } else {
        lemma_numeral_is_bare(v as nat, false);
        lemma_digit_is_plain(t[0]);
        if t.len() >= 2 {
            lemma_digit_is_plain(t[1]);
        }
        assert(!has_hex_prefix(t));
        assert(!has_sign(t));
    }
}

/// The hexadecimal text of a 32-bit number after `0x` is a bare token, and
/// is read back as that number.
pub proof fn lemma_hex_reads_back(u: u32)
    ensures
        is_bare("0x"@ + numeral(u as nat, true)),
        imm_spec("0x"@ + numeral(u as nat, true)) == Ok::<u32, AsmFault>(u),
{
    reveal_strlit("0x");
    lemma_numeral_is_bare(u as nat, true);
    let digits = numeral(u as nat, true);
    let t = "0x"@ + digits;
    assert(t[0] == '0' && t[1] == 'x');
    assert(t.skip(2) =~= digits);
    assert forall|i: int| 0 <= i < t.len() implies is_word_char(#[trigger] t[i]) && t[i]
        != '(' by {
        if i >= 2 {
            assert(t[i] == digits[i - 2]);
        }
    }
}

/// The text of a memory operand: the offset in decimal, and the register
/// in parentheses.
pub open spec fn mem_text(imm: i32, r: usize) -> Seq<char> {
    signed_decimal(imm as int) + "("@ + reg_name(r) + ")"@
}

/// The text of a memory operand is a token, and is read back as the bits
/// of the offset and the register.
pub proof fn lemma_mem_reads_back(imm: i32, r: usize)
    requires
        r < 32,
    ensures
        is_word(mem_text(imm, r)),
        mem_spec(mem_text(imm, r)) == Ok::<(u32, u32), AsmFault>((wrap32(imm as int), r as u32)),
{
    reveal_strlit("(");
    reveal_strlit(")");
    lemma_imm_reads_back(imm);
    lemma_reg_reads_back(r);
    let offset = signed_decimal(imm as int);
    let reg = reg_name(r);
    let t = mem_text(imm, r);
    let n = offset.len() as int;
    assert(t =~= offset + seq!['('] + reg + seq![')']);
    assert(t.len() == n + reg.len() + 2);
    assert forall|i: int| 0 <= i < t.len() implies is_word_char(#[trigger] t[i]) by {
        if i < n {
            assert(t[i] == offset[i]);
        } else if n < i < t.len() - 1 {
            assert(t[i] == reg[i - n - 1]);
        }
    }
    assert forall|i: int| 0 <= i < n implies in_class(#[trigger] t[i], CharClass::OpenParen)
        == false by {
        assert(t[i] == offset[i]);
    }
    assert(t[n] == '(');
    lemma_run_len_is(t, CharClass::OpenParen, false, n);
    assert(t.last() == ')');
    assert(t.take(n) =~= offset);
    assert(t.subrange(n + 1, t.len() - 1) =~= reg);
}

/// The decimal text of an offset, where it is no label, stands for the
/// offset itself.
pub proof fn lemma_offset_reads_back(imm: i32, pc: int, labels: Map<Seq<char>, int>)
    requires
        !labels.contains_key(signed_decimal(imm as int)),
    ensures
        target_offset(signed_decimal(imm as int), pc, labels) == Ok::<int, AsmFault>(imm as int),
{
    lemma_imm_reads_back(imm);
}


/// The mnemonic of a known operation is a token.
pub proof fn lemma_mnemonic_is_word(op: Opcode)
    requires
        op != Opcode::Unknown,
    ensures
        is_word(mnemonic(op)),
{
    reveal_strlit("add");
    reveal_strlit("sub");
    reveal_strlit("and");
    reveal_strlit("or");
    reveal_strlit("xor");
    reveal_strlit("sll");
    reveal_strlit("srl");
    reveal_strlit("sra");
    reveal_strlit("addi");
    reveal_strlit("andi");
    reveal_strlit("ori");
    reveal_strlit("xori");
    reveal_strlit("slli");
    reveal_strlit("srli");
    reveal_strlit("srai");
    reveal_strlit("lw");
    reveal_strlit("sw");
    reveal_strlit("beq");
    reveal_strlit("bne");
    reveal_strlit("blt");
    reveal_strlit("bge");
    reveal_strlit("lui");
    reveal_strlit("auipc");
    reveal_strlit("jal");
    reveal_strlit("jalr");
}

/// The operands that the text of an instruction shows, in order.
pub open spec fn operand_texts(inst: Instruction) -> Seq<Seq<char>> {
    let rd = reg_name(inst.rd);
    let rs1 = reg_name(inst.rs1);
    let rs2 = reg_name(inst.rs2);
    let imm = signed_decimal(inst.imm as int);
    match inst.opcode {
        Opcode::Add
        | Opcode::Sub
        | Opcode::And
        | Opcode::Or
        | Opcode::Xor
        | Opcode::Sll
        | Opcode::Srl
        | Opcode::Sra => seq![rd, rs1, rs2],
        Opcode::Addi | Opcode::Andi | Opcode::Ori | Opcode::Xori => seq![rd, rs1, imm],
        Opcode::Slli | Opcode::Srli | Opcode::Srai => seq![
            rd,
            rs1,
            signed_decimal((inst.imm & 0x1f) as int),
        ],
        Opcode::Lw | Opcode::Jalr => seq![rd, mem_text(inst.imm, inst.rs1)],
        Opcode::Sw => seq![rs2, mem_text(inst.imm, inst.rs1)],
        Opcode::Beq | Opcode::Bne | Opcode::Blt | Opcode::Bge => seq![rs1, rs2, imm],
        Opcode::Lui | Opcode::Auipc => seq![
            rd,
            "0x"@ + numeral(((inst.imm as u32) >> 12) as nat, true),
        ],
        Opcode::Jal => seq![rd, imm],
        Opcode::Unknown => Seq::empty(),
    }
}

/// Four texts put together from the left are the same put together from
/// the right.
proof fn lemma_join_two(m: Seq<char>, sp: Seq<char>, a: Seq<char>, s1: Seq<char>, b: Seq<char>)
    ensures
        m + sp + a + s1 + b == m + (sp + (a + (s1 + b))),
{
    assert(m + sp + a + s1 + b =~= m + (sp + (a + (s1 + b))));
}

/// Six texts put together from the left are the same put together from
/// the right.
proof fn lemma_join_three(
    m: Seq<char>,
    sp: Seq<char>,
    a: Seq<char>,
    s1: Seq<char>,
    b: Seq<char>,
    s2: Seq<char>,
    c: Seq<char>,
)
    ensures
        m + sp + a + s1 + b + s2 + c == m + (sp + (a + (s1 + (b + (s2 + c))))),
{
    assert(m + sp + a + s1 + b + s2 + c =~= m + (sp + (a + (s1 + (b + (s2 + c))))));
}

/// A memory operand put together piece by piece after a head is the head
/// followed by the operand.
proof fn lemma_join_mem(
    head: Seq<char>,
    imm: Seq<char>,
    open: Seq<char>,
    reg: Seq<char>,
    close: Seq<char>,
)
    ensures
        head + imm + open + reg + close == head + (imm + open + reg + close),
{
    assert(head + imm + open + reg + close =~= head + (imm + open + reg + close));
}

/// The text of a known instruction is its mnemonic, a space, and its
/// operands with a comma and a space between each two.
pub proof fn lemma_text_shape(inst: Instruction)
    requires
        inst.opcode != Opcode::Unknown,
    ensures
        ({
            let m = mnemonic(inst.opcode);
            let ops = operand_texts(inst);
            &&& 2 <= ops.len() <= 3
            &&& ops.len() == 2 ==> disassemble_spec(inst) == m + (" "@ + (ops[0] + (", "@
                + ops[1])))
            &&& ops.len() == 3 ==> disassemble_spec(inst) == m + (" "@ + (ops[0] + (", "@ + (ops[1]
                + (", "@ + ops[2])))))
        }),
{
    let m = mnemonic(inst.opcode);
    let ops = operand_texts(inst);
    let rd = reg_name(inst.rd);
    let rs1 = reg_name(inst.rs1);
    let rs2 = reg_name(inst.rs2);
    let imm = signed_decimal(inst.imm as int);
    match inst.opcode {
        Opcode::Lw | Opcode::Jalr => {
            lemma_join_mem(m + " "@ + rd + ", "@, imm, "("@, rs1, ")"@);
            lemma_join_two(m, " "@, rd, ", "@, mem_text(inst.imm, inst.rs1));
        },
        Opcode::Sw => {
            lemma_join_mem(m + " "@ + rs2 + ", "@, imm, "("@, rs1, ")"@);
            lemma_join_two(m, " "@, rs2, ", "@, mem_text(inst.imm, inst.rs1));
        },
        Opcode::Lui | Opcode::Auipc => {
            reveal_strlit("0x");
            reveal_strlit(", 0x");
            reveal_strlit(", ");
            let hex = numeral(((inst.imm as u32) >> 12) as nat, true);
            assert(", 0x"@ =~= ", "@ + "0x"@);
            assert(m + " "@ + rd + ", 0x"@ + hex =~= m + " "@ + rd + ", "@ + ("0x"@ + hex));
            lemma_join_two(m, " "@, rd, ", "@, "0x"@ + hex);
        },
        Opcode::Jal => {
            lemma_join_two(m, " "@, rd, ", "@, imm);
        },
        _ => {
            lemma_join_three(m, " "@, ops[0], ", "@, ops[1], ", "@, ops[2]);
        },
    }
}


/// The low five bits of a shift amount below 32 are the amount. The upper
/// twenty bits of a multiple of 4096, put back in place, are its bits, and
/// those bits read as a signed number are the multiple.
pub proof fn lemma_immediate_bits(imm: i32)
    by (bit_vector)
    ensures
        0 <= imm < 32 ==> imm & 0x1f == imm,
        imm % 4096 == 0 ==> ((imm as u32) >> 12) <= 0xfffff && ((imm as u32) >> 12) * 4096 == (
        imm as u32),
        (if (imm as u32) < 0x8000_0000 {
            (imm as u32) as int
        } else {
            (imm as u32) - 0x1_0000_0000
        }) == imm,
{
}

/// Every operand in the text of an instruction that has an encoding is a token.
pub proof fn lemma_operands_are_words(inst: Instruction)
    requires
        inst.encodable(),
    ensures
        forall|i: int|
            0 <= i < operand_texts(inst).len() ==> is_word(#[trigger] operand_texts(inst)[i]),
{
    let e = encoding_of(inst.opcode).unwrap();
    if e.format == Format::R || e.format == Format::I || e.format == Format::U || e.format
        == Format::J {
        lemma_reg_reads_back(inst.rd);
    }
    if e.format != Format::U && e.format != Format::J {
        lemma_reg_reads_back(inst.rs1);
    }
    if e.format == Format::R || e.format == Format::S || e.format == Format::B {
        lemma_reg_reads_back(inst.rs2);
    }
    lemma_imm_reads_back(inst.imm);
    lemma_imm_reads_back(inst.imm & 0x1f);
    if e.format != Format::U && e.format != Format::J {
        lemma_mem_reads_back(inst.imm, inst.rs1);
    }
    lemma_hex_reads_back((inst.imm as u32) >> 12);
}

/// The tokens of the text of an instruction that has an encoding are its
/// mnemonic and its operands.
pub proof fn lemma_text_tokens(inst: Instruction)
    requires
        inst.encodable(),
    ensures
        tokens(disassemble_spec(inst)) == seq![mnemonic(inst.opcode)] + operand_texts(inst),
{
    reveal_strlit(" ");
    reveal_strlit(", ");
    let m = mnemonic(inst.opcode);
    let ops = operand_texts(inst);
    let sp = " "@;
    let comma = ", "@;
    assert(is_gap(sp));
    assert(is_gap(comma));
    lemma_text_shape(inst);
    lemma_mnemonic_is_word(inst.opcode);
    lemma_operands_are_words(inst);
    assert(is_word(ops[0]));
    assert(is_word(ops[1]));
    if ops.len() == 2 {
        lemma_tokens_one(ops[1]);
        lemma_tokens_cons(ops[0], comma, ops[1]);
        lemma_tokens_cons(m, sp, ops[0] + (comma + ops[1]));
        assert(seq![m] + (seq![ops[0]] + seq![ops[1]]) =~= seq![m] + ops);
    } else {
        assert(is_word(ops[2]));
        lemma_tokens_one(ops[2]);
        lemma_tokens_cons(ops[1], comma, ops[2]);
        lemma_tokens_cons(ops[0], comma, ops[1] + (comma + ops[2]));
        lemma_tokens_cons(m, sp, ops[0] + (comma + (ops[1] + (comma + ops[2]))));
        assert(seq![m] + (seq![ops[0]] + (seq![ops[1]] + seq![ops[2]])) =~= seq![m] + ops);
    }
}

/// The operands of a register-register instruction are read back as it.
proof fn lemma_rtype_reads_back(inst: Instruction)
    requires
        inst.encodable(),
        encoding_of(inst.opcode).unwrap().format == Format::R,
    ensures
        rtype_spec(inst.opcode, operand_texts(inst)) == Ok::<Instruction, AsmFault>(inst),
{
    lemma_reg_reads_back(inst.rd);
    lemma_reg_reads_back(inst.rs1);
    lemma_reg_reads_back(inst.rs2);
}

/// The operands of a register-immediate instruction are read back as it.
proof fn lemma_itype_reads_back(inst: Instruction)
    requires
        inst.encodable(),
        encoding_of(inst.opcode).unwrap().format == Format::I,
        inst.opcode != Opcode::Lw,
        inst.opcode != Opcode::Jalr,
    ensures
        itype_spec(inst.opcode, operand_texts(inst)) == Ok::<Instruction, AsmFault>(inst),
{
    lemma_reg_reads_back(inst.rd);
    lemma_reg_reads_back(inst.rs1);
    lemma_immediate_bits(inst.imm);
    lemma_imm_reads_back(inst.imm);
}

/// The operands of `lw` or `jalr` are read back as it.
proof fn lemma_load_form_reads_back(inst: Instruction)
    requires
        inst.encodable(),
        inst.opcode == Opcode::Lw || inst.opcode == Opcode::Jalr,
    ensures
        load_form_spec(inst.opcode, operand_texts(inst)) == Ok::<Instruction, AsmFault>(inst),
{
    lemma_reg_reads_back(inst.rd);
    lemma_mem_reads_back(inst.imm, inst.rs1);
    lemma_imm_reads_back(inst.imm);
}

/// The operands of `sw` are read back as it.
proof fn lemma_store_reads_back(inst: Instruction)
    requires
        inst.encodable(),
        inst.opcode == Opcode::Sw,
    ensures
        store_spec(operand_texts(inst)) == Ok::<Instruction, AsmFault>(inst),
{
    lemma_reg_reads_back(inst.rs2);
    lemma_mem_reads_back(inst.imm, inst.rs1);
    lemma_imm_reads_back(inst.imm);
}

/// The operands of a conditional branch are read back as it.
proof fn lemma_branch_reads_back(inst: Instruction, pc: int, labels: Map<Seq<char>, int>)
    requires
        inst.encodable(),
        inst.opcode.is_branch(),
        !labels.contains_key(signed_decimal(inst.imm as int)),
    ensures
        branch_spec(inst.opcode, operand_texts(inst), pc, labels) == Ok::<Instruction, AsmFault>(
            inst,
        ),
{
    lemma_reg_reads_back(inst.rs1);
    lemma_reg_reads_back(inst.rs2);
    lemma_offset_reads_back(inst.imm, pc, labels);
}

/// The operands of `lui` or `auipc` are read back as it.
proof fn lemma_upper_reads_back(inst: Instruction)
    requires
        inst.encodable(),
        inst.opcode == Opcode::Lui || inst.opcode == Opcode::Auipc,
    ensures
        upper_spec(inst.opcode, operand_texts(inst)) == Ok::<Instruction, AsmFault>(inst),
{
    lemma_reg_reads_back(inst.rd);
    lemma_immediate_bits(inst.imm);
    lemma_hex_reads_back((inst.imm as u32) >> 12);
}

/// The operands of `jal` are read back as it.
proof fn lemma_jal_reads_back(inst: Instruction, pc: int, labels: Map<Seq<char>, int>)
    requires
        inst.encodable(),
        inst.opcode == Opcode::Jal,
        !labels.contains_key(signed_decimal(inst.imm as int)),
    ensures
        jal_spec(operand_texts(inst), pc, labels) == Ok::<Instruction, AsmFault>(inst),
{
    lemma_reg_reads_back(inst.rd);
    lemma_offset_reads_back(inst.imm, pc, labels);
}

/// The assembler reads the text of an instruction as that instruction.
///
/// For every instruction that has an encoding, the statement that the
/// disassembler prints for it is read back with the same operation, the
/// same registers and the same immediate. A branch or jump prints its
/// offset as a number; the law leaves out the sources that declare a
/// label of that very spelling, which would be taken in its place.
pub proof fn lemma_text_reads_back(inst: Instruction, pc: int, labels: Map<Seq<char>, int>)
    requires
        inst.encodable(),
        inst.opcode.is_branch() || inst.opcode == Opcode::Jal ==> !labels.contains_key(
            signed_decimal(inst.imm as int),
        ),
    ensures
        statement_spec(disassemble_spec(inst), pc, labels) == Ok::<Instruction, AsmFault>(inst),
{
    let op = inst.opcode;
    let e = encoding_of(op).unwrap();
    let text = disassemble_spec(inst);
    let ops = operand_texts(inst);
    lemma_text_tokens(inst);
    lemma_mnemonic_names_operation(op);
    let toks = tokens(text);
    assert(toks.len() > 0);
    assert(toks[0] == mnemonic(op));
    assert(toks.skip(1) =~= ops);
    match e.format {
        Format::R => {
            lemma_rtype_reads_back(inst);
        },
        Format::I => {
            if op == Opcode::Lw || op == Opcode::Jalr {
                lemma_load_form_reads_back(inst);
            } else {
                lemma_itype_reads_back(inst);
            }
        },
        Format::S => {
            lemma_store_reads_back(inst);
        },
        Format::B => {
            lemma_branch_reads_back(inst, pc, labels);
        },
        Format::U => {
            lemma_upper_reads_back(inst);
        },
        Format::J => {
            lemma_jal_reads_back(inst, pc, labels);
        },
    }
}


/// A text that stands on a line as one statement: not empty, without line
/// feed or comment mark, and with a word character at either end.
pub open spec fn is_line(s: Seq<char>) -> bool {
    &&& s.len() > 0
    &&& forall|i: int| 0 <= i < s.len() ==> #[trigger] s[i] != '\n' && s[i] != '#'
    &&& is_word_char(s.first())
    &&& is_word_char(s.last())
}

/// A gap made of blanks and commas.
pub open spec fn is_plain_gap(s: Seq<char>) -> bool {
    &&& s.len() > 0
    &&& forall|i: int| 0 <= i < s.len() ==> #[trigger] s[i] == ' ' || s[i] == ','
}

/// A token is a line.
pub proof fn lemma_word_is_line(word: Seq<char>)
    requires
        is_word(word),
    ensures
        is_line(word),
{
    assert forall|i: int| 0 <= i < word.len() implies #[trigger] word[i] != '\n' && word[i]
        != '#' by {
        assert(is_word_char(word[i]));
    }
}

/// A token, a plain gap and a line make a line.
pub proof fn lemma_line_cons(word: Seq<char>, gap: Seq<char>, rest: Seq<char>)
    requires
        is_word(word),
        is_plain_gap(gap),
        is_line(rest),
    ensures
        is_line(word + (gap + rest)),
{
    let s = word + (gap + rest);
    assert forall|i: int| 0 <= i < s.len() implies #[trigger] s[i] != '\n' && s[i] != '#' by {
        if i < word.len() {
            assert(s[i] == word[i]);
            assert(is_word_char(word[i]));
        } else if i < word.len() + gap.len() {
            assert(s[i] == gap[i - word.len()]);
        } else {
            assert(s[i] == rest[i - word.len() - gap.len()]);
        }
    }
    assert(s.first() == word[0]);
    assert(s.last() == rest.last());
}

/// The text of an instruction that has an encoding is a line.
pub proof fn lemma_text_is_line(inst: Instruction)
    requires
        inst.encodable(),
    ensures
        is_line(disassemble_spec(inst)),
{
    reveal_strlit(" ");
    reveal_strlit(", ");
    let m = mnemonic(inst.opcode);
    let ops = operand_texts(inst);
    lemma_text_shape(inst);
    lemma_mnemonic_is_word(inst.opcode);
    lemma_operands_are_words(inst);
    assert(is_plain_gap(" "@));
    assert(is_plain_gap(", "@));
    assert(is_word(ops[0]));
    assert(is_word(ops[1]));
    if ops.len() == 2 {
        lemma_word_is_line(ops[1]);
        lemma_line_cons(ops[0], ", "@, ops[1]);
        lemma_line_cons(m, " "@, ops[0] + (", "@ + ops[1]));
    } else {
        assert(is_word(ops[2]));
        lemma_word_is_line(ops[2]);
        lemma_line_cons(ops[1], ", "@, ops[2]);
        lemma_line_cons(ops[0], ", "@, ops[1] + (", "@ + ops[2]));
        lemma_line_cons(m, " "@, ops[0] + (", "@ + (ops[1] + (", "@ + ops[2]))));
    }
}

/// A line is the only line of its text, is its own statement, and is an
/// instruction.
pub proof fn lemma_line_is_one_statement(s: Seq<char>)
    requires
        is_line(s),
    ensures
        lines(s) == seq![s],
        statement_of(s) == s,
        is_instruction(s),
{
    assert forall|i: int| 0 <= i < s.len() implies in_class(#[trigger] s[i], CharClass::LineBreak)
        == false by {}
    lemma_run_len_is(s, CharClass::LineBreak, false, s.len() as int);
    assert forall|i: int| 0 <= i < s.len() implies in_class(
        #[trigger] s[i],
        CharClass::CommentMark,
    ) == false by {}
    lemma_run_len_is(s, CharClass::CommentMark, false, s.len() as int);
    assert(s.take(s.len() as int) =~= s);
    assert(s.first() == s[0]);
    lemma_run_len_is(s, CharClass::Space, true, 0);
    assert(s.skip(0) =~= s);
    assert(s.last() == s[s.len() - 1]);
    lemma_tail_len_is(s, CharClass::Space, 0);
    assert(trimmed(s) =~= s);
}

/// A source that is the text of one instruction assembles to the four
/// bytes of the word of that instruction, and the word decodes to the
/// instruction: the same operation, the same registers and the same
/// immediate (but for bit 10 in the immediate of `srai`).
pub proof fn lemma_text_assembles(inst: Instruction)
    requires
        inst.encodable(),
    ensures
        assemble_spec(disassemble_spec(inst)) == Ok::<Seq<u8>, AsmFault>(
            word_bytes(encode_spec(inst)),
        ),
        word_bytes(encode_spec(inst)).len() == 4,
        word_at(word_bytes(encode_spec(inst)), 0) == encode_spec(inst),
        decode_spec(encode_spec(inst)) == decoded_form(inst),
{
    let text = disassemble_spec(inst);
    let w = encode_spec(inst);
    let none = Seq::<Seq<char>>::empty();
    let no_labels = Map::<Seq<char>, int>::empty();
    lemma_text_is_line(inst);
    lemma_line_is_one_statement(text);
    let ls = lines(text);
    assert(ls.drop_last() =~= none);
    assert(ls.last() == text);
    assert(instructions(none) =~= none);
    assert(labels_of(none) =~= no_labels);
    let insts = instructions(ls);
    assert(insts =~= seq![text]);
    assert(labels_of(ls) == no_labels);
    assert(!too_large(text));
    lemma_text_reads_back(inst, 0, no_labels);
    assert(words(insts, no_labels, 0) == Ok::<Seq<u32>, AsmFault>(Seq::empty()));
    assert(insts[0] == text);
    assert(encoded(statement_spec(insts[0], 0, no_labels)) == Ok::<u32, AsmFault>(w));
    assert(words(insts, no_labels, 1) == Ok::<Seq<u32>, AsmFault>(Seq::<u32>::empty().push(w)));
    let ws = Seq::<u32>::empty().push(w);
    assert(ws.drop_last() =~= Seq::<u32>::empty());
    assert(image(ws.drop_last()) =~= Seq::<u8>::empty());
    assert(image(ws) =~= word_bytes(w));
    lemma_decode_encode(inst);
    assert(w % 256 + 256 * ((w / 256) % 256) + 65536 * ((w / 65536) % 256) + 16777216 * ((w
        / 16777216) % 256) == w);
}

} // verus!
