//! Instruction semantics: one step of fetch, decode and execute, and the run loop.

use vstd::prelude::*;
use vstd::string::*;
use crate::cpu::{Cpu, CpuError, State, cpu_message, set_reg, store_word, word_at, word_in_bounds};
use crate::numeral::{append_numeral, numeral};
use crate::decoder::{Instruction, Opcode, decode_spec};
use crate::metrics::{Metrics, lemma_branch_total_bounds};

verus! {

/// Why a step did not retire an instruction.
#[derive(Debug, Clone, Copy, PartialEq, Eq, Structural)]
pub enum ExecError {
    /// The executor has halted.
    Halted,
    /// The word at `pc` decodes to no known operation.
    IllegalInstruction { pc: u32 },
    /// A fetch, load or store at `addr` does not lie inside memory.
    MemoryBounds { addr: u32 },
}

/// The one-line diagnostic of a failed step. An illegal instruction is
/// reported with its PC and an access outside memory with its address,
/// both in hexadecimal.
pub open spec fn exec_message(e: ExecError) -> Seq<char> {
    match e {
        ExecError::Halted => "cpu halted"@,
        ExecError::IllegalInstruction { pc } => "unknown instruction at pc=0x"@ + numeral(
            pc as nat,
            true,
        ),
        ExecError::MemoryBounds { addr } => cpu_message(CpuError::MemoryBounds { addr }),
    }
}

impl ExecError {
    /// The one-line diagnostic of this failure.
    pub fn message(&self) -> (text: String)
        ensures
            text@ == exec_message(*self),
    {
        match self {
            ExecError::Halted => {
                let mut text = String::new();
                text.append("cpu halted");
                text
            },
            ExecError::IllegalInstruction { pc } => {
                let mut text = String::new();
                text.append("unknown instruction at pc=0x");
                append_numeral(&mut text, *pc as u64, true);
                text
            },
            ExecError::MemoryBounds { addr } => (CpuError::MemoryBounds { addr: *addr }).message(),
        }
    }
}

/// `x` reduced to an unsigned 32-bit word.
pub open spec fn wrap32(x: int) -> u32 {
    (x % 0x1_0000_0000) as u32
}

/// The two's-complement value of a word.
pub open spec fn signed(a: u32) -> int {
    if a < 0x8000_0000 {
        a as int
    } else {
        a - 0x1_0000_0000
    }
}

/// The distance of a shift: the low five bits of the operand.
pub open spec fn shift_amount(b: u32) -> u32 {
    b & 0x1f
}

/// The operation is one of the eight register-register operations.
pub open spec fn is_reg_op(op: Opcode) -> bool {
    op == Opcode::Add || op == Opcode::Sub || op == Opcode::And || op == Opcode::Or || op
        == Opcode::Xor || op == Opcode::Sll || op == Opcode::Srl || op == Opcode::Sra
}

/// The operation is one of the seven register-immediate operations.
pub open spec fn is_imm_op(op: Opcode) -> bool {
    op == Opcode::Addi || op == Opcode::Andi || op == Opcode::Ori || op == Opcode::Xori || op
        == Opcode::Slli || op == Opcode::Srli || op == Opcode::Srai
}

/// The result of a register-register operation on `a` and `b`.
pub open spec fn alu_reg(op: Opcode, a: u32, b: u32) -> u32
    recommends
        is_reg_op(op),
{
    match op {
        Opcode::Add => wrap32(a + b),
        Opcode::Sub => wrap32(a - b),
        Opcode::And => a & b,
        Opcode::Or => a | b,
        Opcode::Xor => a ^ b,
        Opcode::Sll => a << shift_amount(b),
        Opcode::Srl => a >> shift_amount(b),
        _ => ((a as i32) >> shift_amount(b)) as u32,
    }
}

/// The result of a register-immediate operation on `a` and `imm`.
pub open spec fn alu_imm(op: Opcode, a: u32, imm: i32) -> u32
    recommends
        is_imm_op(op),
{
    match op {
        Opcode::Addi => wrap32(a + imm),
        Opcode::Andi => a & (imm as u32),
        Opcode::Ori => a | (imm as u32),
        Opcode::Xori => a ^ (imm as u32),
        Opcode::Slli => a << shift_amount(imm as u32),
        Opcode::Srli => a >> shift_amount(imm as u32),
        _ => ((a as i32) >> shift_amount(imm as u32)) as u32,
    }
}

/// Whether a conditional branch on `a` and `b` is taken: equality on the
/// words, order on their signed values.
pub open spec fn branch_taken(op: Opcode, a: u32, b: u32) -> bool
    recommends
        op.is_branch(),
{
    match op {
        Opcode::Beq => a == b,
        Opcode::Bne => a != b,
        Opcode::Blt => signed(a) < signed(b),
        _ => signed(a) >= signed(b),
    }
}

/// The target of `jalr`: base plus offset, with bit 0 cleared.
pub open spec fn jalr_target(base: u32, imm: i32) -> u32 {
    wrap32(base + imm) & !1u32
}

/// The state after executing `inst` in state `s`, or the failure that left
/// the state as it was.
pub open spec fn execute(s: State, inst: Instruction) -> Result<State, ExecError>
    recommends
        inst.wf(),
        s.regs.len() == 32,
{
    let a = s.regs[inst.rs1 as int];
    let b = s.regs[inst.rs2 as int];
    let rd = inst.rd as int;
    let next = wrap32(s.pc + 4);
    let op = inst.opcode;
    if is_reg_op(op) {
        Ok(State { regs: set_reg(s.regs, rd, alu_reg(op, a, b)), pc: next, ..s })
    } else if is_imm_op(op) {
        Ok(State { regs: set_reg(s.regs, rd, alu_imm(op, a, inst.imm)), pc: next, ..s })
    } else if op == Opcode::Lw {
        let addr = wrap32(a + inst.imm);
        if word_in_bounds(s.mem.len(), addr) {
            Ok(State { regs: set_reg(s.regs, rd, word_at(s.mem, addr as int)), pc: next, ..s })
        } else {
            Err(ExecError::MemoryBounds { addr })
        }
    } else if op == Opcode::Sw {
        let addr = wrap32(a + inst.imm);
        if word_in_bounds(s.mem.len(), addr) {
            Ok(State { mem: store_word(s.mem, addr as int, b), pc: next, ..s })
        } else {
            Err(ExecError::MemoryBounds { addr })
        }
    } else if op.is_branch() {
        if branch_taken(op, a, b) {
            Ok(State { pc: wrap32(s.pc + inst.imm), ..s })
        } else {
            Ok(State { pc: next, ..s })
        }
    } else if op == Opcode::Lui {
        Ok(State { regs: set_reg(s.regs, rd, inst.imm as u32), pc: next, ..s })
    } else if op == Opcode::Auipc {
        Ok(State { regs: set_reg(s.regs, rd, wrap32(s.pc + inst.imm)), pc: next, ..s })
    } else if op == Opcode::Jal {
        Ok(State { regs: set_reg(s.regs, rd, next), pc: wrap32(s.pc + inst.imm), ..s })
    } else if op == Opcode::Jalr {
        Ok(State { regs: set_reg(s.regs, rd, next), pc: jalr_target(a, inst.imm), ..s })
    } else {
        Err(ExecError::IllegalInstruction { pc: s.pc })
    }
}

/// Whether the word at the PC can be fetched.
pub open spec fn can_fetch(s: State) -> bool {
    word_in_bounds(s.mem.len(), s.pc)
}

/// The instruction at the PC.
pub open spec fn fetched(s: State) -> Instruction
    recommends
        can_fetch(s),
{
    decode_spec(word_at(s.mem, s.pc as int))
}

/// One step from state `s`: fetch at the PC, decode, execute.
pub open spec fn step_spec(s: State) -> Result<State, ExecError> {
    if can_fetch(s) {
        execute(s, fetched(s))
    } else {
        Err(ExecError::MemoryBounds { addr: s.pc })
    }
}

/// Mathematical model of the counters.
pub struct Tally {
    pub count: int,
    pub mix: Seq<u64>,
    pub taken: int,
    pub not_taken: int,
}

/// The counters as a tally.
pub open spec fn tally_of(m: Metrics) -> Tally {
    Tally {
        count: m.inst_count as int,
        mix: m.inst_mix@,
        taken: m.branch_taken as int,
        not_taken: m.branch_not_taken as int,
    }
}

/// The tally after retiring the instruction `inst` from state `s`: one more
/// in the total and under the operation, and for a conditional branch one
/// more under its outcome.
pub open spec fn retire(t: Tally, s: State, inst: Instruction) -> Tally {
    let op = inst.opcode;
    let i = op.index_spec();
    let taken = op.is_branch() && branch_taken(
        op,
        s.regs[inst.rs1 as int],
        s.regs[inst.rs2 as int],
    );
    let fell = op.is_branch() && !taken;
    Tally {
        count: t.count + 1,
        mix: t.mix.update(i, (t.mix[i] + 1) as u64),
        taken: t.taken + (if taken {
            1int
        } else {
            0int
        }),
        not_taken: t.not_taken + (if fell {
            1int
        } else {
            0int
        }),
    }
}

/// How a run ends: the state it leaves, the instructions it retired,
/// whether it left the executor halted, and the failure that stopped it, if any.
pub struct RunOutcome {
    pub state: State,
    pub tally: Tally,
    pub retired: nat,
    pub halted: bool,
    pub error: Option<ExecError>,
}

/// A run of at most `budget` steps from state `s`. The run stops early, with
/// the executor halted, as soon as a step leaves the PC at zero; it stops
/// with the failure when a step fails, leaving the state of before that step.
pub open spec fn run_spec(halted: bool, s: State, t: Tally, budget: nat) -> RunOutcome
    decreases budget,
{
    if budget == 0 {
        RunOutcome { state: s, tally: t, retired: 0, halted, error: None }
    } else if halted {
        RunOutcome { state: s, tally: t, retired: 0, halted, error: Some(ExecError::Halted) }
    } else {
        match step_spec(s) {
            Err(e) => RunOutcome { state: s, tally: t, retired: 0, halted, error: Some(e) },
            Ok(next) => {
                let counted = retire(t, s, fetched(s));
                if next.pc == 0 {
                    RunOutcome {
                        state: next,
                        tally: counted,
                        retired: 1,
                        halted: true,
                        error: None,
                    }
                } else {
                    let rest = run_spec(false, next, counted, (budget - 1) as nat);
                    RunOutcome { retired: rest.retired + 1, ..rest }
                }
            },
        }
    }
}

/// The control transfer that `inst` makes from state `s`, if it makes one,
/// goes to a multiple of four: a branch or `jal` has such an offset, and
/// `jalr` computes such a target.
pub open spec fn transfers_aligned(s: State, inst: Instruction) -> bool {
    if inst.opcode.is_branch() || inst.opcode == Opcode::Jal {
        inst.imm % 4 == 0
    } else if inst.opcode == Opcode::Jalr {
        jalr_target(s.regs[inst.rs1 as int], inst.imm) % 4 == 0
    } else {
        true
    }
}

/// A shift uses only the low five bits of its second operand.
pub proof fn lemma_shift_uses_low_bits(op: Opcode, a: u32, b: u32)
    ensures
        alu_reg(op, a, b & 0x1f) == alu_reg(op, a, b) || !(op == Opcode::Sll || op == Opcode::Srl
            || op == Opcode::Sra),
        shift_amount(b) < 32,
        shift_amount(b) == b % 32,
{
    assert((b & 0x1f) & 0x1f == b & 0x1f && b & 0x1f < 32 && b & 0x1f == b % 32) by (bit_vector);
}

/// Addition and subtraction wrap: the result is the sum or difference,
/// brought back into 32 bits by one step of 2^32.
pub proof fn lemma_add_sub_wrap(a: u32, b: u32)
    ensures
        alu_reg(Opcode::Add, a, b) == (if a + b < 0x1_0000_0000 {
            a + b
        } else {
            a + b - 0x1_0000_0000
        }),
        alu_reg(Opcode::Sub, a, b) == (if a >= b {
            a - b
        } else {
            a - b + 0x1_0000_0000
        }),
{
}

/// The signed value of a word is that of its bits read as a 32-bit
/// two's-complement number: negative exactly when bit 31 is set.
pub proof fn lemma_signed_is_twos_complement(a: u32)
    ensures
        signed(a) == (a as i32) as int,
        signed(a) < 0 <==> a >= 0x8000_0000,
        -0x8000_0000 <= signed(a) < 0x8000_0000,
        wrap32(signed(a)) == a,
{
    assert((a as i32) as int == (if a < 0x8000_0000 {
        a as int
    } else {
        a - 0x1_0000_0000
    })) by (bit_vector);
}

/// An arithmetic right shift is the logical one with the vacated bits
/// filled by the sign: ones for a word with bit 31 set, zeros for any other.
pub proof fn lemma_sra_fills_with_sign(a: u32, b: u32)
    ensures
        alu_reg(Opcode::Sra, a, b) == (a >> shift_amount(b)) | (if a >= 0x8000_0000 {
            !(0xffff_ffffu32 >> shift_amount(b))
        } else {
            0u32
        }),
{
    let sh = shift_amount(b);
    assert(sh < 32) by (bit_vector)
        requires
            sh == b & 0x1f,
    ;
    assert((((a as i32) >> sh) as u32) == (a >> sh) | (if a >= 0x8000_0000 {
        !(0xffff_ffffu32 >> sh)
    } else {
        0u32
    })) by (bit_vector)
        requires
            sh < 32,
    ;
}

/// The target of `jalr` is even, and is the sum itself when that is even.
pub proof fn lemma_jalr_target_even(base: u32, imm: i32)
    ensures
        jalr_target(base, imm) % 2 == 0,
        jalr_target(base, imm) == wrap32(base + imm) - wrap32(base + imm) % 2,
{
    let t = wrap32(base + imm);
    assert((t & !1u32) % 2 == 0 && (t & !1u32) == t - t % 2) by (bit_vector);
}

/// The address that `inst` stores to from state `s`.
pub open spec fn store_address(s: State, inst: Instruction) -> u32
    recommends
        inst.opcode == Opcode::Sw,
{
    wrap32(s.regs[inst.rs1 as int] + inst.imm)
}

/// Register zero stays zero across a step.
pub proof fn lemma_step_keeps_zero_register(s: State)
    requires
        s.regs.len() == 32,
        s.regs[0] == 0,
    ensures
        step_spec(s) matches Ok(next) ==> next.regs.len() == 32 && next.regs[0] == 0,
{
    if can_fetch(s) {
        crate::decoder::lemma_register_fields_in_range(word_at(s.mem, s.pc as int));
    }
}

/// Reducing a multiple of four to 32 bits gives a multiple of four.
pub proof fn lemma_wrap_keeps_alignment(x: int)
    requires
        x % 4 == 0,
    ensures
        wrap32(x) % 4 == 0,
{
    let q = x / 0x1_0000_0000;
    let r = x % 0x1_0000_0000;
    assert(x == 0x1_0000_0000 * q + r);
    assert(r == x - 4 * (0x4000_0000 * q));
}

/// From an aligned PC, an instruction whose control transfer is aligned
/// leaves the PC aligned.
pub proof fn lemma_step_keeps_alignment(s: State)
    requires
        s.pc % 4 == 0,
        can_fetch(s),
        transfers_aligned(s, fetched(s)),
    ensures
        step_spec(s) matches Ok(next) ==> next.pc % 4 == 0,
{
    let inst = fetched(s);
    lemma_wrap_keeps_alignment(s.pc + 4);
    if inst.opcode.is_branch() || inst.opcode == Opcode::Jal {
        lemma_wrap_keeps_alignment(s.pc + inst.imm);
    }
}

/// A step changes memory only if it executes a store, and then only the
/// four bytes at the address stored to.
pub proof fn lemma_step_memory_frame(s: State, i: int)
    requires
        0 <= i < s.mem.len(),
    ensures
        step_spec(s) matches Ok(next) ==> {
            &&& next.mem.len() == s.mem.len()
            &&& fetched(s).opcode != Opcode::Sw ==> next.mem == s.mem
            &&& fetched(s).opcode == Opcode::Sw && !(store_address(s, fetched(s)) <= i
                < store_address(s, fetched(s)) + 4) ==> next.mem[i] == s.mem[i]
        },
{
}

/// Retiring an instruction keeps the mix adding up to the total.
pub proof fn lemma_retire_keeps_total(t: Tally, s: State, inst: Instruction)
    requires
        t.mix.len() == crate::decoder::NUM_OPCODES,
        crate::metrics::total(t.mix) == t.count,
        t.count < u64::MAX,
    ensures
        crate::metrics::total(retire(t, s, inst).mix) == retire(t, s, inst).count,
        retire(t, s, inst).count == t.count + 1,
        retire(t, s, inst).mix.len() == t.mix.len(),
{
    let i = inst.opcode.index_spec();
    crate::metrics::lemma_total_bounds(t.mix, i);
    crate::metrics::lemma_total_update(t.mix, i, (t.mix[i] + 1) as u64);
}

/// Across a whole run register zero stays zero, the memory keeps its size,
/// the total of the tally grows by the number of instructions retired, and
/// the mix keeps adding up to the total.
pub proof fn lemma_run_invariants(halted: bool, s: State, t: Tally, budget: nat)
    requires
        s.regs.len() == 32,
        s.regs[0] == 0,
        t.mix.len() == crate::decoder::NUM_OPCODES,
        crate::metrics::total(t.mix) == t.count,
        t.count + budget <= u64::MAX,
    ensures
        run_spec(halted, s, t, budget).state.regs.len() == 32,
        run_spec(halted, s, t, budget).state.regs[0] == 0,
        run_spec(halted, s, t, budget).state.mem.len() == s.mem.len(),
        run_spec(halted, s, t, budget).retired <= budget,
        run_spec(halted, s, t, budget).tally.count == t.count + run_spec(
            halted,
            s,
            t,
            budget,
        ).retired,
        crate::metrics::total(run_spec(halted, s, t, budget).tally.mix) == run_spec(
            halted,
            s,
            t,
            budget,
        ).tally.count,
    decreases budget,
{
    if budget > 0 && !halted {
        match step_spec(s) {
            Err(_) => {},
            Ok(next) => {
                lemma_step_keeps_zero_register(s);
                if s.mem.len() > 0 {
                    lemma_step_memory_frame(s, 0);
                }
                lemma_retire_keeps_total(t, s, fetched(s));
                if next.pc != 0 {
                    lemma_run_invariants(
                        false,
                        next,
                        retire(t, s, fetched(s)),
                        (budget - 1) as nat,
                    );
                }
            },
        }
    }
}

/// A run that leaves an executor halted which was not halted before ends
/// without a failure, with the PC at zero, after at least one instruction.
pub proof fn lemma_run_halts_at_zero(s: State, t: Tally, budget: nat)
    ensures
        run_spec(false, s, t, budget).halted ==> {
            &&& run_spec(false, s, t, budget).state.pc == 0
            &&& run_spec(false, s, t, budget).error is None
            &&& run_spec(false, s, t, budget).retired >= 1
        },
    decreases budget,
{
    if budget > 0 {
        match step_spec(s) {
            Err(_) => {},
            Ok(next) => {
                if next.pc != 0 {
                    lemma_run_halts_at_zero(next, retire(t, s, fetched(s)), (budget - 1) as nat);
                }
            },
        }
    }
}

/// The bits of a signed immediate as an unsigned word.
fn imm_bits(imm: i32) -> (r: u32)
    ensures
        r == imm as u32,
        r as int == (if imm < 0 {
            imm + 0x1_0000_0000
        } else {
            imm as int
        }),
{
    let r = #[verifier::truncate] (imm as u32);
    assert(r as int == (if imm < 0 {
        imm + 0x1_0000_0000
    } else {
        imm as int
    })) by (bit_vector)
        requires
            r == imm as u32,
    ;
    r
}

/// The bits of a word as a signed number.
pub fn as_signed(a: u32) -> (r: i32)
    ensures
        r == a as i32,
        r as int == signed(a),
{
    let r = #[verifier::truncate] (a as i32);
    assert(r as int == (if a < 0x8000_0000 {
        a as int
    } else {
        a - 0x1_0000_0000
    })) by (bit_vector)
        requires
            r == a as i32,
    ;
    r
}

/// `base` plus a signed offset, wrapping.
fn add_offset(base: u32, imm: i32) -> (r: u32)
    ensures
        r == wrap32(base + imm),
{
    base.wrapping_add(imm_bits(imm))
}

/// Computes a register-register operation.
fn compute_reg(op: Opcode, a: u32, b: u32) -> (r: u32)
    requires
        is_reg_op(op),
    ensures
        r == alu_reg(op, a, b),
{
    match op {
        Opcode::Add => a.wrapping_add(b),
        Opcode::Sub => a.wrapping_sub(b),
        Opcode::And => a & b,
        Opcode::Or => a | b,
        Opcode::Xor => a ^ b,
        Opcode::Sll => a << shift_distance(b),
        Opcode::Srl => a >> shift_distance(b),
        _ => #[verifier::truncate] ((as_signed(a) >> shift_distance(b)) as u32),
    }
}

/// Computes a register-immediate operation.
fn compute_imm(op: Opcode, a: u32, imm: i32) -> (r: u32)
    requires
        is_imm_op(op),
    ensures
        r == alu_imm(op, a, imm),
{
    match op {
        Opcode::Addi => add_offset(a, imm),
        Opcode::Andi => a & imm_bits(imm),
        Opcode::Ori => a | imm_bits(imm),
        Opcode::Xori => a ^ imm_bits(imm),
        Opcode::Slli => a << shift_distance(imm_bits(imm)),
        Opcode::Srli => a >> shift_distance(imm_bits(imm)),
        _ => #[verifier::truncate] ((as_signed(a) >> shift_distance(imm_bits(imm))) as u32),
    }
}

/// Decides a conditional branch.
fn decide_branch(op: Opcode, a: u32, b: u32) -> (taken: bool)
    requires
        op.is_branch(),
    ensures
        taken == branch_taken(op, a, b),
{
    match op {
        Opcode::Beq => a == b,
        Opcode::Bne => a != b,
        Opcode::Blt => as_signed(a) < as_signed(b),
        _ => as_signed(a) >= as_signed(b),
    }
}

/// The executor: holds the halt flag.
pub struct Executor {
    /// Set by `run` when a step leaves the PC at zero; a halted executor
    /// refuses to step.
    pub halted: bool,
}

impl Executor {
    /// An executor that has not halted.
    pub fn new() -> (e: Executor)
        ensures
            !e.halted,
    {
        Executor { halted: false }
    }

    /// Executes the instruction at the PC.
    ///
    /// A halted executor fails with `Halted`. Otherwise the outcome is that
    /// of `step_spec`: on success the state is the next state and the
    /// counters have retired the instruction; on failure the state and the
    /// counters are left exactly as they were.
    pub fn step(&mut self, cpu: &mut Cpu, metrics: &mut Metrics) -> (r: Result<(), ExecError>)
        requires
            old(cpu).wf(),
            old(metrics).wf(),
            old(metrics).balanced(),
            old(metrics).inst_count < u64::MAX,
        ensures
            final(self).halted == old(self).halted,
            final(cpu).wf(),
            final(metrics).wf(),
            final(metrics).balanced(),
            old(self).halted ==> r == Err::<(), ExecError>(ExecError::Halted),
            !old(self).halted ==> match step_spec(old(cpu)@) {
                Ok(next) => r is Ok && final(cpu)@ == next,
                Err(e) => r == Err::<(), ExecError>(e),
            },
            r is Ok ==> tally_of(*final(metrics)) == retire(
                tally_of(*old(metrics)),
                old(cpu)@,
                fetched(old(cpu)@),
            ) && final(metrics).start_time == old(metrics).start_time,
            r is Ok ==> final(metrics).inst_count == old(metrics).inst_count + 1,
            r is Err ==> *final(cpu) == *old(cpu) && *final(metrics) == *old(metrics),
    {
        if self.halted {
            return Err(ExecError::Halted);
        }
        let raw = match cpu.read_word(cpu.pc) {
            Ok(raw) => raw,
            Err(_) => {
                return Err(ExecError::MemoryBounds { addr: cpu.pc });
            },
        };
        let inst = Instruction::decode(raw);
        proof {
            lemma_branch_total_bounds(metrics.inst_mix@);
        }

        match inst.opcode {
            Opcode::Add
            | Opcode::Sub
            | Opcode::And
            | Opcode::Or
            | Opcode::Xor
            | Opcode::Sll
            | Opcode::Srl
            | Opcode::Sra => {
                let rs1 = cpu.read_reg(inst.rs1);
                let rs2 = cpu.read_reg(inst.rs2);
                cpu.write_reg(inst.rd, compute_reg(inst.opcode, rs1, rs2));
                cpu.pc = cpu.pc.wrapping_add(4);
            },
            Opcode::Addi
            | Opcode::Andi
            | Opcode::Ori
            | Opcode::Xori
            | Opcode::Slli
            | Opcode::Srli
            | Opcode::Srai => {
                let rs1 = cpu.read_reg(inst.rs1);
                cpu.write_reg(inst.rd, compute_imm(inst.opcode, rs1, inst.imm));
                cpu.pc = cpu.pc.wrapping_add(4);
            },
            Opcode::Lw => {
                let rs1 = cpu.read_reg(inst.rs1);
                let addr = add_offset(rs1, inst.imm);
                let val = match cpu.read_word(addr) {
                    Ok(val) => val,
                    Err(_) => {
                        return Err(ExecError::MemoryBounds { addr });
                    },
                };
                cpu.write_reg(inst.rd, val);
                cpu.pc = cpu.pc.wrapping_add(4);
            },
            Opcode::Sw => {
                let rs1 = cpu.read_reg(inst.rs1);
                let rs2 = cpu.read_reg(inst.rs2);
                let addr = add_offset(rs1, inst.imm);
                match cpu.write_word(addr, rs2) {
                    Ok(()) => {},
                    Err(_) => {
                        return Err(ExecError::MemoryBounds { addr });
                    },
                }
                cpu.pc = cpu.pc.wrapping_add(4);
            },
            Opcode::Beq | Opcode::Bne | Opcode::Blt | Opcode::Bge => {
                let rs1 = cpu.read_reg(inst.rs1);
                let rs2 = cpu.read_reg(inst.rs2);
                if decide_branch(inst.opcode, rs1, rs2) {
                    cpu.pc = add_offset(cpu.pc, inst.imm);
                    metrics.record_branch(true);
                } else {
                    cpu.pc = cpu.pc.wrapping_add(4);
                    metrics.record_branch(false);
                }
            },
            Opcode::Lui => {
                cpu.write_reg(inst.rd, imm_bits(inst.imm));
                cpu.pc = cpu.pc.wrapping_add(4);
            },
            Opcode::Auipc => {
                let val = add_offset(cpu.pc, inst.imm);
                cpu.write_reg(inst.rd, val);
                cpu.pc = cpu.pc.wrapping_add(4);
            },
            Opcode::Jal => {
                let link = cpu.pc.wrapping_add(4);
                cpu.write_reg(inst.rd, link);
                cpu.pc = add_offset(cpu.pc, inst.imm);
            },
            Opcode::Jalr => {
                let rs1 = cpu.read_reg(inst.rs1);
                let link = cpu.pc.wrapping_add(4);
                cpu.write_reg(inst.rd, link);
                cpu.pc = add_offset(rs1, inst.imm) & !1;
            },
            Opcode::Unknown => {
                return Err(ExecError::IllegalInstruction { pc: cpu.pc });
            },
        }
        metrics.record_instruction(&inst);
        Ok(())
    }

    /// Steps until `max_steps` instructions have retired, a step leaves the
    /// PC at zero (which halts the executor), or a step fails.
    ///
    /// The outcome is that of `run_spec`: on `Ok(n)` exactly `n` instructions
    /// retired; on `Err(e)` the state is the one in which the failing step
    /// was tried. Either way the counters have counted the retired
    /// instructions and nothing else.
    pub fn run(&mut self, cpu: &mut Cpu, metrics: &mut Metrics, max_steps: usize) -> (r: Result<
        usize,
        ExecError,
    >)
        requires
            old(cpu).wf(),
            old(metrics).wf(),
            old(metrics).balanced(),
            old(metrics).inst_count + max_steps <= u64::MAX,
        ensures
            final(cpu).wf(),
            final(metrics).wf(),
            final(metrics).balanced(),
            final(metrics).start_time == old(metrics).start_time,
            ({
                let out = run_spec(
                    old(self).halted,
                    old(cpu)@,
                    tally_of(*old(metrics)),
                    max_steps as nat,
                );
                &&& final(cpu)@ == out.state
                &&& tally_of(*final(metrics)) == out.tally
                &&& final(self).halted == out.halted
                &&& final(metrics).inst_count == old(metrics).inst_count + out.retired
                &&& out.retired <= max_steps
                &&& match out.error {
                    None => r == Ok::<usize, ExecError>(out.retired as usize),
                    Some(e) => r == Err::<usize, ExecError>(e),
                }
            }),
    {
        let mut steps: usize = 0;
        while steps < max_steps
            invariant_except_break
                steps > 0 ==> !self.halted,
                steps == 0 ==> self.halted == old(self).halted,
                ({
                    let rest = run_spec(
                        self.halted,
                        cpu@,
                        tally_of(*metrics),
                        (max_steps - steps) as nat,
                    );
                    run_spec(
                        old(self).halted,
                        old(cpu)@,
                        tally_of(*old(metrics)),
                        max_steps as nat,
                    ) == (RunOutcome { retired: rest.retired + steps as nat, ..rest })
                }),
            invariant
                steps <= max_steps,
                cpu.wf(),
                metrics.wf(),
                metrics.balanced(),
                metrics.start_time == old(metrics).start_time,
                metrics.inst_count == old(metrics).inst_count + steps,
                old(metrics).inst_count + max_steps <= u64::MAX,
            ensures
                run_spec(old(self).halted, old(cpu)@, tally_of(*old(metrics)), max_steps as nat)
                    == (RunOutcome {
                    state: cpu@,
                    tally: tally_of(*metrics),
                    retired: steps as nat,
                    halted: self.halted,
                    error: None,
                }),
            decreases max_steps - steps,
        {
            let ghost before = cpu@;
            let ghost tally_before = tally_of(*metrics);
            if let Err(e) = self.step(cpu, metrics) {
                return Err(e);
            }
            steps += 1;
            assert(step_spec(before) == Ok::<State, ExecError>(cpu@));
            assert(tally_of(*metrics) == retire(tally_before, before, fetched(before)));

            if cpu.pc == 0 {
                self.halted = true;
                break ;
            }
        }
        Ok(steps)
    }
}

/// The low five bits of a shift operand.
fn shift_distance(b: u32) -> (r: u32)
    ensures
        r == shift_amount(b),
        r < 32,
{
    let r = b & 0x1f;
    assert(b & 0x1f < 32) by (bit_vector);
    r
}

} // verus!
