use rv32_emu::cpu::{Cpu, MEM_SIZE};
use rv32_emu::decoder::{Instruction, Opcode};
use rv32_emu::executor::{ExecError, Executor};
use rv32_emu::metrics::Metrics;

fn machine(words: &[u32]) -> (Cpu, Executor, Metrics) {
    let mut cpu = Cpu::new();
    for (i, w) in words.iter().enumerate() {
        cpu.write_word(4 * i as u32, *w).unwrap();
    }
    (cpu, Executor::new(), Metrics::new())
}

/// Runs the one instruction `word` with `x1 = a` and `x2 = b`.
fn run_one(word: u32, a: u32, b: u32) -> Cpu {
    let (mut cpu, mut exec, mut metrics) = machine(&[word]);
    cpu.regs[1] = a;
    cpu.regs[2] = b;
    exec.step(&mut cpu, &mut metrics).unwrap();
    cpu
}

/// The result of `op x3, x1, x2` with `x1 = a` and `x2 = b`.
fn compute_reg(op: Opcode, a: u32, b: u32) -> u32 {
    let word = Instruction { opcode: op, rd: 3, rs1: 1, rs2: 2, imm: 0 }.encode().unwrap();
    let cpu = run_one(word, a, b);
    assert_eq!(cpu.pc, 4);
    cpu.regs[3]
}

/// The result of `op x3, x1, imm` with `x1 = a`, where `imm` is what the
/// twelve bits of the immediate field decode to.
fn compute_imm(op: Opcode, a: u32, imm: i32) -> u32 {
    let funct3 = op.encoding().unwrap().funct3;
    let word = (((imm as u32) & 0xfff) << 20) | (1 << 15) | (funct3 << 12) | (3 << 7) | 0x13;
    let decoded = Instruction::decode(word);
    assert_eq!(decoded, Instruction { opcode: op, rd: 3, rs1: 1, rs2: 0, imm });
    let cpu = run_one(word, a, 0);
    assert_eq!(cpu.pc, 4);
    cpu.regs[3]
}

/// Whether `op x1, x2, 16` is taken with `x1 = a` and `x2 = b`.
fn decide_branch(op: Opcode, a: u32, b: u32) -> bool {
    let word = Instruction { opcode: op, rd: 0, rs1: 1, rs2: 2, imm: 16 }.encode().unwrap();
    let cpu = run_one(word, a, b);
    assert!(cpu.pc == 16 || cpu.pc == 4);
    cpu.pc == 16
}

#[test]
fn add_wraps_and_sub_wraps() {
    assert_eq!(compute_reg(Opcode::Add, 0xffff_ffff, 1), 0);
    assert_eq!(compute_reg(Opcode::Sub, 0, 1), 0xffff_ffff);
    assert_eq!(compute_reg(Opcode::Add, 10, 20), 30);
    assert_eq!(compute_reg(Opcode::Sub, 30, 10), 20);
    assert_eq!(compute_imm(Opcode::Addi, 10, -5), 5);
    assert_eq!(compute_imm(Opcode::Addi, 0, -1), 0xffff_ffff);
    assert_eq!(compute_imm(Opcode::Addi, 0xffff_ffff, 1), 0);
}

#[test]
fn bitwise_operations() {
    assert_eq!(compute_reg(Opcode::And, 0xff00_ff00, 0x0ff0_0ff0), 0x0f00_0f00);
    assert_eq!(compute_reg(Opcode::Or, 0xff00_ff00, 0x0ff0_0ff0), 0xfff0_fff0);
    assert_eq!(compute_reg(Opcode::Xor, 0xff00_ff00, 0x0ff0_0ff0), 0xf0f0_f0f0);
    // the immediate is sign-extended before it is used
    assert_eq!(compute_imm(Opcode::Andi, 0x1234_5678, -1), 0x1234_5678);
    assert_eq!(compute_imm(Opcode::Andi, 0x1234_5678, 0xff), 0x78);
    assert_eq!(compute_imm(Opcode::Ori, 0x1234_5678, -256), 0xffff_ff78);
    assert_eq!(compute_imm(Opcode::Xori, 0x1234_5678, -1), 0xedcb_a987);
}

#[test]
fn shift_by_36_is_shift_by_4() {
    for op in [Opcode::Sll, Opcode::Srl, Opcode::Sra] {
        for a in [0xffu32, 0x8000_0001, 0x1234_5678] {
            assert_eq!(compute_reg(op, a, 36), compute_reg(op, a, 4));
        }
    }
    assert_eq!(compute_reg(Opcode::Sll, 0xff, 36), 0xff0);
    assert_eq!(compute_reg(Opcode::Sll, 1, 32), 1);
    assert_eq!(compute_reg(Opcode::Sll, 1, 31), 0x8000_0000);
    assert_eq!(compute_imm(Opcode::Slli, 0xff, 36), 0xff0);
    assert_eq!(compute_imm(Opcode::Srli, 0xff00, 4), 0x0ff0);
}

#[test]
fn arithmetic_shift_fills_with_the_sign() {
    assert_eq!(compute_reg(Opcode::Sra, 0x8000_0000, 4), 0xf800_0000);
    assert_eq!(compute_reg(Opcode::Srl, 0x8000_0000, 4), 0x0800_0000);
    assert_eq!(compute_imm(Opcode::Srai, 0x8000_0000, 0x404), 0xf800_0000);
    assert_eq!(compute_imm(Opcode::Srli, 0x8000_0000, 4), 0x0800_0000);
    assert_eq!(compute_reg(Opcode::Sra, 0x4000_0000, 4), 0x0400_0000);
    assert_eq!(compute_reg(Opcode::Sra, 0xffff_ffff, 31), 0xffff_ffff);
}

#[test]
fn branches_compare_signed() {
    let minus_five = (-5i32) as u32;
    assert!(decide_branch(Opcode::Blt, minus_five, 5));
    assert!(!decide_branch(Opcode::Blt, 5, minus_five));
    assert!(!decide_branch(Opcode::Bge, minus_five, 5));
    assert!(decide_branch(Opcode::Bge, 5, minus_five));
    assert!(decide_branch(Opcode::Bge, 5, 5));
    assert!(!decide_branch(Opcode::Blt, 5, 5));
    assert!(decide_branch(Opcode::Blt, 0x8000_0000, 0x7fff_ffff));
    assert!(decide_branch(Opcode::Beq, 42, 42));
    assert!(!decide_branch(Opcode::Beq, 42, 43));
    assert!(decide_branch(Opcode::Bne, 42, 43));
    assert!(!decide_branch(Opcode::Bne, 42, 42));
}

#[test]
fn add_two_registers() {
    let (mut cpu, mut exec, mut metrics) = machine(&[]);
    cpu.mem[0..4].copy_from_slice(&[0xb3, 0x00, 0x31, 0x00]);
    cpu.regs[2] = 10;
    cpu.regs[3] = 20;
    exec.step(&mut cpu, &mut metrics).unwrap();
    assert_eq!(cpu.regs[1], 30);
    assert_eq!(cpu.pc, 4);
}

#[test]
fn add_wraps_to_zero() {
    let (mut cpu, mut exec, mut metrics) = machine(&[]);
    cpu.mem[0..4].copy_from_slice(&[0xb3, 0x81, 0x20, 0x00]);
    cpu.regs[1] = 0xffff_ffff;
    cpu.regs[2] = 1;
    exec.step(&mut cpu, &mut metrics).unwrap();
    assert_eq!(cpu.regs[3], 0);
}

#[test]
fn taken_branch_moves_the_pc_and_is_counted() {
    let (mut cpu, mut exec, mut metrics) = machine(&[]);
    cpu.mem[0..4].copy_from_slice(&[0x63, 0x84, 0x20, 0x00]);
    cpu.regs[1] = 42;
    cpu.regs[2] = 42;
    exec.step(&mut cpu, &mut metrics).unwrap();
    assert_eq!(cpu.pc, 8);
    assert_eq!(metrics.branch_taken, 1);
    assert_eq!(metrics.branch_not_taken, 0);
}

#[test]
fn store_then_load_gives_the_word_back() {
    // sw x2, 0(x1); lw x3, 0(x1)
    let (mut cpu, mut exec, mut metrics) = machine(&[0x0020a023, 0x0000a183]);
    cpu.regs[1] = 0x100;
    cpu.regs[2] = 0xdead_beef;
    exec.step(&mut cpu, &mut metrics).unwrap();
    exec.step(&mut cpu, &mut metrics).unwrap();
    assert_eq!(cpu.regs[3], 0xdead_beef);
    assert_eq!(cpu.pc, 8);
    assert_eq!(cpu.read_word(0x100), Ok(0xdead_beef));
}

#[test]
fn jalr_clears_bit_zero_of_its_target() {
    // jalr x1, 1(x2)
    let (mut cpu, mut exec, mut metrics) = machine(&[0x001100e7]);
    cpu.regs[2] = 0x100;
    exec.step(&mut cpu, &mut metrics).unwrap();
    assert_eq!(cpu.pc, 0x100);
    assert_eq!(cpu.regs[1], 4);
}

#[test]
fn jalr_reads_its_base_before_it_links() {
    // jalr x2, 8(x2)
    let (mut cpu, mut exec, mut metrics) = machine(&[0x00810167]);
    cpu.regs[2] = 0x200;
    exec.step(&mut cpu, &mut metrics).unwrap();
    assert_eq!(cpu.pc, 0x208);
    assert_eq!(cpu.regs[2], 4);
}

#[test]
fn register_zero_stays_zero() {
    // add x0, x1, x1; addi x0, x0, 5; lui x0, 0x12345; jal x0, 8; (skipped); lw x0, 0(x1)
    let (mut cpu, mut exec, mut metrics) =
        machine(&[0x00108033, 0x00500013, 0x12345037, 0x0080006f, 0, 0x0000a003]);
    cpu.regs[1] = 42;
    cpu.write_word(42, 0xffff_ffff).unwrap();
    for _ in 0..5 {
        exec.step(&mut cpu, &mut metrics).unwrap();
        assert_eq!(cpu.regs[0], 0);
    }
    assert_eq!(cpu.pc, 24);
}

#[test]
fn pc_stays_aligned_on_aligned_transfers() {
    // addi x1, x0, 8; jalr x2, 12(x1); (two words skipped); beq x0, x0, -16... kept forward here
    // 0: addi x1, x0, 8
    // 4: jalr x2, 12(x1)   -> 20
    // 20: beq x0, x0, 8    -> 28
    // 28: jal x3, -24      -> 4
    let (mut cpu, mut exec, mut metrics) =
        machine(&[0x00800093, 0x00c08167, 0, 0, 0, 0x00000463, 0, 0xfe9ff1ef]);
    let expected = [4u32, 20, 28, 4, 20];
    for pc in expected {
        exec.step(&mut cpu, &mut metrics).unwrap();
        assert_eq!(cpu.pc, pc);
        assert_eq!(cpu.pc % 4, 0);
    }
    assert_eq!(cpu.regs[2], 8);
    assert_eq!(cpu.regs[3], 32);
}

#[test]
fn only_a_store_changes_memory() {
    // addi x1, x0, 0x100; sw x1, 4(x1); lw x2, 4(x1); beq x0, x0, 4
    let (mut cpu, mut exec, mut metrics) =
        machine(&[0x10000093, 0x0010a223, 0x0040a103, 0x00000263]);
    let before = cpu.mem.clone();
    exec.step(&mut cpu, &mut metrics).unwrap();
    assert_eq!(cpu.mem, before);
    exec.step(&mut cpu, &mut metrics).unwrap();
    for i in 0..MEM_SIZE {
        if i < 0x104 || i >= 0x108 {
            assert_eq!(cpu.mem[i], before[i]);
        }
    }
    assert_eq!(&cpu.mem[0x104..0x108], &[0x00, 0x01, 0x00, 0x00]);
    let after_store = cpu.mem.clone();
    exec.step(&mut cpu, &mut metrics).unwrap();
    exec.step(&mut cpu, &mut metrics).unwrap();
    assert_eq!(cpu.mem, after_store);
    assert_eq!(cpu.regs[2], 0x100);
}

#[test]
fn counters_count_retired_instructions() {
    // addi x1, x0, 1; addi x1, x1, 1; add x2, x1, x1; beq x0, x1, 8; bne x0, x1, 8
    let (mut cpu, mut exec, mut metrics) =
        machine(&[0x00100093, 0x00108093, 0x00108133, 0x00100463, 0x00101463]);
    for n in 1..=5u64 {
        exec.step(&mut cpu, &mut metrics).unwrap();
        assert_eq!(metrics.inst_count, n);
        assert_eq!(metrics.inst_mix.iter().sum::<u64>(), n);
    }
    assert_eq!(metrics.count_of(Opcode::Addi), 2);
    assert_eq!(metrics.count_of(Opcode::Add), 1);
    assert_eq!(metrics.count_of(Opcode::Beq), 1);
    assert_eq!(metrics.count_of(Opcode::Bne), 1);
    assert_eq!(metrics.count_of(Opcode::Sub), 0);
    assert_eq!(metrics.branch_taken, 1);
    assert_eq!(metrics.branch_not_taken, 1);
}

#[test]
fn illegal_instruction_reports_the_pc_and_changes_nothing() {
    let (mut cpu, mut exec, mut metrics) = machine(&[0x00100093, 0xffff_ffff]);
    exec.step(&mut cpu, &mut metrics).unwrap();
    let regs = cpu.regs;
    let mem = cpu.mem.clone();
    assert_eq!(
        exec.step(&mut cpu, &mut metrics),
        Err(ExecError::IllegalInstruction { pc: 4 })
    );
    assert_eq!(cpu.pc, 4);
    assert_eq!(cpu.regs, regs);
    assert_eq!(cpu.mem, mem);
    assert_eq!(metrics.inst_count, 1);
    assert_eq!(metrics.count_of(Opcode::Unknown), 0);
    assert!(!exec.halted);
}

#[test]
fn fetch_outside_memory_fails() {
    let (mut cpu, mut exec, mut metrics) = machine(&[]);
    cpu.pc = MEM_SIZE as u32;
    assert_eq!(
        exec.step(&mut cpu, &mut metrics),
        Err(ExecError::MemoryBounds { addr: MEM_SIZE as u32 })
    );
    cpu.pc = (MEM_SIZE - 2) as u32;
    assert_eq!(
        exec.step(&mut cpu, &mut metrics),
        Err(ExecError::MemoryBounds { addr: (MEM_SIZE - 2) as u32 })
    );
    assert_eq!(metrics.inst_count, 0);
}

#[test]
fn load_and_store_outside_memory_fail() {
    // lw x3, -4(x1); sw x2, 0(x1)
    let (mut cpu, mut exec, mut metrics) = machine(&[0xffc0a183, 0x0020a023]);
    cpu.regs[1] = 0;
    cpu.regs[2] = 7;
    assert_eq!(
        exec.step(&mut cpu, &mut metrics),
        Err(ExecError::MemoryBounds { addr: 0xffff_fffc })
    );
    assert_eq!(cpu.pc, 0);
    assert_eq!(cpu.regs[3], 0);
    cpu.pc = 4;
    cpu.regs[1] = MEM_SIZE as u32 - 3;
    let mem = cpu.mem.clone();
    assert_eq!(
        exec.step(&mut cpu, &mut metrics),
        Err(ExecError::MemoryBounds { addr: MEM_SIZE as u32 - 3 })
    );
    assert_eq!(cpu.mem, mem);
    assert_eq!(cpu.pc, 4);
    assert_eq!(metrics.inst_count, 0);
}

#[test]
fn halted_executor_refuses_to_step() {
    let (mut cpu, mut exec, mut metrics) = machine(&[0x00100093]);
    exec.halted = true;
    assert_eq!(exec.step(&mut cpu, &mut metrics), Err(ExecError::Halted));
    assert_eq!(cpu.pc, 0);
    assert_eq!(cpu.regs[1], 0);
    assert_eq!(metrics.inst_count, 0);
    assert_eq!(exec.run(&mut cpu, &mut metrics, 10), Err(ExecError::Halted));
    assert_eq!(exec.run(&mut cpu, &mut metrics, 0), Ok(0));
}

#[test]
fn run_stops_at_the_step_limit() {
    // 0: jal x0, 4 ; 4: jal x0, 4 ; 8: jal x0, -4
    let (mut cpu, mut exec, mut metrics) = machine(&[0x0040006f, 0x0040006f, 0xffdff06f]);
    assert_eq!(exec.run(&mut cpu, &mut metrics, 7), Ok(7));
    assert_eq!(metrics.inst_count, 7);
    assert!(!exec.halted);
    assert_eq!(cpu.pc, 4);
    assert_eq!(exec.run(&mut cpu, &mut metrics, 0), Ok(0));
    assert_eq!(metrics.inst_count, 7);
}

#[test]
fn run_halts_when_the_pc_returns_to_zero() {
    // 0: addi x1, x1, 1 ; 4: jal x0, -4
    let (mut cpu, mut exec, mut metrics) = machine(&[0x00108093, 0xffdff06f]);
    assert_eq!(exec.run(&mut cpu, &mut metrics, 100), Ok(2));
    assert!(exec.halted);
    assert_eq!(cpu.pc, 0);
    assert_eq!(cpu.regs[1], 1);
    assert_eq!(metrics.inst_count, 2);
    assert_eq!(exec.run(&mut cpu, &mut metrics, 100), Err(ExecError::Halted));
    assert_eq!(metrics.inst_count, 2);
}

#[test]
fn run_reports_the_failure_and_keeps_what_retired() {
    // addi x1, x0, 3; addi x2, x0, 4; then zeros
    let (mut cpu, mut exec, mut metrics) = machine(&[0x00300093, 0x00400113]);
    assert_eq!(
        exec.run(&mut cpu, &mut metrics, 100),
        Err(ExecError::IllegalInstruction { pc: 8 })
    );
    assert_eq!(cpu.regs[1], 3);
    assert_eq!(cpu.regs[2], 4);
    assert_eq!(cpu.pc, 8);
    assert_eq!(metrics.inst_count, 2);
    assert!(!exec.halted);
}

#[test]
fn lui_and_auipc_from_a_high_pc() {
    let mut cpu = Cpu::new();
    let mut exec = Executor::new();
    let mut metrics = Metrics::new();
    // lui x1, 0xfffff at 0x1000; auipc x2, 0xfffff at 0x1004
    cpu.write_word(0x1000, 0xfffff0b7).unwrap();
    cpu.write_word(0x1004, 0xfffff117).unwrap();
    cpu.pc = 0x1000;
    exec.step(&mut cpu, &mut metrics).unwrap();
    assert_eq!(cpu.regs[1], 0xffff_f000);
    exec.step(&mut cpu, &mut metrics).unwrap();
    assert_eq!(cpu.regs[2], 0x0000_0004);
    assert_eq!(cpu.pc, 0x1008);
}

#[test]
fn byte_loads_and_stores_are_illegal() {
    // lb x3, 0(x1); sb x2, 0(x1)
    let (mut cpu, mut exec, mut metrics) = machine(&[0x00008183, 0x00208023]);
    cpu.regs[1] = 0x100;
    cpu.regs[2] = 7;
    assert_eq!(
        exec.step(&mut cpu, &mut metrics),
        Err(ExecError::IllegalInstruction { pc: 0 })
    );
    cpu.pc = 4;
    let mem = cpu.mem.clone();
    assert_eq!(
        exec.step(&mut cpu, &mut metrics),
        Err(ExecError::IllegalInstruction { pc: 4 })
    );
    assert_eq!(cpu.mem, mem);
    assert_eq!(cpu.regs[3], 0);
    assert_eq!(metrics.inst_count, 0);
}

#[test]
fn failures_of_a_step_in_words() {
    assert_eq!(ExecError::Halted.message(), "cpu halted");
    assert_eq!(
        ExecError::IllegalInstruction { pc: 0x10 }.message(),
        "unknown instruction at pc=0x10"
    );
    assert_eq!(
        ExecError::IllegalInstruction { pc: 0 }.message(),
        "unknown instruction at pc=0x0"
    );
    assert_eq!(
        ExecError::IllegalInstruction { pc: 0xdead_beef }.message(),
        "unknown instruction at pc=0xdeadbeef"
    );
    assert_eq!(
        ExecError::MemoryBounds { addr: 0xffff_fffc }.message(),
        "memory access out of bounds: 0xfffffffc"
    );
    for pc in [1u32, 9, 10, 15, 16, 255, 4096, 0x7fff_ffff, u32::MAX] {
        assert_eq!(
            ExecError::IllegalInstruction { pc }.message(),
            format!("unknown instruction at pc=0x{:x}", pc)
        );
    }
}
