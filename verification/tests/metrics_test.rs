use rv32_emu::decoder::{Instruction, Opcode, NUM_OPCODES};
use rv32_emu::metrics::Metrics;

fn of(opcode: Opcode) -> Instruction {
    Instruction { opcode, rd: 0, rs1: 0, rs2: 0, imm: 0 }
}

#[test]
fn fresh_counters_are_zero() {
    let m = Metrics::new();
    assert_eq!(m.inst_count, 0);
    assert_eq!(m.branch_taken, 0);
    assert_eq!(m.branch_not_taken, 0);
    assert_eq!(m.inst_mix, vec![0u64; NUM_OPCODES]);
    assert!(m.start_time.is_none());
}

#[test]
fn start_takes_the_time_and_keeps_the_counters() {
    let mut m = Metrics::new();
    m.record_instruction(&of(Opcode::Add));
    m.start();
    assert!(m.start_time.is_some());
    assert_eq!(m.inst_count, 1);
    assert_eq!(m.count_of(Opcode::Add), 1);
    let first = m.start_time.unwrap();
    m.start();
    assert!(m.start_time.unwrap() >= first);
}

#[test]
fn record_instruction_counts_by_operation() {
    let mut m = Metrics::new();
    m.record_instruction(&of(Opcode::Add));
    m.record_instruction(&of(Opcode::Add));
    m.record_instruction(&of(Opcode::Lw));
    m.record_instruction(&of(Opcode::Unknown));
    assert_eq!(m.inst_count, 4);
    assert_eq!(m.count_of(Opcode::Add), 2);
    assert_eq!(m.count_of(Opcode::Lw), 1);
    assert_eq!(m.count_of(Opcode::Unknown), 1);
    assert_eq!(m.count_of(Opcode::Sub), 0);
    assert_eq!(m.inst_mix.iter().sum::<u64>(), m.inst_count);
    assert_eq!(m.inst_mix[Opcode::Add.index()], 2);
    assert_eq!(m.branch_taken, 0);
    assert_eq!(m.branch_not_taken, 0);
}

#[test]
fn record_branch_counts_by_outcome() {
    let mut m = Metrics::new();
    m.record_branch(true);
    m.record_branch(false);
    m.record_branch(true);
    assert_eq!(m.branch_taken, 2);
    assert_eq!(m.branch_not_taken, 1);
    assert_eq!(m.inst_count, 0);
}

#[test]
fn ranking_orders_by_count_then_by_operation() {
    let mut m = Metrics::new();
    assert_eq!(m.ranking(), vec![]);
    for _ in 0..3 {
        m.record_instruction(&of(Opcode::Lw));
    }
    for _ in 0..5 {
        m.record_instruction(&of(Opcode::Addi));
    }
    for _ in 0..3 {
        m.record_instruction(&of(Opcode::Add));
    }
    m.record_instruction(&of(Opcode::Jal));
    m.record_instruction(&of(Opcode::Unknown));
    assert_eq!(
        m.ranking(),
        vec![
            (Opcode::Addi, 5),
            (Opcode::Add, 3),
            (Opcode::Lw, 3),
            (Opcode::Jal, 1),
            (Opcode::Unknown, 1),
        ]
    );
}

#[test]
fn ranking_lists_every_operation_that_ran() {
    let mut m = Metrics::new();
    for i in 0..NUM_OPCODES {
        let op = Opcode::from_index(i).unwrap();
        for _ in 0..(i % 4) {
            m.record_instruction(&of(op));
        }
    }
    let ranking = m.ranking();
    assert_eq!(ranking.len(), (0..NUM_OPCODES).filter(|i| i % 4 != 0).count());
    assert_eq!(ranking.iter().map(|e| e.1).sum::<u64>(), m.inst_count);
    for pair in ranking.windows(2) {
        let (a, b) = (pair[0], pair[1]);
        assert!(a.1 > b.1 || (a.1 == b.1 && a.0.index() < b.0.index()));
    }
    for (op, count) in ranking {
        assert_eq!(count, m.count_of(op));
        assert!(count > 0);
    }
}

#[test]
fn room_for_more_steps() {
    let mut m = Metrics::new();
    assert!(m.has_room(0));
    assert!(m.has_room(usize::MAX));
    m.record_instruction(&of(Opcode::Beq));
    // a branch retired without its outcome: the counters do not balance
    assert!(!m.has_room(0));
    m.record_branch(true);
    assert!(m.has_room(1000));
    if usize::BITS == 64 {
        assert!(m.has_room(usize::MAX - 1));
        assert!(!m.has_room(usize::MAX));
    }
    // a total that is not the sum of the mix
    m.inst_count = 5;
    assert!(!m.has_room(0));
    m.inst_count = 1;
    assert!(m.has_room(0));
    // a mix of the wrong length
    m.inst_mix.pop();
    assert!(!m.has_room(0));
}

#[test]
fn room_at_the_end_of_the_counter() {
    let mut m = Metrics::new();
    m.inst_count = u64::MAX;
    m.inst_mix[Opcode::Add.index()] = u64::MAX;
    assert!(m.has_room(0));
    assert!(!m.has_room(1));
    m.inst_mix[Opcode::Sub.index()] = 1;
    assert!(!m.has_room(0));
}
