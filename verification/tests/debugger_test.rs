use rv32_emu::cpu::{Cpu, MEM_SIZE};
use rv32_emu::debugger::{parse_addr, parse_command, Command, Debugger, Reply, Row, Stop, Topic};
use rv32_emu::decoder::{Instruction, Opcode};
use rv32_emu::executor::ExecError;
use rv32_emu::metrics::Metrics;
use rv32_emu::numeral::NumeralError;

fn chars(s: &str) -> Vec<char> {
    s.chars().collect()
}

fn machine(words: &[u32]) -> (Cpu, Metrics, Debugger) {
    let mut cpu = Cpu::new();
    for (i, w) in words.iter().enumerate() {
        cpu.write_word(4 * i as u32, *w).unwrap();
    }
    (cpu, Metrics::new(), Debugger::new())
}

// 0: addi x1, x1, 1 ; 4: addi x2, x2, 2 ; 8: jal x0, -8
const LOOP: [u32; 3] = [0x00108093, 0x00210113, 0xff9ff06f];

#[test]
fn commands_in_full_and_in_short() {
    for (line, expected) in [
        ("help", Command::Help),
        ("h", Command::Help),
        ("step", Command::Step),
        ("s", Command::Step),
        ("continue", Command::Continue),
        ("c", Command::Continue),
        ("regs", Command::Regs),
        ("r", Command::Regs),
        ("pc", Command::Pc),
        ("quit", Command::Quit),
        ("q", Command::Quit),
        ("  step  \n", Command::Step),
        ("step and more", Command::Step),
    ] {
        assert_eq!(parse_command(line), expected, "{:?}", line);
    }
}

#[test]
fn blank_and_unknown_lines() {
    assert_eq!(parse_command(""), Command::Blank);
    assert_eq!(parse_command("  \t\n"), Command::Blank);
    assert_eq!(parse_command("fly"), Command::Unknown(chars("fly")));
    assert_eq!(parse_command("Step"), Command::Unknown(chars("Step")));
    assert_eq!(parse_command("p c"), Command::Unknown(chars("p")));
}

#[test]
fn break_takes_an_address() {
    assert_eq!(parse_command("break 0x10"), Command::Break(16));
    assert_eq!(parse_command("b 16"), Command::Break(16));
    assert_eq!(parse_command("break"), Command::Usage(Topic::Break));
    assert_eq!(parse_command("b zz"), Command::InvalidAddress(chars("zz")));
    assert_eq!(parse_command("b -4"), Command::InvalidAddress(chars("-4")));
    assert_eq!(parse_command("b 4294967296"), Command::InvalidAddress(chars("4294967296")));
}

#[test]
fn mem_takes_an_address_and_a_count() {
    assert_eq!(parse_command("mem 0x100"), Command::Mem(0x100, 16));
    assert_eq!(parse_command("m 256 4"), Command::Mem(256, 4));
    assert_eq!(parse_command("m 256 0"), Command::Mem(256, 0));
    assert_eq!(parse_command("m 256 many"), Command::Mem(256, 16));
    assert_eq!(parse_command("m 256 -1"), Command::Mem(256, 16));
    assert_eq!(parse_command("mem"), Command::Usage(Topic::Mem));
    assert_eq!(parse_command("mem here 4"), Command::InvalidAddress(chars("here")));
}

#[test]
fn dis_takes_an_optional_address() {
    assert_eq!(parse_command("dis"), Command::Dis(None));
    assert_eq!(parse_command("d 0x20"), Command::Dis(Some(32)));
    assert_eq!(parse_command("d 0xg"), Command::InvalidAddress(chars("0xg")));
}

#[test]
fn addresses_from_text() {
    assert_eq!(parse_addr("0"), Ok(0));
    assert_eq!(parse_addr("1024"), Ok(1024));
    assert_eq!(parse_addr("0x400"), Ok(1024));
    assert_eq!(parse_addr("0xFFFFFFFF"), Ok(u32::MAX));
    assert_eq!(parse_addr("0x1ffffffff"), Err(NumeralError::TooLarge));
    assert_eq!(parse_addr("4294967296"), Err(NumeralError::TooLarge));
    assert_eq!(parse_addr("main"), Err(NumeralError::Malformed));
    assert_eq!(parse_addr(" 4"), Err(NumeralError::Malformed));
    assert_eq!(parse_addr(""), Err(NumeralError::Malformed));
}

#[test]
fn step_reports_the_instruction_that_ran() {
    let (mut cpu, mut metrics, mut dbg) = machine(&LOOP);
    let r = dbg.step(&mut cpu, &mut metrics);
    assert_eq!(
        r,
        Ok((0, Instruction { opcode: Opcode::Addi, rd: 1, rs1: 1, rs2: 0, imm: 1 }))
    );
    assert_eq!(cpu.pc, 4);
    assert_eq!(cpu.regs[1], 1);
    assert_eq!(metrics.inst_count, 1);
}

#[test]
fn step_reports_a_failure() {
    let (mut cpu, mut metrics, mut dbg) = machine(&[0]);
    assert_eq!(
        dbg.step(&mut cpu, &mut metrics),
        Err(ExecError::IllegalInstruction { pc: 0 })
    );
    assert_eq!(metrics.inst_count, 0);
    dbg.executor.halted = true;
    assert_eq!(dbg.step(&mut cpu, &mut metrics), Err(ExecError::Halted));
}

#[test]
fn breakpoints_are_a_set() {
    let mut dbg = Debugger::new();
    assert!(!dbg.has_breakpoint(8));
    dbg.set_breakpoint(8);
    dbg.set_breakpoint(8);
    dbg.set_breakpoint(12);
    assert!(dbg.has_breakpoint(8));
    assert!(dbg.has_breakpoint(12));
    assert!(!dbg.has_breakpoint(4));
}

#[test]
fn continue_stops_before_the_instruction_at_a_breakpoint() {
    let (mut cpu, mut metrics, mut dbg) = machine(&LOOP);
    dbg.set_breakpoint(8);
    assert_eq!(dbg.continue_exec(&mut cpu, &mut metrics, 100), Stop::Breakpoint(8));
    assert_eq!(cpu.pc, 8);
    assert_eq!(metrics.inst_count, 2);
    assert_eq!((cpu.regs[1], cpu.regs[2]), (1, 2));
    // the breakpoint is still under the PC
    assert_eq!(dbg.continue_exec(&mut cpu, &mut metrics, 100), Stop::Breakpoint(8));
    assert_eq!(metrics.inst_count, 2);
    // one step moves off it, and the loop comes round again
    dbg.step(&mut cpu, &mut metrics).unwrap();
    assert_eq!(dbg.continue_exec(&mut cpu, &mut metrics, 100), Stop::Breakpoint(8));
    assert_eq!(metrics.inst_count, 5);
    assert_eq!((cpu.regs[1], cpu.regs[2]), (2, 4));
}

#[test]
fn continue_pauses_when_the_budget_is_used() {
    let (mut cpu, mut metrics, mut dbg) = machine(&LOOP);
    assert_eq!(dbg.continue_exec(&mut cpu, &mut metrics, 7), Stop::Paused);
    assert_eq!(metrics.inst_count, 7);
    assert_eq!(cpu.pc, 4);
    assert_eq!(dbg.continue_exec(&mut cpu, &mut metrics, 0), Stop::Paused);
    assert_eq!(metrics.inst_count, 7);
    dbg.set_breakpoint(4);
    assert_eq!(dbg.continue_exec(&mut cpu, &mut metrics, 0), Stop::Breakpoint(4));
}

#[test]
fn continue_stops_at_a_failure() {
    let (mut cpu, mut metrics, mut dbg) = machine(&[0x00108093, 0x00210113]);
    assert_eq!(
        dbg.continue_exec(&mut cpu, &mut metrics, 100),
        Stop::Failed(ExecError::IllegalInstruction { pc: 8 })
    );
    assert_eq!(metrics.inst_count, 2);
    assert_eq!(cpu.pc, 8);
}

#[test]
fn continue_does_not_halt_at_pc_zero() {
    // 0: addi x1, x1, 1 ; 4: jal x0, -4
    let (mut cpu, mut metrics, mut dbg) = machine(&[0x00108093, 0xffdff06f]);
    assert_eq!(dbg.continue_exec(&mut cpu, &mut metrics, 10), Stop::Paused);
    assert_eq!(cpu.regs[1], 5);
    assert!(!dbg.executor.halted);
}

#[test]
fn dump_mem_lists_words_with_their_addresses() {
    let (mut cpu, _metrics, dbg) = machine(&[]);
    cpu.write_word(0x100, 0xdead_beef).unwrap();
    cpu.write_word(0x108, 0x1234_5678).unwrap();
    assert_eq!(
        dbg.dump_mem(&cpu, 0x100, 3),
        vec![(0x100, 0xdead_beef), (0x104, 0), (0x108, 0x1234_5678)]
    );
    assert_eq!(dbg.dump_mem(&cpu, 0x100, 0), vec![]);
    assert_eq!(dbg.dump_mem(&cpu, 0x100, 16).len(), 16);
    // a dump does not have to be aligned
    assert_eq!(dbg.dump_mem(&cpu, 0x102, 1), vec![(0x102, 0x0000_dead)]);
}

#[test]
fn dump_mem_ends_with_the_memory() {
    let (mut cpu, _metrics, dbg) = machine(&[]);
    let last = (MEM_SIZE - 4) as u32;
    cpu.write_word(last, 7).unwrap();
    assert_eq!(dbg.dump_mem(&cpu, last - 4, 16), vec![(last - 4, 0), (last, 7)]);
    assert_eq!(dbg.dump_mem(&cpu, last + 1, 16), vec![]);
    assert_eq!(dbg.dump_mem(&cpu, last - 2, 16), vec![(last - 2, 0x0007_0000)]);
    assert_eq!(dbg.dump_mem(&cpu, MEM_SIZE as u32, 16), vec![]);
    assert_eq!(dbg.dump_mem(&cpu, u32::MAX, 16), vec![]);
    assert_eq!(dbg.dump_mem(&cpu, 0, usize::MAX).len(), MEM_SIZE / 4);
}

#[test]
fn disassemble_lists_ten_instructions_and_marks_the_pc() {
    let (mut cpu, _metrics, dbg) = machine(&LOOP);
    cpu.pc = 4;
    let rows = dbg.disassemble(&cpu, 0);
    assert_eq!(rows.len(), 10);
    assert_eq!(
        rows[0],
        Row {
            addr: 0,
            at_pc: false,
            inst: Instruction { opcode: Opcode::Addi, rd: 1, rs1: 1, rs2: 0, imm: 1 }
        }
    );
    assert_eq!(rows[1].addr, 4);
    assert!(rows[1].at_pc);
    assert_eq!(rows[2].inst.opcode, Opcode::Jal);
    assert_eq!(rows[2].inst.imm, -8);
    assert_eq!(rows[3].inst.opcode, Opcode::Unknown);
    assert_eq!(rows[9].addr, 36);
    assert_eq!(rows.iter().filter(|r| r.at_pc).count(), 1);
    let tail = dbg.disassemble(&cpu, (MEM_SIZE - 8) as u32);
    assert_eq!(tail.len(), 2);
    assert!(dbg.disassemble(&cpu, MEM_SIZE as u32).is_empty());
}

#[test]
fn handle_carries_out_each_command() {
    let (mut cpu, mut metrics, mut dbg) = machine(&LOOP);
    let mut ask = |line: &str, cpu: &mut Cpu, metrics: &mut Metrics| {
        dbg.handle(&parse_command(line), cpu, metrics, 50)
    };
    assert_eq!(ask("", &mut cpu, &mut metrics), Reply::Nothing);
    assert_eq!(ask("help", &mut cpu, &mut metrics), Reply::Help);
    assert_eq!(ask("pc", &mut cpu, &mut metrics), Reply::Pc(0));
    assert_eq!(
        ask("s", &mut cpu, &mut metrics),
        Reply::Stepped(0, Instruction { opcode: Opcode::Addi, rd: 1, rs1: 1, rs2: 0, imm: 1 })
    );
    assert_eq!(ask("pc", &mut cpu, &mut metrics), Reply::Pc(4));
    assert_eq!(ask("b 0", &mut cpu, &mut metrics), Reply::BreakpointSet(0));
    assert_eq!(ask("c", &mut cpu, &mut metrics), Reply::Stopped(Stop::Breakpoint(0)));
    let mut regs = [0u32; 32];
    regs[1] = 1;
    regs[2] = 2;
    assert_eq!(ask("regs", &mut cpu, &mut metrics), Reply::Registers(regs, 0));
    assert_eq!(
        ask("m 0 2", &mut cpu, &mut metrics),
        Reply::Memory(0, vec![(0, LOOP[0]), (4, LOOP[1])])
    );
    match ask("dis", &mut cpu, &mut metrics) {
        Reply::Listing(0, rows) => {
            assert_eq!(rows.len(), 10);
            assert!(rows[0].at_pc);
        }
        other => panic!("{:?}", other),
    }
    match ask("dis 8", &mut cpu, &mut metrics) {
        Reply::Listing(8, rows) => {
            assert_eq!(rows[0].inst.opcode, Opcode::Jal);
            assert!(!rows[0].at_pc);
        }
        other => panic!("{:?}", other),
    }
    assert_eq!(ask("b", &mut cpu, &mut metrics), Reply::Usage(Topic::Break));
    assert_eq!(ask("mem", &mut cpu, &mut metrics), Reply::Usage(Topic::Mem));
    assert_eq!(ask("b x", &mut cpu, &mut metrics), Reply::InvalidAddress(chars("x")));
    assert_eq!(ask("jump", &mut cpu, &mut metrics), Reply::UnknownCommand(chars("jump")));
    assert_eq!(ask("q", &mut cpu, &mut metrics), Reply::Quit);
    assert_eq!(metrics.inst_count, 3);
}

#[test]
fn handle_reports_failures() {
    let (mut cpu, mut metrics, mut dbg) = machine(&[0x00108093]);
    let cont = parse_command("continue");
    let reply = dbg.handle(&cont, &mut cpu, &mut metrics, 50);
    assert_eq!(reply, Reply::Stopped(Stop::Failed(ExecError::IllegalInstruction { pc: 4 })));
    assert!(reply.is_final());
    let reply = dbg.handle(&parse_command("step"), &mut cpu, &mut metrics, 50);
    assert_eq!(reply, Reply::StepFailed(ExecError::IllegalInstruction { pc: 4 }));
    assert!(!reply.is_final());
}

#[test]
fn only_quit_and_a_failed_continue_end_the_session() {
    assert!(Reply::Quit.is_final());
    assert!(Reply::Stopped(Stop::Failed(ExecError::Halted)).is_final());
    assert!(!Reply::Stopped(Stop::Breakpoint(0)).is_final());
    assert!(!Reply::Stopped(Stop::Paused).is_final());
    assert!(!Reply::Nothing.is_final());
    assert!(!Reply::Help.is_final());
    assert!(!Reply::StepFailed(ExecError::Halted).is_final());
    assert!(!Reply::UnknownCommand(vec![]).is_final());
}
