use rv32_emu::cpu::{Cpu, CpuError, MEM_SIZE, NREGS};

#[test]
fn fresh_state_is_zero() {
    let cpu = Cpu::new();
    assert_eq!(cpu.pc, 0);
    assert_eq!(cpu.regs, [0u32; NREGS]);
    assert_eq!(cpu.mem.len(), MEM_SIZE);
    assert_eq!(MEM_SIZE, 1 << 20);
    assert!(cpu.mem.iter().all(|&b| b == 0));
}

#[test]
fn words_are_little_endian() {
    let mut cpu = Cpu::new();
    cpu.write_word(0x40, 0x12345678).unwrap();
    assert_eq!(&cpu.mem[0x40..0x44], &[0x78, 0x56, 0x34, 0x12]);
    cpu.mem[0x80] = 0xef;
    cpu.mem[0x81] = 0xbe;
    cpu.mem[0x82] = 0xad;
    cpu.mem[0x83] = 0xde;
    assert_eq!(cpu.read_word(0x80), Ok(0xdeadbeef));
}

#[test]
fn word_written_is_word_read() {
    let mut cpu = Cpu::new();
    let values = [0u32, 1, 0xff, 0x100, 0x8000_0000, 0xdead_beef, 0xffff_ffff];
    let addrs = [0u32, 4, 0x100, 0x7fffc, (MEM_SIZE - 4) as u32, 1, 2, 3, 0x1001];
    for &a in &addrs {
        for &v in &values {
            cpu.write_word(a, v).unwrap();
            assert_eq!(cpu.read_word(a), Ok(v));
        }
    }
}

#[test]
fn store_leaves_other_bytes_alone() {
    let mut cpu = Cpu::new();
    for (i, b) in cpu.mem.iter_mut().enumerate().take(64) {
        *b = i as u8;
    }
    let before = cpu.mem.clone();
    cpu.write_word(20, 0xaabbccdd).unwrap();
    for i in 0..MEM_SIZE {
        if i < 20 || i >= 24 {
            assert_eq!(cpu.mem[i], before[i]);
        }
    }
    assert_eq!(&cpu.mem[20..24], &[0xdd, 0xcc, 0xbb, 0xaa]);
    assert_eq!(cpu.regs, [0u32; NREGS]);
    assert_eq!(cpu.pc, 0);
}

#[test]
fn word_access_past_the_end_fails() {
    let mut cpu = Cpu::new();
    let last = (MEM_SIZE - 4) as u32;
    assert_eq!(cpu.read_word(last), Ok(0));
    for addr in [last + 1, last + 3, last + 4, MEM_SIZE as u32, 0x8000_0000, u32::MAX] {
        assert_eq!(cpu.read_word(addr), Err(CpuError::MemoryBounds { addr }));
        let before = cpu.mem.clone();
        assert_eq!(cpu.write_word(addr, 0xffff_ffff), Err(CpuError::MemoryBounds { addr }));
        assert_eq!(cpu.mem, before);
    }
}

#[test]
fn register_zero_discards_writes() {
    let mut cpu = Cpu::new();
    cpu.write_reg(0, 0xdead_beef);
    assert_eq!(cpu.read_reg(0), 0);
    assert_eq!(cpu.regs[0], 0);
    for i in 1..NREGS {
        cpu.write_reg(i, i as u32 * 3);
    }
    for i in 1..NREGS {
        assert_eq!(cpu.read_reg(i), i as u32 * 3);
    }
    assert_eq!(cpu.read_reg(0), 0);
}

#[test]
fn load_program_copies_the_image() {
    let mut cpu = Cpu::new();
    cpu.mem[0x0f] = 0x55;
    cpu.mem[0x14] = 0x66;
    let image = [1u8, 2, 3, 4, 5];
    assert_eq!(cpu.load_program(&image, 0x10), Ok(()));
    assert_eq!(&cpu.mem[0x0f..0x16], &[0x55, 1, 2, 3, 4, 5, 0]);
    assert_eq!(cpu.pc, 0);
}

#[test]
fn load_program_at_the_very_end() {
    let mut cpu = Cpu::new();
    let image = [9u8; 8];
    assert_eq!(cpu.load_program(&image, (MEM_SIZE - 8) as u32), Ok(()));
    assert_eq!(&cpu.mem[MEM_SIZE - 8..], &image);
    assert_eq!(cpu.load_program(&[], MEM_SIZE as u32), Ok(()));
}

#[test]
fn load_program_too_large_fails_and_changes_nothing() {
    let mut cpu = Cpu::new();
    let image = [9u8; 8];
    let addr = (MEM_SIZE - 7) as u32;
    assert_eq!(cpu.load_program(&image, addr), Err(CpuError::ImageTooLarge { addr, len: 8 }));
    assert!(cpu.mem.iter().all(|&b| b == 0));
    let big = vec![1u8; MEM_SIZE + 1];
    assert_eq!(
        cpu.load_program(&big, 0),
        Err(CpuError::ImageTooLarge { addr: 0, len: MEM_SIZE + 1 })
    );
    assert_eq!(
        cpu.load_program(&image, u32::MAX),
        Err(CpuError::ImageTooLarge { addr: u32::MAX, len: 8 })
    );
}

#[test]
fn reset_clears_registers_and_pc_only() {
    let mut cpu = Cpu::new();
    cpu.write_reg(5, 77);
    cpu.pc = 0x40;
    cpu.write_word(0x20, 0xcafe_babe).unwrap();
    cpu.reset();
    assert_eq!(cpu.regs, [0u32; NREGS]);
    assert_eq!(cpu.pc, 0);
    assert_eq!(cpu.read_word(0x20), Ok(0xcafe_babe));
}

#[test]
fn well_formed_states() {
    let mut cpu = Cpu::new();
    assert!(cpu.is_wf());
    cpu.regs[5] = 9;
    cpu.pc = 3;
    assert!(cpu.is_wf());
    cpu.regs[0] = 1;
    assert!(!cpu.is_wf());
    cpu.regs[0] = 0;
    cpu.mem.push(0);
    assert!(!cpu.is_wf());
    cpu.reset();
    assert!(!cpu.is_wf());
    cpu.mem.pop();
    assert!(cpu.is_wf());
}

#[test]
fn failures_of_the_state_in_words() {
    assert_eq!(
        CpuError::MemoryBounds { addr: 0x100000 }.message(),
        "memory access out of bounds: 0x100000"
    );
    assert_eq!(CpuError::MemoryBounds { addr: 0 }.message(), "memory access out of bounds: 0x0");
    assert_eq!(CpuError::ImageTooLarge { addr: 4, len: 9 }.message(), "program too large");
}
