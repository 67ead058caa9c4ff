use rv32_emu::decoder::{Instruction, Opcode};
use rv32_emu::encoder::Format;

fn record(opcode: Opcode, rd: usize, rs1: usize, rs2: usize, imm: i32) -> Instruction {
    Instruction { opcode, rd, rs1, rs2, imm }
}

#[test]
fn encode_known_words() {
    assert_eq!(record(Opcode::Add, 1, 2, 3, 0).encode(), Some(0x003100b3));
    assert_eq!(record(Opcode::Sub, 3, 1, 2, 0).encode(), Some(0x402081b3));
    assert_eq!(record(Opcode::Addi, 2, 1, 0, -5).encode(), Some(0xffb08113));
    assert_eq!(record(Opcode::Slli, 2, 1, 0, 4).encode(), Some(0x00409113));
    assert_eq!(record(Opcode::Srli, 4, 3, 0, 4).encode(), Some(0x0041d213));
    assert_eq!(record(Opcode::Srai, 6, 5, 0, 4).encode(), Some(0x4042d313));
    assert_eq!(record(Opcode::Lw, 3, 1, 0, 0).encode(), Some(0x0000a183));
    assert_eq!(record(Opcode::Sw, 0, 1, 2, 0).encode(), Some(0x0020a023));
    assert_eq!(record(Opcode::Sw, 0, 1, 2, -4).encode(), Some(0xfe20ae23));
    assert_eq!(record(Opcode::Beq, 0, 1, 2, 8).encode(), Some(0x00208463));
    assert_eq!(record(Opcode::Beq, 0, 1, 2, -8).encode(), Some(0xfe208ce3));
    assert_eq!(record(Opcode::Blt, 0, 1, 2, 8).encode(), Some(0x0020c463));
    assert_eq!(record(Opcode::Lui, 1, 0, 0, 0x12345000).encode(), Some(0x123450b7));
    assert_eq!(record(Opcode::Auipc, 2, 0, 0, 0x100000).encode(), Some(0x00100117));
    assert_eq!(record(Opcode::Jal, 1, 0, 0, 16).encode(), Some(0x010000ef));
    assert_eq!(record(Opcode::Jal, 0, 0, 0, -4).encode(), Some(0xffdff06f));
    assert_eq!(record(Opcode::Jalr, 1, 2, 0, 8).encode(), Some(0x008100e7));
}

#[test]
fn encode_refuses_what_has_no_encoding() {
    assert_eq!(record(Opcode::Unknown, 0, 0, 0, 0).encode(), None);
    // register out of range
    assert_eq!(record(Opcode::Add, 32, 0, 0, 0).encode(), None);
    // a field that the format does not have must be zero
    assert_eq!(record(Opcode::Add, 1, 2, 3, 1).encode(), None);
    assert_eq!(record(Opcode::Addi, 1, 2, 3, 0).encode(), None);
    assert_eq!(record(Opcode::Sw, 1, 2, 3, 0).encode(), None);
    assert_eq!(record(Opcode::Jal, 1, 2, 0, 0).encode(), None);
    // immediates beyond their fields
    assert_eq!(record(Opcode::Addi, 1, 2, 0, 2048).encode(), None);
    assert_eq!(record(Opcode::Addi, 1, 2, 0, -2049).encode(), None);
    assert_eq!(record(Opcode::Slli, 1, 2, 0, 32).encode(), None);
    assert_eq!(record(Opcode::Srai, 1, 2, 0, -1).encode(), None);
    assert_eq!(record(Opcode::Beq, 0, 1, 2, 4096).encode(), None);
    assert_eq!(record(Opcode::Beq, 0, 1, 2, 3).encode(), None);
    assert_eq!(record(Opcode::Jal, 1, 0, 0, 1048576).encode(), None);
    assert_eq!(record(Opcode::Jal, 1, 0, 0, 7).encode(), None);
    assert_eq!(record(Opcode::Lui, 1, 0, 0, 1).encode(), None);
}

#[test]
fn encode_accepts_the_edges_of_each_field() {
    assert!(record(Opcode::Addi, 31, 31, 0, 2047).is_encodable());
    assert!(record(Opcode::Addi, 0, 0, 0, -2048).is_encodable());
    assert!(record(Opcode::Srai, 1, 2, 0, 31).is_encodable());
    assert!(record(Opcode::Bge, 0, 31, 31, 4094).is_encodable());
    assert!(record(Opcode::Bge, 0, 31, 31, -4096).is_encodable());
    assert!(record(Opcode::Jal, 31, 0, 0, 1048574).is_encodable());
    assert!(record(Opcode::Jal, 31, 0, 0, -1048576).is_encodable());
    assert!(record(Opcode::Lui, 31, 0, 0, -4096).is_encodable());
    assert!(record(Opcode::Lui, 31, 0, 0, i32::MIN).is_encodable());
}

fn sample_registers() -> Vec<usize> {
    vec![0, 1, 2, 15, 16, 30, 31]
}

fn check_round_trip(inst: Instruction) {
    let word = inst.encode().expect("encodable");
    let back = Instruction::decode(word);
    assert_eq!(back.opcode, inst.opcode);
    assert_eq!(back.rd, inst.rd);
    assert_eq!(back.rs1, inst.rs1);
    assert_eq!(back.rs2, inst.rs2);
    if inst.opcode == Opcode::Srai {
        assert_eq!(back.imm, inst.imm + 0x400);
        assert_eq!(back.imm & 0x1f, inst.imm);
    } else {
        assert_eq!(back.imm, inst.imm);
    }
}

#[test]
fn decode_inverts_encode_for_every_operation() {
    for i in 0..25 {
        let op = Opcode::from_index(i).unwrap();
        let format = op.encoding().unwrap().format;
        let imms: Vec<i32> = match format {
            Format::R => vec![0],
            Format::I => match op {
                Opcode::Slli | Opcode::Srli | Opcode::Srai => vec![0, 1, 4, 17, 31],
                _ => vec![-2048, -5, -1, 0, 1, 42, 2047],
            },
            Format::S => vec![-2048, -4, 0, 4, 31, 32, 2047],
            Format::B => vec![-4096, -8, -2, 0, 2, 8, 2048, 4094],
            Format::U => vec![0, 4096, 0x12345000, -4096, i32::MIN],
            Format::J => vec![-1048576, -4, 0, 2, 16, 2048, 4096, 1048574],
        };
        for &a in &sample_registers() {
            for &b in &sample_registers() {
                for &imm in &imms {
                    let inst = match format {
                        Format::R => record(op, a, b, (a + b) % 32, imm),
                        Format::I => record(op, a, b, 0, imm),
                        Format::S | Format::B => record(op, 0, a, b, imm),
                        Format::U | Format::J => record(op, a, 0, 0, imm),
                    };
                    check_round_trip(inst);
                }
            }
        }
    }
}

#[test]
fn encoding_table_rows() {
    let add = Opcode::Add.encoding().unwrap();
    assert_eq!((add.format, add.opcode7, add.funct3, add.funct7), (Format::R, 0x33, 0, 0));
    let sra = Opcode::Sra.encoding().unwrap();
    assert_eq!((sra.format, sra.opcode7, sra.funct3, sra.funct7), (Format::R, 0x33, 5, 0x20));
    let lw = Opcode::Lw.encoding().unwrap();
    assert_eq!((lw.format, lw.opcode7, lw.funct3), (Format::I, 0x03, 2));
    let sw = Opcode::Sw.encoding().unwrap();
    assert_eq!((sw.format, sw.opcode7, sw.funct3), (Format::S, 0x23, 2));
    let bge = Opcode::Bge.encoding().unwrap();
    assert_eq!((bge.format, bge.opcode7, bge.funct3), (Format::B, 0x63, 5));
    let auipc = Opcode::Auipc.encoding().unwrap();
    assert_eq!((auipc.format, auipc.opcode7), (Format::U, 0x17));
    let jal = Opcode::Jal.encoding().unwrap();
    assert_eq!((jal.format, jal.opcode7), (Format::J, 0x6f));
    assert_eq!(Opcode::Unknown.encoding(), None);
}

#[test]
fn immediate_ranges_by_operation() {
    assert!(Opcode::Addi.accepts_imm(2047));
    assert!(!Opcode::Addi.accepts_imm(2048));
    assert!(Opcode::Slli.accepts_imm(31));
    assert!(!Opcode::Slli.accepts_imm(32));
    assert!(!Opcode::Beq.accepts_imm(6 + 1));
    assert!(Opcode::Beq.accepts_imm(6));
    assert!(Opcode::Add.accepts_imm(0));
    assert!(!Opcode::Add.accepts_imm(4));
    assert!(!Opcode::Unknown.accepts_imm(0));
}
