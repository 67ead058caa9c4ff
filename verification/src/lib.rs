//! A functional emulator for a 32-bit integer RISC-V subset, with a two-pass
//! assembler, a disassembler and the decision logic of a stepping debugger.

pub mod cpu;
pub mod decoder;
pub mod encoder;
pub mod metrics;
pub mod executor;
pub mod text;
pub mod numeral;
pub mod disassembler;
pub mod assembler;
pub mod canonical;
pub mod debugger;
