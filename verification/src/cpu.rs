//! Architectural state: register file, program counter and flat memory.

use vstd::prelude::*;
use vstd::string::*;
use crate::numeral::{append_numeral, numeral};

verus! {

/// Number of general-purpose registers.
pub const NREGS: usize = 32;

/// Size of the flat memory in bytes.
pub const MEM_SIZE: usize = 1024 * 1024;

/// Mathematical model of the architectural state.
pub struct State {
    pub regs: Seq<u32>,
    pub pc: u32,
    pub mem: Seq<u8>,
}

/// Failures raised by the state itself.
#[derive(Debug, Clone, Copy, PartialEq, Eq, Structural)]
pub enum CpuError {
    /// A word access at `addr` does not lie inside memory.
    MemoryBounds { addr: u32 },
    /// An image of `len` bytes placed at `addr` does not fit into memory.
    ImageTooLarge { addr: u32, len: usize },
}

/// The one-line diagnostic of a failure of the state.
pub open spec fn cpu_message(e: CpuError) -> Seq<char> {
    match e {
        CpuError::MemoryBounds { addr } => "memory access out of bounds: 0x"@ + numeral(
            addr as nat,
            true,
        ),
        CpuError::ImageTooLarge { addr, len } => "program too large"@,
    }
}

impl CpuError {
    /// The one-line diagnostic of this failure.
    pub fn message(&self) -> (text: String)
        ensures
            text@ == cpu_message(*self),
    {
        let mut text = String::new();
        match self {
            CpuError::MemoryBounds { addr } => {
                text.append("memory access out of bounds: 0x");
                append_numeral(&mut text, *addr as u64, true);
            },
            CpuError::ImageTooLarge { addr, len } => {
                text.append("program too large");
            },
        }
        text
    }
}

/// The four bytes of `v`, least significant first.
pub open spec fn word_bytes(v: u32) -> Seq<u8> {
    seq![
        (v % 256) as u8,
        ((v / 256) % 256) as u8,
        ((v / 65536) % 256) as u8,
        ((v / 16777216) % 256) as u8,
    ]
}

/// A word fits at `addr` in a memory of `len` bytes.
pub open spec fn word_in_bounds(len: nat, addr: u32) -> bool {
    addr + 4 <= len
}

/// The little-endian word stored in `mem` at `addr`.
pub open spec fn word_at(mem: Seq<u8>, addr: int) -> u32
    recommends
        0 <= addr,
        addr + 4 <= mem.len(),
{
    (mem[addr] + 256 * mem[addr + 1] + 65536 * mem[addr + 2] + 16777216 * mem[addr + 3]) as u32
}

/// `mem` with the little-endian bytes of `v` stored at `addr`.
pub open spec fn store_word(mem: Seq<u8>, addr: int, v: u32) -> Seq<u8>
    recommends
        0 <= addr,
        addr + 4 <= mem.len(),
{
    Seq::new(
        mem.len(),
        |i: int|
            if addr <= i < addr + 4 {
                word_bytes(v)[i - addr]
            } else {
                mem[i]
            },
    )
}

/// `mem` with `data` copied over the bytes starting at `addr`.
pub open spec fn store_image(mem: Seq<u8>, addr: int, data: Seq<u8>) -> Seq<u8>
    recommends
        0 <= addr,
        addr + data.len() <= mem.len(),
{
    Seq::new(
        mem.len(),
        |i: int|
            if addr <= i < addr + data.len() {
                data[i - addr]
            } else {
                mem[i]
            },
    )
}

/// `regs` after a write of `val` to register `rd`; register zero ignores writes.
pub open spec fn set_reg(regs: Seq<u32>, rd: int, val: u32) -> Seq<u32> {
    if rd == 0 {
        regs
    } else {
        regs.update(rd, val)
    }
}

/// A word read back from where it was just stored is the word stored.
pub proof fn lemma_store_then_load(mem: Seq<u8>, addr: int, v: u32)
    requires
        0 <= addr,
        addr + 4 <= mem.len(),
    ensures
        word_at(store_word(mem, addr, v), addr) == v,
        store_word(mem, addr, v).len() == mem.len(),
{
}

/// A store changes no byte outside the four it writes.
pub proof fn lemma_store_frame(mem: Seq<u8>, addr: int, v: u32, i: int)
    requires
        0 <= addr,
        addr + 4 <= mem.len(),
        0 <= i < mem.len(),
        i < addr || addr + 4 <= i,
    ensures
        store_word(mem, addr, v)[i] == mem[i],
{
}

/// A word that does not overlap a store reads the same before and after it.
pub proof fn lemma_store_keeps_other_words(mem: Seq<u8>, addr: int, v: u32, other: int)
    requires
        0 <= addr,
        addr + 4 <= mem.len(),
        0 <= other,
        other + 4 <= mem.len(),
        other + 4 <= addr || addr + 4 <= other,
    ensures
        word_at(store_word(mem, addr, v), other) == word_at(mem, other),
{
}

/// The architectural state: 32 registers, the program counter and the memory.
pub struct Cpu {
    /// The register file; register zero is hard-wired to zero.
    pub regs: [u32; NREGS],
    /// The byte address of the next instruction.
    pub pc: u32,
    /// The memory, byte by byte; words lie in it least significant byte first.
    pub mem: Vec<u8>,
}

impl View for Cpu {
    type V = State;

    open spec fn view(&self) -> State {
        State { regs: self.regs@, pc: self.pc, mem: self.mem@ }
    }
}

impl Cpu {
    /// Register zero holds zero and the memory has its fixed size.
    pub open spec fn wf(&self) -> bool {
        &&& self.regs@[0] == 0
        &&& self.mem@.len() == MEM_SIZE
    }

    /// Whether register zero holds zero and the memory has its fixed size.
    pub fn is_wf(&self) -> (b: bool)
        ensures
            b == self.wf(),
    {
        self.regs[0] == 0 && self.mem.len() == MEM_SIZE
    }

    /// A fresh state: all registers zero, PC zero, memory zero-filled.
    pub fn new() -> (cpu: Cpu)
        ensures
            cpu.wf(),
            cpu.pc == 0,
            forall|i: int| 0 <= i < NREGS ==> cpu.regs@[i] == 0,
            forall|i: int| 0 <= i < MEM_SIZE ==> cpu.mem@[i] == 0,
    {
        Cpu { regs: [0; NREGS], pc: 0, mem: vec![0u8; MEM_SIZE] }
    }

    /// Copies `data` into memory starting at `addr`, or fails when it does not fit.
    pub fn load_program(&mut self, data: &[u8], addr: u32) -> (r: Result<(), CpuError>)
        ensures
            final(self).regs == old(self).regs,
            final(self).pc == old(self).pc,
            addr + data@.len() <= old(self).mem@.len() ==> r is Ok && final(self).mem@
                == store_image(old(self).mem@, addr as int, data@),
            addr + data@.len() > old(self).mem@.len() ==> r == Err::<(), CpuError>(
                CpuError::ImageTooLarge { addr, len: data.len() },
            ) && final(self).mem == old(self).mem,
    {
        let start = addr as usize;
        let n = data.len();
        if start > self.mem.len() || n > self.mem.len() - start {
            return Err(CpuError::ImageTooLarge { addr, len: n });
        }
        let mut i: usize = 0;
        while i < n
            invariant
                i <= n,
                n == data@.len(),
                start == addr,
                start + n <= self.mem.len(),
                self.mem@.len() == old(self).mem@.len(),
                self.regs == old(self).regs,
                self.pc == old(self).pc,
                forall|j: int|
                    0 <= j < self.mem@.len() ==> self.mem@[j] == (if start <= j < start + i {
                        data@[j - start]
                    } else {
                        old(self).mem@[j]
                    }),
            decreases n - i,
        {
            self.mem[start + i] = data[i];
            i += 1;
        }
        assert(self.mem@ =~= store_image(old(self).mem@, addr as int, data@));
        Ok(())
    }

    /// Reads the little-endian word at `addr`.
    pub fn read_word(&self, addr: u32) -> (r: Result<u32, CpuError>)
        ensures
            word_in_bounds(self.mem@.len(), addr) ==> r == Ok::<u32, CpuError>(
                word_at(self.mem@, addr as int),
            ),
            !word_in_bounds(self.mem@.len(), addr) ==> r == Err::<u32, CpuError>(
                CpuError::MemoryBounds { addr },
            ),
    {
        let a = addr as usize;
        if self.mem.len() < 4 || a > self.mem.len() - 4 {
            return Err(CpuError::MemoryBounds { addr });
        }
        let b0 = self.mem[a] as u32;
        let b1 = self.mem[a + 1] as u32;
        let b2 = self.mem[a + 2] as u32;
        let b3 = self.mem[a + 3] as u32;
        Ok(b0 + 256 * b1 + 65536 * b2 + 16777216 * b3)
    }

    /// Stores `val` as a little-endian word at `addr`.
    pub fn write_word(&mut self, addr: u32, val: u32) -> (r: Result<(), CpuError>)
        ensures
            final(self).regs == old(self).regs,
            final(self).pc == old(self).pc,
            word_in_bounds(old(self).mem@.len(), addr) ==> r is Ok && final(self).mem@
                == store_word(old(self).mem@, addr as int, val),
            !word_in_bounds(old(self).mem@.len(), addr) ==> r == Err::<(), CpuError>(
                CpuError::MemoryBounds { addr },
            ) && final(self).mem == old(self).mem,
    {
        let a = addr as usize;
        if self.mem.len() < 4 || a > self.mem.len() - 4 {
            return Err(CpuError::MemoryBounds { addr });
        }
        self.mem[a] = (val % 256) as u8;
        self.mem[a + 1] = ((val / 256) % 256) as u8;
        self.mem[a + 2] = ((val / 65536) % 256) as u8;
        self.mem[a + 3] = ((val / 16777216) % 256) as u8;
        assert(self.mem@ =~= store_word(old(self).mem@, addr as int, val));
        Ok(())
    }

    /// Writes `val` to register `rd`; a write to register zero is discarded.
    pub fn write_reg(&mut self, rd: usize, val: u32)
        requires
            rd < NREGS,
        ensures
            final(self).regs@ == set_reg(old(self).regs@, rd as int, val),
            final(self).pc == old(self).pc,
            final(self).mem == old(self).mem,
    {
        if rd != 0 {
            self.regs[rd] = val;
        }
    }

    /// Reads register `rs`.
    pub fn read_reg(&self, rs: usize) -> (v: u32)
        requires
            rs < NREGS,
        ensures
            v == self.regs@[rs as int],
    {
        self.regs[rs]
    }

    /// Clears the registers and the PC; memory is left as it is.
    pub fn reset(&mut self)
        ensures
            forall|i: int| 0 <= i < NREGS ==> final(self).regs@[i] == 0,
            final(self).pc == 0,
            final(self).mem == old(self).mem,
    {
        self.regs = [0; NREGS];
        self.pc = 0;
    }
}

} // verus!
