//! The stepping debugger: its command language and what each command does
//! to the machine. Reading the command line and printing the replies is
//! left to the caller.

use vstd::prelude::*;
use vstd::std_specs::hash::*;
use std::collections::HashSet;
use crate::cpu::{Cpu, State, word_at};
use crate::decoder::{Instruction, decode_spec};
use crate::executor::{ExecError, Executor, Tally, fetched, retire, step_spec, tally_of};
use crate::metrics::Metrics;
use crate::numeral::{NumeralError, addr_spec, parse_numeral, read_addr, read_numeral};
use crate::text::{CharClass, chars_of, same_text, split_words, views, words_of};

verus! {

broadcast use vstd::std_specs::hash::group_hash_axioms;

/// A command that needs an argument.
#[derive(Debug, Clone, Copy, PartialEq, Eq, Structural)]
pub enum Topic {
    Break,
    Mem,
}

/// A command of the debugger. `T` is the type of the words that are handed
/// back as they were typed.
#[derive(Debug, PartialEq, Eq)]
pub enum Command<T> {
    /// An empty line.
    Blank,
    Help,
    Step,
    Continue,
    /// Install a breakpoint at the address.
    Break(u32),
    Regs,
    /// Dump that many words from the address.
    Mem(u32, usize),
    /// Disassemble from the address, or from the PC.
    Dis(Option<u32>),
    Pc,
    Quit,
    /// The command lacks its argument.
    Usage(Topic),
    /// The argument is no address.
    InvalidAddress(T),
    /// The first word is no command.
    Unknown(T),
}

impl View for Command<Vec<char>> {
    type V = Command<Seq<char>>;

    open spec fn view(&self) -> Command<Seq<char>> {
        match *self {
            Command::Blank => Command::Blank,
            Command::Help => Command::Help,
            Command::Step => Command::Step,
            Command::Continue => Command::Continue,
            Command::Break(a) => Command::Break(a),
            Command::Regs => Command::Regs,
            Command::Mem(a, n) => Command::Mem(a, n),
            Command::Dis(a) => Command::Dis(a),
            Command::Pc => Command::Pc,
            Command::Quit => Command::Quit,
            Command::Usage(t) => Command::Usage(t),
            Command::InvalidAddress(w) => Command::InvalidAddress(w@),
            Command::Unknown(w) => Command::Unknown(w@),
        }
    }
}

/// The number of words that `mem` dumps when no count is given, or none
/// that can be read.
pub const DEFAULT_DUMP: usize = 16;

/// The number of instructions that `dis` lists.
pub const LISTING: usize = 10;

/// The count of a `mem` command: its second argument if that is a decimal
/// numeral, else the default.
pub open spec fn dump_count(args: Seq<Seq<char>>) -> usize {
    if args.len() > 1 {
        match read_numeral(args[1], false, usize::MAX as int) {
            Ok(n) => n as usize,
            Err(_) => DEFAULT_DUMP,
        }
    } else {
        DEFAULT_DUMP
    }
}

/// The command that a line stands for. The words of the line are its runs
/// of characters other than white space; the first names the command, in
/// full or by its short form, and the others are its arguments.
pub open spec fn command_spec(line: Seq<char>) -> Command<Seq<char>> {
    let words = words_of(line, CharClass::Space);
    if words.len() == 0 {
        Command::Blank
    } else {
        let name = words[0];
        let args = words.skip(1);
        if name == "help"@ || name == "h"@ {
            Command::Help
        } else if name == "step"@ || name == "s"@ {
            Command::Step
        } else if name == "continue"@ || name == "c"@ {
            Command::Continue
        } else if name == "break"@ || name == "b"@ {
            if args.len() == 0 {
                Command::Usage(Topic::Break)
            } else {
                match addr_spec(args[0]) {
                    Ok(addr) => Command::Break(addr),
                    Err(_) => Command::InvalidAddress(args[0]),
                }
            }
        } else if name == "regs"@ || name == "r"@ {
            Command::Regs
        } else if name == "mem"@ || name == "m"@ {
            if args.len() == 0 {
                Command::Usage(Topic::Mem)
            } else {
                match addr_spec(args[0]) {
                    Ok(addr) => Command::Mem(addr, dump_count(args)),
                    Err(_) => Command::InvalidAddress(args[0]),
                }
            }
        } else if name == "dis"@ || name == "d"@ {
            if args.len() == 0 {
                Command::Dis(None)
            } else {
                match addr_spec(args[0]) {
                    Ok(addr) => Command::Dis(Some(addr)),
                    Err(_) => Command::InvalidAddress(args[0]),
                }
            }
        } else if name == "pc"@ {
            Command::Pc
        } else if name == "quit"@ || name == "q"@ {
            Command::Quit
        } else {
            Command::Unknown(name)
        }
    }
}

/// Reads an address: decimal, or hexadecimal after `0x`.
pub fn parse_addr(s: &str) -> (r: Result<u32, NumeralError>)
    ensures
        r == addr_spec(s@),
{
    let text = chars_of(s);
    read_addr(text.as_slice())
}

/// A copy of a word.
fn copy_word(w: &Vec<char>) -> (c: Vec<char>)
    ensures
        c@ == w@,
{
    let c = crate::text::copy_range(w.as_slice(), 0, w.len());
    assert(c@ =~= w@);
    c
}

/// Reads a command line.
pub fn parse_command(line: &str) -> (cmd: Command<Vec<char>>)
    ensures
        cmd@ == command_spec(line@),
{
    let text = chars_of(line);
    let words = split_words(text.as_slice(), CharClass::Space);
    if words.len() == 0 {
        return Command::Blank;
    }
    let name = words[0].as_slice();
    let args = &words[1..words.len()];
    assert(views(args@) =~= words_of(line@, CharClass::Space).skip(1));
    if same_text(name, "help") || same_text(name, "h") {
        Command::Help
    } else if same_text(name, "step") || same_text(name, "s") {
        Command::Step
    } else if same_text(name, "continue") || same_text(name, "c") {
        Command::Continue
    } else if same_text(name, "break") || same_text(name, "b") {
        if args.len() == 0 {
            Command::Usage(Topic::Break)
        } else {
            match read_addr(args[0].as_slice()) {
                Ok(addr) => Command::Break(addr),
                Err(_) => Command::InvalidAddress(copy_word(&args[0])),
            }
        }
    } else if same_text(name, "regs") || same_text(name, "r") {
        Command::Regs
    } else if same_text(name, "mem") || same_text(name, "m") {
        if args.len() == 0 {
            Command::Usage(Topic::Mem)
        } else {
            match read_addr(args[0].as_slice()) {
                Ok(addr) => {
                    let count = if args.len() > 1 {
                        match parse_numeral(args[1].as_slice(), false, usize::MAX as u64) {
                            Ok(n) => n as usize,
                            Err(_) => DEFAULT_DUMP,
                        }
                    } else {
                        DEFAULT_DUMP
                    };
                    Command::Mem(addr, count)
                },
                Err(_) => Command::InvalidAddress(copy_word(&args[0])),
            }
        }
    } else if same_text(name, "dis") || same_text(name, "d") {
        if args.len() == 0 {
            Command::Dis(None)
        } else {
            match read_addr(args[0].as_slice()) {
                Ok(addr) => Command::Dis(Some(addr)),
                Err(_) => Command::InvalidAddress(copy_word(&args[0])),
            }
        }
    } else if same_text(name, "pc") {
        Command::Pc
    } else if same_text(name, "quit") || same_text(name, "q") {
        Command::Quit
    } else {
        Command::Unknown(copy_word(&words[0]))
    }
}

/// One line of a listing: the address, whether the PC stands there, and the
/// instruction that the word there decodes to.
#[derive(Debug, Clone, Copy, PartialEq, Eq, Structural)]
pub struct Row {
    pub addr: u32,
    pub at_pc: bool,
    pub inst: Instruction,
}

/// Why `continue` came back.
#[derive(Debug, Clone, Copy, PartialEq, Eq, Structural)]
pub enum Stop {
    /// The PC stands on a breakpoint; the instruction there has not run.
    Breakpoint(u32),
    /// A step failed.
    Failed(ExecError),
    /// The budget of steps is used up; nothing else stopped the machine.
    Paused,
}

/// How many of `count` consecutive words from `addr` lie inside a memory
/// of `len` bytes.
pub open spec fn words_in_reach(len: nat, addr: u32, count: nat) -> nat {
    if addr + 4 > len {
        0
    } else if count <= (len - addr) / 4 {
        count
    } else {
        ((len - addr) / 4) as nat
    }
}

/// The words from `addr` on, each with its address: `count` of them, or
/// as many as lie inside memory.
pub open spec fn dump_spec(mem: Seq<u8>, addr: u32, count: nat) -> Seq<(u32, u32)> {
    Seq::new(
        words_in_reach(mem.len(), addr, count),
        |i: int| ((addr + 4 * i) as u32, word_at(mem, addr + 4 * i)),
    )
}

/// The listing from `addr` on: `LISTING` rows, or as many as lie inside memory.
pub open spec fn listing_spec(s: State, addr: u32) -> Seq<Row> {
    Seq::new(
        words_in_reach(s.mem.len(), addr, LISTING as nat),
        |i: int|
            Row {
                addr: (addr + 4 * i) as u32,
                at_pc: addr + 4 * i == s.pc,
                inst: decode_spec(word_at(s.mem, addr + 4 * i)),
            },
    )
}

/// Where `continue` leaves the machine, and why it came back.
pub struct ContinueOutcome {
    pub state: State,
    pub tally: Tally,
    pub stop: Stop,
}

/// `continue` with a budget of steps. Before each step the PC is held
/// against the breakpoints, so a breakpoint at the PC stops the machine
/// before the instruction there runs.
pub open spec fn continue_spec(
    breakpoints: Set<u32>,
    halted: bool,
    s: State,
    t: Tally,
    budget: nat,
) -> ContinueOutcome
    decreases budget,
{
    if breakpoints.contains(s.pc) {
        ContinueOutcome { state: s, tally: t, stop: Stop::Breakpoint(s.pc) }
    } else if budget == 0 {
        ContinueOutcome { state: s, tally: t, stop: Stop::Paused }
    } else if halted {
        ContinueOutcome { state: s, tally: t, stop: Stop::Failed(ExecError::Halted) }
    } else {
        match step_spec(s) {
            Err(e) => ContinueOutcome { state: s, tally: t, stop: Stop::Failed(e) },
            Ok(next) => continue_spec(
                breakpoints,
                halted,
                next,
                retire(t, s, fetched(s)),
                (budget - 1) as nat,
            ),
        }
    }
}

/// `continue` reports a breakpoint only with the PC on it, and pauses only
/// with the PC off every breakpoint.
pub proof fn lemma_continue_stops(
    breakpoints: Set<u32>,
    halted: bool,
    s: State,
    t: Tally,
    budget: nat,
)
    ensures
        ({
            let out = continue_spec(breakpoints, halted, s, t, budget);
            match out.stop {
                Stop::Breakpoint(addr) => addr == out.state.pc && breakpoints.contains(addr),
                Stop::Paused => !breakpoints.contains(out.state.pc),
                Stop::Failed(e) => !breakpoints.contains(out.state.pc) && (if halted {
                    e == ExecError::Halted
                } else {
                    step_spec(out.state) == Err::<State, ExecError>(e)
                }),
            }
        }),
    decreases budget,
{
    if !breakpoints.contains(s.pc) && budget > 0 && !halted {
        match step_spec(s) {
            Err(_) => {},
            Ok(next) => {
                lemma_continue_stops(
                    breakpoints,
                    halted,
                    next,
                    retire(t, s, fetched(s)),
                    (budget - 1) as nat,
                );
            },
        }
    }
}

/// What the debugger answers to a command: what there is to show, and
/// whether the session goes on.
#[derive(Debug, PartialEq, Eq)]
pub enum Reply {
    /// Nothing to show.
    Nothing,
    /// The list of commands.
    Help,
    /// One instruction ran: where it stood and what stands there.
    Stepped(u32, Instruction),
    /// The step failed.
    StepFailed(ExecError),
    /// `continue` came back.
    Stopped(Stop),
    /// A breakpoint was installed at the address.
    BreakpointSet(u32),
    /// The command lacks its argument.
    Usage(Topic),
    /// The argument is no address.
    InvalidAddress(Vec<char>),
    /// The registers and the PC.
    Registers([u32; 32], u32),
    /// The words dumped from the address.
    Memory(u32, Vec<(u32, u32)>),
    /// The listing from the address.
    Listing(u32, Vec<Row>),
    /// The PC.
    Pc(u32),
    /// The session ends.
    Quit,
    /// The first word is no command.
    UnknownCommand(Vec<char>),
}

/// Whether a reply ends the session: `quit` does, and so does a
/// `continue` that a failure stopped.
pub open spec fn ends_session(reply: Reply) -> bool {
    reply is Quit || (reply matches Reply::Stopped(Stop::Failed(_)))
}

impl Reply {
    /// Whether the session ends with this reply.
    pub fn is_final(&self) -> (b: bool)
        ensures
            b == ends_session(*self),
    {
        match self {
            Reply::Quit => true,
            Reply::Stopped(Stop::Failed(_)) => true,
            _ => false,
        }
    }
}

/// The debugger: a set of breakpoints and an executor.
pub struct Debugger {
    breakpoints: HashSet<u32>,
    pub executor: Executor,
}

impl Debugger {
    /// The addresses that hold a breakpoint.
    pub closed spec fn breakpoints(&self) -> Set<u32> {
        self.breakpoints@
    }

    /// Whether the executor of the debugger has halted.
    pub closed spec fn halted(&self) -> bool {
        self.executor.halted
    }

    /// A debugger without breakpoints, its executor not halted.
    pub fn new() -> (d: Debugger)
        ensures
            d.breakpoints() == Set::<u32>::empty(),
            !d.halted(),
    {
        Debugger { breakpoints: HashSet::new(), executor: Executor::new() }
    }

    /// Installs a breakpoint at `addr`.
    pub fn set_breakpoint(&mut self, addr: u32)
        ensures
            final(self).breakpoints() == old(self).breakpoints().insert(addr),
            final(self).halted() == old(self).halted(),
    {
        self.breakpoints.insert(addr);
    }

    /// Whether `addr` holds a breakpoint.
    pub fn has_breakpoint(&self, addr: u32) -> (b: bool)
        ensures
            b == self.breakpoints().contains(addr),
    {
        self.breakpoints.contains(&addr)
    }

    /// Executes one instruction and reports where it stood and what the
    /// word there decodes to after the step.
    pub fn step(&mut self, cpu: &mut Cpu, metrics: &mut Metrics) -> (r: Result<
        (u32, Instruction),
        ExecError,
    >)
        requires
            old(cpu).wf(),
            old(metrics).wf(),
            old(metrics).balanced(),
            old(metrics).inst_count < u64::MAX,
        ensures
            final(self).breakpoints() == old(self).breakpoints(),
            final(self).halted() == old(self).halted(),
            final(cpu).wf(),
            final(metrics).wf(),
            final(metrics).balanced(),
            old(self).halted() ==> r == Err::<(u32, Instruction), ExecError>(ExecError::Halted),
            !old(self).halted() ==> match step_spec(old(cpu)@) {
                Ok(next) => final(cpu)@ == next && r == Ok::<(u32, Instruction), ExecError>(
                    (old(cpu).pc, decode_spec(word_at(next.mem, old(cpu).pc as int))),
                ),
                Err(e) => r == Err::<(u32, Instruction), ExecError>(e),
            },
            r is Ok ==> tally_of(*final(metrics)) == retire(
                tally_of(*old(metrics)),
                old(cpu)@,
                fetched(old(cpu)@),
            ) && final(metrics).start_time == old(metrics).start_time,
            r is Err ==> *final(cpu) == *old(cpu) && *final(metrics) == *old(metrics),
    {
        let pc_before = cpu.pc;
        match self.executor.step(cpu, metrics) {
            Ok(()) => {
                proof {
                    crate::executor::lemma_step_memory_frame(old(cpu)@, 0);
                }
                match cpu.read_word(pc_before) {
                    Ok(raw) => Ok((pc_before, Instruction::decode(raw))),
                    Err(_) => Err(ExecError::MemoryBounds { addr: pc_before }),
                }
            },
            Err(e) => Err(e),
        }
    }

    /// Steps until the PC stands on a breakpoint, a step fails, or `budget`
    /// steps are done.
    pub fn continue_exec(&mut self, cpu: &mut Cpu, metrics: &mut Metrics, budget: usize) -> (stop:
        Stop)
        requires
            old(cpu).wf(),
            old(metrics).wf(),
            old(metrics).balanced(),
            old(metrics).inst_count + budget <= u64::MAX,
        ensures
            final(self).breakpoints() == old(self).breakpoints(),
            final(self).halted() == old(self).halted(),
            final(cpu).wf(),
            final(metrics).wf(),
            final(metrics).balanced(),
            final(metrics).start_time == old(metrics).start_time,
            final(metrics).inst_count <= old(metrics).inst_count + budget,
            ({
                let out = continue_spec(
                    old(self).breakpoints(),
                    old(self).halted(),
                    old(cpu)@,
                    tally_of(*old(metrics)),
                    budget as nat,
                );
                &&& final(cpu)@ == out.state
                &&& tally_of(*final(metrics)) == out.tally
                &&& stop == out.stop
            }),
    {
        let mut left: usize = budget;
        loop
            invariant
                left <= budget,
                self.breakpoints() == old(self).breakpoints(),
                self.halted() == old(self).halted(),
                cpu.wf(),
                metrics.wf(),
                metrics.balanced(),
                metrics.start_time == old(metrics).start_time,
                metrics.inst_count + left <= old(metrics).inst_count + budget,
                old(metrics).inst_count + budget <= u64::MAX,
                continue_spec(
                    old(self).breakpoints(),
                    old(self).halted(),
                    old(cpu)@,
                    tally_of(*old(metrics)),
                    budget as nat,
                ) == continue_spec(
                    self.breakpoints(),
                    self.halted(),
                    cpu@,
                    tally_of(*metrics),
                    left as nat,
                ),
            decreases left,
        {
            if self.breakpoints.contains(&cpu.pc) {
                return Stop::Breakpoint(cpu.pc);
            }
            if left == 0 {
                return Stop::Paused;
            }
            match self.executor.step(cpu, metrics) {
                Ok(_) => {},
                Err(e) => {
                    return Stop::Failed(e);
                },
            }
            left -= 1;
        }
    }

    /// The words from `addr` on, each with its address: `count` of them, or
    /// as many as lie inside memory.
    pub fn dump_mem(&self, cpu: &Cpu, addr: u32, count: usize) -> (words: Vec<(u32, u32)>)
        requires
            cpu.wf(),
        ensures
            words@ == dump_spec(cpu.mem@, addr, count as nat),
    {
        let mut words: Vec<(u32, u32)> = Vec::new();
        let mut a: u32 = addr;
        let mut i: usize = 0;
        while i < count
            invariant_except_break
                i <= count,
                a == addr + 4 * i,
            invariant
                cpu.wf(),
                words@ == dump_spec(cpu.mem@, addr, i as nat),
            ensures
                words@ == dump_spec(cpu.mem@, addr, count as nat),
            decreases count - i,
        {
            match cpu.read_word(a) {
                Ok(val) => {
                    words.push((a, val));
                    assert(words@ =~= dump_spec(cpu.mem@, addr, (i + 1) as nat));
                },
                Err(_) => {
                    assert(dump_spec(cpu.mem@, addr, count as nat) =~= dump_spec(
                        cpu.mem@,
                        addr,
                        i as nat,
                    ));
                    break ;
                },
            }
            a += 4;
            i += 1;
        }
        words
    }

    /// The listing from `addr` on: `LISTING` rows, or as many as lie inside memory.
    pub fn disassemble(&self, cpu: &Cpu, addr: u32) -> (rows: Vec<Row>)
        requires
            cpu.wf(),
        ensures
            rows@ == listing_spec(cpu@, addr),
    {
        let mut rows: Vec<Row> = Vec::new();
        let mut a: u32 = addr;
        let mut i: usize = 0;
        while i < LISTING
            invariant_except_break
                i <= LISTING,
                a == addr + 4 * i,
            invariant
                cpu.wf(),
                rows.len() == words_in_reach(cpu.mem@.len(), addr, i as nat),
                forall|j: int| 0 <= j < rows.len() ==> rows@[j] == listing_spec(cpu@, addr)[j],
            ensures
                rows.len() == words_in_reach(cpu.mem@.len(), addr, LISTING as nat),
            decreases LISTING - i,
        {
            match cpu.read_word(a) {
                Ok(raw) => {
                    rows.push(Row { addr: a, at_pc: a == cpu.pc, inst: Instruction::decode(raw) });
                },
                Err(_) => {
                    break ;
                },
            }
            a += 4;
            i += 1;
        }
        assert(rows@ =~= listing_spec(cpu@, addr));
        rows
    }

    /// Carries out a command and says what to show for it.
    ///
    /// `step` runs one instruction, `continue` at most `budget` of them;
    /// `break` installs a breakpoint; every other command leaves the
    /// machine, the counters and the breakpoints as they are.
    pub fn handle(
        &mut self,
        cmd: &Command<Vec<char>>,
        cpu: &mut Cpu,
        metrics: &mut Metrics,
        budget: usize,
    ) -> (reply: Reply)
        requires
            old(cpu).wf(),
            old(metrics).wf(),
            old(metrics).balanced(),
            old(metrics).inst_count + budget < u64::MAX,
        ensures
            final(cpu).wf(),
            final(metrics).wf(),
            final(metrics).balanced(),
            final(metrics).start_time == old(metrics).start_time,
            final(self).halted() == old(self).halted(),
            ({
                let same_machine = *final(cpu) == *old(cpu) && *final(metrics) == *old(metrics);
                let same_breakpoints = final(self).breakpoints() == old(self).breakpoints();
                match *cmd {
                    Command::Blank => same_machine && same_breakpoints && reply is Nothing,
                    Command::Help => same_machine && same_breakpoints && reply is Help,
                    Command::Step => same_breakpoints && (if old(self).halted() {
                        same_machine && reply == Reply::StepFailed(ExecError::Halted)
                    } else {
                        match step_spec(old(cpu)@) {
                            Ok(next) => final(cpu)@ == next && tally_of(*final(metrics))
                                == retire(tally_of(*old(metrics)), old(cpu)@, fetched(old(cpu)@))
                                && reply == Reply::Stepped(
                                old(cpu).pc,
                                decode_spec(word_at(next.mem, old(cpu).pc as int)),
                            ),
                            Err(e) => same_machine && reply == Reply::StepFailed(e),
                        }
                    }),
                    Command::Continue => same_breakpoints && ({
                        let out = continue_spec(
                            old(self).breakpoints(),
                            old(self).halted(),
                            old(cpu)@,
                            tally_of(*old(metrics)),
                            budget as nat,
                        );
                        &&& final(cpu)@ == out.state
                        &&& tally_of(*final(metrics)) == out.tally
                        &&& reply == Reply::Stopped(out.stop)
                    }),
                    Command::Break(addr) => same_machine && final(self).breakpoints() == old(
                        self,
                    ).breakpoints().insert(addr) && reply == Reply::BreakpointSet(addr),
                    Command::Regs => same_machine && same_breakpoints && reply == Reply::Registers(
                        old(cpu).regs,
                        old(cpu).pc,
                    ),
                    Command::Mem(addr, count) => same_machine && same_breakpoints && (
                    reply matches Reply::Memory(a, words) && a == addr && words@ == dump_spec(
                        old(cpu).mem@,
                        addr,
                        count as nat,
                    )),
                    Command::Dis(from) => same_machine && same_breakpoints && ({
                        let addr = match from {
                            Some(a) => a,
                            None => old(cpu).pc,
                        };
                        reply matches Reply::Listing(a, rows) && a == addr && rows@
                            == listing_spec(old(cpu)@, addr)
                    }),
                    Command::Pc => same_machine && same_breakpoints && reply == Reply::Pc(
                        old(cpu).pc,
                    ),
                    Command::Quit => same_machine && same_breakpoints && reply is Quit,
                    Command::Usage(topic) => same_machine && same_breakpoints && reply
                        == Reply::Usage(topic),
                    Command::InvalidAddress(word) => same_machine && same_breakpoints && (
                    reply matches Reply::InvalidAddress(w) && w@ == word@),
                    Command::Unknown(word) => same_machine && same_breakpoints && (
                    reply matches Reply::UnknownCommand(w) && w@ == word@),
                }
            }),
    {
        match cmd {
            Command::Blank => Reply::Nothing,
            Command::Help => Reply::Help,
            Command::Step => match self.step(cpu, metrics) {
                Ok((pc, inst)) => Reply::Stepped(pc, inst),
                Err(e) => Reply::StepFailed(e),
            },
            Command::Continue => Reply::Stopped(self.continue_exec(cpu, metrics, budget)),
            Command::Break(addr) => {
                self.set_breakpoint(*addr);
                Reply::BreakpointSet(*addr)
            },
            Command::Regs => Reply::Registers(cpu.regs, cpu.pc),
            Command::Mem(addr, count) => Reply::Memory(*addr, self.dump_mem(cpu, *addr, *count)),
            Command::Dis(from) => {
                let addr = match from {
                    Some(a) => *a,
                    None => cpu.pc,
                };
                Reply::Listing(addr, self.disassemble(cpu, addr))
            },
            Command::Pc => Reply::Pc(cpu.pc),
            Command::Quit => Reply::Quit,
            Command::Usage(topic) => Reply::Usage(*topic),
            Command::InvalidAddress(word) => Reply::InvalidAddress(copy_word(word)),
            Command::Unknown(word) => Reply::UnknownCommand(copy_word(word)),
        }
    }
}

} // verus!
