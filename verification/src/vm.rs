//! The virtual machine: 256 bytes of memory, an instruction pointer, and a
//! loop that fetches, decodes and executes.
use vstd::prelude::*;
use vstd::slice::slice_subrange;
use crate::machine::{
    decode_args, decode_opcode, decoded_args, descriptor, effect_of, lemma_table_agrees,
    random_below, state_change, table, Effect, Mnemonic, StateChange, MEMORY_SIZE, RAND_MAX,
};

verus! {

/// Why a program cannot go on.
#[derive(Clone, Copy, PartialEq, Eq, Structural, Debug)]
pub enum Fault {
    /// The byte at the instruction pointer is no opcode.
    InvalidOpcode(u8),
    /// The instruction pointer, or an operand of the instruction at it, lies
    /// behind the end of the program: the program ended without `HALT`.
    EndOfInput,
}

/// How one step ended.
#[derive(Clone, Copy, PartialEq, Eq, Structural, Debug)]
pub enum Outcome {
    /// An instruction was executed; the effect is what it prints or reads.
    Running(Effect),
    /// `HALT` was reached. The machine is as it was.
    Halted,
    /// The machine cannot go on. The machine is as it was.
    Faulted(Fault),
}

/// The state of the machine.
#[derive(Debug)]
pub struct Machine {
    pub memory: Vec<u8>,
    pub ip: usize,
}

/// The mathematical content of a [`Machine`].
pub struct MachineView {
    pub memory: Seq<u8>,
    pub ip: usize,
}

impl View for Machine {
    type V = MachineView;

    open spec fn view(&self) -> MachineView {
        MachineView { memory: self.memory@, ip: self.ip }
    }
}

/// One step of the machine on a program, with `random` as the number that
/// `RANDOM` draws: the state behind the step and how the step ended.
///
/// The opcode at the instruction pointer is decoded, its operand bytes are
/// read according to their kinds, and the instruction is executed. A jump
/// sets the instruction pointer to its target; every other instruction
/// moves it behind its operands.
pub open spec fn step_spec(source: Seq<u8>, state: MachineView, random: u8) -> (MachineView, Outcome) {
    if state.ip >= source.len() {
        (state, Outcome::Faulted(Fault::EndOfInput))
    } else {
        match descriptor(source[state.ip as int]) {
            None => (state, Outcome::Faulted(Fault::InvalidOpcode(source[state.ip as int]))),
            Some(instruction) => if state.ip + instruction.argc() >= source.len() {
                (state, Outcome::Faulted(Fault::EndOfInput))
            } else {
                let behind = (state.ip + 1 + instruction.argc()) as usize;
                let args = decoded_args(
                    source.subrange(state.ip + 1, behind as int),
                    instruction.arg_types,
                    state.memory,
                );
                let effect = effect_of(instruction.mnem, args);
                match state_change(instruction.mnem, args, state.memory, random) {
                    StateChange::Continue => (
                        MachineView { memory: state.memory, ip: behind },
                        Outcome::Running(effect),
                    ),
                    StateChange::Memset { address, value } => (
                        MachineView {
                            memory: state.memory.update(address as int, value),
                            ip: behind,
                        },
                        Outcome::Running(effect),
                    ),
                    StateChange::Jump { address } => (
                        MachineView { memory: state.memory, ip: address as usize },
                        Outcome::Running(effect),
                    ),
                    StateChange::Halt => (state, Outcome::Halted),
                }
            },
        }
    }
}

/// Why a run came to a stop.
#[derive(Clone, Copy, PartialEq, Eq, Structural, Debug)]
pub enum Stop {
    /// `HALT` was reached.
    Halted,
    /// The machine cannot go on.
    Faulted(Fault),
    /// An instruction was executed that prints or reads; the caller does
    /// that, and may run the machine on.
    Pending(Effect),
    /// The allowed number of steps was taken.
    OutOfSteps,
}

/// What a step that ended with `outcome` in the state `next` means for a
/// run that has `steps` steps left: the run goes on behind a silent
/// instruction, and stops otherwise.
pub open spec fn run_after(
    source: Seq<u8>,
    next: MachineView,
    outcome: Outcome,
    steps: nat,
    end: MachineView,
    stop: Stop,
) -> bool
    decreases steps, 1nat,
{
    match outcome {
        Outcome::Running(Effect::Silent) => runs(source, next, steps, end, stop),
        Outcome::Running(effect) => end == next && stop == Stop::Pending(effect),
        Outcome::Halted => end == next && stop == Stop::Halted,
        Outcome::Faulted(fault) => end == next && stop == Stop::Faulted(fault),
    }
}

/// Whether a run of at most `steps` steps can lead from `start` to `end`
/// and stop there for the reason `stop`. Each `RANDOM` on the way draws
/// some number below [`RAND_MAX`].
pub open spec fn runs(source: Seq<u8>, start: MachineView, steps: nat, end: MachineView, stop: Stop) -> bool
    decreases steps, 0nat,
{
    if steps == 0 {
        end == start && stop == Stop::OutOfSteps
    } else {
        exists|random: u8|
            random < RAND_MAX && run_after(
                source,
                (#[trigger] step_spec(source, start, random)).0,
                step_spec(source, start, random).1,
                (steps - 1) as nat,
                end,
                stop,
            )
    }
}

/// A run can begin with any step that draws an allowed number.
pub proof fn lemma_first_step(
    source: Seq<u8>,
    start: MachineView,
    random: u8,
    steps: nat,
    end: MachineView,
    stop: Stop,
)
    requires
        steps > 0,
        random < RAND_MAX,
        run_after(
            source,
            step_spec(source, start, random).0,
            step_spec(source, start, random).1,
            (steps - 1) as nat,
            end,
            stop,
        ),
    ensures
        runs(source, start, steps, end, stop),
{
}

impl Machine {
    /// The memory has its 256 cells.
    pub open spec fn wf(&self) -> bool {
        self.memory@.len() == MEMORY_SIZE
    }

    /// A machine at the start of a program, with all memory cells zero.
    pub fn new() -> (r: Machine)
        ensures
            r.wf(),
            r.ip == 0,
            forall|i: int| 0 <= i < MEMORY_SIZE ==> r.memory@[i] == 0,
    {
        let mut memory: Vec<u8> = Vec::new();
        let mut i: usize = 0;
        while i < MEMORY_SIZE
            invariant
                i <= MEMORY_SIZE,
                memory@.len() == i,
                forall|j: int| 0 <= j < i ==> memory@[j] == 0,
            decreases MEMORY_SIZE - i,
        {
            memory.push(0);
            i += 1;
        }
        Machine { memory, ip: 0 }
    }

    /// Writes a memory cell.
    pub fn store(&mut self, address: u8, value: u8)
        requires
            old(self).wf(),
        ensures
            final(self).wf(),
            final(self).ip == old(self).ip,
            final(self).memory@ == old(self).memory@.update(address as int, value),
    {
        self.memory.set(address as usize, value);
    }

    /// Reads a memory cell.
    pub fn load(&self, address: u8) -> (r: u8)
        requires
            self.wf(),
        ensures
            r == self.memory@[address as int],
    {
        self.memory[address as usize]
    }

    /// Takes one step, with `random` as the number that `RANDOM` draws.
    pub fn step_with(&mut self, source: &[u8], random: u8) -> (r: Outcome)
        requires
            old(self).wf(),
        ensures
            final(self).wf(),
            (final(self)@, r) == step_spec(source@, old(self)@, random),
    {
        let ip = self.ip;
        if ip >= source.len() {
            return Outcome::Faulted(Fault::EndOfInput);
        }
        let opcode = source[ip];
        let instruction = match decode_opcode(opcode) {
            Some(instruction) => instruction,
            None => {
                return Outcome::Faulted(Fault::InvalidOpcode(opcode));
            },
        };
        let argc = instruction.argc;
        proof {
            lemma_table_agrees();
            assert(table(opcode) is Some);
        }
        if argc >= source.len() - ip {
            return Outcome::Faulted(Fault::EndOfInput);
        }
        let args = slice_subrange(source, ip + 1, ip + 1 + argc);
        let decoded = decode_args(args, instruction.arg_types.as_slice(), self.memory.as_slice());
        let effect = instruction.effect(decoded.as_slice());
        match instruction.execute_with(decoded.as_slice(), self.memory.as_slice(), random) {
            StateChange::Continue => {
                self.ip = ip + 1 + argc;
            },
            StateChange::Jump { address } => {
                self.ip = address as usize;
            },
            StateChange::Memset { address, value } => {
                self.memory.set(address as usize, value);
                self.ip = ip + 1 + argc;
            },
            StateChange::Halt => {
                return Outcome::Halted;
            },
        }
        Outcome::Running(effect)
    }

    /// Whether the next step executes `RANDOM`.
    pub fn at_random(&self, source: &[u8]) -> (r: bool)
        ensures
            r <==> self.ip < source@.len() && table(source@[self.ip as int]) == Some(
                (Mnemonic::RANDOM, seq![crate::machine::Argument::Address]),
            ),
    {
        self.ip < source.len() && source[self.ip] == 0x09
    }

    /// Takes one step. `RANDOM` draws a number below [`RAND_MAX`].
    pub fn step(&mut self, source: &[u8]) -> (r: Outcome)
        requires
            old(self).wf(),
        ensures
            final(self).wf(),
            exists|random: u8|
                random < RAND_MAX && (final(self)@, r) == #[trigger] step_spec(
                    source@,
                    old(self)@,
                    random,
                ),
    {
        let random = if self.at_random(source) {
            random_below(RAND_MAX)
        } else {
            0
        };
        self.step_with(source, random)
    }

    /// Runs a program for at most `limit` steps. The run stops early at
    /// `HALT`, at a fault, and behind an instruction that prints or reads.
    pub fn run(&mut self, source: &[u8], limit: usize) -> (r: Stop)
        requires
            old(self).wf(),
        ensures
            final(self).wf(),
            runs(source@, old(self)@, limit as nat, final(self)@, r),
    {
        let mut left = limit;
        while left > 0
            invariant
                self.wf(),
                left <= limit,
                forall|end: MachineView, stop: Stop| #[trigger]
                    runs(source@, self@, left as nat, end, stop) ==> runs(
                        source@,
                        old(self)@,
                        limit as nat,
                        end,
                        stop,
                    ),
            decreases left,
        {
            let ghost before = self@;
            let random = if self.at_random(source) {
                random_below(RAND_MAX)
            } else {
                0
            };
            let outcome = self.step_with(source, random);
            match outcome {
                Outcome::Running(Effect::Silent) => {
                    left -= 1;
                    assert forall|end: MachineView, stop: Stop| #[trigger]
                        runs(source@, self@, left as nat, end, stop) implies runs(
                        source@,
                        old(self)@,
                        limit as nat,
                        end,
                        stop,
                    ) by {
                        lemma_first_step(source@, before, random, (left + 1) as nat, end, stop);
                    }
                },
                Outcome::Running(effect) => {
                    proof {
                        lemma_first_step(
                            source@,
                            before,
                            random,
                            left as nat,
                            self@,
                            Stop::Pending(effect),
                        );
                    }
                    return Stop::Pending(effect);
                },
                Outcome::Halted => {
                    proof {
                        lemma_first_step(source@, before, random, left as nat, self@, Stop::Halted);
                    }
                    return Stop::Halted;
                },
                Outcome::Faulted(fault) => {
                    proof {
                        lemma_first_step(
                            source@,
                            before,
                            random,
                            left as nat,
                            self@,
                            Stop::Faulted(fault),
                        );
                    }
                    return Stop::Faulted(fault);
                },
            }
        }
        assert(runs(source@, self@, 0, self@, Stop::OutOfSteps));
        Stop::OutOfSteps
    }
}

// --- Laws ----------------------------------------------------------------------

/// `JMP` sets the instruction pointer to its target and to nothing else:
/// for the opcode `0x0F` the target is the operand byte, for `0x0E` it is
/// the memory cell that the operand byte addresses. The memory stays as it
/// is, and nothing is printed or read.
pub proof fn lemma_jump_is_absolute(source: Seq<u8>, state: MachineView, random: u8)
    requires
        state.memory.len() == MEMORY_SIZE,
        source.len() <= usize::MAX,
        state.ip + 1 < source.len(),
        source[state.ip as int] == 0x0E || source[state.ip as int] == 0x0F,
    ensures
        step_spec(source, state, random).1 == Outcome::Running(Effect::Silent),
        step_spec(source, state, random).0.memory == state.memory,
        source[state.ip as int] == 0x0F ==> step_spec(source, state, random).0.ip
            == source[state.ip + 1],
        source[state.ip as int] == 0x0E ==> step_spec(source, state, random).0.ip
            == state.memory[source[state.ip + 1] as int],
{
    let instruction = descriptor(source[state.ip as int]).unwrap();
    assert(instruction.mnem == Mnemonic::JMP);
    assert(instruction.argc() == 1);
    let raw = source.subrange(state.ip + 1, state.ip + 2);
    assert(raw[0] == source[state.ip + 1]);
    let args = decoded_args(raw, instruction.arg_types, state.memory);
    assert(args.len() == 1);
    assert(args[0] == crate::machine::decoded_arg(instruction.arg_types[0], raw[0], state.memory));
    assert(state_change(instruction.mnem, args, state.memory, random) == StateChange::Jump {
        address: args[0],
    });
    assert(effect_of(instruction.mnem, args) == Effect::Silent);
    assert(source.subrange(state.ip + 1, (state.ip + 1 + instruction.argc()) as usize as int)
        == raw);
}

/// `HALT` ends the run: the step leaves the machine as it is.
pub proof fn lemma_halt_changes_nothing(source: Seq<u8>, state: MachineView, random: u8)
    requires
        state.ip < source.len(),
        source[state.ip as int] == crate::machine::HALT_OPCODE,
    ensures
        step_spec(source, state, random) == (state, Outcome::Halted),
{
    let instruction = descriptor(source[state.ip as int]).unwrap();
    assert(instruction.mnem == Mnemonic::HALT);
    assert(instruction.arg_types.len() == 0);
}

/// A run that begins at `HALT` stops at once, whatever number of steps it
/// is allowed: the machine is as it was, memory and all.
pub proof fn lemma_run_stops_at_halt(
    source: Seq<u8>,
    state: MachineView,
    steps: nat,
    end: MachineView,
    stop: Stop,
)
    requires
        state.ip < source.len(),
        source[state.ip as int] == crate::machine::HALT_OPCODE,
        steps > 0,
        runs(source, state, steps, end, stop),
    ensures
        end == state,
        stop == Stop::Halted,
{
    let random = choose|random: u8|
        random < RAND_MAX && run_after(
            source,
            (#[trigger] step_spec(source, state, random)).0,
            step_spec(source, state, random).1,
            (steps - 1) as nat,
            end,
            stop,
        );
    lemma_halt_changes_nothing(source, state, random);
}

} // verus!
