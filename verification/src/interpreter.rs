//! An interpreter whose two streams are buffers in memory.

use vstd::prelude::*;
use vstd::string::*;
use crate::error::InterpreterError;
use crate::machine::{lemma_perform_keeps_counter, Machine, Reply, State};
use crate::program::{compiled, Instruction, Program};

verus! {

/// The mathematical state of an interpreter: its machine, the input that is
/// still unread and the output written so far.
pub struct Snapshot {
    /// The machine.
    pub machine: State,
    /// The bytes that the program can still read, next byte first.
    pub input: Seq<u8>,
    /// The bytes that were written, oldest first.
    pub output: Seq<u8>,
}

impl Snapshot {
    /// What the two buffers do for `instruction`: the input buffer hands out
    /// its next byte, or fails when it has none left; the output buffer takes
    /// every byte.
    pub open spec fn reply(self, instruction: Instruction) -> Reply {
        match instruction {
            Instruction::InputByte => if self.input.len() > 0 {
                Reply::Byte(self.input[0])
            } else {
                Reply::Failed
            },
            Instruction::OutputByte => Reply::Written,
            _ => Reply::Nothing,
        }
    }

    /// The effect of one instruction on the machine and on the two buffers,
    /// or the fault that it ends in.
    pub open spec fn exec(self, instruction: Instruction) -> Result<Snapshot, InterpreterError> {
        match self.machine.perform(instruction, self.reply(instruction)) {
            Err(fault) => Err(fault),
            Ok(next) => Ok(
                Snapshot {
                    machine: next,
                    input: if instruction == Instruction::InputByte {
                        self.input.skip(1)
                    } else {
                        self.input
                    },
                    output: if instruction == Instruction::OutputByte {
                        self.output.push(self.machine.cell())
                    } else {
                        self.output
                    },
                },
            ),
        }
    }

    /// What executing `program` from this state comes to when at most `limit`
    /// instructions may be executed: `Some(Ok(()))` if the program counter
    /// gets past the last instruction, `Some(Err(fault))` if an instruction
    /// faults, `None` if the limit is used up first; and the state in which
    /// that was found.
    pub open spec fn run(self, program: Seq<Instruction>, limit: nat) -> (
        Option<Result<(), InterpreterError>>,
        Snapshot,
    )
        decreases limit,
    {
        if self.machine.program_counter >= program.len() {
            (Some(Ok(())), self)
        } else if limit == 0 {
            (None, self)
        } else {
            match self.exec(program[self.machine.program_counter as int]) {
                Err(fault) => (Some(Err(fault)), self),
                Ok(next) => Snapshot { machine: next.machine.advance(), ..next }.run(
                    program,
                    (limit - 1) as nat,
                ),
            }
        }
    }
}

/// How a run ends: past the last instruction if it succeeds, and on the
/// instruction that faults, with that instruction's fault, if it fails.
pub proof fn lemma_run_outcome(start: Snapshot, program: Seq<Instruction>, limit: nat)
    ensures
        ({
            let (result, end) = start.run(program, limit);
            match result {
                Some(Ok(())) => end.machine.program_counter >= program.len(),
                Some(Err(fault)) => {
                    &&& end.machine.program_counter < program.len()
                    &&& end.exec(program[end.machine.program_counter as int]) == Err::<
                        Snapshot,
                        InterpreterError,
                    >(fault)
                },
                None => end.machine.program_counter < program.len(),
            }
        }),
    decreases limit,
{
    if start.machine.program_counter < program.len() && limit > 0 {
        match start.exec(program[start.machine.program_counter as int]) {
            Err(fault) => {},
            Ok(next) => {
                lemma_run_outcome(
                    Snapshot { machine: next.machine.advance(), ..next },
                    program,
                    (limit - 1) as nat,
                );
            },
        }
    }
}

/// A run keeps the tape cursor on the tape, takes its input from the front
/// of what was unread, and only appends to what was written: nothing is
/// taken back, also when the run faults.
pub proof fn lemma_run_streams(start: Snapshot, program: Seq<Instruction>, limit: nat)
    requires
        start.machine.wf(),
    ensures
        ({
            let end = start.run(program, limit).1;
            &&& end.machine.wf()
            &&& end.input.len() <= start.input.len()
            &&& end.input == start.input.skip(start.input.len() - end.input.len())
            &&& end.output.len() >= start.output.len()
            &&& end.output.take(start.output.len() as int) == start.output
        }),
    decreases limit,
{
    assert(start.input.skip(0) =~= start.input);
    assert(start.output.take(start.output.len() as int) =~= start.output);
    if start.machine.program_counter < program.len() && limit > 0 {
        match start.exec(program[start.machine.program_counter as int]) {
            Err(fault) => {},
            Ok(next) => {
                let moved = Snapshot { machine: next.machine.advance(), ..next };
                let end = moved.run(program, (limit - 1) as nat).1;
                lemma_run_streams(moved, program, (limit - 1) as nat);
                assert(end.input =~= start.input.skip(start.input.len() - end.input.len()));
                assert(end.output.take(start.output.len() as int) =~= start.output);
            },
        }
    }
}

/// The limit only cuts a run short: a run that ends within a limit ends in
/// the same way, and in the same state, within every larger one.
pub proof fn lemma_run_limit(start: Snapshot, program: Seq<Instruction>, limit: nat, more: nat)
    requires
        limit <= more,
        start.run(program, limit).0 is Some,
    ensures
        start.run(program, more) == start.run(program, limit),
    decreases limit,
{
    if start.machine.program_counter < program.len() && limit > 0 {
        match start.exec(program[start.machine.program_counter as int]) {
            Err(fault) => {},
            Ok(next) => {
                lemma_run_limit(
                    Snapshot { machine: next.machine.advance(), ..next },
                    program,
                    (limit - 1) as nat,
                    (more - 1) as nat,
                );
            },
        }
    }
}

/// A machine together with the bytes it reads and the bytes it has written.
#[derive(Debug)]
pub struct Interpreter {
    machine: Machine,
    reader: Vec<u8>,
    consumed: usize,
    writer: Vec<u8>,
}

impl View for Interpreter {
    type V = Snapshot;

    closed spec fn view(&self) -> Snapshot {
        Snapshot {
            machine: self.machine@,
            input: if self.consumed <= self.reader@.len() {
                self.reader@.skip(self.consumed as int)
            } else {
                Seq::empty()
            },
            output: self.writer@,
        }
    }
}

impl Interpreter {
    /// An interpreter with a fresh machine. Programs read the bytes of
    /// `reader` in order, and what they write is appended to `writer`.
    pub fn new(reader: Vec<u8>, writer: Vec<u8>) -> (interpreter: Interpreter)
        ensures
            interpreter@ == (Snapshot {
                machine: State::initial(),
                input: reader@,
                output: writer@,
            }),
    {
        let interpreter = Interpreter { machine: Machine::new(), reader, consumed: 0, writer };
        assert(interpreter@.input =~= reader@);
        interpreter
    }

    /// Compiles `code` and executes it from the machine's present state,
    /// stopping after `limit` instructions at the latest. Whatever the
    /// outcome, the machine is reset before this returns; the two buffers
    /// keep what was read and written.
    pub fn run(&mut self, code: &str, limit: u64) -> (result: Option<
        Result<(), InterpreterError>,
    >)
        ensures
            result == old(self)@.run(compiled(code.spec_bytes()), limit as nat).0,
            final(self)@ == (Snapshot {
                machine: State::initial(),
                ..old(self)@.run(compiled(code.spec_bytes()), limit as nat).1
            }),
    {
        let program = Program::new(code);
        let result = self.execute(&program, limit);
        self.reset();
        result
    }

    /// Executes `program` from the machine's present state, stopping after
    /// `limit` instructions at the latest, and leaves the machine as it
    /// stands then: after a fault, in the state in which the faulting
    /// instruction found it.
    pub fn execute(&mut self, program: &Program, limit: u64) -> (result: Option<
        Result<(), InterpreterError>,
    >)
        ensures
            result == old(self)@.run(program@, limit as nat).0,
            final(self)@ == old(self)@.run(program@, limit as nat).1,
    {
        let mut steps: u64 = 0;
        loop
            invariant
                steps <= limit,
                self@.run(program@, (limit - steps) as nat) == old(self)@.run(
                    program@,
                    limit as nat,
                ),
            decreases limit - steps,
        {
            match program.instruction(self.machine.program_counter()) {
                None => {
                    return Some(Ok(()));
                },
                Some(instruction) => {
                    if steps == limit {
                        return None;
                    }
                    proof {
                        use_type_invariant(program);
                        lemma_perform_keeps_counter(
                            self@.machine,
                            program@,
                            self@.reply(*instruction),
                        );
                    }
                    match self.exec(instruction) {
                        Err(fault) => {
                            return Some(Err(fault));
                        },
                        Ok(()) => {},
                    }
                    self.machine.advance();
                    steps += 1;
                },
            }
        }
    }

    /// Executes one instruction on the machine, reading from and writing to
    /// the two buffers as the instruction asks. The program counter moves
    /// only if the instruction is a jump that is taken. On a fault nothing
    /// changes.
    pub fn exec(&mut self, instruction: &Instruction) -> (result: Result<(), InterpreterError>)
        ensures
            match old(self)@.exec(*instruction) {
                Ok(next) => result is Ok && final(self)@ == next,
                Err(fault) => result == Err::<(), InterpreterError>(fault) && final(self)@ == old(
                    self,
                )@,
            },
    {
        let reply = match instruction {
            Instruction::InputByte => {
                if self.consumed < self.reader.len() {
                    let byte = self.reader[self.consumed];
                    Reply::Byte(byte)
                } else {
                    Reply::Failed
                }
            },
            Instruction::OutputByte => Reply::Written,
            _ => Reply::Nothing,
        };
        let cell = self.machine.cell();
        match self.machine.exec(instruction, reply) {
            Err(fault) => Err(fault),
            Ok(()) => {
                match instruction {
                    Instruction::InputByte => {
                        assert(self.reader@.skip(self.consumed as int).skip(1)
                            =~= self.reader@.skip(self.consumed + 1));
                        self.consumed += 1;
                    },
                    Instruction::OutputByte => {
                        self.writer.push(cell);
                    },
                    _ => {},
                }
                Ok(())
            },
        }
    }

    /// Resets the machine. The two buffers keep what was read and written.
    pub fn reset(&mut self)
        ensures
            final(self)@ == (Snapshot { machine: State::initial(), ..old(self)@ }),
    {
        self.machine.reset();
    }

    /// The machine.
    pub fn machine(&self) -> (machine: &Machine)
        ensures
            machine@ == self@.machine,
    {
        &self.machine
    }

    /// Everything written so far, oldest byte first.
    pub fn output(&self) -> (output: &Vec<u8>)
        ensures
            output@ == self@.output,
    {
        &self.writer
    }
}

} // verus!
