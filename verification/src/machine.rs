//! The tape, its two cursors, and what one instruction does to them.

use vstd::prelude::*;
use crate::error::InterpreterError;
use crate::program::{in_range, within, Instruction, Program};

verus! {

/// Number of cells on the tape.
pub const MEMORY_SIZE: usize = 30_000;

/// What the outside world did for the instruction about to be executed.
#[derive(Debug, Clone, Copy, PartialEq, Eq, Structural)]
pub enum Reply {
    /// Nothing was done.
    Nothing,
    /// One byte was read from the input stream.
    Byte(u8),
    /// The byte asked for was written to the output stream.
    Written,
    /// The stream failed, or the input stream was at its end.
    Failed,
}

/// What the machine needs from the outside world before it can execute its
/// next instruction.
#[derive(Debug, Clone, Copy, PartialEq, Eq, Structural)]
pub enum Request {
    /// The program is at its end: there is no next instruction.
    Stop,
    /// The next instruction needs nothing from outside.
    Nothing,
    /// The next instruction needs one byte read from the input stream.
    Read,
    /// The next instruction needs this byte written to the output stream.
    Write(u8),
}

/// The mathematical state of a machine: both cursors and the tape.
pub struct State {
    /// Position of the next instruction to fetch.
    pub program_counter: nat,
    /// Position of the current cell.
    pub memory_address: nat,
    /// The cells.
    pub memory: Seq<u8>,
}

impl State {
    /// The state of a fresh machine: both cursors at zero, every cell zero.
    pub open spec fn initial() -> State {
        State {
            program_counter: 0,
            memory_address: 0,
            memory: Seq::new(MEMORY_SIZE as nat, |i: int| 0u8),
        }
    }

    /// The tape has its full length and the tape cursor is on it.
    pub open spec fn wf(self) -> bool {
        &&& self.memory.len() == MEMORY_SIZE
        &&& self.memory_address < MEMORY_SIZE
    }

    /// The current cell.
    pub open spec fn cell(self) -> u8 {
        self.memory[self.memory_address as int]
    }

    /// This state with the current cell replaced.
    pub open spec fn store(self, value: u8) -> State {
        State { memory: self.memory.update(self.memory_address as int, value), ..self }
    }

    /// The effect of one instruction, given what the outside world did for
    /// it: the next state, or the fault that ends the run. The program
    /// counter changes only when a jump is taken; moving on to the next
    /// instruction is part of [`State::step`].
    pub open spec fn perform(self, instruction: Instruction, reply: Reply) -> Result<
        State,
        InterpreterError,
    > {
        match instruction {
            Instruction::MoveRight => if self.memory_address + 1 < MEMORY_SIZE {
                Ok(State { memory_address: self.memory_address + 1, ..self })
            } else {
                Err(InterpreterError::MemoryAddrsOverflow)
            },
            Instruction::MoveLeft => if self.memory_address > 0 {
                Ok(State { memory_address: (self.memory_address - 1) as nat, ..self })
            } else {
                Err(InterpreterError::MemoryAddrsOverflow)
            },
            Instruction::Increment => if self.cell() < u8::MAX {
                Ok(self.store((self.cell() + 1) as u8))
            } else {
                Err(InterpreterError::DataOverflow)
            },
            Instruction::Decrement => if self.cell() > 0 {
                Ok(self.store((self.cell() - 1) as u8))
            } else {
                Err(InterpreterError::DataOverflow)
            },
            Instruction::OutputByte => if reply == Reply::Written {
                Ok(self)
            } else {
                Err(InterpreterError::IoWriteFail)
            },
            Instruction::InputByte => match reply {
                Reply::Byte(byte) => Ok(self.store(byte)),
                _ => Err(InterpreterError::IoReadFail),
            },
            Instruction::JumpIfZero(None) => Err(InterpreterError::MissingRightBracket),
            Instruction::JumpIfZero(Some(target)) => if self.cell() == 0 {
                Ok(State { program_counter: target as nat, ..self })
            } else {
                Ok(self)
            },
            Instruction::JumpBack(None) => Err(InterpreterError::MissingLeftBracket),
            Instruction::JumpBack(Some(target)) => Ok(
                State { program_counter: target as nat, ..self },
            ),
            Instruction::NoOp => Ok(self),
        }
    }

    /// This state with the program counter moved to the next instruction.
    pub open spec fn advance(self) -> State {
        State { program_counter: self.program_counter + 1, ..self }
    }

    /// What the next instruction of `program` needs from the outside world.
    pub open spec fn request(self, program: Seq<Instruction>) -> Request {
        if self.program_counter >= program.len() {
            Request::Stop
        } else {
            match program[self.program_counter as int] {
                Instruction::InputByte => Request::Read,
                Instruction::OutputByte => Request::Write(self.cell()),
                _ => Request::Nothing,
            }
        }
    }

    /// One turn of the fetch-execute loop: the instruction under the program
    /// counter is executed, and the program counter then moves on by one,
    /// also after a jump, so that a jump to `target` continues at
    /// `target + 1`. Past the end of the program nothing happens.
    pub open spec fn step(self, program: Seq<Instruction>, reply: Reply) -> Result<
        State,
        InterpreterError,
    > {
        if self.program_counter < program.len() {
            match self.perform(program[self.program_counter as int], reply) {
                Ok(next) => Ok(next.advance()),
                Err(fault) => Err(fault),
            }
        } else {
            Ok(self)
        }
    }
}

/// No instruction moves the tape cursor off the tape or changes the length
/// of the tape.
pub proof fn lemma_perform_keeps_tape(state: State, instruction: Instruction, reply: Reply)
    requires
        state.wf(),
    ensures
        state.perform(instruction, reply) matches Ok(next) ==> next.wf(),
{
}

/// A bracket faults as a missing partner exactly when it has no target,
/// whatever the tape holds and whatever the outside world did.
pub proof fn lemma_bracket_faults(state: State, instruction: Instruction, reply: Reply)
    ensures
        state.perform(instruction, reply) == Err::<State, InterpreterError>(
            InterpreterError::MissingRightBracket,
        ) <==> instruction == Instruction::JumpIfZero(None),
        state.perform(instruction, reply) == Err::<State, InterpreterError>(
            InterpreterError::MissingLeftBracket,
        ) <==> instruction == Instruction::JumpBack(None),
{
}

/// An instruction of a program whose jumps are in range leaves the program
/// counter on an instruction of the program.
pub proof fn lemma_perform_keeps_counter(
    state: State,
    program: Seq<Instruction>,
    reply: Reply,
)
    requires
        in_range(program),
        state.program_counter < program.len(),
    ensures
        state.perform(program[state.program_counter as int], reply) matches Ok(next)
            ==> next.program_counter < program.len(),
{
    assert(within(program[state.program_counter as int], program.len() as int));
}

/// The tape and its two cursors.
#[derive(Debug)]
pub struct Machine {
    program_counter: usize,
    memory_address: usize,
    memory: [u8; MEMORY_SIZE],
}

impl View for Machine {
    type V = State;

    closed spec fn view(&self) -> State {
        State {
            program_counter: self.program_counter as nat,
            memory_address: self.memory_address as nat,
            memory: self.memory@,
        }
    }
}

impl Machine {
    #[verifier::type_invariant]
    spec fn on_tape(self) -> bool {
        self.memory_address < MEMORY_SIZE
    }

    /// A fresh machine.
    pub fn new() -> (machine: Machine)
        ensures
            machine@ == State::initial(),
    {
        let machine = Machine { program_counter: 0, memory_address: 0, memory: [0; MEMORY_SIZE] };
        assert(machine@.memory =~= State::initial().memory);
        machine
    }

    /// Executes one instruction. `reply` says what the outside world did for
    /// it; instructions that need nothing from outside ignore it. On a fault
    /// the machine is left as it was.
    pub fn exec(&mut self, instruction: &Instruction, reply: Reply) -> (result: Result<
        (),
        InterpreterError,
    >)
        ensures
            final(self)@.wf(),
            match old(self)@.perform(*instruction, reply) {
                Ok(next) => result is Ok && final(self)@ == next,
                Err(fault) => result == Err::<(), InterpreterError>(fault) && final(self)@ == old(
                    self,
                )@,
            },
    {
        proof {
            use_type_invariant(&*self);
        }
        match instruction {
            Instruction::MoveRight => {
                if self.memory_address == MEMORY_SIZE - 1 {
                    return Err(InterpreterError::MemoryAddrsOverflow);
                }
                self.memory_address += 1;
            },
            Instruction::MoveLeft => {
                if self.memory_address == 0 {
                    return Err(InterpreterError::MemoryAddrsOverflow);
                }
                self.memory_address -= 1;
            },
            Instruction::Increment => {
                if self.memory[self.memory_address] == u8::MAX {
                    return Err(InterpreterError::DataOverflow);
                }
                self.memory[self.memory_address] += 1;
            },
            Instruction::Decrement => {
                if self.memory[self.memory_address] == 0 {
                    return Err(InterpreterError::DataOverflow);
                }
                self.memory[self.memory_address] -= 1;
            },
            Instruction::OutputByte => {
                match reply {
                    Reply::Written => {},
                    _ => {
                        return Err(InterpreterError::IoWriteFail);
                    },
                }
            },
            Instruction::InputByte => {
                match reply {
                    Reply::Byte(byte) => {
                        self.memory[self.memory_address] = byte;
                    },
                    _ => {
                        return Err(InterpreterError::IoReadFail);
                    },
                }
            },
            Instruction::JumpIfZero(target) => {
                match target {
                    None => {
                        return Err(InterpreterError::MissingRightBracket);
                    },
                    Some(index) => {
                        if self.memory[self.memory_address] == 0 {
                            self.program_counter = *index;
                        }
                    },
                }
            },
            Instruction::JumpBack(target) => {
                match target {
                    None => {
                        return Err(InterpreterError::MissingLeftBracket);
                    },
                    Some(index) => {
                        self.program_counter = *index;
                    },
                }
            },
            Instruction::NoOp => {},
        }
        Ok(())
    }

    /// Says what the next instruction of `program` needs from the outside
    /// world. Whoever drives the machine does that, and hands the outcome to
    /// [`Machine::step`].
    pub fn request(&self, program: &Program) -> (request: Request)
        ensures
            request == self@.request(program@),
    {
        proof {
            use_type_invariant(self);
        }
        match program.instruction(self.program_counter) {
            None => Request::Stop,
            Some(Instruction::InputByte) => Request::Read,
            Some(Instruction::OutputByte) => Request::Write(self.memory[self.memory_address]),
            Some(_) => Request::Nothing,
        }
    }

    /// Executes the next instruction of `program` and moves on to the one
    /// after it. `reply` says what the outside world did for the instruction.
    /// On a fault the machine is left as it was.
    pub fn step(&mut self, program: &Program, reply: Reply) -> (result: Result<
        (),
        InterpreterError,
    >)
        ensures
            final(self)@.wf(),
            match old(self)@.step(program@, reply) {
                Ok(next) => result is Ok && final(self)@ == next,
                Err(fault) => result == Err::<(), InterpreterError>(fault) && final(self)@ == old(
                    self,
                )@,
            },
    {
        proof {
            use_type_invariant(&*self);
            use_type_invariant(program);
        }
        match program.instruction(self.program_counter) {
            None => Ok(()),
            Some(instruction) => {
                proof {
                    lemma_perform_keeps_counter(self@, program@, reply);
                }
                match self.exec(instruction, reply) {
                    Err(fault) => Err(fault),
                    Ok(()) => {
                        self.advance();
                        Ok(())
                    },
                }
            },
        }
    }

    /// Moves the program counter to the next instruction.
    pub(crate) fn advance(&mut self)
        requires
            old(self)@.program_counter < usize::MAX,
        ensures
            final(self)@ == old(self)@.advance(),
    {
        proof {
            use_type_invariant(&*self);
        }
        self.program_counter += 1;
    }

    /// Puts both cursors back to zero and clears every cell.
    pub fn reset(&mut self)
        ensures
            final(self)@ == State::initial(),
    {
        proof {
            use_type_invariant(&*self);
        }
        self.program_counter = 0;
        self.memory_address = 0;
        self.memory = [0; MEMORY_SIZE];
        assert(self@.memory =~= State::initial().memory);
    }

    /// The position of the next instruction to fetch.
    pub fn program_counter(&self) -> (position: usize)
        ensures
            position == self@.program_counter,
    {
        self.program_counter
    }

    /// The position of the current cell.
    pub fn memory_address(&self) -> (position: usize)
        ensures
            position == self@.memory_address,
            position < MEMORY_SIZE,
    {
        proof {
            use_type_invariant(self);
        }
        self.memory_address
    }

    /// The value of the current cell.
    pub fn cell(&self) -> (value: u8)
        ensures
            self@.wf(),
            value == self@.cell(),
    {
        proof {
            use_type_invariant(self);
        }
        self.memory[self.memory_address]
    }
}

} // verus!
