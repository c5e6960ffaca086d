//! The faults that end a run.

use vstd::prelude::*;

verus! {

/// Why a run stopped before the end of its program.
#[derive(Debug, Clone, Copy, PartialEq, Eq, Structural)]
pub enum InterpreterError {
    /// The input stream gave no byte (it failed or was at its end).
    IoReadFail,
    /// The output stream did not take the byte.
    IoWriteFail,
    /// The tape cursor would have left the tape.
    MemoryAddrsOverflow,
    /// The cell would have gone above 255 or below 0.
    DataOverflow,
    /// A `]` that closes nothing was executed.
    MissingLeftBracket,
    /// A `[` that nothing closes was executed.
    MissingRightBracket,
}

impl InterpreterError {
    /// The sentence that describes this fault.
    pub open spec fn message_spec(self) -> Seq<char> {
        match self {
            InterpreterError::IoReadFail => "Failed to read user input"@,
            InterpreterError::IoWriteFail => "Failed to write data to output"@,
            InterpreterError::MemoryAddrsOverflow => "Memory address out of boundaries"@,
            InterpreterError::DataOverflow => "Memory data greater than 255 or less than 0"@,
            InterpreterError::MissingLeftBracket => "Missing left bracket"@,
            InterpreterError::MissingRightBracket => "Missing right bracket"@,
        }
    }

    /// Returns the sentence that describes this fault.
    pub fn message(&self) -> (text: &'static str)
        ensures
            text@ == self.message_spec(),
    {
        match self {
            InterpreterError::IoReadFail => "Failed to read user input",
            InterpreterError::IoWriteFail => "Failed to write data to output",
            InterpreterError::MemoryAddrsOverflow => "Memory address out of boundaries",
            InterpreterError::DataOverflow => "Memory data greater than 255 or less than 0",
            InterpreterError::MissingLeftBracket => "Missing left bracket",
            InterpreterError::MissingRightBracket => "Missing right bracket",
        }
    }
}

} // verus!
