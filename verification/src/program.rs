//! Instructions, and the programs that source bytes compile to.

use vstd::prelude::*;
use vstd::string::*;
use crate::brackets::{
    balanced, closed_run, lemma_balanced_closer, lemma_balanced_opener, lemma_closed_run_pair,
    lemma_closed_run_plain, lemma_closer_unique, lemma_opener_unique, matched, weight, CLOSE, OPEN,
};

verus! {

/// The byte `>`.
pub const RIGHT: u8 = 0x3E;

/// The byte `<`.
pub const LEFT: u8 = 0x3C;

/// The byte `+`.
pub const PLUS: u8 = 0x2B;

/// The byte `-`.
pub const MINUS: u8 = 0x2D;

/// The byte `.`.
pub const DOT: u8 = 0x2E;

/// The byte `,`.
pub const COMMA: u8 = 0x2C;

/// One operation of the machine. Every source byte compiles to exactly one.
#[derive(Debug, Clone, Copy, PartialEq, Eq, Structural)]
pub enum Instruction {
    /// `>`: move the tape cursor one cell to the right.
    MoveRight,
    /// `<`: move the tape cursor one cell to the left.
    MoveLeft,
    /// `+`: add one to the current cell.
    Increment,
    /// `-`: subtract one from the current cell.
    Decrement,
    /// `.`: write the current cell to the output stream.
    OutputByte,
    /// `,`: read one byte from the input stream into the current cell.
    InputByte,
    /// `[`: jump to the matching `]` if the current cell is zero. The target
    /// is the position of that `]`, or `None` if nothing closes this bracket.
    JumpIfZero(Option<usize>),
    /// `]`: jump to the matching `[`. The target is the position of that `[`,
    /// or `None` if this bracket closes nothing.
    JumpBack(Option<usize>),
    /// Any other byte: do nothing.
    NoOp,
}


/// The target of the `[` at `open`: the position of its partner, if it has one.
pub open spec fn closer(source: Seq<u8>, open: int) -> Option<usize> {
    if exists|close: int| matched(source, open, close) {
        Some((choose|close: int| matched(source, open, close)) as usize)
    } else {
        None
    }
}

/// The target of the `]` at `close`: the position of its partner, if it has one.
pub open spec fn opener(source: Seq<u8>, close: int) -> Option<usize> {
    if exists|open: int| matched(source, open, close) {
        Some((choose|open: int| matched(source, open, close)) as usize)
    } else {
        None
    }
}

/// The instruction that the byte at `position` compiles to.
pub open spec fn instruction_at(source: Seq<u8>, position: int) -> Instruction {
    let byte = source[position];
    if byte == RIGHT {
        Instruction::MoveRight
    } else if byte == LEFT {
        Instruction::MoveLeft
    } else if byte == PLUS {
        Instruction::Increment
    } else if byte == MINUS {
        Instruction::Decrement
    } else if byte == DOT {
        Instruction::OutputByte
    } else if byte == COMMA {
        Instruction::InputByte
    } else if byte == OPEN {
        Instruction::JumpIfZero(closer(source, position))
    } else if byte == CLOSE {
        Instruction::JumpBack(opener(source, position))
    } else {
        Instruction::NoOp
    }
}

/// The program that `source` compiles to: one instruction per byte, in order.
/// A bracket without a partner is compiled all the same, with no target.
pub open spec fn compiled(source: Seq<u8>) -> Seq<Instruction> {
    Seq::new(source.len(), |position: int| instruction_at(source, position))
}

/// The instruction does not jump to `bound` or beyond.
pub open spec fn within(instruction: Instruction, bound: int) -> bool {
    match instruction {
        Instruction::JumpIfZero(Some(target)) => target < bound,
        Instruction::JumpBack(Some(target)) => target < bound,
        _ => true,
    }
}

/// Every jump of the program lands on one of its instructions.
pub open spec fn in_range(program: Seq<Instruction>) -> bool {
    forall|position: int|
        0 <= position < program.len() ==> within(#[trigger] program[position], program.len() as int)
}

/// Every bracket of the program has a target, and the two brackets of a pair
/// hold each other's position.
pub open spec fn resolved(program: Seq<Instruction>) -> bool {
    forall|position: int|
        0 <= position < program.len() ==> match #[trigger] program[position] {
            Instruction::JumpIfZero(target) => {
                &&& target matches Some(close)
                &&& position < close < program.len()
                &&& program[close as int] == Instruction::JumpBack(Some(position as usize))
            },
            Instruction::JumpBack(target) => {
                &&& target matches Some(open)
                &&& open < position
                &&& program[open as int] == Instruction::JumpIfZero(Some(position as usize))
            },
            _ => true,
        }
}

/// The two brackets of a pair compile to jumps that hold each other's position.
pub proof fn lemma_pair_compiles(source: Seq<u8>, open: int, close: int)
    requires
        source.len() <= usize::MAX,
        matched(source, open, close),
    ensures
        compiled(source)[open] == Instruction::JumpIfZero(Some(close as usize)),
        compiled(source)[close] == Instruction::JumpBack(Some(open as usize)),
{
    lemma_closer_unique(source, open, choose|other: int| matched(source, open, other), close);
    lemma_opener_unique(source, choose|other: int| matched(source, other, close), open, close);
}

/// Every jump of a compiled program lands on one of its instructions.
pub proof fn lemma_compiled_in_range(source: Seq<u8>)
    requires
        source.len() <= usize::MAX,
    ensures
        in_range(compiled(source)),
{
    assert forall|position: int| 0 <= position < source.len() implies within(
        #[trigger] compiled(source)[position],
        source.len() as int,
    ) by {
        if source[position] == OPEN && closer(source, position) is Some {
            let close = choose|close: int| matched(source, position, close);
            assert(matched(source, position, close));
        }
        if source[position] == CLOSE && opener(source, position) is Some {
            let open = choose|open: int| matched(source, open, position);
            assert(matched(source, open, position));
        }
    }
}

/// A source that holds only pairs compiles to a program in which every
/// bracket has a target and the two brackets of each pair hold each other's
/// position.
pub proof fn lemma_balanced_resolved(source: Seq<u8>)
    requires
        source.len() <= usize::MAX,
        balanced(source),
    ensures
        resolved(compiled(source)),
{
    assert forall|position: int| 0 <= position < source.len() implies match #[trigger] compiled(
        source,
    )[position] {
        Instruction::JumpIfZero(target) => {
            &&& target matches Some(close)
            &&& position < close < source.len()
            &&& compiled(source)[close as int] == Instruction::JumpBack(Some(position as usize))
        },
        Instruction::JumpBack(target) => {
            &&& target matches Some(open)
            &&& open < position
            &&& compiled(source)[open as int] == Instruction::JumpIfZero(Some(position as usize))
        },
        _ => true,
    } by {
        if source[position] == OPEN {
            let close = lemma_balanced_closer(source, position);
            lemma_pair_compiles(source, position, close);
        } else if source[position] == CLOSE {
            let open = lemma_balanced_opener(source, position);
            lemma_pair_compiles(source, open, position);
        }
    }
}

/// Where the run of pairs after the pending bracket `k` ends: at the next
/// pending bracket, or at the scan position for the last one.
spec fn upper(pending: Seq<usize>, k: int, done: int) -> int {
    if k + 1 < pending.len() {
        pending[k + 1] as int
    } else {
        done
    }
}

/// No pending bracket stands at `position`.
spec fn absent(pending: Seq<usize>, position: int) -> bool {
    forall|k: int| 0 <= k < pending.len() ==> pending[k] != position
}

/// The pending bracket `k` is an opening bracket that still has no target,
/// and only pairs follow it up to the next pending bracket.
spec fn waiting(
    source: Seq<u8>,
    done: int,
    instructions: Seq<Instruction>,
    pending: Seq<usize>,
    k: int,
) -> bool {
    let open = pending[k] as int;
    &&& 0 <= open < done
    &&& source[open] == OPEN
    &&& instructions[open] == Instruction::JumpIfZero(None)
    &&& closed_run(source, open + 1, upper(pending, k, done))
}

/// The instruction at `position` jumps into what was scanned, and is final
/// unless its bracket is pending.
spec fn settled(
    source: Seq<u8>,
    done: int,
    instructions: Seq<Instruction>,
    pending: Seq<usize>,
    position: int,
) -> bool {
    &&& within(instructions[position], done)
    &&& absent(pending, position) ==> instructions[position] == instruction_at(source, position)
}

/// What holds after the first `done` bytes were scanned.
spec fn scanned(
    source: Seq<u8>,
    done: int,
    instructions: Seq<Instruction>,
    pending: Seq<usize>,
) -> bool {
    &&& 0 <= done <= source.len() <= usize::MAX
    &&& instructions.len() == done
    &&& forall|k: int|
        0 <= k < pending.len() ==> #[trigger] waiting(source, done, instructions, pending, k)
    &&& forall|k: int, l: int| 0 <= k < l < pending.len() ==> pending[k] < pending[l]
    &&& forall|position: int|
        0 <= position < done ==> #[trigger] settled(source, done, instructions, pending, position)
    &&& forall|k: int, close: int|
        0 <= k < pending.len() && close < done ==> !matched(source, pending[k] as int, close)
}

proof fn lemma_scan_plain(
    source: Seq<u8>,
    done: int,
    instructions: Seq<Instruction>,
    pending: Seq<usize>,
)
    requires
        scanned(source, done, instructions, pending),
        done < source.len(),
        weight(source[done]) == 0,
    ensures
        scanned(source, done + 1, instructions.push(instruction_at(source, done)), pending),
{
    let next = instructions.push(instruction_at(source, done));
    assert forall|k: int| 0 <= k < pending.len() implies #[trigger] waiting(
        source,
        done + 1,
        next,
        pending,
        k,
    ) by {
        assert(waiting(source, done, instructions, pending, k));
        if k + 1 == pending.len() {
            lemma_closed_run_plain(source, pending[k] + 1, done);
        }
    }
    assert forall|position: int| 0 <= position < done + 1 implies #[trigger] settled(
        source,
        done + 1,
        next,
        pending,
        position,
    ) by {
        if position < done {
            assert(settled(source, done, instructions, pending, position));
        }
    }
}

proof fn lemma_scan_open(
    source: Seq<u8>,
    done: int,
    instructions: Seq<Instruction>,
    pending: Seq<usize>,
)
    requires
        scanned(source, done, instructions, pending),
        done < source.len(),
        source[done] == OPEN,
    ensures
        scanned(
            source,
            done + 1,
            instructions.push(Instruction::JumpIfZero(None)),
            pending.push(done as usize),
        ),
{
    let next = instructions.push(Instruction::JumpIfZero(None));
    let stack = pending.push(done as usize);
    assert forall|k: int| 0 <= k < stack.len() implies #[trigger] waiting(
        source,
        done + 1,
        next,
        stack,
        k,
    ) by {
        if k < pending.len() {
            assert(waiting(source, done, instructions, pending, k));
            assert(upper(stack, k, done + 1) == upper(pending, k, done));
        }
    }
    assert forall|k: int, l: int| 0 <= k < l < stack.len() implies stack[k] < stack[l] by {
        assert(waiting(source, done, instructions, pending, k));
    }
    assert forall|position: int| 0 <= position < done + 1 implies #[trigger] settled(
        source,
        done + 1,
        next,
        stack,
        position,
    ) by {
        if position < done {
            assert(settled(source, done, instructions, pending, position));
            if absent(stack, position) {
                assert forall|k: int| 0 <= k < pending.len() implies pending[k] != position by {
                    assert(stack[k] == pending[k]);
                }
            }
        } else {
            assert(stack[pending.len() as int] == position);
        }
    }
    assert forall|k: int, close: int| 0 <= k < stack.len() && close < done + 1 implies !matched(
        source,
        stack[k] as int,
        close,
    ) by {
        if k < pending.len() {
            assert(stack[k] == pending[k]);
        }
    }
}

proof fn lemma_scan_close(
    source: Seq<u8>,
    done: int,
    instructions: Seq<Instruction>,
    pending: Seq<usize>,
)
    requires
        scanned(source, done, instructions, pending),
        done < source.len(),
        source[done] == CLOSE,
        pending.len() > 0,
    ensures
        0 <= pending.last() < done,
        scanned(
            source,
            done + 1,
            instructions.update(
                pending.last() as int,
                Instruction::JumpIfZero(Some(done as usize)),
            ).push(Instruction::JumpBack(Some(pending.last()))),
            pending.drop_last(),
        ),
{
    let open = pending.last() as int;
    let top = pending.len() - 1;
    let next = instructions.update(open, Instruction::JumpIfZero(Some(done as usize))).push(
        Instruction::JumpBack(Some(pending.last())),
    );
    let stack = pending.drop_last();
    assert(waiting(source, done, instructions, pending, top));
    assert(matched(source, open, done));
    lemma_pair_compiles(source, open, done);
    assert forall|k: int| 0 <= k < stack.len() implies #[trigger] waiting(
        source,
        done + 1,
        next,
        stack,
        k,
    ) by {
        assert(waiting(source, done, instructions, pending, k));
        assert(stack[k] == pending[k]);
        assert(pending[k] < pending[top]);
        if k + 1 == stack.len() {
            lemma_closed_run_pair(source, pending[k] + 1, open, done);
        } else {
            assert(stack[k + 1] == pending[k + 1]);
        }
    }
    assert forall|k: int, l: int| 0 <= k < l < stack.len() implies stack[k] < stack[l] by {
        assert(stack[k] == pending[k] && stack[l] == pending[l]);
    }
    assert forall|position: int| 0 <= position < done + 1 implies #[trigger] settled(
        source,
        done + 1,
        next,
        stack,
        position,
    ) by {
        if position < done && position != open {
            assert(settled(source, done, instructions, pending, position));
            if absent(stack, position) {
                assert forall|k: int| 0 <= k < pending.len() implies pending[k] != position by {
                    if k < top {
                        assert(stack[k] == pending[k]);
                    }
                }
            }
        }
    }
    assert forall|k: int, close: int| 0 <= k < stack.len() && close < done + 1 implies !matched(
        source,
        stack[k] as int,
        close,
    ) by {
        assert(stack[k] == pending[k]);
        assert(pending[k] < pending[top]);
        if matched(source, stack[k] as int, close) && close == done {
            lemma_opener_unique(source, stack[k] as int, open, done);
        }
    }
}

proof fn lemma_scan_stray(
    source: Seq<u8>,
    done: int,
    instructions: Seq<Instruction>,
    pending: Seq<usize>,
)
    requires
        scanned(source, done, instructions, pending),
        done < source.len(),
        source[done] == CLOSE,
        pending.len() == 0,
    ensures
        scanned(source, done + 1, instructions.push(Instruction::JumpBack(None)), pending),
{
    let next = instructions.push(Instruction::JumpBack(None));
    assert forall|open: int| !matched(source, open, done) by {
        if matched(source, open, done) {
            assert(settled(source, done, instructions, pending, open));
            lemma_pair_compiles(source, open, done);
        }
    }
    assert forall|position: int| 0 <= position < done + 1 implies #[trigger] settled(
        source,
        done + 1,
        next,
        pending,
        position,
    ) by {
        if position < done {
            assert(settled(source, done, instructions, pending, position));
        }
    }
}

proof fn lemma_scan_done(source: Seq<u8>, instructions: Seq<Instruction>, pending: Seq<usize>)
    requires
        scanned(source, source.len() as int, instructions, pending),
    ensures
        instructions == compiled(source),
{
    let done = source.len() as int;
    assert forall|position: int| 0 <= position < done implies instructions[position]
        == instruction_at(source, position) by {
        assert(settled(source, done, instructions, pending, position));
        if !absent(pending, position) {
            let k = choose|k: int| 0 <= k < pending.len() && pending[k] == position;
            assert(waiting(source, done, instructions, pending, k));
            assert forall|close: int| !matched(source, position, close) by {
                assert(!matched(source, pending[k] as int, close));
            }
        }
    }
    assert(instructions =~= compiled(source));
}

/// A compiled program.
#[derive(Debug)]
pub struct Program {
    instructions: Vec<Instruction>,
}

impl View for Program {
    type V = Seq<Instruction>;

    closed spec fn view(&self) -> Seq<Instruction> {
        self.instructions@
    }
}

impl Program {
    /// Every jump lands on an instruction of the program.
    #[verifier::type_invariant]
    pub open spec fn jumps_in_range(self) -> bool {
        in_range(self@)
    }

    /// Compiles source bytes in one pass from left to right, with a stack of
    /// the opening brackets that wait for their partner. Compiling never
    /// fails: a bracket without a partner gets no target, and is a fault only
    /// if it is executed.
    pub fn from_bytes(source: &[u8]) -> (program: Program)
        ensures
            program@ == compiled(source@),
            balanced(source@) ==> resolved(program@),
    {
        let mut pending: Vec<usize> = Vec::new();
        let mut instructions: Vec<Instruction> = Vec::new();
        let length = source.len();
        let mut i: usize = 0;
        while i < length
            invariant
                length == source@.len(),
                scanned(source@, i as int, instructions@, pending@),
            decreases length - i,
        {
            let byte = source[i];
            if byte == OPEN {
                proof {
                    lemma_scan_open(source@, i as int, instructions@, pending@);
                }
                pending.push(i);
                instructions.push(Instruction::JumpIfZero(None));
            } else if byte == CLOSE {
                let ghost waiting = pending@;
                match pending.pop() {
                    Some(open) => {
                        proof {
                            lemma_scan_close(source@, i as int, instructions@, waiting);
                        }
                        instructions[open] = Instruction::JumpIfZero(Some(i));
                        instructions.push(Instruction::JumpBack(Some(open)));
                    },
                    None => {
                        proof {
                            lemma_scan_stray(source@, i as int, instructions@, pending@);
                        }
                        instructions.push(Instruction::JumpBack(None));
                    },
                }
            } else {
                proof {
                    lemma_scan_plain(source@, i as int, instructions@, pending@);
                }
                let instruction = if byte == RIGHT {
                    Instruction::MoveRight
                } else if byte == LEFT {
                    Instruction::MoveLeft
                } else if byte == PLUS {
                    Instruction::Increment
                } else if byte == MINUS {
                    Instruction::Decrement
                } else if byte == DOT {
                    Instruction::OutputByte
                } else if byte == COMMA {
                    Instruction::InputByte
                } else {
                    Instruction::NoOp
                };
                instructions.push(instruction);
            }
            i += 1;
        }
        proof {
            lemma_scan_done(source@, instructions@, pending@);
            lemma_compiled_in_range(source@);
            if balanced(source@) {
                lemma_balanced_resolved(source@);
            }
        }
        Program { instructions }
    }

    /// Compiles source text, byte by byte.
    pub fn new(code: &str) -> (program: Program)
        ensures
            program@ == compiled(code.spec_bytes()),
            balanced(code.spec_bytes()) ==> resolved(program@),
    {
        Program::from_bytes(code.as_bytes())
    }

    /// The number of instructions.
    pub fn len(&self) -> (len: usize)
        ensures
            len == self@.len(),
    {
        self.instructions.len()
    }

    /// The instruction at `index`, or `None` past the end of the program.
    pub fn instruction(&self, index: usize) -> (instruction: Option<&Instruction>)
        ensures
            self@.len() <= usize::MAX,
            index < self@.len() ==> instruction == Some(&self@[index as int]),
            index >= self@.len() ==> instruction is None,
    {
        if index < self.instructions.len() {
            Some(&self.instructions[index])
        } else {
            None
        }
    }
}

} // verus!
