use brainf_ck::program::{Instruction, Program};
use brainf_ck::{Interpreter, InterpreterError};

const LIMIT: u64 = 1_000_000;

fn engine(input: &[u8]) -> Interpreter {
    Interpreter::new(input.to_vec(), Vec::new())
}

fn assert_reset(engine: &Interpreter) {
    assert_eq!(engine.machine().program_counter(), 0);
    assert_eq!(engine.machine().memory_address(), 0);
    assert_eq!(engine.machine().cell(), 0);
}

#[test]
fn empty_program_succeeds() {
    let mut engine = engine(&[]);
    assert_eq!(engine.run("", LIMIT), Some(Ok(())));
    assert_eq!(engine.run("", 0), Some(Ok(())));
    assert!(engine.output().is_empty());
}

#[test]
fn increment_256_times_faults_at_the_last() {
    let code = "+".repeat(256);
    let mut engine = engine(&[]);
    assert_eq!(
        engine.run(&code, LIMIT),
        Some(Err(InterpreterError::DataOverflow))
    );
    assert_reset(&engine);

    let program = Program::new(&code);
    assert_eq!(
        engine.execute(&program, LIMIT),
        Some(Err(InterpreterError::DataOverflow))
    );
    assert_eq!(engine.machine().program_counter(), 255);
    assert_eq!(engine.machine().cell(), 255);
}

#[test]
fn increment_255_times_succeeds() {
    let code = "+".repeat(255) + ".";
    let mut engine = engine(&[]);
    assert_eq!(engine.run(&code, LIMIT), Some(Ok(())));
    assert_eq!(engine.output(), &vec![255]);
}

#[test]
fn decrement_on_a_fresh_tape_faults_at_once() {
    let mut engine = engine(&[]);
    assert_eq!(
        engine.run("-", LIMIT),
        Some(Err(InterpreterError::DataOverflow))
    );
    let program = Program::new("-");
    assert_eq!(
        engine.execute(&program, LIMIT),
        Some(Err(InterpreterError::DataOverflow))
    );
    assert_eq!(engine.machine().program_counter(), 0);
}

#[test]
fn move_left_on_a_fresh_tape_faults_at_once() {
    let mut engine = engine(&[]);
    assert_eq!(
        engine.run("<", LIMIT),
        Some(Err(InterpreterError::MemoryAddrsOverflow))
    );
    let program = Program::new("<");
    assert_eq!(
        engine.execute(&program, LIMIT),
        Some(Err(InterpreterError::MemoryAddrsOverflow))
    );
    assert_eq!(engine.machine().program_counter(), 0);
    assert_eq!(engine.machine().memory_address(), 0);
}

#[test]
fn move_right_reaches_the_last_cell_and_no_further() {
    let mut engine = engine(&[]);
    let code = ">".repeat(29_999) + "+.";
    assert_eq!(engine.run(&code, LIMIT), Some(Ok(())));
    assert_eq!(engine.output(), &vec![1]);
    let code = ">".repeat(30_000);
    assert_eq!(
        engine.run(&code, LIMIT),
        Some(Err(InterpreterError::MemoryAddrsOverflow))
    );
    let program = Program::new(&code);
    engine.execute(&program, LIMIT);
    assert_eq!(engine.machine().program_counter(), 29_999);
    assert_eq!(engine.machine().memory_address(), 29_999);
}

#[test]
fn echo_reads_one_byte_and_writes_it() {
    let mut engine = engine(&[65]);
    assert_eq!(engine.run(",.", LIMIT), Some(Ok(())));
    assert_eq!(engine.output(), &vec![65]);
    assert_reset(&engine);
}

#[test]
fn input_is_read_in_order_and_only_once() {
    let mut engine = engine(&[1, 2, 3]);
    assert_eq!(engine.run(",.,.", LIMIT), Some(Ok(())));
    assert_eq!(engine.output(), &vec![1, 2]);
    assert_eq!(engine.run(",.", LIMIT), Some(Ok(())));
    assert_eq!(engine.output(), &vec![1, 2, 3]);
    assert_eq!(
        engine.run(",.", LIMIT),
        Some(Err(InterpreterError::IoReadFail))
    );
    assert_eq!(engine.output(), &vec![1, 2, 3]);
}

#[test]
fn read_at_the_end_of_input_faults() {
    let mut engine = engine(&[]);
    assert_eq!(
        engine.run("+,", LIMIT),
        Some(Err(InterpreterError::IoReadFail))
    );
    assert_reset(&engine);
}

#[test]
fn output_is_appended_to_the_writer() {
    let mut engine = Interpreter::new(Vec::new(), vec![7]);
    assert_eq!(engine.run("+.+.", LIMIT), Some(Ok(())));
    assert_eq!(engine.output(), &vec![7, 1, 2]);
}

#[test]
fn output_written_before_a_fault_stays() {
    let mut engine = engine(&[]);
    assert_eq!(
        engine.run("+.+.<", LIMIT),
        Some(Err(InterpreterError::MemoryAddrsOverflow))
    );
    assert_eq!(engine.output(), &vec![1, 2]);
}

#[test]
fn loop_over_a_zero_cell_is_skipped() {
    let mut engine = engine(&[]);
    assert_eq!(engine.run("[-]+.", LIMIT), Some(Ok(())));
    assert_eq!(engine.output(), &vec![1]);
    assert_eq!(engine.run("[<]", LIMIT), Some(Ok(())));
}

#[test]
fn jump_back_continues_behind_the_opening_bracket() {
    let mut engine = engine(&[]);
    assert_eq!(
        engine.run("+[.-]", LIMIT),
        Some(Err(InterpreterError::DataOverflow))
    );
    assert_eq!(engine.output(), &vec![1, 0]);
}

#[test]
fn decrement_loop_twice_on_one_engine() {
    let mut engine = engine(&[]);
    let program = Program::new("[-]");
    for _ in 0..2 {
        for _ in 0..3 {
            assert_eq!(engine.exec(&Instruction::Increment), Ok(()));
        }
        assert_eq!(engine.machine().cell(), 3);
        assert_eq!(
            engine.execute(&program, LIMIT),
            Some(Err(InterpreterError::DataOverflow))
        );
        assert_eq!(engine.machine().cell(), 0);
        assert_eq!(engine.machine().program_counter(), 1);
        engine.reset();
        assert_reset(&engine);

        for _ in 0..3 {
            assert_eq!(engine.exec(&Instruction::Increment), Ok(()));
        }
        assert_eq!(
            engine.run("[-]", LIMIT),
            Some(Err(InterpreterError::DataOverflow))
        );
        assert_reset(&engine);
    }
}

#[test]
fn decrement_loop_on_a_zero_cell_twice_on_one_engine() {
    let mut engine = engine(&[]);
    for _ in 0..2 {
        assert_eq!(engine.run("[-]", LIMIT), Some(Ok(())));
        assert_reset(&engine);
    }
}

#[test]
fn runs_do_not_see_each_others_cells() {
    let mut engine = engine(&[]);
    assert_eq!(engine.run("+++>++", LIMIT), Some(Ok(())));
    assert_reset(&engine);
    assert_eq!(engine.run(".>.", LIMIT), Some(Ok(())));
    assert_eq!(engine.output(), &vec![0, 0]);
}

#[test]
fn machine_is_reset_after_a_fault() {
    let mut engine = engine(&[]);
    assert_eq!(
        engine.run("+>+>-", LIMIT),
        Some(Err(InterpreterError::DataOverflow))
    );
    assert_reset(&engine);
    assert_eq!(engine.run(".>.", LIMIT), Some(Ok(())));
    assert_eq!(engine.output(), &vec![0, 0]);
}

#[test]
fn opening_bracket_without_partner_faults_only_when_reached() {
    let mut engine = engine(&[]);
    assert_eq!(
        engine.run("-[", LIMIT),
        Some(Err(InterpreterError::DataOverflow))
    );
    assert_eq!(
        engine.run("<[", LIMIT),
        Some(Err(InterpreterError::MemoryAddrsOverflow))
    );
    assert_eq!(
        engine.run("+[", LIMIT),
        Some(Err(InterpreterError::MissingRightBracket))
    );
    assert_eq!(
        engine.run("[", LIMIT),
        Some(Err(InterpreterError::MissingRightBracket))
    );
    let program = Program::new("+.[");
    assert_eq!(
        engine.execute(&program, LIMIT),
        Some(Err(InterpreterError::MissingRightBracket))
    );
    assert_eq!(engine.machine().program_counter(), 2);
    assert_eq!(engine.output(), &vec![1]);
}

#[test]
fn closing_bracket_without_partner_faults_only_when_reached() {
    let mut engine = engine(&[]);
    assert_eq!(
        engine.run("-]", LIMIT),
        Some(Err(InterpreterError::DataOverflow))
    );
    assert_eq!(
        engine.run("+]", LIMIT),
        Some(Err(InterpreterError::MissingLeftBracket))
    );
    assert_eq!(
        engine.run("[]]", LIMIT),
        Some(Err(InterpreterError::MissingLeftBracket))
    );
}

#[test]
fn limit_stops_a_loop_that_never_ends() {
    let mut engine = engine(&[]);
    assert_eq!(engine.run("+[><]", 10_000), None);
    assert_reset(&engine);
    assert_eq!(engine.run("+.", LIMIT), Some(Ok(())));
    assert_eq!(engine.output(), &vec![1]);
}

#[test]
fn limit_counts_executed_instructions() {
    let mut engine = engine(&[]);
    assert_eq!(engine.run("+++", 3), Some(Ok(())));
    assert_eq!(engine.run("+++", 2), None);
    assert_eq!(engine.run("+++", 0), None);
    let program = Program::new("+++.");
    assert_eq!(engine.execute(&program, 2), None);
    assert_eq!(engine.machine().program_counter(), 2);
    assert_eq!(engine.machine().cell(), 2);
    assert_eq!(engine.execute(&program, 2), Some(Ok(())));
    assert_eq!(engine.output(), &vec![3]);
}

#[test]
fn larger_limit_gives_the_same_outcome() {
    for limit in [5, 6, 1_000] {
        let mut engine = engine(&[4]);
        assert_eq!(
            engine.run(",.-.<", limit),
            Some(Err(InterpreterError::MemoryAddrsOverflow))
        );
        assert_eq!(engine.output(), &vec![4, 3]);
    }
}

#[test]
fn exec_reads_and_writes_the_buffers() {
    let mut engine = engine(&[9]);
    assert_eq!(engine.exec(&Instruction::InputByte), Ok(()));
    assert_eq!(engine.machine().cell(), 9);
    assert_eq!(engine.exec(&Instruction::OutputByte), Ok(()));
    assert_eq!(engine.output(), &vec![9]);
    assert_eq!(
        engine.exec(&Instruction::InputByte),
        Err(InterpreterError::IoReadFail)
    );
    assert_eq!(engine.machine().cell(), 9);
    assert_eq!(engine.machine().program_counter(), 0);
}

#[test]
fn run_starts_from_the_present_state() {
    let mut engine = engine(&[]);
    assert_eq!(engine.exec(&Instruction::Increment), Ok(()));
    assert_eq!(engine.exec(&Instruction::Increment), Ok(()));
    assert_eq!(engine.run(".", LIMIT), Some(Ok(())));
    assert_eq!(engine.output(), &vec![2]);
    assert_reset(&engine);
}

#[test]
fn comments_are_passed_over() {
    let mut engine = engine(&[]);
    assert_eq!(engine.run("add one: + then print: .", LIMIT), Some(Ok(())));
    assert_eq!(engine.output(), &vec![1]);
}
