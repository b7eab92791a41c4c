use tapevm::decode::decode_source;
use tapevm::exec::{interpret, Effect, ExecState, RunOutcome};
use tapevm::opcode::{Opcode, VmError};
use tapevm::tape::{Tape, TAPE_LEN};

fn chars(s: &str) -> Vec<char> {
    s.chars().collect()
}

fn no_input() -> Vec<Vec<char>> {
    Vec::new()
}

#[test]
fn empty_program_completes_with_no_output() {
    let program: Vec<Opcode> = vec![];
    assert_eq!(interpret(&program, &no_input(), 10), RunOutcome::Completed(vec![]));
}

#[test]
fn three_increments_then_output_give_one_byte_of_value_three() {
    let program = decode_source(&chars("h h h hhhhhhh")).unwrap();
    assert_eq!(interpret(&program, &no_input(), 100), RunOutcome::Completed(vec![3]));
}

#[test]
fn cell_increments_wrap_modulo_256() {
    let mut program = vec![Opcode::IncrCell; 256];
    program.push(Opcode::Output);
    assert_eq!(interpret(&program, &no_input(), 1000), RunOutcome::Completed(vec![0]));
}

#[test]
fn cell_value_is_net_count_modulo_256() {
    let mut program = vec![Opcode::IncrCell; 5];
    program.extend(vec![Opcode::DecrCell; 2]);
    program.push(Opcode::Output);
    assert_eq!(interpret(&program, &no_input(), 100), RunOutcome::Completed(vec![3]));
}

#[test]
fn decrementing_a_zero_cell_gives_255() {
    let program = vec![Opcode::DecrCell, Opcode::Output];
    assert_eq!(interpret(&program, &no_input(), 100), RunOutcome::Completed(vec![255]));
}

#[test]
fn pointer_ends_at_net_moves_modulo_tape_length() {
    let mut t = Tape::new();
    for _ in 0..3 {
        t.increment_pointer();
    }
    for _ in 0..5 {
        t.decrement_pointer();
    }
    assert_eq!(t.pointer, ((0i64 + 3 - 5).rem_euclid(30000)) as usize);
    assert_eq!(t.pointer, 29998);
}

#[test]
fn pointer_wraps_at_both_ends() {
    let mut t = Tape::new();
    t.decrement_pointer();
    assert_eq!(t.pointer, TAPE_LEN - 1);
    t.increment_pointer();
    assert_eq!(t.pointer, 0);
}

#[test]
fn cell_operations_wrap_at_both_ends() {
    let mut t = Tape::new();
    t.decrement_at_pointer();
    assert_eq!(t.cells[0], 255);
    t.increment_at_pointer();
    assert_eq!(t.cells[0], 0);
}

#[test]
fn countdown_loop_takes_exactly_one_plus_two_v_steps() {
    let mut program = vec![Opcode::IncrCell; 3];
    program.extend(vec![Opcode::LoopStart, Opcode::DecrCell, Opcode::LoopEnd]);
    assert_eq!(interpret(&program, &no_input(), 10), RunOutcome::Completed(vec![]));
    assert!(matches!(interpret(&program, &no_input(), 9), RunOutcome::OutOfSteps(_)));
}

#[test]
fn countdown_loop_on_zero_cell_skips_the_body() {
    let program = vec![Opcode::LoopStart, Opcode::DecrCell, Opcode::LoopEnd];
    assert_eq!(interpret(&program, &no_input(), 1), RunOutcome::Completed(vec![]));
}

#[test]
fn loop_body_runs_once_per_starting_cell_value() {
    let program = vec![
        Opcode::IncrCell,
        Opcode::IncrCell,
        Opcode::IncrCell,
        Opcode::LoopStart,
        Opcode::Output,
        Opcode::DecrCell,
        Opcode::LoopEnd,
    ];
    assert_eq!(interpret(&program, &no_input(), 100), RunOutcome::Completed(vec![3, 2, 1]));
}

#[test]
fn loop_start_without_matching_end_fails() {
    let program = vec![Opcode::LoopStart];
    assert_eq!(
        interpret(&program, &no_input(), 100),
        RunOutcome::Failed(VmError::UnterminatedLoop)
    );
    let nested = vec![Opcode::LoopStart, Opcode::LoopStart, Opcode::LoopEnd];
    assert_eq!(
        interpret(&nested, &no_input(), 100),
        RunOutcome::Failed(VmError::UnterminatedLoop)
    );
}

#[test]
fn loop_end_with_empty_stack_and_zero_cell_fails() {
    let program = vec![Opcode::LoopEnd];
    assert_eq!(
        interpret(&program, &no_input(), 100),
        RunOutcome::Failed(VmError::LoopStackEmpty)
    );
}

#[test]
fn loop_end_with_empty_stack_and_nonzero_cell_fails() {
    let program = vec![Opcode::IncrCell, Opcode::LoopEnd];
    assert_eq!(
        interpret(&program, &no_input(), 100),
        RunOutcome::Failed(VmError::LoopStackEmpty)
    );
}

#[test]
fn input_line_a_sets_the_cell_to_65() {
    let program = vec![Opcode::Input, Opcode::Output];
    let inputs = vec![chars("A")];
    assert_eq!(interpret(&program, &inputs, 100), RunOutcome::Completed(vec![65]));
}

#[test]
fn empty_input_line_fails_with_empty_input() {
    let program = vec![Opcode::Input];
    let inputs = vec![chars("")];
    assert_eq!(interpret(&program, &inputs, 100), RunOutcome::Failed(VmError::EmptyInput));
}

#[test]
fn input_takes_first_character_of_trimmed_line() {
    let program = vec![Opcode::Input, Opcode::Output];
    let inputs = vec![chars("  B \n")];
    assert_eq!(interpret(&program, &inputs, 100), RunOutcome::Completed(vec![66]));
}

#[test]
fn exhausted_input_reads_as_an_empty_line() {
    let program = vec![Opcode::Input];
    assert_eq!(
        interpret(&program, &no_input(), 100),
        RunOutcome::Failed(VmError::EmptyInput)
    );
}

#[test]
fn stepping_the_machine_by_hand() {
    let program = vec![Opcode::IncrCell, Opcode::Output, Opcode::Input];
    let mut state = ExecState::new();
    assert_eq!(state.step(&program), Ok(Effect::Quiet));
    assert_eq!(state.step(&program), Ok(Effect::Wrote(1)));
    assert_eq!(state.step(&program), Ok(Effect::Read));
    assert_eq!(state.instruction_pointer, 2);
    assert_eq!(state.supply_input(&chars("A")), Ok(()));
    assert_eq!(state.instruction_pointer, 3);
    assert_eq!(state.tape.cells[0], 65);
}
