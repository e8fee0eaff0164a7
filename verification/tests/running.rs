use rbf::instruction::Instruction;
use rbf::interpreter::Interpreter;
use rbf::machine::{Outcome, Stop};

const HELLO: &str =
    "++++++++[>++++[>++>+++>+++>+<<<<-]>+>+>->>+[<]<-]>>.>---.+++++++..+++.";

const HELLO_WORLD: &str = "++++++++[>++++[>++>+++>+++>+<<<<-]>+>+>->>+[<]<-]>>.>---.+++++++..+++.\
                           >>.<-.<.+++.------.--------.>>+.>++.";

#[test]
fn adding_minus_one_to_zero_gives_255() {
    let mut interpreter = Interpreter::new("-").unwrap();
    let report = interpreter.run(&vec![], 10);
    assert_eq!(report.stop, Stop::Halted);
    assert_eq!(interpreter.tape()[0], 255);
}

#[test]
fn adding_one_to_255_gives_zero() {
    let mut interpreter = Interpreter::new("-+").unwrap();
    assert_eq!(interpreter.step(None), Outcome::Advanced);
    assert_eq!(interpreter.tape()[0], 255);
    assert_eq!(interpreter.step(None), Outcome::Advanced);
    assert_eq!(interpreter.tape()[0], 0);
}

#[test]
fn additions_wrap_modulo_256() {
    let mut up = Interpreter::new(&"+".repeat(300)).unwrap();
    up.run(&vec![], 10);
    assert_eq!(up.tape()[0], 44);
    let mut down = Interpreter::new(&"-".repeat(300)).unwrap();
    down.run(&vec![], 10);
    assert_eq!(down.tape()[0], 212);
    let mut far = Interpreter::new(&"+".repeat(32767)).unwrap();
    far.run(&vec![], 10);
    assert_eq!(far.tape()[0], 255);
    let mut far_down = Interpreter::new(&"-".repeat(32767)).unwrap();
    far_down.run(&vec![], 10);
    assert_eq!(far_down.tape()[0], 1);
}

#[test]
fn hello_program_prints_hello() {
    let mut interpreter = Interpreter::new(HELLO).unwrap();
    let report = interpreter.run(&vec![], 1_000_000);
    assert_eq!(report.output, b"Hello".to_vec());
    assert_eq!(report.stop, Stop::Halted);
    assert_eq!(report.consumed, 0);
}

#[test]
fn hello_world_program_prints_hello_world() {
    let mut interpreter = Interpreter::new(HELLO_WORLD).unwrap();
    let report = interpreter.run(&vec![], 1_000_000);
    assert_eq!(report.output, b"Hello World!\n".to_vec());
    assert_eq!(report.stop, Stop::Halted);
}

#[test]
fn input_then_print_echoes_the_byte() {
    let mut interpreter = Interpreter::new(",.").unwrap();
    let report = interpreter.run(&vec![65], 100);
    assert_eq!(report.output, vec![65]);
    assert_eq!(report.consumed, 1);
    assert_eq!(report.stop, Stop::Halted);
}

#[test]
fn empty_loop_on_a_zero_cell_ends_at_once() {
    let mut interpreter = Interpreter::new("[]").unwrap();
    let report = interpreter.run(&vec![], 100);
    assert_eq!(report.output, Vec::<u8>::new());
    assert_eq!(report.consumed, 0);
    assert_eq!(report.stop, Stop::Halted);
    assert_eq!(interpreter.data_pointer(), 0);
    assert!(interpreter.tape().iter().all(|cell| *cell == 0));
    assert_eq!(interpreter.program_pointer(), 2);
}

#[test]
fn forward_jump_lands_after_the_closing_bracket() {
    let mut interpreter = Interpreter::new("[+.]-").unwrap();
    assert_eq!(interpreter.step(None), Outcome::Advanced);
    assert_eq!(interpreter.program_pointer(), 4);
    assert_eq!(interpreter.step(None), Outcome::Advanced);
    assert_eq!(interpreter.tape()[0], 255);
    assert_eq!(interpreter.step(None), Outcome::Halted);
}

#[test]
fn backward_jump_lands_after_the_opening_bracket() {
    let mut interpreter = Interpreter::new("++[-]").unwrap();
    assert_eq!(interpreter.step(None), Outcome::Advanced);
    assert_eq!(interpreter.step(None), Outcome::Advanced);
    assert_eq!(interpreter.program_pointer(), 2);
    assert_eq!(interpreter.step(None), Outcome::Advanced);
    assert_eq!(interpreter.tape()[0], 1);
    assert_eq!(interpreter.step(None), Outcome::Advanced);
    assert_eq!(interpreter.program_pointer(), 2);
    assert_eq!(interpreter.step(None), Outcome::Advanced);
    assert_eq!(interpreter.tape()[0], 0);
    assert_eq!(interpreter.step(None), Outcome::Advanced);
    assert_eq!(interpreter.program_pointer(), 4);
    assert_eq!(interpreter.step(None), Outcome::Halted);
}

#[test]
fn loop_with_a_body_of_one_instruction_runs_down_to_zero() {
    let mut interpreter = Interpreter::new("+++[-]").unwrap();
    let report = interpreter.run(&vec![], 100);
    assert_eq!(report.stop, Stop::Halted);
    assert_eq!(interpreter.tape()[0], 0);
}

#[test]
fn empty_loop_on_a_cell_that_is_not_zero_never_ends() {
    let mut interpreter = Interpreter::new("+[]").unwrap();
    let report = interpreter.run(&vec![], 1000);
    assert_eq!(report.stop, Stop::OutOfSteps);
    assert_eq!(interpreter.tape()[0], 1);
    assert_eq!(report.output, Vec::<u8>::new());
}

#[test]
fn run_stops_after_the_allowed_number_of_steps() {
    let mut interpreter = Interpreter::new("+.+.+.").unwrap();
    let report = interpreter.run(&vec![], 4);
    assert_eq!(report.output, vec![1, 2]);
    assert_eq!(report.stop, Stop::OutOfSteps);
    assert_eq!(interpreter.program_pointer(), 4);
    let rest = interpreter.run(&vec![], 2);
    assert_eq!(rest.output, vec![3]);
    assert_eq!(rest.stop, Stop::Halted);
}

#[test]
fn run_without_steps_changes_nothing() {
    let mut interpreter = Interpreter::new("+.").unwrap();
    let report = interpreter.run(&vec![], 0);
    assert_eq!(report.output, Vec::<u8>::new());
    assert_eq!(report.stop, Stop::OutOfSteps);
    assert_eq!(interpreter.program_pointer(), 0);
    assert_eq!(interpreter.tape()[0], 0);
}

#[test]
fn run_of_an_empty_program_halts_at_once() {
    let mut interpreter = Interpreter::new("").unwrap();
    let report = interpreter.run(&vec![1, 2, 3], 10);
    assert_eq!(report.stop, Stop::Halted);
    assert_eq!(report.consumed, 0);
    assert_eq!(report.output, Vec::<u8>::new());
}

#[test]
fn input_takes_the_bytes_in_their_order() {
    let mut interpreter = Interpreter::new(",>,>,<<.>.>.").unwrap();
    let report = interpreter.run(&vec![7, 8, 9, 10], 100);
    assert_eq!(report.output, vec![7, 8, 9]);
    assert_eq!(report.consumed, 3);
    assert_eq!(report.stop, Stop::Halted);
}

#[test]
fn input_without_a_byte_left_stops_the_run() {
    let mut interpreter = Interpreter::new(",.,.").unwrap();
    let report = interpreter.run(&vec![33], 100);
    assert_eq!(report.output, vec![33]);
    assert_eq!(report.consumed, 1);
    assert_eq!(report.stop, Stop::OutOfInput);
    assert_eq!(interpreter.program_pointer(), 2);
    assert_eq!(interpreter.tape()[0], 33);
}

#[test]
fn step_asks_for_input_and_then_takes_it() {
    let mut interpreter = Interpreter::new(",.").unwrap();
    assert_eq!(interpreter.peek(None), Outcome::NeedsInput);
    assert_eq!(interpreter.step(None), Outcome::NeedsInput);
    assert_eq!(interpreter.program_pointer(), 0);
    assert_eq!(interpreter.peek(Some(200)), Outcome::Consumed);
    assert_eq!(interpreter.step(Some(200)), Outcome::Consumed);
    assert_eq!(interpreter.tape()[0], 200);
    assert_eq!(interpreter.program_pointer(), 1);
    assert_eq!(interpreter.step(None), Outcome::Printed(200));
    assert_eq!(interpreter.step(None), Outcome::Halted);
    assert_eq!(interpreter.program_pointer(), 2);
}

#[test]
fn step_ignores_a_byte_that_no_instruction_asks_for() {
    let mut interpreter = Interpreter::new("+.").unwrap();
    assert_eq!(interpreter.step(Some(9)), Outcome::Advanced);
    assert_eq!(interpreter.tape()[0], 1);
    assert_eq!(interpreter.step(Some(9)), Outcome::Printed(1));
    assert_eq!(interpreter.step(Some(9)), Outcome::Halted);
}

#[test]
fn move_changes_the_data_pointer_only() {
    let mut interpreter = Interpreter::new(">>>+<<").unwrap();
    interpreter.run(&vec![], 10);
    assert_eq!(interpreter.data_pointer(), 1);
    assert_eq!(interpreter.tape()[3], 1);
    assert_eq!(interpreter.tape().iter().filter(|cell| **cell != 0).count(), 1);
}

#[test]
fn cell_before_the_tape_cannot_be_used() {
    let mut interpreter = Interpreter::new("<+").unwrap();
    let report = interpreter.run(&vec![], 10);
    assert_eq!(report.stop, Stop::OffTape);
    assert_eq!(interpreter.data_pointer(), usize::MAX);
    assert_eq!(interpreter.program_pointer(), 1);
    assert_eq!(interpreter.step(None), Outcome::OffTape);
    assert_eq!(interpreter.program_pointer(), 1);
}

#[test]
fn cell_after_the_tape_cannot_be_used() {
    let last = format!("{}+.", ">".repeat(29999));
    let mut on_tape = Interpreter::new(&last).unwrap();
    let report = on_tape.run(&vec![], 10);
    assert_eq!(report.stop, Stop::Halted);
    assert_eq!(report.output, vec![1]);
    assert_eq!(on_tape.tape()[29999], 1);

    for access in [".", ",", "+", "-", "[]"] {
        let text = format!("{}{}", ">".repeat(30000), access);
        let mut off_tape = Interpreter::new(&text).unwrap();
        let report = off_tape.run(&vec![5], 10);
        assert_eq!(report.stop, Stop::OffTape);
        assert_eq!(report.consumed, 0);
        assert_eq!(off_tape.data_pointer(), 30000);
        assert_eq!(off_tape.program_pointer(), 1);
    }
}

#[test]
fn pointer_may_leave_the_tape_and_come_back() {
    let mut interpreter = Interpreter::new("<<>>+.").unwrap();
    let report = interpreter.run(&vec![], 10);
    assert_eq!(report.stop, Stop::Halted);
    assert_eq!(report.output, vec![1]);
    assert_eq!(interpreter.data_pointer(), 0);
}

#[test]
fn brackets_left_unresolved_and_no_ops_do_nothing() {
    let mut interpreter = Interpreter::new("").unwrap();
    interpreter.program = vec![
        Instruction::NOOP,
        Instruction::JMPF,
        Instruction::JMPB,
        Instruction::INCV_C(2),
        Instruction::PRNT,
    ];
    let report = interpreter.run(&vec![], 10);
    assert_eq!(report.output, vec![2]);
    assert_eq!(report.stop, Stop::Halted);
    assert_eq!(interpreter.program_pointer(), 5);
}

#[test]
fn jump_to_its_own_position_falls_through() {
    let mut interpreter = Interpreter::new("").unwrap();
    interpreter.program = vec![Instruction::JUMP_C(0), Instruction::PRNT];
    let report = interpreter.run(&vec![], 10);
    assert_eq!(report.output, vec![0]);
    assert_eq!(report.stop, Stop::Halted);
}

#[test]
fn copy_loop_moves_a_value_to_the_next_cell() {
    let mut interpreter = Interpreter::new(",[->+<]>.").unwrap();
    let report = interpreter.run(&vec![12], 1000);
    assert_eq!(report.output, vec![12]);
    assert_eq!(report.stop, Stop::Halted);
    assert_eq!(interpreter.tape()[0], 0);
    assert_eq!(interpreter.tape()[1], 12);
}

#[test]
fn nested_loops_multiply() {
    let mut interpreter = Interpreter::new("++++[>+++[>++<-]<-]>>.").unwrap();
    let report = interpreter.run(&vec![], 10_000);
    assert_eq!(report.output, vec![24]);
    assert_eq!(report.stop, Stop::Halted);
}

#[test]
fn echo_until_a_zero_byte() {
    let mut interpreter = Interpreter::new(",[.,]").unwrap();
    let report = interpreter.run(&vec![104, 105, 0, 106], 1000);
    assert_eq!(report.output, vec![104, 105]);
    assert_eq!(report.consumed, 3);
    assert_eq!(report.stop, Stop::Halted);
}

#[test]
fn interpreter_from_new_is_well_formed_until_a_jump_leads_nowhere() {
    let mut interpreter = Interpreter::new("+[-]").unwrap();
    assert!(interpreter.is_well_formed());
    interpreter.program = vec![Instruction::JUMP_C(1), Instruction::JUMP_C(0)];
    assert!(interpreter.is_well_formed());
    interpreter.program = vec![Instruction::JUMP_C(2), Instruction::JUMP_C(0)];
    assert!(!interpreter.is_well_formed());
    interpreter.program = vec![Instruction::PRNT];
    assert!(interpreter.is_well_formed());
}
