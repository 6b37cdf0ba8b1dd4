use rebf::{Channels, MachineState, RunError, AST};

fn run_text(text: &str, input: &[u8], budget: u64) -> (MachineState, Channels, bool) {
    let tree = AST::from_string(String::from(text));
    let mut machine = MachineState::new();
    let mut io = Channels::new(input.to_vec());
    let finished = machine.run(&tree, &mut io, budget).is_ok();
    (machine, io, finished)
}

#[test]
fn hello_world() {
    let mut machine = MachineState::new();
    let mut io = Channels::new(Vec::new());

    let instructions = String::from(
        "++++++++[>++++[>++>+++>+++>+<<<<-]>+>+>->>+[<]<-]>>.>---.+++++++..+++.>>.<-.<.+++.------.--------.>>+.>++.",
    );

    let ast = AST::from(&mut instructions.chars());

    let memory = machine
        .run(&ast, &mut io, u64::MAX)
        .expect("An error occured");
    let checked: Vec<u8> = vec![0x00, 0x00, 0x48, 0x64, 0x57, 0x21, 0x0A];

    for i in 0..checked.len() {
        assert_eq!(memory[i], checked[i]);
    }
    assert_eq!(io.output(), &b"Hello World!\n".to_vec());
    assert_eq!(io.diagnostics(), "");
}

#[test]
fn prints_hi() {
    let text = format!(
        "{}.{}.>{}.",
        "+".repeat(0x48),
        "+".repeat(0x69 - 0x48),
        "+".repeat(0x0A)
    );

    let (machine, io, finished) = run_text(&text, &[], 0);

    assert!(finished);
    assert_eq!(io.output(), &vec![0x48u8, 0x69, 0x0A]);
    assert_eq!(io.diagnostics(), "");
    assert_eq!(machine.memory(), &vec![0x69u8, 0x0A]);
    assert_eq!(machine.pointer(), 1);
}

#[test]
fn empty_program_changes_nothing() {
    let (machine, io, finished) = run_text("", &[1], 0);

    assert!(finished);
    assert_eq!(machine.memory(), &vec![0u8]);
    assert_eq!(machine.pointer(), 0);
    assert_eq!(io.output(), &Vec::<u8>::new());
}

#[test]
fn empty_loop_on_zero_cell_does_nothing() {
    let (machine, io, finished) = run_text("[]", &[], 0);

    assert!(finished);
    assert_eq!(machine.memory(), &vec![0u8]);
    assert_eq!(machine.pointer(), 0);
    assert_eq!(io.output(), &Vec::<u8>::new());
    assert_eq!(io.diagnostics(), "");
}

#[test]
fn loop_on_zero_cell_skips_its_body() {
    let (machine, io, finished) = run_text("[.+>].", &[], 0);

    assert!(finished);
    assert_eq!(machine.memory(), &vec![0u8]);
    assert_eq!(io.output(), &vec![0u8]);
}

#[test]
fn loop_checks_the_cell_before_each_repetition() {
    let (machine, io, finished) = run_text("+++[.-].", &[], 3);

    assert!(finished);
    assert_eq!(io.output(), &vec![3u8, 2, 1, 0]);
    assert_eq!(machine.memory(), &vec![0u8]);
}

#[test]
fn normal_loop_prints_while_the_cell_is_not_zero() {
    let tree = AST::from_string(String::from("[.]."));
    let mut machine = MachineState::new();
    let mut io = Channels::new(Vec::new());
    machine.change(&rebf::Computation::Add);

    let result = machine.run(&tree, &mut io, 5);

    assert_eq!(result, Err(RunError::BudgetExhausted));
    assert_eq!(io.output(), &vec![1u8, 1, 1, 1, 1]);
}

#[test]
fn endless_loop_stops_when_the_budget_is_spent() {
    let tree = AST::from_string(String::from("+[]."));
    let mut machine = MachineState::new();
    let mut io = Channels::new(Vec::new());

    let result = machine.run(&tree, &mut io, 1000);

    assert_eq!(result, Err(RunError::BudgetExhausted));
    assert_eq!(machine.memory(), &vec![1u8]);
    assert_eq!(io.output(), &Vec::<u8>::new());
}

#[test]
fn budget_counts_loop_repetitions() {
    let (_, _, with_three) = run_text("+++[-]", &[], 3);
    let (machine, _, with_two) = run_text("+++[-]", &[], 2);

    assert!(with_three);
    assert!(!with_two);
    assert_eq!(machine.memory(), &vec![1u8]);
}

#[test]
fn budget_counts_repetitions_of_nested_loops() {
    // Two outer repetitions, each with three inner ones.
    let text = "++[>+++[-]<-]";
    let (machine, _, with_eight) = run_text(text, &[], 8);
    let (_, _, with_seven) = run_text(text, &[], 7);

    assert!(with_eight);
    assert!(!with_seven);
    assert_eq!(machine.memory(), &vec![0u8, 0]);
}

#[test]
fn larger_budget_gives_the_same_result() {
    let text = "++++[>++<-]>.";
    let (small_machine, small_io, small) = run_text(text, &[], 4);
    let (large_machine, large_io, large) = run_text(text, &[], u64::MAX);

    assert!(small);
    assert!(large);
    assert_eq!(small_machine.memory(), large_machine.memory());
    assert_eq!(small_machine.pointer(), large_machine.pointer());
    assert_eq!(small_io.output(), large_io.output());
    assert_eq!(small_io.output(), &vec![8u8]);
}

#[test]
fn run_hands_back_the_tape() {
    let tree = AST::from_string(String::from("+>++>+++<"));
    let mut machine = MachineState::new();
    let mut io = Channels::new(Vec::new());

    assert_eq!(machine.run(&tree, &mut io, 0), Ok(&vec![1u8, 2, 3]));
    assert_eq!(machine.pointer(), 1);
}

#[test]
fn program_copies_input_to_output() {
    let (machine, io, finished) = run_text(",[.,]", &[3, 2, 1, 0, 9], 10);

    assert!(finished);
    assert_eq!(io.output(), &vec![3u8, 2, 1]);
    assert_eq!(machine.memory(), &vec![0u8]);
}

#[test]
fn read_at_end_of_input_keeps_the_cell() {
    let (machine, io, finished) = run_text("+++,.,.", &[5], 0);

    assert!(finished);
    assert_eq!(io.output(), &vec![5u8, 5]);
    assert_eq!(machine.memory(), &vec![5u8]);
}

#[test]
fn moving_left_of_the_origin_stays_at_the_origin() {
    let (machine, _, finished) = run_text("<<<+", &[], 0);

    assert!(finished);
    assert_eq!(machine.pointer(), 0);
    assert_eq!(machine.memory(), &vec![1u8]);
}

#[test]
fn program_wraps_cells_around() {
    let (machine, io, finished) = run_text("-.+.", &[], 0);

    assert!(finished);
    assert_eq!(io.output(), &vec![255u8, 0]);
    assert_eq!(machine.memory(), &vec![0u8]);
}

#[test]
fn debug_writes_to_the_diagnostic_channel_only() {
    let (_, io, finished) = run_text("+>++#<.", &[], 0);

    assert!(finished);
    assert_eq!(io.diagnostics(), " 01    02 < \n");
    assert_eq!(io.output(), &vec![1u8]);
}

#[test]
fn machine_can_run_a_second_program() {
    let mut machine = MachineState::new();
    let mut io = Channels::new(Vec::new());
    let first = AST::from_string(String::from("++>"));
    let second = AST::from_string(String::from("+<."));

    assert!(machine.run(&first, &mut io, 0).is_ok());
    assert!(machine.run(&second, &mut io, 0).is_ok());

    assert_eq!(machine.memory(), &vec![2u8, 1]);
    assert_eq!(io.output(), &vec![2u8]);
}

#[test]
fn truncated_program_runs_up_to_the_stray_bracket() {
    let (_, io, finished) = run_text("+.]+.", &[], 0);

    assert!(finished);
    assert_eq!(io.output(), &vec![1u8]);
}
