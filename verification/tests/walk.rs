use rebf::{Channels, Computation, MachineState, Operation, Walk, AST};

/// Steps to the end of the program and counts the steps that entered a
/// loop body.
fn step_to_end(walk: &mut Walk, machine: &mut MachineState, io: &mut Channels) -> u64 {
    let mut repetitions = 0;
    let mut steps = 0;
    while !walk.is_finished() {
        if walk.step(machine, io) {
            repetitions += 1;
        }
        steps += 1;
        assert!(steps < 1_000_000);
    }
    repetitions
}

#[test]
fn walk_of_the_empty_program() {
    let tree = AST::from_string(String::new());
    let mut machine = MachineState::new();
    let mut io = Channels::new(Vec::new());
    let mut walk = Walk::new(&tree);

    assert!(!walk.is_finished());
    assert_eq!(walk.next_operation(), None);
    assert!(!walk.step(&mut machine, &mut io));
    assert!(walk.is_finished());
    assert_eq!(machine.memory(), &vec![0u8]);
}

#[test]
fn step_of_a_finished_walk_changes_nothing() {
    let tree = AST::from_string(String::from("+"));
    let mut machine = MachineState::new();
    let mut io = Channels::new(Vec::new());
    let mut walk = Walk::new(&tree);
    step_to_end(&mut walk, &mut machine, &mut io);

    assert!(!walk.step(&mut machine, &mut io));

    assert!(walk.is_finished());
    assert_eq!(walk.next_operation(), None);
    assert_eq!(machine.memory(), &vec![1u8]);
}

#[test]
fn walk_executes_one_instruction_per_step() {
    let tree = AST::from_string(String::from("+>-"));
    let mut machine = MachineState::new();
    let mut io = Channels::new(Vec::new());
    let mut walk = Walk::new(&tree);

    assert_eq!(
        walk.next_operation(),
        Some(Operation::Change(Computation::Add))
    );
    assert!(!walk.step(&mut machine, &mut io));
    assert_eq!(machine.memory(), &vec![1u8]);

    assert!(!walk.step(&mut machine, &mut io));
    assert_eq!(machine.memory(), &vec![1u8, 0]);
    assert_eq!(
        walk.next_operation(),
        Some(Operation::Change(Computation::Substract))
    );

    assert!(!walk.step(&mut machine, &mut io));
    assert_eq!(machine.memory(), &vec![1u8, 255]);
    assert_eq!(walk.next_operation(), None);
    assert!(!walk.is_finished());

    // Behind the run, then the end marker.
    assert!(!walk.step(&mut machine, &mut io));
    assert!(!walk.is_finished());
    assert!(!walk.step(&mut machine, &mut io));
    assert!(walk.is_finished());
}

#[test]
fn walk_reports_each_repetition() {
    let tree = AST::from_string(String::from("++[>+++[-]<-]"));
    let mut machine = MachineState::new();
    let mut io = Channels::new(Vec::new());
    let mut walk = Walk::new(&tree);

    let repetitions = step_to_end(&mut walk, &mut machine, &mut io);

    assert_eq!(repetitions, 8);
    assert_eq!(machine.memory(), &vec![0u8, 0]);
}

#[test]
fn walk_skips_a_loop_on_a_zero_cell() {
    let tree = AST::from_string(String::from("[.]."));
    let mut machine = MachineState::new();
    let mut io = Channels::new(Vec::new());
    let mut walk = Walk::new(&tree);

    let repetitions = step_to_end(&mut walk, &mut machine, &mut io);

    assert_eq!(repetitions, 0);
    assert_eq!(io.output(), &vec![0u8]);
}

#[test]
fn walk_and_run_agree() {
    let text = "++++++++[>++++[>++>+++>+++>+<<<<-]>+>+>->>+[<]<-]>>.>---.+++++++..+++.>>.<-.<.+++.------.--------.>>+.>++.#";
    let tree = AST::from_string(String::from(text));

    let mut stepped = MachineState::new();
    let mut stepped_io = Channels::new(Vec::new());
    let mut walk = Walk::new(&tree);
    let repetitions = step_to_end(&mut walk, &mut stepped, &mut stepped_io);

    let mut whole = MachineState::new();
    let mut whole_io = Channels::new(Vec::new());
    assert!(whole.run(&tree, &mut whole_io, repetitions).is_ok());

    assert_eq!(stepped.memory(), whole.memory());
    assert_eq!(stepped.pointer(), whole.pointer());
    assert_eq!(stepped_io.output(), whole_io.output());
    assert_eq!(stepped_io.diagnostics(), whole_io.diagnostics());
    assert_eq!(stepped_io.output(), &b"Hello World!\n".to_vec());

    let mut short = MachineState::new();
    let mut short_io = Channels::new(Vec::new());
    assert!(short.run(&tree, &mut short_io, repetitions - 1).is_err());
}

#[test]
fn walk_awaits_input_before_a_read_without_input() {
    let tree = AST::from_string(String::from("+,.,."));
    let mut machine = MachineState::new();
    let mut io = Channels::new(Vec::new());
    let mut walk = Walk::new(&tree);

    assert!(!walk.awaits_input(&io));
    walk.step(&mut machine, &mut io);
    assert_eq!(walk.next_operation(), Some(Operation::Read));
    assert!(walk.awaits_input(&io));

    io.feed(65);
    assert!(!walk.awaits_input(&io));
    walk.step(&mut machine, &mut io);
    assert_eq!(machine.get_current(), 65);

    walk.step(&mut machine, &mut io);
    assert_eq!(io.drain_output(), vec![65u8]);
    assert_eq!(io.output(), &Vec::<u8>::new());

    // No more input: the cell keeps its value.
    assert!(walk.awaits_input(&io));
    walk.step(&mut machine, &mut io);
    assert_eq!(machine.get_current(), 65);
    walk.step(&mut machine, &mut io);
    assert_eq!(io.drain_output(), vec![65u8]);
}

#[test]
fn drained_diagnostics_start_again_empty() {
    let tree = AST::from_string(String::from("#+#"));
    let mut machine = MachineState::new();
    let mut io = Channels::new(Vec::new());
    let mut walk = Walk::new(&tree);

    walk.step(&mut machine, &mut io);
    assert_eq!(io.drain_diagnostics(), " 00 < \n");
    assert_eq!(io.diagnostics(), "");

    walk.step(&mut machine, &mut io);
    walk.step(&mut machine, &mut io);
    assert_eq!(io.drain_diagnostics(), " 01 < \n");
}
