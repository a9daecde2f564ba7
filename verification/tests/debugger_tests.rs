use canvas_vm::{Debugger, Grid, InputRequest, Instruction, Program};

fn create_test_grid() -> Grid {
    // two light red codels then one light yellow
    let rgba = vec![
        0xFF, 0xC0, 0xC0, 0xFF,
        0xFF, 0xC0, 0xC0, 0xFF,
        0xFF, 0xFF, 0xC0, 0xFF,
    ];
    Grid::from_rgba(3, 1, &rgba).unwrap()
}

fn program_of(instructions: Vec<Instruction>) -> Program {
    let mut program = Program::new(1, 1);
    for instr in instructions {
        program.add_instruction(instr);
    }
    program
}

fn empty_grid() -> Grid {
    Grid::from_rgba(1, 1, &[255, 255, 255, 255]).unwrap()
}

#[test]
fn test_debugger_creation() {
    let grid = create_test_grid();
    let debugger = Debugger::new(grid, 1, 3, 1).unwrap();

    assert!(!debugger.is_halted());
    assert_eq!(debugger.current_ip(), 0);
}

#[test]
fn test_debugger_step() {
    let grid = create_test_grid();
    let mut debugger = Debugger::new(grid, 1, 3, 1).unwrap();

    let state_before = debugger.state();
    assert_eq!(state_before.ip, 0);
    assert!(state_before.stack.is_empty());

    let step = debugger.step().unwrap();
    assert!(step.is_some());

    let state_after = debugger.state();
    assert_eq!(state_after.ip, 1);
}

#[test]
fn test_debugger_reset() {
    let grid = create_test_grid();
    let mut debugger = Debugger::new(grid, 1, 3, 1).unwrap();

    let _ = debugger.run_steps(5);

    debugger.reset();

    assert_eq!(debugger.current_ip(), 0);
    assert!(!debugger.is_halted());
    assert!(debugger.state().stack.is_empty());
}

#[test]
fn test_debugger_breakpoints() {
    let grid = create_test_grid();
    let mut debugger = Debugger::new(grid, 1, 3, 1).unwrap();

    debugger.add_breakpoint(1);
    assert!(debugger.breakpoints().contains(&1));

    debugger.remove_breakpoint(1);
    assert!(!debugger.breakpoints().contains(&1));
}

#[test]
fn test_debugger_trace() {
    let grid = create_test_grid();
    let mut debugger = Debugger::new(grid, 1, 3, 1).unwrap();
    debugger.set_record_trace(true);
    // the canonical table reads characters on the backward transition of
    // this image, so give the run enough input to finish
    debugger.load_input_text("AAAAAAAAAA");

    let _ = debugger.run();

    let trace = debugger.get_execution_trace();
    assert!(trace.steps.len() > 0);
    assert!(trace.completed);
}

#[test]
fn test_arithmetic_program_prints_five() {
    let program = program_of(vec![
        Instruction::Push(3),
        Instruction::Push(2),
        Instruction::Add,
        Instruction::OutNumber,
        Instruction::Halt,
    ]);
    let mut debugger = Debugger::from_program(program, empty_grid(), 1);
    let _ = debugger.run();
    assert_eq!(debugger.output_string(), "5");
}

#[test]
fn test_run_limited_marks_timeout() {
    let program = program_of(vec![Instruction::Nop; 150]);
    let mut debugger = Debugger::from_program(program, empty_grid(), 1);
    let trace = debugger.run_limited(100).unwrap();
    assert!(trace.error.is_some());
    assert!(!trace.completed);
    assert_eq!(trace.total_steps, 100);
}

#[test]
fn test_debugger_input_suspension() {
    let program = program_of(vec![Instruction::InChar, Instruction::Halt]);
    let mut debugger = Debugger::from_program(program, empty_grid(), 1);

    let first = debugger.step().unwrap();
    assert!(first.is_none());
    assert!(debugger.is_waiting_for_input());
    assert!(matches!(debugger.get_input_request(), Some(InputRequest::Char)));

    debugger.provide_input_char('A');
    let second = debugger.step().unwrap().unwrap();
    assert_eq!(second.stack_after, vec![65]);
}

#[test]
fn test_debugger_euclidean_mod() {
    let program = program_of(vec![
        Instruction::Push(-7),
        Instruction::Push(3),
        Instruction::Mod,
        Instruction::OutNumber,
        Instruction::Halt,
    ]);
    let mut debugger = Debugger::from_program(program, empty_grid(), 1);
    let _ = debugger.run();
    assert_eq!(debugger.output_string(), "2");
}

#[test]
fn test_debugger_roll() {
    // roll depth 3 by 1: the top value dives under the next two
    let program = program_of(vec![
        Instruction::Push(10),
        Instruction::Push(20),
        Instruction::Push(30),
        Instruction::Push(3),
        Instruction::Push(1),
        Instruction::Roll,
        Instruction::OutNumber,
        Instruction::OutNumber,
        Instruction::OutNumber,
        Instruction::Halt,
    ]);
    let mut debugger = Debugger::from_program(program, empty_grid(), 1);
    let _ = debugger.run();
    // stack bottom..top was 10 20 30; after the roll it is 30 10 20
    assert_eq!(debugger.output().read(), vec![20, 10, 30]);
}

#[test]
fn test_reset_replays_same_snapshot() {
    // run a few steps, then reset, feed the same inputs, run the same
    // number of steps: the observable state matches exactly
    let program = program_of(vec![
        Instruction::Push(3),
        Instruction::InNumber,
        Instruction::Add,
        Instruction::Duplicate,
        Instruction::OutNumber,
        Instruction::Halt,
    ]);
    let mut debugger = Debugger::from_program(program, empty_grid(), 1);
    debugger.load_input_numbers("4");
    for _ in 0..5 {
        let _ = debugger.step();
    }
    let first = debugger.state();

    debugger.reset();
    debugger.load_input_numbers("4");
    for _ in 0..5 {
        let _ = debugger.step();
    }
    let second = debugger.state();

    assert_eq!(first.ip, second.ip);
    assert_eq!(first.stack, second.stack);
    assert_eq!(first.halted, second.halted);
    assert_eq!(first.steps, second.steps);
    assert_eq!(first.output, second.output);
    assert_eq!(first.output_string, second.output_string);
}

#[test]
fn test_negative_number_output() {
    let program = program_of(vec![
        Instruction::Push(-42),
        Instruction::OutNumber,
        Instruction::Push(72),
        Instruction::OutChar,
        Instruction::Halt,
    ]);
    let mut debugger = Debugger::from_program(program, empty_grid(), 1);
    let _ = debugger.run();
    assert_eq!(debugger.output_string(), "-42H");
}

#[test]
fn test_division_semantics() {
    // truncated division and Euclidean modulo
    let program = program_of(vec![
        Instruction::Push(-7),
        Instruction::Push(2),
        Instruction::Divide,
        Instruction::OutNumber,
        Instruction::Halt,
    ]);
    let mut debugger = Debugger::from_program(program, empty_grid(), 1);
    let _ = debugger.run();
    assert_eq!(debugger.output_string(), "-3");
}

#[test]
fn test_remove_breakpoint_keeps_order() {
    let program = program_of(vec![Instruction::Nop; 6]);
    let mut debugger = Debugger::from_program(program, empty_grid(), 1);
    debugger.add_breakpoint(5);
    debugger.add_breakpoint(2);
    debugger.add_breakpoint(4);
    debugger.remove_breakpoint(2);
    assert_eq!(debugger.breakpoints(), &[5, 4]);
}

#[test]
fn test_trace_records_stack_semantics() {
    let program = program_of(vec![
        Instruction::Push(2),
        Instruction::Push(3),
        Instruction::Add,
        Instruction::OutNumber,
        Instruction::Halt,
    ]);
    let mut debugger = Debugger::from_program(program, empty_grid(), 1);
    let _ = debugger.run();
    let trace = debugger.get_execution_trace();
    assert_eq!(trace.steps.len(), 5);
    assert_eq!(trace.steps[2].stack_before, vec![2, 3]);
    assert_eq!(trace.steps[2].stack_after, vec![5]);
    assert_eq!(trace.steps[3].output, Some(5));
    assert!(!trace.steps[3].output_is_char);
}
