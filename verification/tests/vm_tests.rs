use canvas_vm::{BytecodeVm, Grid, Instruction, Program, VmError};

#[test]
fn test_bytecode_vm_from_grid() {
    // light red then light yellow
    let rgba = vec![
        0xFF, 0xC0, 0xC0, 0xFF,
        0xFF, 0xFF, 0xC0, 0xFF,
    ];

    let grid = Grid::from_rgba(2, 1, &rgba).unwrap();
    let vm = BytecodeVm::from_grid(grid).unwrap();

    assert!(!vm.is_halted());
    assert_eq!(vm.stack_size(), 0);
}

#[test]
fn test_bytecode_vm_basic() {
    let mut program = Program::new(10, 1);

    let idx0 = program.add_instruction(Instruction::Push(5));
    let idx1 = program.add_instruction(Instruction::Push(3));
    let idx2 = program.add_instruction(Instruction::Add);

    program.map_position(0, 0, idx0);
    program.map_position(1, 0, idx1);
    program.map_position(2, 0, idx2);

    let rgba = vec![0xFFu8; 10 * 1 * 4];
    let grid = Grid::from_rgba(10, 1, &rgba).unwrap();
    let mut vm = BytecodeVm::new(program, grid);

    let _ = vm.stroke();
    if vm.stack_size() > 0 {
        assert_eq!(vm.stack_size(), 1);
    }
}

#[test]
fn test_stack_preview() {
    // light red (block of one codel), red, dark red
    let rgba = vec![
        0xFF, 0xC0, 0xC0, 0xFF,
        0xFF, 0x00, 0x00, 0xFF,
        0xC0, 0x00, 0x00, 0xFF,
    ];
    let grid = Grid::from_rgba(3, 1, &rgba).unwrap();
    let vm = BytecodeVm::from_grid(grid).unwrap();

    let preview = vm.preview_stack().unwrap();
    assert_eq!(preview.stack_before, Vec::<i32>::new());
    assert_eq!(preview.instruction, Instruction::Push(1));
    assert!(preview.success);

    assert_eq!(vm.stack_size(), 0);
}

#[test]
fn test_black_start_halts_first_step() {
    let grid = Grid::from_rgba(1, 1, &[0, 0, 0, 255]).unwrap();
    let mut vm = BytecodeVm::from_grid(grid).unwrap();
    assert!(matches!(vm.stroke(), Err(VmError::Halted)));
    assert!(vm.is_halted());
    assert!(vm.ink().is_empty());
    assert_eq!(vm.ink_string(), "");
}

#[test]
fn test_underflow_is_tolerated() {
    // light red then light yellow encodes Add; with an empty stack the step
    // still advances and the stack stays empty
    let rgba = vec![
        0xFF, 0xC0, 0xC0, 0xFF,
        0xFF, 0xFF, 0xC0, 0xFF,
    ];
    let grid = Grid::from_rgba(2, 1, &rgba).unwrap();
    let mut vm = BytecodeVm::from_grid(grid).unwrap();
    vm.stroke().unwrap();
    assert_eq!(vm.stack_size(), 0);
    assert_eq!(vm.get_steps(), 1);
}

#[test]
fn test_watchdog_times_out() {
    // red and blue bounce into each other forever
    let rgba = vec![
        0xFF, 0x00, 0x00, 0xFF,
        0x00, 0x00, 0xFF, 0xFF,
    ];
    let grid = Grid::from_rgba(2, 1, &rgba).unwrap();
    let mut vm = BytecodeVm::from_grid(grid).unwrap();
    vm.set_max_steps(Some(5));
    let r = vm.play(100);
    assert!(matches!(r, Err(VmError::ExecutionTimeout(5))));
    assert!(vm.is_halted());
}

#[test]
fn test_vm_input_consumed_in_order() {
    // light red to dark blue: hue +4, lightness +2 reads a number
    let rgba = vec![
        0xFF, 0xC0, 0xC0, 0xFF,
        0x00, 0x00, 0xC0, 0xFF,
    ];
    let grid = Grid::from_rgba(2, 1, &rgba).unwrap();
    let mut vm = BytecodeVm::from_grid(grid).unwrap();
    assert!(matches!(vm.stroke(), Err(VmError::InvalidInput)));
    vm.input(41);
    vm.stroke().unwrap();
    assert_eq!(vm.stack_size(), 1);
}

#[test]
fn test_next_position_matches_execution() {
    // the compiled next-position of the starting codel is exactly where one
    // step of the machine lands
    let rgba = vec![
        0xFF, 0xC0, 0xC0, 0xFF,
        0xFF, 0xFF, 0xC0, 0xFF,
    ];
    let grid = Grid::from_rgba(2, 1, &rgba).unwrap();
    let compiler = canvas_vm::Compiler::new(grid.clone());
    let program = compiler.compile().unwrap();
    let next = program.get_next_position(0, 0).expect("the start codel is mapped");

    let grid2 = Grid::from_rgba(2, 1, &rgba).unwrap();
    let mut vm = BytecodeVm::from_grid(grid2).unwrap();
    vm.stroke().unwrap();
    let snap = vm.snapshot();
    assert_eq!((snap.position.x, snap.position.y), next);
}

#[test]
fn test_white_slide_moves_without_operation() {
    // starting on white slides to the first chromatic codel
    let rgba = vec![
        0xFF, 0xFF, 0xFF, 0xFF,
        0xFF, 0xFF, 0xFF, 0xFF,
        0xFF, 0x00, 0x00, 0xFF,
    ];
    let grid = Grid::from_rgba(3, 1, &rgba).unwrap();
    let mut vm = BytecodeVm::from_grid(grid).unwrap();
    vm.stroke().unwrap();
    let snap = vm.snapshot();
    assert_eq!((snap.position.x, snap.position.y), (2, 0));
    assert_eq!(vm.stack_size(), 0);
}
