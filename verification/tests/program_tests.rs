use canvas_vm::{Compiler, Grid, Instruction, Program};

#[test]
fn test_program_creation() {
    let mut program = Program::new(10, 10);

    let idx = program.add_instruction(Instruction::Push(5));
    assert_eq!(idx, 0);

    program.map_position(3, 4, idx);
    assert_eq!(program.get_instruction_at(3, 4), Some(&Instruction::Push(5)));
}

#[test]
fn test_simple_compilation() {
    // light red then light yellow: hue +1, lightness 0, the add entry
    let rgba = vec![
        0xFF, 0xC0, 0xC0, 0xFF,
        0xFF, 0xFF, 0xC0, 0xFF,
    ];

    let grid = Grid::from_rgba(2, 1, &rgba).unwrap();
    let compiler = Compiler::new(grid);
    let program = compiler.compile().unwrap();

    assert!(program.instructions.iter().any(|i| matches!(i, Instruction::Add)));
}

#[test]
fn test_white_slide_suppresses_operation() {
    // light red, white, light yellow: the slide makes the transition a Nop,
    // no Add despite the differing hues
    let rgba = vec![
        0xFF, 0xC0, 0xC0, 0xFF,
        0xFF, 0xFF, 0xFF, 0xFF,
        0xFF, 0xFF, 0xC0, 0xFF,
    ];
    let grid = Grid::from_rgba(3, 1, &rgba).unwrap();
    let compiler = Compiler::new(grid);
    let program = compiler.compile().unwrap();

    assert!(!program.instructions.iter().any(|i| matches!(i, Instruction::Add)));
    assert!(program.instructions.iter().any(|i| matches!(i, Instruction::Nop)));
}

#[test]
fn test_single_black_codel_compiles_to_halt() {
    let grid = Grid::from_rgba(1, 1, &[0, 0, 0, 255]).unwrap();
    let compiler = Compiler::new(grid);
    let program = compiler.compile().unwrap();
    assert_eq!(program.instructions, vec![Instruction::Halt]);
}
