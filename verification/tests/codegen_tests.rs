use canvas_vm::{compile_to_wasm, CodegenOptions, Instruction, Program, ProgramMetadata, RichInstruction};

fn make_program(instructions: Vec<Instruction>) -> Program {
    let rich = instructions.iter()
        .map(|op| RichInstruction::simple(*op))
        .collect();
    Program {
        metadata: ProgramMetadata::default(),
        rich_instructions: rich,
        instructions,
        position_map: vec![],
        next_position: vec![],
        width: 0,
        height: 0,
    }
}

#[test]
fn test_codegen_options_default() {
    let opts = CodegenOptions::default();
    assert_eq!(opts.memory_pages, 1);
    assert_eq!(opts.main_function_name, "main");
}

#[test]
fn test_empty_program() {
    let program = make_program(vec![Instruction::Halt]);
    let wasm = compile_to_wasm(&program).unwrap();

    assert_eq!(&wasm[0..4], b"\0asm");
    assert_eq!(&wasm[4..8], &[1, 0, 0, 0]);

    wasmparser::validate(&wasm).expect("the emitted module should validate");
}

#[test]
fn test_simple_arithmetic() {
    let program = make_program(vec![
        Instruction::Push(3),
        Instruction::Push(2),
        Instruction::Add,
        Instruction::OutNumber,
        Instruction::Halt,
    ]);
    let wasm = compile_to_wasm(&program).unwrap();

    assert!(wasm.len() > 8);
    wasmparser::validate(&wasm).expect("the emitted module should validate");
}

#[test]
fn test_stack_operations() {
    let program = make_program(vec![
        Instruction::Push(42),
        Instruction::Duplicate,
        Instruction::Pop,
        Instruction::OutNumber,
        Instruction::Halt,
    ]);
    let wasm = compile_to_wasm(&program).unwrap();
    assert!(wasm.len() > 8);
    wasmparser::validate(&wasm).expect("the emitted module should validate");
}

#[test]
fn test_all_instructions() {
    let program = make_program(vec![
        Instruction::Push(10),
        Instruction::Push(5),
        Instruction::Add,
        Instruction::Push(3),
        Instruction::Subtract,
        Instruction::Push(2),
        Instruction::Multiply,
        Instruction::Push(4),
        Instruction::Divide,
        Instruction::Push(3),
        Instruction::Mod,
        Instruction::Not,
        Instruction::Push(5),
        Instruction::Greater,
        Instruction::Duplicate,
        Instruction::Pop,
        Instruction::Push(2),
        Instruction::Push(1),
        Instruction::Roll,
        Instruction::Nop,
        Instruction::OutNumber,
        Instruction::Halt,
    ]);
    let wasm = compile_to_wasm(&program).unwrap();
    wasmparser::validate(&wasm).expect("the emitted module should validate");
}

#[test]
fn test_hello_world_pattern() {
    let program = make_program(vec![
        Instruction::Push(72),
        Instruction::OutChar,
        Instruction::Push(105),
        Instruction::OutChar,
        Instruction::Halt,
    ]);
    let wasm = compile_to_wasm(&program).unwrap();
    wasmparser::validate(&wasm).expect("the emitted module should validate");

    assert!(wasm.len() < 1000, "the module should stay compact");
}
