use vstd::prelude::*;
use crate::bytecode::{Instruction, Program};
use wasm_encoder::{
    CodeSection, ExportSection, Function, FunctionSection, ImportSection, MemorySection, Module,
    TypeSection,
};

verus! {

/// Code generation failure.
#[derive(Debug, Clone)]
pub enum CodegenError {
    /// An instruction sequence the emitter cannot lower.
    InvalidSequence(String),
    /// A stack underflow detected while lowering.
    StackUnderflow(String),
    /// An operation with no lowering.
    Unsupported(String),
}

/// Options for the emitted module.
#[derive(Debug, Clone)]
pub struct CodegenOptions {
    /// Initial linear memory pages (64 KiB each).
    pub memory_pages: u32,
    /// Maximum linear memory pages; None leaves it unbounded.
    pub max_memory_pages: Option<u32>,
    /// Whether to export the stack pointer for inspection.
    pub export_stack_pointer: bool,
    /// The export name of the main function.
    pub main_function_name: String,
}

impl Default for CodegenOptions {
    fn default() -> (o: Self)
        ensures
            o.memory_pages == 1,
            o.max_memory_pages == Some(16u32),
            !o.export_stack_pointer,
            o.main_function_name@ == "main"@,
    {
        CodegenOptions {
            memory_pages: 1,
            max_memory_pages: Some(16),
            export_stack_pointer: false,
            main_function_name: "main".to_owned(),
        }
    }
}

/// The 32-bit WebAssembly instructions the emitter uses, as the module's own
/// model of a function body.
#[derive(Debug, Clone, Copy, PartialEq, Eq, Structural)]
pub enum WasmOp {
    I32Const(i32),
    Call(u32),
    LocalGet(u32),
    I32Load(u64, u32),
    I32Store(u64, u32),
    I32Add,
    I32Sub,
    I32Mul,
    I32DivS,
    I32RemS,
    I32DivU,
    I32Eqz,
    I32GtS,
    DropValue,
    Nop,
    Return,
    End,
}

/// Export kinds the emitter uses.
#[derive(Debug, Clone, Copy, PartialEq, Eq, Structural)]
pub enum ExportTarget {
    Func,
    Memory,
}

// ---- trusted declarations of the encoder's builder types ----

#[verifier::external_type_specification]
#[verifier::external_body]
pub struct ExModule(Module);

#[verifier::external_type_specification]
#[verifier::external_body]
pub struct ExTypeSection(TypeSection);

#[verifier::external_type_specification]
#[verifier::external_body]
pub struct ExImportSection(ImportSection);

#[verifier::external_type_specification]
#[verifier::external_body]
pub struct ExFunctionSection(FunctionSection);

#[verifier::external_type_specification]
#[verifier::external_body]
pub struct ExMemorySection(MemorySection);

#[verifier::external_type_specification]
#[verifier::external_body]
pub struct ExExportSection(ExportSection);

#[verifier::external_type_specification]
#[verifier::external_body]
pub struct ExCodeSection(CodeSection);

#[verifier::external_type_specification]
#[verifier::external_body]
pub struct ExFunction(Function);

/// One section written into a module, as the values the emitter put in it.
pub ghost enum SectionModel {
    Types(Seq<(u32, u32)>),
    Imports(Seq<(Seq<char>, Seq<char>, u32)>),
    Funcs(Seq<u32>),
    Mems(Seq<(u64, Option<u64>)>),
    Exports(Seq<(Seq<char>, ExportTarget, u32)>),
    Code(Seq<(u32, Seq<WasmOp>)>),
}

// ---- names for what the encoder's collections hold ----

/// The instructions written into a function body so far.
pub uninterp spec fn func_ops(f: Function) -> Seq<WasmOp>;

/// How many i32 locals the function body declares.
pub uninterp spec fn func_locals(f: Function) -> u32;

/// The sections written into a module so far, in order.
pub uninterp spec fn module_sections(m: Module) -> Seq<SectionModel>;

/// The byte encoding wasm-encoder produces for a module holding exactly the
/// given sections in order, beginning with the fixed 8-byte header.
pub uninterp spec fn module_encoding(sections: Seq<SectionModel>) -> Seq<u8>;

/// The (parameter count, result count) of each i32-typed function type
/// declared so far.
pub uninterp spec fn ts_entries(t: TypeSection) -> Seq<(u32, u32)>;

/// The (module, name, type index) of each function import declared so far.
pub uninterp spec fn imports_entries(t: ImportSection) -> Seq<(Seq<char>, Seq<char>, u32)>;

/// The type index of each declared function, in order.
pub uninterp spec fn fs_entries(t: FunctionSection) -> Seq<u32>;

/// The (minimum, maximum) page limits of each declared memory.
pub uninterp spec fn mem_entries(t: MemorySection) -> Seq<(u64, Option<u64>)>;

/// The (name, kind, index) of each export declared so far.
pub uninterp spec fn export_entries(t: ExportSection) -> Seq<(Seq<char>, ExportTarget, u32)>;

/// The (i32 locals count, body) of each function written into the code
/// section, in order.
pub uninterp spec fn code_entries(t: CodeSection) -> Seq<(u32, Seq<WasmOp>)>;

// ---- trusted wrappers around the encoder ----

/// Relies on wasm_encoder::Function::new: a fresh body declaring n locals of
/// the 32-bit integer type and holding no instruction yet.
#[verifier::external_body]
fn w_function_new(n_i32_locals: u32) -> (f: Function)
    ensures
        func_ops(f) == Seq::<WasmOp>::empty(),
        func_locals(f) == n_i32_locals,
{
    Function::new(vec![(n_i32_locals, wasm_encoder::ValType::I32)])
}

/// Relies on wasm_encoder::Function::instruction: appends one i32.const.
#[verifier::external_body]
fn w_i32_const(f: &mut Function, v: i32)
    ensures
        func_ops(*final(f)) == func_ops(*old(f)).push(WasmOp::I32Const(v)),
        func_locals(*final(f)) == func_locals(*old(f)),
{
    f.instruction(&wasm_encoder::Instruction::I32Const(v));
}

/// Relies on wasm_encoder::Function::instruction: appends one call.
#[verifier::external_body]
fn w_call(f: &mut Function, idx: u32)
    ensures
        func_ops(*final(f)) == func_ops(*old(f)).push(WasmOp::Call(idx)),
        func_locals(*final(f)) == func_locals(*old(f)),
{
    f.instruction(&wasm_encoder::Instruction::Call(idx));
}

/// Relies on wasm_encoder::Function::instruction: appends one local.get.
#[verifier::external_body]
fn w_local_get(f: &mut Function, idx: u32)
    ensures
        func_ops(*final(f)) == func_ops(*old(f)).push(WasmOp::LocalGet(idx)),
        func_locals(*final(f)) == func_locals(*old(f)),
{
    f.instruction(&wasm_encoder::Instruction::LocalGet(idx));
}

/// Relies on wasm_encoder::Function::instruction: appends one i32.load with
/// the given static offset and alignment exponent.
#[verifier::external_body]
fn w_i32_load(f: &mut Function, offset: u64, align: u32)
    ensures
        func_ops(*final(f)) == func_ops(*old(f)).push(WasmOp::I32Load(offset, align)),
        func_locals(*final(f)) == func_locals(*old(f)),
{
    f.instruction(&wasm_encoder::Instruction::I32Load(wasm_encoder::MemArg {
        offset,
        align,
        memory_index: 0,
    }));
}

/// Relies on wasm_encoder::Function::instruction: appends one i32.store with
/// the given static offset and alignment exponent.
#[verifier::external_body]
fn w_i32_store(f: &mut Function, offset: u64, align: u32)
    ensures
        func_ops(*final(f)) == func_ops(*old(f)).push(WasmOp::I32Store(offset, align)),
        func_locals(*final(f)) == func_locals(*old(f)),
{
    f.instruction(&wasm_encoder::Instruction::I32Store(wasm_encoder::MemArg {
        offset,
        align,
        memory_index: 0,
    }));
}

/// Relies on wasm_encoder::Function::instruction: appends the named numeric
/// opcode; callers pass only the numeric variants.
#[verifier::external_body]
fn w_numeric(f: &mut Function, op: WasmOp)
    requires
        op == WasmOp::I32Add || op == WasmOp::I32Sub || op == WasmOp::I32Mul
            || op == WasmOp::I32DivS || op == WasmOp::I32RemS || op == WasmOp::I32DivU
            || op == WasmOp::I32Eqz || op == WasmOp::I32GtS,
    ensures
        func_ops(*final(f)) == func_ops(*old(f)).push(op),
        func_locals(*final(f)) == func_locals(*old(f)),
{
    match op {
        WasmOp::I32Add => f.instruction(&wasm_encoder::Instruction::I32Add),
        WasmOp::I32Sub => f.instruction(&wasm_encoder::Instruction::I32Sub),
        WasmOp::I32Mul => f.instruction(&wasm_encoder::Instruction::I32Mul),
        WasmOp::I32DivS => f.instruction(&wasm_encoder::Instruction::I32DivS),
        WasmOp::I32RemS => f.instruction(&wasm_encoder::Instruction::I32RemS),
        WasmOp::I32DivU => f.instruction(&wasm_encoder::Instruction::I32DivU),
        WasmOp::I32Eqz => f.instruction(&wasm_encoder::Instruction::I32Eqz),
        _ => f.instruction(&wasm_encoder::Instruction::I32GtS),
    };
}

/// Relies on wasm_encoder::Function::instruction: appends the named control
/// opcode; callers pass only drop, nop, return and end.
#[verifier::external_body]
fn w_control(f: &mut Function, op: WasmOp)
    requires
        op == WasmOp::DropValue || op == WasmOp::Nop || op == WasmOp::Return || op == WasmOp::End,
    ensures
        func_ops(*final(f)) == func_ops(*old(f)).push(op),
        func_locals(*final(f)) == func_locals(*old(f)),
{
    match op {
        WasmOp::DropValue => f.instruction(&wasm_encoder::Instruction::Drop),
        WasmOp::Nop => f.instruction(&wasm_encoder::Instruction::Nop),
        WasmOp::Return => f.instruction(&wasm_encoder::Instruction::Return),
        _ => f.instruction(&wasm_encoder::Instruction::End),
    };
}

/// Relies on wasm_encoder::TypeSection::new: an empty type section.
#[verifier::external_body]
fn w_type_section_new() -> (t: TypeSection)
    ensures
        ts_entries(t) == Seq::<(u32, u32)>::empty(),
{
    TypeSection::new()
}

/// Relies on wasm_encoder::CoreTypeEncoder::function: declares one function
/// type with the given numbers of i32 parameters and i32 results. The bounds
/// keep the encoder's 32-bit length assertion unreachable.
#[verifier::external_body]
fn w_type_func(t: &mut TypeSection, params: u32, results: u32)
    requires
        params <= 0x1_0000,
        results <= 0x1_0000,
    ensures
        ts_entries(*final(t)) == ts_entries(*old(t)).push((params, results)),
{
    let ps = vec![wasm_encoder::ValType::I32; params as usize];
    let rs = vec![wasm_encoder::ValType::I32; results as usize];
    t.ty().function(ps, rs);
}

/// Relies on wasm_encoder::ImportSection::new: an empty import section.
#[verifier::external_body]
fn w_import_section_new() -> (t: ImportSection)
    ensures
        imports_entries(t) == Seq::<(Seq<char>, Seq<char>, u32)>::empty(),
{
    ImportSection::new()
}

/// Relies on wasm_encoder::ImportSection::import: declares one function
/// import under (module, name) with the given type index. The name bounds
/// keep the encoder's 32-bit length assertion unreachable.
#[verifier::external_body]
fn w_import_func(t: &mut ImportSection, module: &str, name: &str, ty: u32)
    requires
        module@.len() <= 0x0010_0000,
        name@.len() <= 0x0010_0000,
    ensures
        imports_entries(*final(t)) == imports_entries(*old(t)).push((module@, name@, ty)),
{
    t.import(module, name, wasm_encoder::EntityType::Function(ty));
}

/// Relies on wasm_encoder::FunctionSection::new: an empty function section.
#[verifier::external_body]
fn w_function_section_new() -> (t: FunctionSection)
    ensures
        fs_entries(t) == Seq::<u32>::empty(),
{
    FunctionSection::new()
}

/// Relies on wasm_encoder::FunctionSection::function: declares one function
/// of the given type index.
#[verifier::external_body]
fn w_function_decl(t: &mut FunctionSection, ty: u32)
    ensures
        fs_entries(*final(t)) == fs_entries(*old(t)).push(ty),
{
    t.function(ty);
}

/// Relies on wasm_encoder::MemorySection::new: an empty memory section.
#[verifier::external_body]
fn w_memory_section_new() -> (t: MemorySection)
    ensures
        mem_entries(t) == Seq::<(u64, Option<u64>)>::empty(),
{
    MemorySection::new()
}

/// Relies on wasm_encoder::MemorySection::memory: declares one 32-bit,
/// unshared, default-page-size memory with the given page limits.
#[verifier::external_body]
fn w_memory(t: &mut MemorySection, minimum: u64, maximum: Option<u64>)
    ensures
        mem_entries(*final(t)) == mem_entries(*old(t)).push((minimum, maximum)),
{
    t.memory(wasm_encoder::MemoryType {
        minimum,
        maximum,
        memory64: false,
        shared: false,
        page_size_log2: None,
    });
}

/// Relies on wasm_encoder::ExportSection::new: an empty export section.
#[verifier::external_body]
fn w_export_section_new() -> (t: ExportSection)
    ensures
        export_entries(t) == Seq::<(Seq<char>, ExportTarget, u32)>::empty(),
{
    ExportSection::new()
}

/// Relies on wasm_encoder::ExportSection::export: declares one export of a
/// function or a memory under the given name and index. The name bound keeps
/// the encoder's 32-bit length assertion unreachable.
#[verifier::external_body]
fn w_export(t: &mut ExportSection, name: &str, kind: ExportTarget, idx: u32)
    requires
        name@.len() <= 0x0010_0000,
    ensures
        export_entries(*final(t)) == export_entries(*old(t)).push((name@, kind, idx)),
{
    let k = match kind {
        ExportTarget::Func => wasm_encoder::ExportKind::Func,
        ExportTarget::Memory => wasm_encoder::ExportKind::Memory,
    };
    t.export(name, k, idx);
}

/// Relies on wasm_encoder::CodeSection::new: an empty code section.
#[verifier::external_body]
fn w_code_section_new() -> (t: CodeSection)
    ensures
        code_entries(t) == Seq::<(u32, Seq<WasmOp>)>::empty(),
{
    CodeSection::new()
}

/// Relies on wasm_encoder::CodeSection::function: appends one function body.
/// The bounds keep the encoder's 32-bit length assertion unreachable.
#[verifier::external_body]
fn w_code_func(t: &mut CodeSection, f: &Function)
    requires
        func_ops(*f).len() <= 0x0100_0000,
        func_locals(*f) <= 0x1_0000,
    ensures
        code_entries(*final(t)) == code_entries(*old(t)).push((func_locals(*f), func_ops(*f))),
{
    t.function(f);
}

/// Relies on wasm_encoder::Module::new: a fresh module holding no section.
#[verifier::external_body]
fn w_module_new() -> (m: Module)
    ensures
        module_sections(m) == Seq::<SectionModel>::empty(),
{
    Module::new()
}

/// Relies on wasm_encoder::Module::section: appends the type section. The
/// bounds keep the encoder's 32-bit length assertion unreachable.
#[verifier::external_body]
fn w_module_types(m: &mut Module, t: &TypeSection)
    requires
        ts_entries(*t).len() <= 0x1000,
        forall|i: int| 0 <= i < ts_entries(*t).len()
            ==> (#[trigger] ts_entries(*t)[i]).0 <= 0x1_0000 && ts_entries(*t)[i].1 <= 0x1_0000,
    ensures
        module_sections(*final(m))
            == module_sections(*old(m)).push(SectionModel::Types(ts_entries(*t))),
{
    m.section(t);
}

/// Relies on wasm_encoder::Module::section: appends the import section. The
/// bounds keep the encoder's 32-bit length assertion unreachable.
#[verifier::external_body]
fn w_module_imports(m: &mut Module, t: &ImportSection)
    requires
        imports_entries(*t).len() <= 0x100,
        forall|i: int| 0 <= i < imports_entries(*t).len()
            ==> (#[trigger] imports_entries(*t)[i]).0.len() <= 0x0010_0000
                && imports_entries(*t)[i].1.len() <= 0x0010_0000,
    ensures
        module_sections(*final(m))
            == module_sections(*old(m)).push(SectionModel::Imports(imports_entries(*t))),
{
    m.section(t);
}

/// Relies on wasm_encoder::Module::section: appends the function section.
/// The bound keeps the encoder's 32-bit length assertion unreachable.
#[verifier::external_body]
fn w_module_functions(m: &mut Module, t: &FunctionSection)
    requires
        fs_entries(*t).len() <= 0x0100_0000,
    ensures
        module_sections(*final(m))
            == module_sections(*old(m)).push(SectionModel::Funcs(fs_entries(*t))),
{
    m.section(t);
}

/// Relies on wasm_encoder::Module::section: appends the memory section. The
/// bound keeps the encoder's 32-bit length assertion unreachable.
#[verifier::external_body]
fn w_module_memories(m: &mut Module, t: &MemorySection)
    requires
        mem_entries(*t).len() <= 0x1000,
    ensures
        module_sections(*final(m))
            == module_sections(*old(m)).push(SectionModel::Mems(mem_entries(*t))),
{
    m.section(t);
}

/// Relies on wasm_encoder::Module::section: appends the export section. The
/// bounds keep the encoder's 32-bit length assertion unreachable.
#[verifier::external_body]
fn w_module_exports(m: &mut Module, t: &ExportSection)
    requires
        export_entries(*t).len() <= 0x100,
        forall|i: int| 0 <= i < export_entries(*t).len()
            ==> (#[trigger] export_entries(*t)[i]).0.len() <= 0x0010_0000,
    ensures
        module_sections(*final(m))
            == module_sections(*old(m)).push(SectionModel::Exports(export_entries(*t))),
{
    m.section(t);
}

/// Relies on wasm_encoder::Module::section: appends the code section. The
/// bounds keep the encoder's 32-bit length assertion unreachable.
#[verifier::external_body]
fn w_module_code(m: &mut Module, t: &CodeSection)
    requires
        code_entries(*t).len() <= 8,
        forall|i: int| 0 <= i < code_entries(*t).len()
            ==> (#[trigger] code_entries(*t)[i]).1.len() <= 0x0100_0000
                && code_entries(*t)[i].0 <= 0x1_0000,
    ensures
        module_sections(*final(m))
            == module_sections(*old(m)).push(SectionModel::Code(code_entries(*t))),
{
    m.section(t);
}

/// Relies on wasm_encoder::Module::finish: the bytes are a deterministic
/// encoding of the sections written, in order, and always begin with the
/// 8-byte core wasm header (magic plus version 1).
#[verifier::external_body]
fn w_module_finish(m: Module) -> (r: Vec<u8>)
    ensures
        r@ == module_encoding(module_sections(m)),
        r@.len() >= 8,
        r@[0] == 0u8 && r@[1] == 0x61u8 && r@[2] == 0x73u8 && r@[3] == 0x6du8,
        r@[4] == 1u8 && r@[5] == 0u8 && r@[6] == 0u8 && r@[7] == 0u8,
{
    m.finish()
}

// ---- the verified lowering ----

/// The wasm instruction sequence one bytecode instruction lowers to, in
/// terms of the module's helper functions: 5 pushes, 6 pops, 7 peeks and the
/// host imports 0..4 (read_char, read_number, write_char, write_number).
pub open spec fn instr_wasm_ops(instr: Instruction) -> Seq<WasmOp> {
    match instr {
        Instruction::Push(n) => seq![WasmOp::I32Const(n), WasmOp::Call(5)],
        Instruction::Pop => seq![WasmOp::Call(6), WasmOp::DropValue],
        Instruction::Add => seq![WasmOp::Call(6), WasmOp::Call(6), WasmOp::I32Add, WasmOp::Call(5)],
        Instruction::Subtract => seq![WasmOp::Call(6), WasmOp::Call(6), WasmOp::I32Sub, WasmOp::Call(5)],
        Instruction::Multiply => seq![WasmOp::Call(6), WasmOp::Call(6), WasmOp::I32Mul, WasmOp::Call(5)],
        Instruction::Divide => seq![WasmOp::Call(6), WasmOp::Call(6), WasmOp::I32DivS, WasmOp::Call(5)],
        Instruction::Mod => seq![WasmOp::Call(6), WasmOp::Call(6), WasmOp::I32RemS, WasmOp::Call(5)],
        Instruction::Not => seq![WasmOp::Call(6), WasmOp::I32Eqz, WasmOp::Call(5)],
        Instruction::Greater => seq![WasmOp::Call(6), WasmOp::Call(6), WasmOp::I32GtS, WasmOp::Call(5)],
        Instruction::Duplicate => seq![WasmOp::Call(7), WasmOp::Call(5)],
        Instruction::Roll => seq![WasmOp::Call(6), WasmOp::DropValue, WasmOp::Call(6), WasmOp::DropValue],
        Instruction::InNumber => seq![WasmOp::Call(1), WasmOp::Call(5)],
        Instruction::InChar => seq![WasmOp::Call(0), WasmOp::Call(5)],
        Instruction::OutNumber => seq![WasmOp::Call(6), WasmOp::Call(3)],
        Instruction::OutChar => seq![WasmOp::Call(6), WasmOp::Call(2)],
        Instruction::Pointer => seq![WasmOp::Call(6), WasmOp::DropValue],
        Instruction::Switch => seq![WasmOp::Call(6), WasmOp::DropValue],
        Instruction::Nop => seq![WasmOp::Nop],
        Instruction::Halt => seq![WasmOp::Return],
    }
}

/// The lowering of a whole instruction list, in order.
pub open spec fn body_ops(instrs: Seq<Instruction>) -> Seq<WasmOp>
    decreases instrs.len(),
{
    if instrs.len() == 0 {
        Seq::empty()
    } else {
        body_ops(instrs.drop_last()) + instr_wasm_ops(instrs.last())
    }
}

/// Each bytecode instruction lowers to at most four wasm instructions.
pub proof fn lemma_body_ops_len(instrs: Seq<Instruction>)
    ensures
        body_ops(instrs).len() <= 4 * instrs.len(),
    decreases instrs.len(),
{
    if instrs.len() > 0 {
        lemma_body_ops_len(instrs.drop_last());
    }
}

/// The main function's prologue: the stack pointer at memory address 0 is
/// initialized to 4, the first free slot.
pub open spec fn prologue_ops() -> Seq<WasmOp> {
    seq![WasmOp::I32Const(0), WasmOp::I32Const(4), WasmOp::I32Store(0, 2)]
}

/// The push helper's body: store the value at the stack pointer, then bump
/// the stack pointer by 4.
pub open spec fn stack_push_ops() -> Seq<WasmOp> {
    seq![
        WasmOp::I32Const(0), WasmOp::I32Load(0, 2),
        WasmOp::LocalGet(0), WasmOp::I32Store(0, 2),
        WasmOp::I32Const(0), WasmOp::I32Const(0), WasmOp::I32Load(0, 2),
        WasmOp::I32Const(4), WasmOp::I32Add, WasmOp::I32Store(0, 2),
        WasmOp::End,
    ]
}

/// The pop helper's body: drop the stack pointer by 4, then load the value
/// it now points at.
pub open spec fn stack_pop_ops() -> Seq<WasmOp> {
    seq![
        WasmOp::I32Const(0), WasmOp::I32Const(0), WasmOp::I32Load(0, 2),
        WasmOp::I32Const(4), WasmOp::I32Sub, WasmOp::I32Store(0, 2),
        WasmOp::I32Const(0), WasmOp::I32Load(0, 2), WasmOp::I32Load(0, 2),
        WasmOp::End,
    ]
}

/// The peek helper's body: load the value just under the stack pointer.
pub open spec fn stack_peek_ops() -> Seq<WasmOp> {
    seq![
        WasmOp::I32Const(0), WasmOp::I32Load(0, 2),
        WasmOp::I32Const(4), WasmOp::I32Sub, WasmOp::I32Load(0, 2),
        WasmOp::End,
    ]
}

/// The size helper's body: (stack pointer - 4) / 4.
pub open spec fn stack_size_ops() -> Seq<WasmOp> {
    seq![
        WasmOp::I32Const(0), WasmOp::I32Load(0, 2),
        WasmOp::I32Const(4), WasmOp::I32Sub,
        WasmOp::I32Const(4), WasmOp::I32DivU,
        WasmOp::End,
    ]
}

/// The section stream the emitter writes for a program: three i32 function
/// types, the four env imports, the five function declarations, one memory
/// with the given page limits, the main-function and memory exports, and the
/// five code bodies (main plus the four stack helpers).
pub open spec fn emitted_sections(
    program: Program, mem_pages: u64, max_pages: Option<u64>, main_name: Seq<char>,
) -> Seq<SectionModel> {
    seq![
        SectionModel::Types(seq![(0u32, 0u32), (0u32, 1u32), (1u32, 0u32)]),
        SectionModel::Imports(seq![
            ("env"@, "read_char"@, 1u32),
            ("env"@, "read_number"@, 1u32),
            ("env"@, "write_char"@, 2u32),
            ("env"@, "write_number"@, 2u32),
        ]),
        SectionModel::Funcs(seq![0u32, 2u32, 1u32, 1u32, 1u32]),
        SectionModel::Mems(seq![(mem_pages, max_pages)]),
        SectionModel::Exports(seq![
            (main_name, ExportTarget::Func, 4u32),
            ("memory"@, ExportTarget::Memory, 0u32),
        ]),
        SectionModel::Code(seq![
            (0u32, prologue_ops() + body_ops(program.instructions@) + seq![WasmOp::End]),
            (1u32, stack_push_ops()),
            (0u32, stack_pop_ops()),
            (0u32, stack_peek_ops()),
            (0u32, stack_size_ops()),
        ]),
    ]
}

/// The page limits the options ask of the module's memory.
pub open spec fn spec_mem_limits(options: CodegenOptions) -> (u64, Option<u64>) {
    (options.memory_pages as u64, match options.max_memory_pages {
        Some(p) => Some(p as u64),
        None => None,
    })
}

/// Lowers a Program to a WebAssembly module in binary form.
pub struct WasmCodegen {
    options: CodegenOptions,
}

impl WasmCodegen {
    pub closed spec fn spec_options(self) -> CodegenOptions {
        self.options
    }

    /// A code generator with the default options.
    pub fn new() -> (c: Self)
        ensures
            c.spec_options().memory_pages == 1,
            c.spec_options().max_memory_pages == Some(16u32),
            !c.spec_options().export_stack_pointer,
            c.spec_options().main_function_name@ == "main"@,
    {
        WasmCodegen { options: CodegenOptions::default() }
    }

    /// A code generator with explicit options.
    pub fn with_options(options: CodegenOptions) -> (c: Self)
        ensures
            c.spec_options() == options,
    {
        WasmCodegen { options }
    }

    /// Emits one bytecode instruction's lowering into the function body.
    fn emit_instruction(&self, func: &mut Function, instruction: &Instruction) -> (r: Result<(), CodegenError>)
        ensures
            r is Ok,
            func_ops(*final(func)) == func_ops(*old(func)) + instr_wasm_ops(*instruction),
            func_locals(*final(func)) == func_locals(*old(func)),
    {
        let ghost pre = func_ops(*old(func));
        match instruction {
            Instruction::Push(n) => {
                w_i32_const(func, *n);
                w_call(func, 5);
            }
            Instruction::Pop => {
                w_call(func, 6);
                w_control(func, WasmOp::DropValue);
            }
            Instruction::Add => {
                w_call(func, 6);
                w_call(func, 6);
                w_numeric(func, WasmOp::I32Add);
                w_call(func, 5);
            }
            Instruction::Subtract => {
                w_call(func, 6);
                w_call(func, 6);
                w_numeric(func, WasmOp::I32Sub);
                w_call(func, 5);
            }
            Instruction::Multiply => {
                w_call(func, 6);
                w_call(func, 6);
                w_numeric(func, WasmOp::I32Mul);
                w_call(func, 5);
            }
            Instruction::Divide => {
                w_call(func, 6);
                w_call(func, 6);
                w_numeric(func, WasmOp::I32DivS);
                w_call(func, 5);
            }
            Instruction::Mod => {
                w_call(func, 6);
                w_call(func, 6);
                w_numeric(func, WasmOp::I32RemS);
                w_call(func, 5);
            }
            Instruction::Not => {
                w_call(func, 6);
                w_numeric(func, WasmOp::I32Eqz);
                w_call(func, 5);
            }
            Instruction::Greater => {
                w_call(func, 6);
                w_call(func, 6);
                w_numeric(func, WasmOp::I32GtS);
                w_call(func, 5);
            }
            Instruction::Duplicate => {
                w_call(func, 7);
                w_call(func, 5);
            }
            Instruction::Roll => {
                // the two arguments are consumed; a full in-memory roll is
                // left to the runtime embedding
                w_call(func, 6);
                w_control(func, WasmOp::DropValue);
                w_call(func, 6);
                w_control(func, WasmOp::DropValue);
            }
            Instruction::InNumber => {
                w_call(func, 1);
                w_call(func, 5);
            }
            Instruction::InChar => {
                w_call(func, 0);
                w_call(func, 5);
            }
            Instruction::OutNumber => {
                w_call(func, 6);
                w_call(func, 3);
            }
            Instruction::OutChar => {
                w_call(func, 6);
                w_call(func, 2);
            }
            Instruction::Pointer => {
                // direction changes are already linearized at compile time
                w_call(func, 6);
                w_control(func, WasmOp::DropValue);
            }
            Instruction::Switch => {
                w_call(func, 6);
                w_control(func, WasmOp::DropValue);
            }
            Instruction::Nop => {
                w_control(func, WasmOp::Nop);
            }
            Instruction::Halt => {
                w_control(func, WasmOp::Return);
            }
        }
        proof {
            assert(func_ops(*func) =~= pre + instr_wasm_ops(*instruction));
        }
        Ok(())
    }

    /// Builds the main function: the stack pointer prologue, each bytecode
    /// instruction's lowering in program order, and the closing end.
    fn generate_main(&self, program: &Program) -> (r: Result<Function, CodegenError>)
        ensures
            match r {
                Ok(f) => func_ops(f) == prologue_ops() + body_ops(program.instructions@)
                    + seq![WasmOp::End] && func_locals(f) == 0,
                Err(_) => false,
            },
    {
        let mut func = w_function_new(0);
        w_i32_const(&mut func, 0);
        w_i32_const(&mut func, 4);
        w_i32_store(&mut func, 0, 2);
        proof {
            assert(func_ops(func) =~= prologue_ops());
        }
        let mut i: usize = 0;
        while i < program.instructions.len()
            invariant
                i <= program.instructions@.len(),
                func_ops(func) == prologue_ops() + body_ops(program.instructions@.take(i as int)),
                func_locals(func) == 0,
            decreases program.instructions@.len() - i,
        {
            let instr = program.instructions[i];
            match self.emit_instruction(&mut func, &instr) {
                Ok(()) => {}
                Err(e) => {
                    proof { assert(false); }
                    return Err(e);
                }
            }
            proof {
                let taken = program.instructions@.take(i as int + 1);
                assert(taken.drop_last() =~= program.instructions@.take(i as int));
                assert(taken.last() == program.instructions@[i as int]);
                assert(func_ops(func) =~= prologue_ops() + body_ops(taken));
            }
            i = i + 1;
        }
        proof {
            assert(program.instructions@.take(program.instructions@.len() as int)
                =~= program.instructions@);
        }
        w_control(&mut func, WasmOp::End);
        proof {
            assert(func_ops(func) =~= prologue_ops() + body_ops(program.instructions@) + seq![WasmOp::End]);
        }
        Ok(func)
    }

    /// The push helper.
    fn generate_stack_push(&self) -> (f: Function)
        ensures
            func_ops(f) == stack_push_ops(),
            func_locals(f) == 1,
    {
        let mut func = w_function_new(1);
        w_i32_const(&mut func, 0);
        w_i32_load(&mut func, 0, 2);
        w_local_get(&mut func, 0);
        w_i32_store(&mut func, 0, 2);
        w_i32_const(&mut func, 0);
        w_i32_const(&mut func, 0);
        w_i32_load(&mut func, 0, 2);
        w_i32_const(&mut func, 4);
        w_numeric(&mut func, WasmOp::I32Add);
        w_i32_store(&mut func, 0, 2);
        w_control(&mut func, WasmOp::End);
        proof {
            assert(func_ops(func) =~= stack_push_ops());
        }
        func
    }

    /// The pop helper.
    fn generate_stack_pop(&self) -> (f: Function)
        ensures
            func_ops(f) == stack_pop_ops(),
            func_locals(f) == 0,
    {
        let mut func = w_function_new(0);
        w_i32_const(&mut func, 0);
        w_i32_const(&mut func, 0);
        w_i32_load(&mut func, 0, 2);
        w_i32_const(&mut func, 4);
        w_numeric(&mut func, WasmOp::I32Sub);
        w_i32_store(&mut func, 0, 2);
        w_i32_const(&mut func, 0);
        w_i32_load(&mut func, 0, 2);
        w_i32_load(&mut func, 0, 2);
        w_control(&mut func, WasmOp::End);
        proof {
            assert(func_ops(func) =~= stack_pop_ops());
        }
        func
    }

    /// The peek helper.
    fn generate_stack_peek(&self) -> (f: Function)
        ensures
            func_ops(f) == stack_peek_ops(),
            func_locals(f) == 0,
    {
        let mut func = w_function_new(0);
        w_i32_const(&mut func, 0);
        w_i32_load(&mut func, 0, 2);
        w_i32_const(&mut func, 4);
        w_numeric(&mut func, WasmOp::I32Sub);
        w_i32_load(&mut func, 0, 2);
        w_control(&mut func, WasmOp::End);
        proof {
            assert(func_ops(func) =~= stack_peek_ops());
        }
        func
    }

    /// The size helper.
    fn generate_stack_size(&self) -> (f: Function)
        ensures
            func_ops(f) == stack_size_ops(),
            func_locals(f) == 0,
    {
        let mut func = w_function_new(0);
        w_i32_const(&mut func, 0);
        w_i32_load(&mut func, 0, 2);
        w_i32_const(&mut func, 4);
        w_numeric(&mut func, WasmOp::I32Sub);
        w_i32_const(&mut func, 4);
        w_numeric(&mut func, WasmOp::I32DivU);
        w_control(&mut func, WasmOp::End);
        proof {
            assert(func_ops(func) =~= stack_size_ops());
        }
        func
    }

    /// Emits the whole module: three i32 function types; the four host
    /// imports env.read_char, env.read_number, env.write_char and
    /// env.write_number; the main function and the four stack helpers over a
    /// linear memory holding the stack; the main function and the memory
    /// exported. The returned bytes are the encoding of exactly those
    /// sections and always begin with the core wasm header.
    pub fn generate(&self, program: &Program) -> (r: Result<Vec<u8>, CodegenError>)
        requires
            program.instructions@.len() <= 0x003F_FFFF,
            self.spec_options().main_function_name@.len() <= 0x0010_0000,
        ensures
            match r {
                Ok(bytes) => {
                    &&& bytes@ == module_encoding(emitted_sections(
                        *program,
                        spec_mem_limits(self.spec_options()).0,
                        spec_mem_limits(self.spec_options()).1,
                        self.spec_options().main_function_name@,
                    ))
                    &&& bytes@.len() >= 8
                    &&& bytes@[0] == 0u8 && bytes@[1] == 0x61u8
                    &&& bytes@[2] == 0x73u8 && bytes@[3] == 0x6du8
                    &&& bytes@[4] == 1u8 && bytes@[5] == 0u8
                    &&& bytes@[6] == 0u8 && bytes@[7] == 0u8
                },
                Err(_) => false,
            },
    {
        proof {
            reveal_strlit("env");
            reveal_strlit("read_char");
            reveal_strlit("read_number");
            reveal_strlit("write_char");
            reveal_strlit("write_number");
            reveal_strlit("memory");
            lemma_body_ops_len(program.instructions@);
        }
        let mut module = w_module_new();

        // types: 0 () -> (), 1 () -> i32, 2 (i32) -> ()
        let mut types = w_type_section_new();
        w_type_func(&mut types, 0, 0);
        w_type_func(&mut types, 0, 1);
        w_type_func(&mut types, 1, 0);
        proof {
            assert(ts_entries(types) =~= seq![(0u32, 0u32), (0u32, 1u32), (1u32, 0u32)]);
        }
        w_module_types(&mut module, &types);

        // the host input and output functions
        let mut imports = w_import_section_new();
        w_import_func(&mut imports, "env", "read_char", 1);
        w_import_func(&mut imports, "env", "read_number", 1);
        w_import_func(&mut imports, "env", "write_char", 2);
        w_import_func(&mut imports, "env", "write_number", 2);
        proof {
            assert(imports_entries(imports) =~= seq![
                ("env"@, "read_char"@, 1u32),
                ("env"@, "read_number"@, 1u32),
                ("env"@, "write_char"@, 2u32),
                ("env"@, "write_number"@, 2u32),
            ]);
        }
        w_module_imports(&mut module, &imports);

        // functions 4..8: main and the four stack helpers
        let mut functions = w_function_section_new();
        w_function_decl(&mut functions, 0);
        w_function_decl(&mut functions, 2);
        w_function_decl(&mut functions, 1);
        w_function_decl(&mut functions, 1);
        w_function_decl(&mut functions, 1);
        proof {
            assert(fs_entries(functions) =~= seq![0u32, 2u32, 1u32, 1u32, 1u32]);
        }
        w_module_functions(&mut module, &functions);

        // one linear memory for the stack
        let mut memories = w_memory_section_new();
        let max_pages: Option<u64> = match self.options.max_memory_pages {
            Some(p) => Some(p as u64),
            None => None,
        };
        w_memory(&mut memories, self.options.memory_pages as u64, max_pages);
        proof {
            assert(mem_entries(memories) =~= seq![spec_mem_limits(self.spec_options())]);
        }
        w_module_memories(&mut module, &memories);

        // exports: the main function and the memory
        let mut exports = w_export_section_new();
        w_export(&mut exports, self.options.main_function_name.as_str(), ExportTarget::Func, 4);
        w_export(&mut exports, "memory", ExportTarget::Memory, 0);
        proof {
            assert(export_entries(exports) =~= seq![
                (self.spec_options().main_function_name@, ExportTarget::Func, 4u32),
                ("memory"@, ExportTarget::Memory, 0u32),
            ]);
        }
        w_module_exports(&mut module, &exports);

        // code, in declaration order
        let main_func = match self.generate_main(program) {
            Ok(f) => f,
            Err(e) => {
                proof { assert(false); }
                return Err(e);
            }
        };
        let mut codes = w_code_section_new();
        w_code_func(&mut codes, &main_func);
        let push_f = self.generate_stack_push();
        w_code_func(&mut codes, &push_f);
        let pop_f = self.generate_stack_pop();
        w_code_func(&mut codes, &pop_f);
        let peek_f = self.generate_stack_peek();
        w_code_func(&mut codes, &peek_f);
        let size_f = self.generate_stack_size();
        w_code_func(&mut codes, &size_f);
        proof {
            assert(code_entries(codes) =~= seq![
                (0u32, prologue_ops() + body_ops(program.instructions@) + seq![WasmOp::End]),
                (1u32, stack_push_ops()),
                (0u32, stack_pop_ops()),
                (0u32, stack_peek_ops()),
                (0u32, stack_size_ops()),
            ]);
        }
        w_module_code(&mut module, &codes);
        proof {
            assert(module_sections(module) =~= emitted_sections(
                *program,
                spec_mem_limits(self.spec_options()).0,
                spec_mem_limits(self.spec_options()).1,
                self.spec_options().main_function_name@,
            ));
        }

        Ok(w_module_finish(module))
    }
}

impl Default for WasmCodegen {
    fn default() -> (c: Self)
        ensures
            c.spec_options().memory_pages == 1,
            c.spec_options().max_memory_pages == Some(16u32),
            c.spec_options().main_function_name@ == "main"@,
    {
        Self::new()
    }
}

/// Lowers a compiled program to WebAssembly bytes with the default options:
/// one 64 KiB page growable to sixteen, exported under the name main.
pub fn compile_to_wasm(program: &Program) -> (r: Result<Vec<u8>, CodegenError>)
    requires
        program.instructions@.len() <= 0x003F_FFFF,
    ensures
        match r {
            Ok(bytes) => bytes@ == module_encoding(emitted_sections(
                    *program, 1u64, Some(16u64), "main"@,
                ))
                && bytes@.len() >= 8
                && bytes@[0] == 0u8 && bytes@[1] == 0x61u8
                && bytes@[2] == 0x73u8 && bytes@[3] == 0x6du8
                && bytes@[4] == 1u8 && bytes@[5] == 0u8
                && bytes@[6] == 0u8 && bytes@[7] == 0u8,
            Err(_) => false,
        },
{
    proof {
        reveal_strlit("main");
    }
    let codegen = WasmCodegen::new();
    codegen.generate(program)
}

/// Lowers a compiled program to WebAssembly bytes with explicit options.
pub fn compile_to_wasm_with_options(program: &Program, options: CodegenOptions) -> (r: Result<Vec<u8>, CodegenError>)
    requires
        program.instructions@.len() <= 0x003F_FFFF,
        options.main_function_name@.len() <= 0x0010_0000,
    ensures
        match r {
            Ok(bytes) => bytes@ == module_encoding(emitted_sections(
                    *program,
                    spec_mem_limits(options).0,
                    spec_mem_limits(options).1,
                    options.main_function_name@,
                ))
                && bytes@.len() >= 8
                && bytes@[0] == 0u8 && bytes@[1] == 0x61u8
                && bytes@[2] == 0x73u8 && bytes@[3] == 0x6du8
                && bytes@[4] == 1u8 && bytes@[5] == 0u8
                && bytes@[6] == 0u8 && bytes@[7] == 0u8,
            Err(_) => false,
        },
{
    let codegen = WasmCodegen::with_options(options);
    codegen.generate(program)
}

} // verus!
