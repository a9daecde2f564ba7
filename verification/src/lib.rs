mod bytecode;
mod codegen;
mod compiler;
mod debugger;
mod error;
mod grid;
mod exits;
mod io;
mod ops;
mod router;
mod strings;
mod vm;

pub use bytecode::{Instruction, InstructionDebugInfo, Program, ProgramMetadata, RichInstruction};
pub use codegen::{body_ops, code_entries, compile_to_wasm, emitted_sections, export_entries, fs_entries, func_locals, func_ops, imports_entries, instr_wasm_ops, mem_entries, module_encoding, module_sections, prologue_ops, spec_mem_limits, stack_peek_ops, stack_pop_ops, stack_push_ops, stack_size_ops, ts_entries, SectionModel, compile_to_wasm_with_options, CodegenError, CodegenOptions, ExportTarget, WasmCodegen, WasmOp};
pub use compiler::{block_fully_mapped, block_size_value, blocks_mapped_ok, color_name, debug_block_ok, debug_entry_ok, map_entry_ok, routed_instruction, color_name_spec, instruction_for_op, prog_ok, wrap_to_i32, get_transition_instruction, lemma_transition_depends_on_deltas, next_entry_ok, transition_instruction_spec, CompileMode, Compiler};
pub use debugger::{dbg_continue_spec, dbg_run_full_spec, dbg_run_limited_spec, dbg_run_steps_spec, dbg_step_record, debug_data, opt_debug_data, rich_view, step_data, DebugData, DebugMeta, RichView, StepData, dbg_run_spec, dbg_step_spec, initial_dbg_view, lemma_reset_replays, program_view, DbgView, Debugger, DebuggerState, ExecutionMode, ExecutionStep, ExecutionTrace, InputRequest};
pub use error::VmError;
pub use grid::{adj_same, beats, candidate_sizes_spec, col_runs_spec, detect_codel_size_spec, gcd_fold, gcd_spec, pix, probe_sizes, row_runs_spec, sampled_lengths, tiles_uniform_spec, lemma_dir_roundtrip, blocks_inv, cell_index, closed_region, downsampled_grid, find_exit_spec, in_bounds, is_color_region, is_exit_codel, rgb_at, route_spec, slide_spec, BlockId, BlockInfo, Grid};
pub use exits::{CodelChooser, Direction, Position};
pub use io::{input_value_of, output_value_of, render_output, render_value, Input, InputValue, Output, OutputValue};
pub use vm::{play_spec, div_trunc, div_wrap_i32, inc_steps, mod_eucl_i32, roll_seq, exec_instr_spec, execute_instruction_on, initial_vm_view, lemma_stroke_follows_next_position, next_instruction_spec, stroke_spec, BytecodeVm, BytecodeVmSnapshot, ExecParts, StackPreview, VmView, DEFAULT_MAX_STEPS};
pub use router::{find_valid_exit, route, slide_through_white};
pub use ops::{get_operation, op_for_deltas, Operation, PietColor};
pub use strings::{dec_digits, dec_int, i32_to_string, numbers_from, parse_i32_spec, parse_numbers, render_code_point, usize_to_string};
