use vstd::prelude::*;
use crate::bytecode::{Instruction, InstructionDebugInfo, Program, RichInstruction};
use crate::bytecode::grid_at;
use crate::compiler::{blocks_mapped_ok, prog_ok, CompileMode, Compiler};
use crate::error::VmError;
use crate::exits::{CodelChooser, Direction, Position};
use crate::grid::Grid;
use crate::io::{render_output, Input, InputValue, Output, OutputValue, output_value_of};
use crate::strings::{numbers_from, usize_to_string};
use crate::vm::{exec_instr_spec, execute_instruction_on, inc_steps, ExecParts};

verus! {

/// Execution mode for the debugger.
#[derive(Debug, Clone, Copy, PartialEq, Eq, Structural)]
pub enum ExecutionMode {
    /// Run without debug overhead.
    Run,
    /// Step by step, with full state.
    Debug,
    /// Run to completion but keep the trace.
    RunWithTrace,
}

/// Which kind of input the debugger is suspended on.
#[derive(Debug, Clone, Copy, PartialEq, Eq, Structural)]
pub enum InputRequest {
    Number,
    Char,
}

/// One step of the execution trace.
#[derive(Debug, Clone)]
pub struct ExecutionStep {
    /// Step number, starting at zero.
    pub step: usize,
    /// The instruction executed.
    pub instruction: Instruction,
    /// Its debug record, when the program was compiled in debug mode.
    pub debug_info: Option<InstructionDebugInfo>,
    /// Stack before execution.
    pub stack_before: Vec<i32>,
    /// Stack after execution.
    pub stack_after: Vec<i32>,
    /// Position before this step.
    pub position: Position,
    /// Direction pointer before this step.
    pub dp: Direction,
    /// Codel chooser before this step.
    pub cc: CodelChooser,
    /// The value this step wrote to output, if any.
    pub output: Option<i32>,
    /// Whether the written value was a character.
    pub output_is_char: bool,
}

/// A whole execution trace.
#[derive(Debug, Clone)]
pub struct ExecutionTrace {
    pub steps: Vec<ExecutionStep>,
    pub output: Vec<i32>,
    pub output_string: String,
    pub total_steps: usize,
    pub completed: bool,
    pub error: Option<String>,
}

/// A view of the debugger state for callers.
#[derive(Debug, Clone)]
pub struct DebuggerState {
    pub ip: usize,
    pub position: Position,
    pub pixel_position: Position,
    pub dp: Direction,
    pub cc: CodelChooser,
    pub stack: Vec<i32>,
    pub halted: bool,
    pub waiting_for_input: Option<InputRequest>,
    pub steps: usize,
    pub current_instruction: Option<RichInstruction>,
    pub next_instruction: Option<RichInstruction>,
    pub output: Vec<i32>,
    pub output_string: String,
}

/// The whole content of a debug record, strings as character sequences.
pub ghost struct DebugData {
    pub from_pos: Position,
    pub to_pos: Position,
    pub dp: Direction,
    pub cc: CodelChooser,
    pub block_size: nat,
    pub from_color: Seq<char>,
    pub to_color: Seq<char>,
}

/// The content of a debug record.
pub open spec fn debug_data(d: InstructionDebugInfo) -> DebugData {
    DebugData {
        from_pos: d.from_pos,
        to_pos: d.to_pos,
        dp: d.dp,
        cc: d.cc,
        block_size: d.block_size as nat,
        from_color: d.from_color@,
        to_color: d.to_color@,
    }
}

/// The content of an optional debug record.
pub open spec fn opt_debug_data(d: Option<InstructionDebugInfo>) -> Option<DebugData> {
    match d {
        Some(info) => Some(debug_data(info)),
        None => None,
    }
}

/// The whole content of one trace entry.
pub ghost struct StepData {
    pub step: nat,
    pub instruction: Instruction,
    pub debug: Option<DebugData>,
    pub stack_before: Seq<i32>,
    pub stack_after: Seq<i32>,
    pub position: Position,
    pub dp: Direction,
    pub cc: CodelChooser,
    pub output: Option<i32>,
    pub output_is_char: bool,
}

/// The content of one trace entry.
pub open spec fn step_data(e: ExecutionStep) -> StepData {
    StepData {
        step: e.step as nat,
        instruction: e.instruction,
        debug: opt_debug_data(e.debug_info),
        stack_before: e.stack_before@,
        stack_after: e.stack_after@,
        position: e.position,
        dp: e.dp,
        cc: e.cc,
        output: e.output,
        output_is_char: e.output_is_char,
    }
}

/// The parts of a debug record the stepper uses.
pub ghost struct DebugMeta {
    pub from_pos: Position,
    pub to_pos: Position,
    pub dp: Direction,
    pub cc: CodelChooser,
}

/// The parts of a rich instruction the stepper uses.
pub ghost struct RichView {
    pub op: Instruction,
    pub debug: Option<DebugMeta>,
}

/// The stepper-relevant view of one rich instruction.
pub open spec fn rich_view(r: RichInstruction) -> RichView {
    RichView {
        op: r.op,
        debug: match r.debug {
            Some(d) => Some(DebugMeta { from_pos: d.from_pos, to_pos: d.to_pos, dp: d.dp, cc: d.cc }),
            None => None,
        },
    }
}

/// The stepper-relevant view of a program's instruction list.
pub open spec fn program_view(p: Program) -> Seq<RichView> {
    p.rich_instructions@.map_values(|r: RichInstruction| rich_view(r))
}

/// The debugger's mutable state as mathematical values.
pub ghost struct DbgView {
    pub ip: nat,
    pub position: Position,
    pub dp: Direction,
    pub cc: CodelChooser,
    pub stack: Seq<i32>,
    pub input: Seq<InputValue>,
    pub input_pos: int,
    pub output: Seq<OutputValue>,
    pub halted: bool,
    pub waiting: Option<InputRequest>,
    pub steps: nat,
}

/// The state a debugger starts in (and returns to on reset).
pub open spec fn initial_dbg_view() -> DbgView {
    DbgView {
        ip: 0,
        position: Position { x: 0, y: 0 },
        dp: Direction::Right,
        cc: CodelChooser::Left,
        stack: Seq::empty(),
        input: Seq::empty(),
        input_pos: 0,
        output: Seq::empty(),
        halted: false,
        waiting: None,
        steps: 0,
    }
}

/// What one debugger step does: a new state plus whether a step executed
/// (None when the machine is suspended waiting for input), or the error.
pub open spec fn dbg_step_spec(prog: Seq<RichView>, v: DbgView) -> (DbgView, Result<bool, VmError>) {
    if v.halted {
        (v, Err(VmError::Halted))
    } else if v.waiting is Some {
        (v, Ok(false))
    } else if v.ip >= prog.len() {
        (DbgView { halted: true, ..v }, Err(VmError::Halted))
    } else {
        let r = prog[v.ip as int];
        if r.op == Instruction::InNumber && v.input_pos >= v.input.len() {
            (DbgView { waiting: Some(InputRequest::Number), ..v }, Ok(false))
        } else if r.op == Instruction::InChar && v.input_pos >= v.input.len() {
            (DbgView { waiting: Some(InputRequest::Char), ..v }, Ok(false))
        } else {
            let entry = match r.debug {
                Some(d) => (d.from_pos, d.dp, d.cc),
                None => (v.position, v.dp, v.cc),
            };
            let pre = ExecParts {
                stack: v.stack,
                input: v.input,
                input_pos: v.input_pos,
                output: v.output,
                dp: entry.1,
                cc: entry.2,
                halted: v.halted,
            };
            let post = exec_instr_spec(r.op, pre).0;
            let landing = match r.debug {
                Some(d) => d.to_pos,
                None => entry.0,
            };
            (DbgView {
                ip: v.ip + 1,
                position: landing,
                dp: post.dp,
                cc: post.cc,
                stack: post.stack,
                input: post.input,
                input_pos: post.input_pos,
                output: post.output,
                halted: post.halted,
                waiting: None,
                steps: inc_steps(v.steps),
            }, Ok(true))
        }
    }
}

/// The trace entry an executed step produces: the instruction and its
/// record, the stack before and after per exec_instr_spec, the state before
/// the step, and the value the step wrote, if any.
pub open spec fn dbg_step_record(p: Program, v: DbgView) -> StepData {
    let r = p.rich_instructions@[v.ip as int];
    let entry = match r.debug {
        Some(info) => (info.dp, info.cc),
        None => (v.dp, v.cc),
    };
    let pre = ExecParts {
        stack: v.stack,
        input: v.input,
        input_pos: v.input_pos,
        output: v.output,
        dp: entry.0,
        cc: entry.1,
        halted: v.halted,
    };
    StepData {
        step: (inc_steps(v.steps) - 1) as nat,
        instruction: r.op,
        debug: opt_debug_data(r.debug),
        stack_before: v.stack,
        stack_after: exec_instr_spec(r.op, pre).0.stack,
        position: v.position,
        dp: v.dp,
        cc: v.cc,
        output: if (r.op == Instruction::OutNumber || r.op == Instruction::OutChar)
            && v.stack.len() >= 1 {
            Some(v.stack.last())
        } else {
            None
        },
        output_is_char: r.op == Instruction::OutChar && v.stack.len() >= 1,
    }
}

/// Running n steps of the spec-level stepper.
pub open spec fn dbg_run_spec(prog: Seq<RichView>, v: DbgView, n: nat) -> DbgView
    decreases n,
{
    if n == 0 {
        v
    } else {
        dbg_run_spec(prog, dbg_step_spec(prog, v).0, (n - 1) as nat)
    }
}

/// Replay: after a reset, any number of steps lands in exactly the state the
/// same number of steps reaches from the initial state, because one step is
/// a function of the state and the program alone.
pub proof fn lemma_reset_replays(prog: Seq<RichView>, v_after_reset: DbgView, n: nat)
    requires
        v_after_reset == initial_dbg_view(),
    ensures
        dbg_run_spec(prog, v_after_reset, n) == dbg_run_spec(prog, initial_dbg_view(), n),
{
}

/// Running at most max stepper calls, stopping on a halt or on a breakpoint
/// once at least one call was made: the final state and how many calls ran.
/// Suspended calls count, as the callers' step counting does.
pub open spec fn dbg_run_steps_spec(
    prog: Seq<RichView>, bps: Seq<usize>, v: DbgView, max: nat, started: bool,
) -> (DbgView, nat)
    decreases max,
{
    if max == 0 || v.halted || (started && bps.contains(v.ip as usize)) {
        (v, 0)
    } else {
        let s = dbg_step_spec(prog, v);
        match s.1 {
            Err(_) => (s.0, 0),
            Ok(_) => {
                let rest = dbg_run_steps_spec(prog, bps, s.0, (max - 1) as nat, true);
                (rest.0, rest.1 + 1)
            },
        }
    }
}

/// Running until a halt, an error, an input wait, or a breakpoint reached
/// after at least one executed step.
pub open spec fn dbg_run_full_spec(prog: Seq<RichView>, bps: Seq<usize>, v: DbgView) -> DbgView
    decreases prog.len() + 1 - v.ip,
    via dbg_run_full_spec_decreases
{
    if v.halted || (v.steps > 0 && bps.contains(v.ip as usize)) {
        v
    } else {
        let s = dbg_step_spec(prog, v);
        match s.1 {
            Err(_) => s.0,
            Ok(false) => s.0,
            Ok(true) => dbg_run_full_spec(prog, bps, s.0),
        }
    }
}

#[via_fn]
proof fn dbg_run_full_spec_decreases(prog: Seq<RichView>, bps: Seq<usize>, v: DbgView) {
    let s = dbg_step_spec(prog, v);
    if !(v.halted || (v.steps > 0 && bps.contains(v.ip as usize))) && s.1 == Ok::<bool, VmError>(true) {
        assert(v.ip < prog.len());
        assert(s.0.ip == v.ip + 1);
    }
}

/// Running with a step limit: the final state and how many steps executed
/// before a halt, an error, an input wait, a breakpoint (after at least one
/// earlier step) or the limit stopped the run.
pub open spec fn dbg_run_limited_spec(
    prog: Seq<RichView>, bps: Seq<usize>, v: DbgView, max: nat,
) -> (DbgView, nat)
    decreases max,
{
    if max == 0 || v.halted || (v.steps > 0 && bps.contains(v.ip as usize)) {
        (v, 0)
    } else {
        let s = dbg_step_spec(prog, v);
        match s.1 {
            Err(_) => (s.0, 0),
            Ok(false) => (s.0, 0),
            Ok(true) => {
                let rest = dbg_run_limited_spec(prog, bps, s.0, (max - 1) as nat);
                (rest.0, rest.1 + 1)
            },
        }
    }
}

/// Running until the instruction pointer stands on a breakpoint right after
/// an executed step; None when the machine halts, errs or suspends first.
pub open spec fn dbg_continue_spec(
    prog: Seq<RichView>, bps: Seq<usize>, v: DbgView,
) -> (DbgView, Option<usize>)
    decreases prog.len() + 1 - v.ip,
    via dbg_continue_spec_decreases
{
    if v.halted {
        (v, None)
    } else {
        let s = dbg_step_spec(prog, v);
        match s.1 {
            Err(_) => (s.0, None),
            Ok(false) => (s.0, None),
            Ok(true) => if bps.contains(s.0.ip as usize) {
                (s.0, Some(s.0.ip as usize))
            } else {
                dbg_continue_spec(prog, bps, s.0)
            },
        }
    }
}

#[via_fn]
proof fn dbg_continue_spec_decreases(prog: Seq<RichView>, bps: Seq<usize>, v: DbgView) {
    let s = dbg_step_spec(prog, v);
    if !v.halted && s.1 == Ok::<bool, VmError>(true) {
        assert(v.ip < prog.len());
        assert(s.0.ip == v.ip + 1);
    }
}

/// The bytecode-driven executor: walks the compiled instruction list with an
/// instruction pointer and drives positions from the debug records.
pub struct Debugger {
    program: Program,
    grid: Grid,
    codel_size: usize,
    ip: usize,
    position: Position,
    dp: Direction,
    cc: CodelChooser,
    stack: Vec<i32>,
    input: Input,
    output: Output,
    halted: bool,
    waiting_for_input: Option<InputRequest>,
    steps: usize,
    trace: Vec<ExecutionStep>,
    record_trace: bool,
    breakpoints: Vec<usize>,
}

impl View for Debugger {
    type V = DbgView;

    closed spec fn view(&self) -> DbgView {
        DbgView {
            ip: self.ip as nat,
            position: self.position,
            dp: self.dp,
            cc: self.cc,
            stack: self.stack@,
            input: self.input.spec_buffer(),
            input_pos: self.input.spec_pos(),
            output: self.output.spec_buffer(),
            halted: self.halted,
            waiting: self.waiting_for_input,
            steps: self.steps as nat,
        }
    }
}

impl Debugger {
    pub closed spec fn spec_program(self) -> Program {
        self.program
    }

    pub closed spec fn spec_grid(self) -> Grid {
        self.grid
    }

    pub closed spec fn spec_breakpoints(self) -> Seq<usize> {
        self.breakpoints@
    }

    pub closed spec fn spec_record_trace(self) -> bool {
        self.record_trace
    }

    pub open spec fn wf(self) -> bool {
        &&& self@.input_pos >= 0
        &&& self@.input_pos <= self@.input.len()
        &&& self@.ip <= usize::MAX
        &&& self@.steps <= usize::MAX
    }

    /// Compiles the grid in debug mode and opens a debugger over the result.
    pub fn new(grid: Grid, codel_size: usize, image_width: usize, image_height: usize) -> (r: Result<Self, VmError>)
        requires
            grid.inv(),
            grid.spec_width() * grid.spec_height() * 8 <= usize::MAX,
            grid.spec_width() * codel_size <= usize::MAX,
            grid.spec_height() * codel_size <= usize::MAX,
        ensures
            match r {
                Ok(d) => {
                    &&& d.wf()
                    &&& d@ == initial_dbg_view()
                    &&& d.spec_grid() == grid
                    &&& d.spec_breakpoints() == Seq::<usize>::empty()
                    &&& d.spec_codel_size() == codel_size
                    &&& d.spec_record_trace()
                    &&& d.spec_trace_len() == 0
                    &&& prog_ok(grid, d.spec_program(), CompileMode::Debug, d.spec_program().metadata)
                    &&& blocks_mapped_ok(grid, d.spec_program())
                    &&& d.spec_program().metadata.codel_size == codel_size
                    &&& d.spec_program().metadata.grid_width == grid.spec_width()
                    &&& d.spec_program().metadata.grid_height == grid.spec_height()
                    &&& forall|i: int| 0 <= i < d.spec_program().rich_instructions@.len()
                        ==> (#[trigger] d.spec_program().rich_instructions@[i]).debug is Some
                },
                Err(_) => false,
            },
    {
        let compiler = Compiler::with_codel_size(grid, codel_size, image_width, image_height)
            .with_mode(CompileMode::Debug);
        let program = match compiler.compile() {
            Ok(p) => p,
            Err(e) => {
                proof { assert(false); }
                return Err(e);
            }
        };
        let grid = compiler.into_grid();
        Ok(Self::from_program(program, grid, codel_size))
    }

    /// Opens a debugger over an already compiled program.
    pub fn from_program(program: Program, grid: Grid, codel_size: usize) -> (d: Self)
        ensures
            d.wf(),
            d@ == initial_dbg_view(),
            d.spec_program() == program,
            d.spec_grid() == grid,
            d.spec_breakpoints() == Seq::<usize>::empty(),
            d.spec_record_trace(),
            d.spec_trace_len() == 0,
            d.spec_codel_size() == codel_size,
    {
        Debugger {
            program,
            grid,
            codel_size,
            ip: 0,
            position: Position::new(0, 0),
            dp: Direction::Right,
            cc: CodelChooser::Left,
            stack: Vec::new(),
            input: Input::new(),
            output: Output::new(),
            halted: false,
            waiting_for_input: None,
            steps: 0,
            trace: Vec::new(),
            record_trace: true,
            breakpoints: Vec::new(),
        }
    }

    /// Turns trace recording on or off.
    pub fn set_record_trace(&mut self, record: bool)
        ensures
            final(self)@ == old(self)@,
            final(self).spec_record_trace() == record,
            final(self).spec_program() == old(self).spec_program(),
            final(self).spec_breakpoints() == old(self).spec_breakpoints(),
            final(self).spec_trace() == old(self).spec_trace(),
            old(self).wf() ==> final(self).wf(),
    {
        self.record_trace = record;
    }

    /// Adds a breakpoint at an instruction index, once.
    pub fn add_breakpoint(&mut self, index: usize)
        ensures
            final(self)@ == old(self)@,
            final(self).spec_program() == old(self).spec_program(),
            final(self).spec_breakpoints().contains(index),
            old(self).spec_breakpoints().contains(index)
                ==> final(self).spec_breakpoints() == old(self).spec_breakpoints(),
            !old(self).spec_breakpoints().contains(index)
                ==> final(self).spec_breakpoints() == old(self).spec_breakpoints().push(index),
            old(self).wf() ==> final(self).wf(),
    {
        if !self.contains_breakpoint(index) {
            self.breakpoints.push(index);
            proof {
                assert(self.breakpoints@.last() == index);
            }
        }
    }

    fn contains_breakpoint(&self, index: usize) -> (b: bool)
        ensures
            b == self.spec_breakpoints().contains(index),
    {
        let mut k: usize = 0;
        while k < self.breakpoints.len()
            invariant
                k <= self.breakpoints@.len(),
                forall|j: int| 0 <= j < k ==> #[trigger] self.breakpoints@[j] != index,
            decreases self.breakpoints@.len() - k,
        {
            if self.breakpoints[k] == index {
                proof {
                    assert(self.breakpoints@[k as int] == index);
                }
                return true;
            }
            k = k + 1;
        }
        false
    }

    /// Filtering keeps exactly the members that satisfy the predicate.
    proof fn lemma_filter_membership(s: Seq<usize>, pred: spec_fn(usize) -> bool, x: usize)
        ensures
            s.filter(pred).contains(x) <==> (s.contains(x) && pred(x)),
        decreases s.len(),
    {
        reveal_with_fuel(Seq::filter, 2);
        if s.len() == 0 {
            assert(!s.contains(x));
            assert(!s.filter(pred).contains(x));
        } else {
            let sub = s.drop_last();
            let last = s.last();
            Self::lemma_filter_membership(sub, pred, x);
            assert(s.contains(x) <==> (sub.contains(x) || x == last)) by {
                if s.contains(x) {
                    let i = choose|i: int| 0 <= i < s.len() && s[i] == x;
                    if i < s.len() - 1 {
                        assert(sub[i] == x);
                    }
                }
                if sub.contains(x) {
                    let i = choose|i: int| 0 <= i < sub.len() && sub[i] == x;
                    assert(s[i] == x);
                }
                if x == last {
                    assert(s[s.len() - 1] == x);
                }
            }
            if pred(last) {
                assert(s.filter(pred) == sub.filter(pred).push(last));
                assert(s.filter(pred).contains(x)
                    <==> (sub.filter(pred).contains(x) || x == last)) by {
                    if s.filter(pred).contains(x) {
                        let i = choose|i: int| 0 <= i < s.filter(pred).len() && s.filter(pred)[i] == x;
                        if i < s.filter(pred).len() - 1 {
                            assert(sub.filter(pred)[i] == x);
                        }
                    }
                    if sub.filter(pred).contains(x) {
                        let i = choose|i: int| 0 <= i < sub.filter(pred).len()
                            && sub.filter(pred)[i] == x;
                        assert(s.filter(pred)[i] == x);
                    }
                    if x == last {
                        assert(s.filter(pred).last() == x);
                    }
                }
            } else {
                assert(s.filter(pred) == sub.filter(pred));
            }
        }
    }

    /// The survivors of removing an index from the breakpoint list.
    pub open spec fn keeps(index: usize) -> spec_fn(usize) -> bool {
        |x: usize| x != index
    }

    /// Removes every breakpoint at an instruction index; the others stay, in
    /// order.
    pub fn remove_breakpoint(&mut self, index: usize)
        ensures
            final(self)@ == old(self)@,
            final(self).spec_program() == old(self).spec_program(),
            final(self).spec_breakpoints()
                == old(self).spec_breakpoints().filter(Self::keeps(index)),
            !final(self).spec_breakpoints().contains(index),
            forall|x: usize| #[trigger] final(self).spec_breakpoints().contains(x)
                <==> (old(self).spec_breakpoints().contains(x) && x != index),
            final(self).spec_trace_len() == old(self).spec_trace_len(),
            final(self).spec_record_trace() == old(self).spec_record_trace(),
            old(self).wf() ==> final(self).wf(),
    {
        let ghost pred = Self::keeps(index);
        let mut kept: Vec<usize> = Vec::new();
        let mut k: usize = 0;
        while k < self.breakpoints.len()
            invariant
                k <= self.breakpoints@.len(),
                kept@ == self.breakpoints@.take(k as int).filter(pred),
                pred == Self::keeps(index),
            decreases self.breakpoints@.len() - k,
        {
            let bp = self.breakpoints[k];
            let ghost pre = self.breakpoints@.take(k as int);
            let ghost kept0 = kept@;
            if bp != index {
                kept.push(bp);
            }
            proof {
                reveal_with_fuel(Seq::filter, 2);
                assert(self.breakpoints@.take(k as int + 1) =~= pre + seq![bp]);
                Seq::<usize>::filter_distributes_over_add(pre, seq![bp], pred);
                assert(seq![bp].filter(pred)
                    =~= if bp != index { seq![bp] } else { Seq::<usize>::empty() }) by {
                    assert(seq![bp].drop_last() =~= Seq::<usize>::empty());
                }
                assert(kept@ =~= self.breakpoints@.take(k as int + 1).filter(pred));
            }
            k = k + 1;
        }
        proof {
            assert(self.breakpoints@.take(self.breakpoints@.len() as int) =~= self.breakpoints@);
        }
        self.breakpoints = kept;
        proof {
            let bps0 = old(self).spec_breakpoints();
            assert forall|x: usize| true
                implies (#[trigger] self.breakpoints@.contains(x)
                    <==> (bps0.contains(x) && x != index)) by {
                Self::lemma_filter_membership(bps0, pred, x);
            }
        }
    }

    /// Removes every breakpoint.
    pub fn clear_breakpoints(&mut self)
        ensures
            final(self)@ == old(self)@,
            final(self).spec_program() == old(self).spec_program(),
            final(self).spec_breakpoints() == Seq::<usize>::empty(),
            old(self).wf() ==> final(self).wf(),
    {
        self.breakpoints.clear();
    }

    /// The breakpoints, as instruction indices.
    pub fn breakpoints(&self) -> (r: &[usize])
        ensures
            r@ == self.spec_breakpoints(),
    {
        self.breakpoints.as_slice()
    }

    /// Restores the initial state: stack, buffers, instruction pointer,
    /// position, direction state, halted flag, step counter and trace; the
    /// program and the breakpoints stay.
    pub fn reset(&mut self)
        ensures
            final(self)@ == initial_dbg_view(),
            final(self).spec_program() == old(self).spec_program(),
            final(self).spec_breakpoints() == old(self).spec_breakpoints(),
            final(self).spec_trace() == Seq::<StepData>::empty(),
            final(self).spec_record_trace() == old(self).spec_record_trace(),
            final(self).spec_codel_size() == old(self).spec_codel_size(),
            final(self).wf(),
    {
        self.ip = 0;
        self.position = Position::new(0, 0);
        self.dp = Direction::Right;
        self.cc = CodelChooser::Left;
        self.stack.clear();
        self.input = Input::new();
        self.output = Output::new();
        self.halted = false;
        self.waiting_for_input = None;
        self.steps = 0;
        self.trace.clear();
    }

    /// Appends a number to the input buffer; a pending input wait is
    /// released.
    pub fn input(&mut self, value: i32)
        ensures
            final(self)@ == (DbgView {
                input: old(self)@.input.push(InputValue::Number(value)),
                waiting: None,
                ..old(self)@
            }),
            final(self).spec_program() == old(self).spec_program(),
            old(self).wf() ==> final(self).wf(),
    {
        self.input.write(value);
        self.waiting_for_input = None;
    }

    /// Appends a character to the input buffer; a pending input wait is
    /// released.
    pub fn input_char(&mut self, c: char)
        ensures
            final(self)@ == (DbgView {
                input: old(self)@.input.push(InputValue::Char(c as i32)),
                waiting: None,
                ..old(self)@
            }),
            final(self).spec_program() == old(self).spec_program(),
            old(self).wf() ==> final(self).wf(),
    {
        self.input.write_char(c);
        self.waiting_for_input = None;
    }

    /// Provides a number and releases the input wait.
    pub fn provide_input(&mut self, value: i32)
        ensures
            final(self)@ == (DbgView {
                input: old(self)@.input.push(InputValue::Number(value)),
                waiting: None,
                ..old(self)@
            }),
            final(self).spec_program() == old(self).spec_program(),
            old(self).wf() ==> final(self).wf(),
    {
        self.input.write(value);
        self.waiting_for_input = None;
    }

    /// Provides a character and releases the input wait.
    pub fn provide_input_char(&mut self, c: char)
        ensures
            final(self)@ == (DbgView {
                input: old(self)@.input.push(InputValue::Char(c as i32)),
                waiting: None,
                ..old(self)@
            }),
            final(self).spec_program() == old(self).spec_program(),
            old(self).wf() ==> final(self).wf(),
    {
        self.input.write_char(c);
        self.waiting_for_input = None;
    }

    /// Whether the debugger is suspended waiting for input.
    pub fn is_waiting_for_input(&self) -> (b: bool)
        ensures
            b == (self@.waiting is Some),
    {
        self.waiting_for_input.is_some()
    }

    /// The kind of input being waited for, if any.
    pub fn get_input_request(&self) -> (r: Option<InputRequest>)
        ensures
            r == self@.waiting,
    {
        self.waiting_for_input
    }

    /// Appends every character of the text as a character input.
    pub fn load_input_text(&mut self, text: &str)
        ensures
            final(self)@ == (DbgView {
                input: old(self)@.input + text@.map_values(|c: char| InputValue::Char(c as i32)),
                ..old(self)@
            }),
            final(self).spec_program() == old(self).spec_program(),
            old(self).wf() ==> final(self).wf(),
    {
        self.input.load_text(text);
    }

    /// Parses whitespace-separated numbers out of the text and appends each
    /// one that reads as a 32-bit integer, in order.
    pub fn load_input_numbers(&mut self, text: &str)
        ensures
            final(self)@ == (DbgView {
                input: old(self)@.input + numbers_from(text@, 0).map_values(|n: i32| InputValue::Number(n)),
                ..old(self)@
            }),
            final(self).spec_program() == old(self).spec_program(),
            old(self).wf() ==> final(self).wf(),
    {
        self.input.load_numbers(text);
    }

    /// Appends a slice of numbers as number inputs.
    pub fn load_input_number_vec(&mut self, numbers: &[i32])
        ensures
            final(self)@ == (DbgView {
                input: old(self)@.input + numbers@.map_values(|n: i32| InputValue::Number(n)),
                ..old(self)@
            }),
            final(self).spec_program() == old(self).spec_program(),
            old(self).wf() ==> final(self).wf(),
    {
        self.input.load_number_vec(numbers);
    }

    /// Empties the input buffer.
    pub fn clear_input(&mut self)
        ensures
            final(self)@ == (DbgView { input: Seq::empty(), input_pos: 0, ..old(self)@ }),
            final(self).spec_program() == old(self).spec_program(),
            old(self).wf() ==> final(self).wf(),
    {
        self.input.clear();
    }

    /// Rewinds the input buffer so it is read again from the start.
    pub fn rewind_input(&mut self)
        ensures
            final(self)@ == (DbgView { input_pos: 0, ..old(self)@ }),
            final(self).spec_program() == old(self).spec_program(),
            old(self).wf() ==> final(self).wf(),
    {
        self.input.rewind();
    }

    /// Whether unread input is available.
    pub fn has_input(&self) -> (b: bool)
        ensures
            b == (self@.input_pos < self@.input.len()),
    {
        self.input.has_input()
    }

    /// How many input entries are still unread.
    pub fn remaining_input(&self) -> (n: usize)
        requires
            self.wf(),
        ensures
            n == self@.input.len() - self@.input_pos,
    {
        self.input.remaining()
    }

    /// One debugger step: exactly what dbg_step_spec says of the state. The
    /// returned record describes the executed step; None reports a
    /// suspension (waiting for input or already waiting).
    #[verifier::rlimit(100)]
    pub fn step(&mut self) -> (r: Result<Option<ExecutionStep>, VmError>)
        requires
            old(self).wf(),
        ensures
            final(self).wf(),
            final(self).spec_program() == old(self).spec_program(),
            final(self).spec_breakpoints() == old(self).spec_breakpoints(),
            final(self).spec_record_trace() == old(self).spec_record_trace(),
            final(self).spec_codel_size() == old(self).spec_codel_size(),
            ({
                let expect = dbg_step_spec(program_view(old(self).spec_program()), old(self)@);
                final(self)@ == expect.0 && (match expect.1 {
                    Err(e) => r == Err::<Option<ExecutionStep>, VmError>(e),
                    Ok(false) => r == Ok::<Option<ExecutionStep>, VmError>(None),
                    Ok(true) => r matches Ok(Some(_)),
                })
                && (match expect.1 {
                    Ok(true) => {
                        &&& (r matches Ok(Some(e)) && step_data(e)
                            == dbg_step_record(old(self).spec_program(), old(self)@))
                        &&& final(self).spec_trace() == (if old(self).spec_record_trace() {
                            old(self).spec_trace().push(
                                dbg_step_record(old(self).spec_program(), old(self)@),
                            )
                        } else {
                            old(self).spec_trace()
                        })
                    },
                    _ => final(self).spec_trace() == old(self).spec_trace(),
                })
            }),
    {
        let ghost v0 = old(self)@;
        let ghost pv = program_view(old(self).spec_program());
        if self.halted {
            return Err(VmError::Halted);
        }
        if self.waiting_for_input.is_some() {
            return Ok(None);
        }
        if self.ip >= self.program.rich_instructions.len() {
            self.halted = true;
            return Err(VmError::Halted);
        }
        proof {
            assert(pv[v0.ip as int] == rich_view(old(self).spec_program().rich_instructions@[v0.ip as int]));
        }
        let rich_instr = &self.program.rich_instructions[self.ip];
        let instruction = rich_instr.op;
        let needs_number = match instruction {
            Instruction::InNumber => true,
            _ => false,
        };
        let needs_char = match instruction {
            Instruction::InChar => true,
            _ => false,
        };
        if needs_number && !self.input.has_input() {
            self.waiting_for_input = Some(InputRequest::Number);
            return Ok(None);
        }
        if needs_char && !self.input.has_input() {
            self.waiting_for_input = Some(InputRequest::Char);
            return Ok(None);
        }
        let stack_before = copy_stack(&self.stack);
        let position_before = self.position;
        let dp_before = self.dp;
        let cc_before = self.cc;
        let out_len_before = self.output.len_entries();
        let debug_copy = match &rich_instr.debug {
            Some(info) => {
                self.position = info.from_pos;
                self.dp = info.dp;
                self.cc = info.cc;
                Some(dup_debug_info(info))
            }
            None => None,
        };
        let instr_copy = instruction;
        let exec_r = execute_instruction_on(
            &instr_copy,
            &mut self.stack,
            &mut self.input,
            &mut self.output,
            &mut self.dp,
            &mut self.cc,
            &mut self.halted,
        );
        let (step_output, output_is_char) = match exec_r {
            Ok(()) => {
                if self.output.len_entries() > out_len_before {
                    match instruction {
                        Instruction::OutNumber => (self.output.last_value(), false),
                        Instruction::OutChar => (self.output.last_value(), true),
                        _ => (None, false),
                    }
                } else {
                    (None, false)
                }
            }
            Err(_) => (None, false),
        };
        match &debug_copy {
            Some(info) => {
                self.position = info.to_pos;
            }
            None => {}
        }
        self.ip = self.ip + 1;
        if self.steps < usize::MAX {
            self.steps = self.steps + 1;
        }
        let exec_step = ExecutionStep {
            step: self.steps - 1,
            instruction,
            debug_info: debug_copy,
            stack_before,
            stack_after: copy_stack(&self.stack),
            position: position_before,
            dp: dp_before,
            cc: cc_before,
            output: step_output,
            output_is_char,
        };
        if self.record_trace {
            let copy = dup_exec_step(&exec_step);
            self.trace.push(copy);
        }
        proof {
            assert(self@ == dbg_step_spec(pv, v0).0);
        }
        Ok(Some(exec_step))
    }

    /// Runs until a halt or until the machine stops at a breakpoint or an
    /// input wait, exactly as dbg_run_full_spec says; the returned trace
    /// reports the final state.
    #[verifier::loop_isolation(false)]
    pub fn run(&mut self) -> (r: Result<ExecutionTrace, VmError>)
        requires
            old(self).wf(),
        ensures
            final(self).wf(),
            final(self).spec_program() == old(self).spec_program(),
            final(self).spec_breakpoints() == old(self).spec_breakpoints(),
            final(self)@ == dbg_run_full_spec(
                program_view(old(self).spec_program()),
                old(self).spec_breakpoints(),
                old(self)@,
            ),
            match r {
                Ok(t) => {
                    &&& t.output@ == final(self)@.output.map_values(|v: OutputValue| output_value_of(v))
                    &&& t.output_string@ == render_output(final(self)@.output)
                    &&& t.total_steps == final(self)@.steps
                    &&& t.completed == final(self)@.halted
                    &&& t.error is None
                },
                Err(_) => false,
            },
    {
        let ghost pv = program_view(old(self).spec_program());
        let ghost bps = old(self).spec_breakpoints();
        let ghost v0 = old(self)@;
        loop
            invariant
                self.wf(),
                self.spec_program() == old(self).spec_program(),
                self.spec_breakpoints() == bps,
                dbg_run_full_spec(pv, bps, v0) == dbg_run_full_spec(pv, bps, self@),
            decreases
                self.spec_program().rich_instructions@.len() + 1 - self@.ip,
        {
            if self.halted {
                break;
            }
            if self.is_at_breakpoint() && self.steps > 0 {
                break;
            }
            let ghost ip0 = self@.ip;
            let ghost v_pre = self@;
            match self.step() {
                Ok(Some(_)) => {
                    proof {
                        assert(dbg_step_spec(pv, v_pre).1 == Ok::<bool, VmError>(true));
                        assert(self@.ip == ip0 + 1);
                        assert(self@.ip <= self.spec_program().rich_instructions@.len());
                        assert(dbg_run_full_spec(pv, bps, v_pre) == dbg_run_full_spec(pv, bps, self@));
                    }
                }
                Ok(None) => {
                    proof {
                        assert(dbg_run_full_spec(pv, bps, v_pre) == self@);
                    }
                    return Ok(self.get_execution_trace());
                }
                Err(_) => {
                    proof {
                        assert(dbg_run_full_spec(pv, bps, v_pre) == self@);
                    }
                    break;
                }
            }
        }
        Ok(self.get_execution_trace())
    }

    /// Runs at most max_steps stepper calls, honoring breakpoints; returns
    /// how many calls ran, exactly as dbg_run_steps_spec says.
    #[verifier::loop_isolation(false)]
    pub fn run_steps(&mut self, max_steps: usize) -> (r: Result<usize, VmError>)
        requires
            old(self).wf(),
        ensures
            final(self).wf(),
            final(self).spec_program() == old(self).spec_program(),
            final(self).spec_breakpoints() == old(self).spec_breakpoints(),
            ({
                let full = dbg_run_steps_spec(
                    program_view(old(self).spec_program()),
                    old(self).spec_breakpoints(),
                    old(self)@,
                    max_steps as nat,
                    false,
                );
                final(self)@ == full.0 && r == Ok::<usize, VmError>(full.1 as usize)
            }),
    {
        let ghost pv = program_view(old(self).spec_program());
        let ghost bps = old(self).spec_breakpoints();
        let ghost v0 = old(self)@;
        let mut executed: usize = 0;
        while executed < max_steps
            invariant
                executed <= max_steps,
                self.wf(),
                self.spec_program() == old(self).spec_program(),
                self.spec_breakpoints() == bps,
                ({
                    let full = dbg_run_steps_spec(pv, bps, v0, max_steps as nat, false);
                    let rest = dbg_run_steps_spec(
                        pv, bps, self@, (max_steps - executed) as nat, executed > 0,
                    );
                    full.0 == rest.0 && full.1 == rest.1 + executed
                }),
            decreases max_steps - executed,
        {
            if self.halted {
                proof {
                    assert(dbg_run_steps_spec(pv, bps, self@, (max_steps - executed) as nat, executed > 0)
                        == (self@, 0nat));
                }
                return Ok(executed);
            }
            if self.is_at_breakpoint() && executed > 0 {
                proof {
                    assert(dbg_run_steps_spec(pv, bps, self@, (max_steps - executed) as nat, executed > 0)
                        == (self@, 0nat));
                }
                return Ok(executed);
            }
            let ghost v_pre = self@;
            match self.step() {
                Ok(_) => {
                    proof {
                        assert(dbg_run_steps_spec(pv, bps, v_pre, (max_steps - executed) as nat, executed > 0).0
                            == dbg_run_steps_spec(pv, bps, self@, (max_steps - executed - 1) as nat, true).0);
                    }
                    executed = executed + 1;
                }
                Err(_) => {
                    proof {
                        assert(dbg_run_steps_spec(pv, bps, v_pre, (max_steps - executed) as nat, executed > 0)
                            == (self@, 0nat));
                    }
                    return Ok(executed);
                }
            }
        }
        proof {
            assert(dbg_run_steps_spec(pv, bps, self@, 0, executed > 0) == (self@, 0nat));
        }
        Ok(executed)
    }

    /// Runs with a step limit, exactly as dbg_run_limited_spec says; when
    /// the limit stops the run before a halt, the returned trace is marked
    /// incomplete and carries a watchdog message, otherwise the trace
    /// reports the final state with no error.
    #[verifier::loop_isolation(false)]
    pub fn run_limited(&mut self, max_steps: usize) -> (r: Result<ExecutionTrace, VmError>)
        requires
            old(self).wf(),
        ensures
            final(self).wf(),
            final(self).spec_program() == old(self).spec_program(),
            final(self).spec_breakpoints() == old(self).spec_breakpoints(),
            ({
                let full = dbg_run_limited_spec(
                    program_view(old(self).spec_program()),
                    old(self).spec_breakpoints(),
                    old(self)@,
                    max_steps as nat,
                );
                final(self)@ == full.0 && (match r {
                    Ok(t) => {
                        &&& t.output@ == full.0.output.map_values(|v: OutputValue| output_value_of(v))
                        &&& t.output_string@ == render_output(full.0.output)
                        &&& t.total_steps == full.0.steps
                        &&& (!full.0.halted && full.1 == max_steps as nat
                            ==> t.error is Some && !t.completed)
                        &&& (full.0.halted || full.1 < max_steps as nat
                            ==> t.error is None && t.completed == full.0.halted)
                    },
                    Err(_) => false,
                })
            }),
    {
        let ghost pv = program_view(old(self).spec_program());
        let ghost bps = old(self).spec_breakpoints();
        let ghost v0 = old(self)@;
        let mut executed: usize = 0;
        while executed < max_steps
            invariant
                executed <= max_steps,
                self.wf(),
                self.spec_program() == old(self).spec_program(),
                self.spec_breakpoints() == bps,
                ({
                    let full = dbg_run_limited_spec(pv, bps, v0, max_steps as nat);
                    let rest = dbg_run_limited_spec(pv, bps, self@, (max_steps - executed) as nat);
                    full.0 == rest.0 && full.1 == rest.1 + executed
                }),
                executed > 0 ==> ({
                    let full = dbg_run_limited_spec(pv, bps, v0, max_steps as nat);
                    full.1 >= executed || full.0 == self@
                }),
            decreases max_steps - executed,
        {
            if self.halted {
                proof {
                    assert(dbg_run_limited_spec(pv, bps, self@, (max_steps - executed) as nat)
                        == (self@, 0nat));
                }
                break;
            }
            if self.is_at_breakpoint() && self.steps > 0 {
                proof {
                    assert(dbg_run_limited_spec(pv, bps, self@, (max_steps - executed) as nat)
                        == (self@, 0nat));
                }
                break;
            }
            let ghost v_pre = self@;
            match self.step() {
                Ok(Some(_)) => {
                    proof {
                        assert(dbg_step_spec(pv, v_pre).1 == Ok::<bool, VmError>(true));
                        assert(dbg_run_limited_spec(pv, bps, v_pre, (max_steps - executed) as nat).0
                            == dbg_run_limited_spec(pv, bps, self@, (max_steps - executed - 1) as nat).0);
                    }
                    executed = executed + 1;
                }
                Ok(None) => {
                    proof {
                        assert(dbg_run_limited_spec(pv, bps, v_pre, (max_steps - executed) as nat)
                            == (self@, 0nat));
                    }
                    break;
                }
                Err(_) => {
                    proof {
                        assert(dbg_run_limited_spec(pv, bps, v_pre, (max_steps - executed) as nat)
                            == (self@, 0nat));
                    }
                    break;
                }
            }
        }
        proof {
            if executed == max_steps {
                assert(dbg_run_limited_spec(pv, bps, self@, 0) == (self@, 0nat));
            }
        }
        let mut trace = self.get_execution_trace();
        if !self.halted && executed >= max_steps {
            let mut msg = String::new();
            msg.push_str("Watchdog timeout: execution limit of ");
            let num = usize_to_string(max_steps);
            msg.push_str(num.as_str());
            msg.push_str(" steps reached");
            trace.error = Some(msg);
            trace.completed = false;
        }
        Ok(trace)
    }

    /// Runs until the instruction pointer stands on a breakpoint right
    /// after an executed step, exactly as dbg_continue_spec says; None when
    /// the machine halts, errs or suspends first.
    #[verifier::loop_isolation(false)]
    pub fn continue_to_breakpoint(&mut self) -> (r: Result<Option<usize>, VmError>)
        requires
            old(self).wf(),
        ensures
            final(self).wf(),
            final(self).spec_program() == old(self).spec_program(),
            final(self).spec_breakpoints() == old(self).spec_breakpoints(),
            ({
                let full = dbg_continue_spec(
                    program_view(old(self).spec_program()),
                    old(self).spec_breakpoints(),
                    old(self)@,
                );
                final(self)@ == full.0 && r == Ok::<Option<usize>, VmError>(full.1)
            }),
    {
        let ghost pv = program_view(old(self).spec_program());
        let ghost bps = old(self).spec_breakpoints();
        let ghost v0 = old(self)@;
        loop
            invariant
                self.wf(),
                self.spec_program() == old(self).spec_program(),
                self.spec_breakpoints() == bps,
                dbg_continue_spec(pv, bps, v0) == dbg_continue_spec(pv, bps, self@),
            decreases
                self.spec_program().rich_instructions@.len() + 1 - self@.ip,
        {
            if self.halted {
                break;
            }
            let ghost ip0 = self@.ip;
            let ghost v_pre = self@;
            match self.step() {
                Ok(Some(_)) => {
                    proof {
                        assert(dbg_step_spec(pv, v_pre).1 == Ok::<bool, VmError>(true));
                        assert(self@.ip == ip0 + 1);
                    }
                    if self.is_at_breakpoint() {
                        let ip = self.ip;
                        proof {
                            assert(dbg_continue_spec(pv, bps, v_pre) == (self@, Some(ip)));
                        }
                        return Ok(Some(ip));
                    }
                    proof {
                        assert(dbg_continue_spec(pv, bps, v_pre) == dbg_continue_spec(pv, bps, self@));
                    }
                }
                Ok(None) => {
                    proof {
                        assert(dbg_continue_spec(pv, bps, v_pre) == (self@, None::<usize>));
                    }
                    break;
                }
                Err(_) => {
                    proof {
                        assert(dbg_continue_spec(pv, bps, v_pre) == (self@, None::<usize>));
                    }
                    break;
                }
            }
        }
        Ok(None)
    }

    /// The rich instruction at an index, or None when out of range.
    pub fn get_instruction(&self, index: usize) -> (r: Option<&RichInstruction>)
        ensures
            r == (if index < self.spec_program().rich_instructions@.len() {
                Some(&self.spec_program().rich_instructions@[index as int])
            } else {
                None::<&RichInstruction>
            }),
    {
        if index < self.program.rich_instructions.len() {
            Some(&self.program.rich_instructions[index])
        } else {
            None
        }
    }

    /// How many instructions the program holds.
    pub fn instruction_count(&self) -> (n: usize)
        ensures
            n == self.spec_program().rich_instructions@.len(),
    {
        self.program.rich_instructions.len()
    }

    /// Whether the instruction pointer stands on a breakpoint.
    pub fn is_at_breakpoint(&self) -> (b: bool)
        ensures
            b == self.spec_breakpoints().contains(self@.ip as usize),
    {
        self.contains_breakpoint(self.ip)
    }

    /// The current instruction pointer.
    pub fn current_ip(&self) -> (n: usize)
        ensures
            n == self@.ip,
    {
        self.ip
    }

    /// Whether the machine has halted.
    pub fn is_halted(&self) -> (b: bool)
        ensures
            b == self@.halted,
    {
        self.halted
    }

    /// The output buffer.
    pub fn output(&self) -> (r: &Output)
        ensures
            r.spec_buffer() == self@.output,
    {
        &self.output
    }

    /// The output rendered as a string.
    pub fn output_string(&self) -> (s: String)
        ensures
            s@ == render_output(self@.output),
    {
        self.output.read_string()
    }

    /// The recorded trace, one entry per executed step while recording was
    /// on.
    pub fn trace(&self) -> (r: &[ExecutionStep])
    {
        self.trace.as_slice()
    }

    /// The recorded trace together with the output and completion state.
    pub fn get_execution_trace(&self) -> (t: ExecutionTrace)
        ensures
            t.output@ == self@.output.map_values(|v: OutputValue| output_value_of(v)),
            t.output_string@ == render_output(self@.output),
            t.total_steps == self@.steps,
            t.completed == self@.halted,
            t.error is None,
            t.steps@.map_values(|e: ExecutionStep| step_data(e)) == self.spec_trace(),
    {
        let mut steps: Vec<ExecutionStep> = Vec::new();
        let mut k: usize = 0;
        while k < self.trace.len()
            invariant
                k <= self.trace@.len(),
                steps@.len() == k,
                steps@.map_values(|e: ExecutionStep| step_data(e))
                    == self.trace@.take(k as int).map_values(|e: ExecutionStep| step_data(e)),
            decreases self.trace@.len() - k,
        {
            let ghost pre = steps@;
            let copy = dup_exec_step(&self.trace[k]);
            proof {
                assert(step_data(copy) == step_data(self.trace@[k as int]));
            }
            steps.push(copy);
            proof {
                assert(steps@.take(k as int) =~= pre);
                assert(steps@[k as int] == copy);
                assert(self.trace@.take(k as int + 1)[k as int] == self.trace@[k as int]);
                assert forall|i: int| 0 <= i < k + 1
                    implies step_data(#[trigger] steps@[i])
                        == step_data(self.trace@.take(k as int + 1)[i]) by {
                    if i < k {
                        assert(steps@[i] == pre[i]);
                        assert(pre.map_values(|e: ExecutionStep| step_data(e))[i]
                            == self.trace@.take(k as int).map_values(|e: ExecutionStep| step_data(e))[i]);
                    }
                }
                assert(steps@.map_values(|e: ExecutionStep| step_data(e))
                    =~= self.trace@.take(k as int + 1).map_values(|e: ExecutionStep| step_data(e)));
            }
            k = k + 1;
        }
        proof {
            assert(self.trace@.take(self.trace@.len() as int) =~= self.trace@);
            assert(self.trace@.take(self.trace@.len() as int).map_values(|e: ExecutionStep| step_data(e))
                =~= self.spec_trace());
        }
        ExecutionTrace {
            steps,
            output: self.output.read(),
            output_string: self.output.read_string(),
            total_steps: self.steps,
            completed: self.halted,
            error: None,
        }
    }

    /// The recorded trace's contents.
    pub closed spec fn spec_trace(self) -> Seq<StepData> {
        self.trace@.map_values(|e: ExecutionStep| step_data(e))
    }

    pub open spec fn spec_trace_len(self) -> int {
        self.spec_trace().len() as int
    }

    /// The program the debugger runs.
    pub fn program(&self) -> (p: &Program)
        ensures
            p == self.spec_program(),
    {
        &self.program
    }

    /// A full view of the current state, with the current and next rich
    /// instructions and the pixel position scaled by the codel size.
    pub fn state(&self) -> (s: DebuggerState)
        requires
            self.wf(),
            self@.position.x * self.spec_codel_size() <= usize::MAX,
            self@.position.y * self.spec_codel_size() <= usize::MAX,
        ensures
            s.ip == self@.ip,
            s.position == self@.position,
            s.dp == self@.dp,
            s.cc == self@.cc,
            s.stack@ == self@.stack,
            s.halted == self@.halted,
            s.waiting_for_input == self@.waiting,
            s.steps == self@.steps,
            s.output@ == self@.output.map_values(|v: OutputValue| output_value_of(v)),
            s.output_string@ == render_output(self@.output),
            s.pixel_position.x == self@.position.x * self.spec_codel_size(),
            s.pixel_position.y == self@.position.y * self.spec_codel_size(),
            if self@.ip < program_view(self.spec_program()).len() {
                s.current_instruction matches Some(ri)
                    && rich_view(ri) == program_view(self.spec_program())[self@.ip as int]
                    && ri.op == self.spec_program().rich_instructions@[self@.ip as int].op
                    && opt_debug_data(ri.debug)
                        == opt_debug_data(self.spec_program().rich_instructions@[self@.ip as int].debug)
            } else {
                s.current_instruction is None
            },
            if self@.ip + 1 < program_view(self.spec_program()).len() {
                s.next_instruction matches Some(ri)
                    && rich_view(ri) == program_view(self.spec_program())[self@.ip as int + 1]
                    && ri.op == self.spec_program().rich_instructions@[self@.ip as int + 1].op
                    && opt_debug_data(ri.debug)
                        == opt_debug_data(self.spec_program().rich_instructions@[self@.ip as int + 1].debug)
            } else {
                s.next_instruction is None
            },
    {
        let current = if self.ip < self.program.rich_instructions.len() {
            Some(dup_rich_instruction(&self.program.rich_instructions[self.ip]))
        } else {
            None
        };
        let next = if self.ip < usize::MAX && self.ip + 1 < self.program.rich_instructions.len() {
            Some(dup_rich_instruction(&self.program.rich_instructions[self.ip + 1]))
        } else {
            None
        };
        let pixel_x = self.position.x * self.codel_size;
        let pixel_y = self.position.y * self.codel_size;
        DebuggerState {
            ip: self.ip,
            position: self.position,
            pixel_position: Position { x: pixel_x, y: pixel_y },
            dp: self.dp,
            cc: self.cc,
            stack: copy_stack(&self.stack),
            halted: self.halted,
            waiting_for_input: self.waiting_for_input,
            steps: self.steps,
            current_instruction: current,
            next_instruction: next,
            output: self.output.read(),
            output_string: self.output.read_string(),
        }
    }

    pub closed spec fn spec_codel_size(self) -> int {
        self.codel_size as int
    }
}

/// Copies a debug record field by field.
fn dup_debug_info(info: &InstructionDebugInfo) -> (r: InstructionDebugInfo)
    ensures
        r.from_pos == info.from_pos,
        r.to_pos == info.to_pos,
        r.dp == info.dp,
        r.cc == info.cc,
        r.block_size == info.block_size,
        r.from_color@ == info.from_color@,
        r.to_color@ == info.to_color@,
        debug_data(r) == debug_data(*info),
{
    let mut from_color = String::new();
    from_color.push_str(info.from_color.as_str());
    let mut to_color = String::new();
    to_color.push_str(info.to_color.as_str());
    proof {
        assert(from_color@ =~= info.from_color@);
        assert(to_color@ =~= info.to_color@);
    }
    InstructionDebugInfo {
        from_pos: info.from_pos,
        to_pos: info.to_pos,
        dp: info.dp,
        cc: info.cc,
        block_size: info.block_size,
        from_color,
        to_color,
    }
}

/// Copies a rich instruction, debug record included.
fn dup_rich_instruction(r: &RichInstruction) -> (d: RichInstruction)
    ensures
        d.op == r.op,
        rich_view(d) == rich_view(*r),
        opt_debug_data(d.debug) == opt_debug_data(r.debug),
{
    let debug = match &r.debug {
        Some(info) => Some(dup_debug_info(info)),
        None => None,
    };
    RichInstruction { op: r.op, debug }
}

/// Copies one trace entry.
fn dup_exec_step(e: &ExecutionStep) -> (d: ExecutionStep)
    ensures
        d.step == e.step,
        d.instruction == e.instruction,
        d.stack_before@ == e.stack_before@,
        d.stack_after@ == e.stack_after@,
        d.position == e.position,
        d.dp == e.dp,
        d.cc == e.cc,
        d.output == e.output,
        d.output_is_char == e.output_is_char,
        opt_debug_data(d.debug_info) == opt_debug_data(e.debug_info),
        step_data(d) == step_data(*e),
{
    let debug_info = match &e.debug_info {
        Some(info) => Some(dup_debug_info(info)),
        None => None,
    };
    ExecutionStep {
        step: e.step,
        instruction: e.instruction,
        debug_info,
        stack_before: copy_stack(&e.stack_before),
        stack_after: copy_stack(&e.stack_after),
        position: e.position,
        dp: e.dp,
        cc: e.cc,
        output: e.output,
        output_is_char: e.output_is_char,
    }
}

/// Copies a stack of plain values.
fn copy_stack(src: &Vec<i32>) -> (r: Vec<i32>)
    ensures
        r@ == src@,
{
    let mut r: Vec<i32> = Vec::new();
    let mut i: usize = 0;
    while i < src.len()
        invariant
            i <= src@.len(),
            r@ == src@.take(i as int),
        decreases src@.len() - i,
    {
        r.push(src[i]);
        proof {
            assert(r@ =~= src@.take(i as int + 1));
        }
        i = i + 1;
    }
    proof {
        assert(src@.take(src@.len() as int) =~= src@);
    }
    r
}

} // verus!
