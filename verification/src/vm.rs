use vstd::prelude::*;
use crate::bytecode::{Instruction, Program};
use crate::compiler::{block_size_value, blocks_mapped_ok, get_transition_instruction, prog_ok, transition_instruction_spec, wrap_to_i32, CompileMode, Compiler};
use crate::error::VmError;
use crate::exits::{CodelChooser, Direction, Position};
use crate::grid::{in_bounds, route_spec, slide_spec, Grid};
use crate::ops::PietColor;
use crate::io::{render_output, Input, InputValue, Output, OutputValue, input_value_of, output_value_of};
use crate::router;

verus! {

/// The mutable execution state an instruction acts on, as mathematical
/// values: the stack, the positional input, the output, the direction state
/// and the halted flag.
pub ghost struct ExecParts {
    pub stack: Seq<i32>,
    pub input: Seq<InputValue>,
    pub input_pos: int,
    pub output: Seq<OutputValue>,
    pub dp: Direction,
    pub cc: CodelChooser,
    pub halted: bool,
}

/// Truncated division of two nonzero-divisor integers, rounded toward zero.
pub open spec fn div_trunc(a: int, b: int) -> int {
    if a == 0 {
        0
    } else if a > 0 && b > 0 {
        a / b
    } else if a < 0 && b < 0 {
        (a * -1) / (b * -1)
    } else if a < 0 {
        ((a * -1) / b) * -1
    } else {
        (a / (b * -1)) * -1
    }
}

/// Truncated 32-bit division; the one overflowing quotient wraps to MIN.
pub open spec fn div_wrap_i32(a: i32, b: i32) -> i32 {
    if a == i32::MIN && b == -1 {
        i32::MIN
    } else {
        div_trunc(a as int, b as int) as i32
    }
}

/// Euclidean 32-bit remainder: in [0, |b|) for any nonzero b.
pub open spec fn mod_eucl_i32(a: i32, b: i32) -> i32 {
    ((a as int) % (b as int)) as i32
}

/// The stack after a roll of depth d by t (0 <= t < d <= len): the window of
/// the top d values rotated so its top t values move to the window's bottom.
pub open spec fn roll_seq(s: Seq<i32>, d: int, t: int) -> Seq<i32> {
    let n = s.len() as int;
    Seq::new(s.len(), |i: int|
        if i < n - d {
            s[i]
        } else {
            let j = i - (n - d);
            if j < t {
                s[n - d + (j + d - t)]
            } else {
                s[n - d + (j - t)]
            }
        })
}

/// How one instruction transforms the execution state, with Piet's tolerant
/// error outcomes: a state paired with the fault, if any. On StackUnderflow
/// with Roll the two popped arguments stay consumed; on every other fault
/// the state is unchanged.
pub open spec fn exec_instr_spec(instr: Instruction, s: ExecParts) -> (ExecParts, Option<VmError>) {
    let n = s.stack.len() as int;
    match instr {
        Instruction::Push(v) => (ExecParts { stack: s.stack.push(v), ..s }, None),
        Instruction::Pop => if n < 1 {
            (s, Some(VmError::StackUnderflow))
        } else {
            (ExecParts { stack: s.stack.take(n - 1), ..s }, None)
        },
        Instruction::Add => if n < 2 {
            (s, Some(VmError::StackUnderflow))
        } else {
            (ExecParts { stack: s.stack.take(n - 2).push(s.stack[n - 2].wrapping_add(s.stack[n - 1])), ..s }, None)
        },
        Instruction::Subtract => if n < 2 {
            (s, Some(VmError::StackUnderflow))
        } else {
            (ExecParts { stack: s.stack.take(n - 2).push(s.stack[n - 2].wrapping_sub(s.stack[n - 1])), ..s }, None)
        },
        Instruction::Multiply => if n < 2 {
            (s, Some(VmError::StackUnderflow))
        } else {
            (ExecParts { stack: s.stack.take(n - 2).push(s.stack[n - 2].wrapping_mul(s.stack[n - 1])), ..s }, None)
        },
        Instruction::Divide => if n < 2 {
            (s, Some(VmError::StackUnderflow))
        } else if s.stack[n - 1] == 0 {
            (s, Some(VmError::DivisionByZero))
        } else {
            (ExecParts { stack: s.stack.take(n - 2).push(div_wrap_i32(s.stack[n - 2], s.stack[n - 1])), ..s }, None)
        },
        Instruction::Mod => if n < 2 {
            (s, Some(VmError::StackUnderflow))
        } else if s.stack[n - 1] == 0 {
            (s, Some(VmError::DivisionByZero))
        } else {
            (ExecParts { stack: s.stack.take(n - 2).push(mod_eucl_i32(s.stack[n - 2], s.stack[n - 1])), ..s }, None)
        },
        Instruction::Not => if n < 1 {
            (s, Some(VmError::StackUnderflow))
        } else {
            (ExecParts { stack: s.stack.take(n - 1).push(if s.stack[n - 1] == 0i32 { 1i32 } else { 0i32 }), ..s }, None)
        },
        Instruction::Greater => if n < 2 {
            (s, Some(VmError::StackUnderflow))
        } else {
            (ExecParts { stack: s.stack.take(n - 2).push(if s.stack[n - 2] > s.stack[n - 1] { 1i32 } else { 0i32 }), ..s }, None)
        },
        Instruction::Pointer => if n < 1 {
            (s, Some(VmError::StackUnderflow))
        } else {
            (ExecParts {
                stack: s.stack.take(n - 1),
                dp: Direction::from_index((s.dp.index() + s.stack[n - 1] as int) % 4),
                ..s
            }, None)
        },
        Instruction::Switch => if n < 1 {
            (s, Some(VmError::StackUnderflow))
        } else {
            (ExecParts {
                stack: s.stack.take(n - 1),
                cc: if (s.stack[n - 1] as int) % 2 == 1 { s.cc.spec_toggle() } else { s.cc },
                ..s
            }, None)
        },
        Instruction::Duplicate => if n < 1 {
            (s, Some(VmError::StackUnderflow))
        } else {
            (ExecParts { stack: s.stack.push(s.stack[n - 1]), ..s }, None)
        },
        Instruction::Roll => if n < 2 {
            (s, Some(VmError::StackUnderflow))
        } else {
            let times = s.stack[n - 1];
            let depth = s.stack[n - 2];
            let rest = s.stack.take(n - 2);
            if depth < 0 || depth as int > rest.len() {
                (ExecParts { stack: rest, ..s }, Some(VmError::StackUnderflow))
            } else if depth == 0 {
                (ExecParts { stack: rest, ..s }, None)
            } else {
                (ExecParts { stack: roll_seq(rest, depth as int, (times as int) % (depth as int)), ..s }, None)
            }
        },
        Instruction::InNumber => if s.input_pos < s.input.len() {
            (ExecParts {
                stack: s.stack.push(input_value_of(s.input[s.input_pos])),
                input_pos: s.input_pos + 1,
                ..s
            }, None)
        } else {
            (s, Some(VmError::InvalidInput))
        },
        Instruction::InChar => if s.input_pos < s.input.len() {
            (ExecParts {
                stack: s.stack.push(input_value_of(s.input[s.input_pos])),
                input_pos: s.input_pos + 1,
                ..s
            }, None)
        } else {
            (s, Some(VmError::InvalidInput))
        },
        Instruction::OutNumber => if n < 1 {
            (s, Some(VmError::StackUnderflow))
        } else {
            (ExecParts {
                stack: s.stack.take(n - 1),
                output: s.output.push(OutputValue::Number(s.stack[n - 1])),
                ..s
            }, None)
        },
        Instruction::OutChar => if n < 1 {
            (s, Some(VmError::StackUnderflow))
        } else {
            (ExecParts {
                stack: s.stack.take(n - 1),
                output: s.output.push(OutputValue::Char(s.stack[n - 1])),
                ..s
            }, None)
        },
        Instruction::Nop => (s, None),
        Instruction::Halt => (ExecParts { halted: true, ..s }, None),
    }
}

/// The state parts captured from exec values.
pub open spec fn parts_of(
    stack: Seq<i32>, input: Input, output: Output, dp: Direction, cc: CodelChooser, halted: bool,
) -> ExecParts {
    ExecParts {
        stack,
        input: input.spec_buffer(),
        input_pos: input.spec_pos(),
        output: output.spec_buffer(),
        dp,
        cc,
        halted,
    }
}

/// Truncated 32-bit division with the overflowing quotient wrapping to MIN.
fn div_wrap(a: i32, b: i32) -> (q: i32)
    requires
        b != 0,
    ensures
        q == div_wrap_i32(a, b),
{
    if a == i32::MIN && b == -1 {
        return i32::MIN;
    }
    let neg = (a < 0) != (b < 0);
    let am: u64 = if a < 0 { (-(a as i64)) as u64 } else { a as u64 };
    let bm: u64 = if b < 0 { (-(b as i64)) as u64 } else { b as u64 };
    let qm = am / bm;
    proof {
        vstd::arithmetic::div_mod::lemma_div_nonincreasing(am as int, bm as int);
        vstd::arithmetic::div_mod::lemma_div_pos_is_pos(am as int, bm as int);
        if am == 0x8000_0000u64 && bm >= 2 {
            vstd::arithmetic::div_mod::lemma_div_is_ordered_by_denominator(am as int, 2, bm as int);
        }
    }
    if neg {
        (-(qm as i64)) as i32
    } else {
        qm as i32
    }
}

/// Euclidean 32-bit remainder, in [0, |b|).
fn mod_eucl(a: i32, b: i32) -> (r: i32)
    requires
        b != 0,
    ensures
        r == mod_eucl_i32(a, b),
{
    match a.checked_rem_euclid(b) {
        Some(r) => r,
        None => 0,
    }
}

/// Applies one instruction to an execution state, Piet-style: the shared
/// operation semantics behind both executors. Returns the fault that
/// occurred, if any; the state is left exactly as exec_instr_spec says.
#[verifier::loop_isolation(false)]
#[verifier::rlimit(60)]
pub fn execute_instruction_on(
    instr: &Instruction,
    stack: &mut Vec<i32>,
    input: &mut Input,
    output: &mut Output,
    dp: &mut Direction,
    cc: &mut CodelChooser,
    halted: &mut bool,
) -> (r: Result<(), VmError>)
    requires
        old(input).wf(),
    ensures
        final(input).wf(),
        ({
            let pre = parts_of(old(stack)@, *old(input), *old(output), *old(dp), *old(cc), *old(halted));
            let post = parts_of(final(stack)@, *final(input), *final(output), *final(dp), *final(cc), *final(halted));
            let expect = exec_instr_spec(*instr, pre);
            post == expect.0 && r == (match expect.1 {
                None => Ok::<(), VmError>(()),
                Some(e) => Err(e),
            })
        }),
{
    let ghost pre = parts_of(old(stack)@, *old(input), *old(output), *old(dp), *old(cc), *old(halted));
    match instr {
        Instruction::Push(v) => {
            stack.push(*v);
            Ok(())
        }
        Instruction::Pop => {
            match stack.pop() {
                Some(_) => {
                    proof { assert(stack@ =~= pre.stack.take(pre.stack.len() - 1)); }
                    Ok(())
                }
                None => Err(VmError::StackUnderflow),
            }
        }
        Instruction::Add => {
            if stack.len() < 2 {
                return Err(VmError::StackUnderflow);
            }
            let b = stack.pop().unwrap();
            let a = stack.pop().unwrap();
            stack.push(a.wrapping_add(b));
            proof { assert(stack@ =~= pre.stack.take(pre.stack.len() - 2).push(a.wrapping_add(b))); }
            Ok(())
        }
        Instruction::Subtract => {
            if stack.len() < 2 {
                return Err(VmError::StackUnderflow);
            }
            let b = stack.pop().unwrap();
            let a = stack.pop().unwrap();
            stack.push(a.wrapping_sub(b));
            proof { assert(stack@ =~= pre.stack.take(pre.stack.len() - 2).push(a.wrapping_sub(b))); }
            Ok(())
        }
        Instruction::Multiply => {
            if stack.len() < 2 {
                return Err(VmError::StackUnderflow);
            }
            let b = stack.pop().unwrap();
            let a = stack.pop().unwrap();
            stack.push(a.wrapping_mul(b));
            proof { assert(stack@ =~= pre.stack.take(pre.stack.len() - 2).push(a.wrapping_mul(b))); }
            Ok(())
        }
        Instruction::Divide => {
            if stack.len() < 2 {
                return Err(VmError::StackUnderflow);
            }
            let b = stack.pop().unwrap();
            if b == 0 {
                stack.push(b);
                proof { assert(stack@ =~= pre.stack); }
                return Err(VmError::DivisionByZero);
            }
            let a = stack.pop().unwrap();
            let q = div_wrap(a, b);
            stack.push(q);
            proof { assert(stack@ =~= pre.stack.take(pre.stack.len() - 2).push(q)); }
            Ok(())
        }
        Instruction::Mod => {
            if stack.len() < 2 {
                return Err(VmError::StackUnderflow);
            }
            let b = stack.pop().unwrap();
            if b == 0 {
                stack.push(b);
                proof { assert(stack@ =~= pre.stack); }
                return Err(VmError::DivisionByZero);
            }
            let a = stack.pop().unwrap();
            let m = mod_eucl(a, b);
            stack.push(m);
            proof { assert(stack@ =~= pre.stack.take(pre.stack.len() - 2).push(m)); }
            Ok(())
        }
        Instruction::Not => {
            match stack.pop() {
                Some(a) => {
                    stack.push(if a == 0 { 1 } else { 0 });
                    proof {
                        assert(stack@ =~= pre.stack.take(pre.stack.len() - 1).push(
                            if pre.stack.last() == 0i32 { 1i32 } else { 0i32 },
                        ));
                    }
                    Ok(())
                }
                None => Err(VmError::StackUnderflow),
            }
        }
        Instruction::Greater => {
            if stack.len() < 2 {
                return Err(VmError::StackUnderflow);
            }
            let b = stack.pop().unwrap();
            let a = stack.pop().unwrap();
            let v: i32 = if a > b { 1 } else { 0 };
            stack.push(v);
            proof { assert(stack@ =~= pre.stack.take(pre.stack.len() - 2).push(v)); }
            Ok(())
        }
        Instruction::Pointer => {
            match stack.pop() {
                Some(n) => {
                    *dp = dp.rotate_clockwise(n);
                    proof { assert(stack@ =~= pre.stack.take(pre.stack.len() - 1)); }
                    Ok(())
                }
                None => Err(VmError::StackUnderflow),
            }
        }
        Instruction::Switch => {
            match stack.pop() {
                Some(n) => {
                    let parity = match n.checked_rem_euclid(2) {
                        Some(p) => p,
                        None => 0,
                    };
                    if parity == 1 {
                        *cc = cc.toggle();
                    }
                    proof { assert(stack@ =~= pre.stack.take(pre.stack.len() - 1)); }
                    Ok(())
                }
                None => Err(VmError::StackUnderflow),
            }
        }
        Instruction::Duplicate => {
            if stack.len() < 1 {
                return Err(VmError::StackUnderflow);
            }
            let a = stack[stack.len() - 1];
            stack.push(a);
            Ok(())
        }
        Instruction::Roll => {
            if stack.len() < 2 {
                return Err(VmError::StackUnderflow);
            }
            let times = stack.pop().unwrap();
            let depth_v = stack.pop().unwrap();
            proof { assert(stack@ =~= pre.stack.take(pre.stack.len() - 2)); }
            if depth_v < 0 {
                return Err(VmError::StackUnderflow);
            }
            let depth = depth_v as usize;
            if depth > stack.len() {
                return Err(VmError::StackUnderflow);
            }
            if depth == 0 {
                return Ok(());
            }
            let t_v = match times.checked_rem_euclid(depth_v) {
                Some(v) => v,
                None => 0,
            };
            let t = t_v as usize;
            roll_stack(stack, depth, t);
            Ok(())
        }
        Instruction::InNumber => {
            match input.read() {
                Some(v) => {
                    stack.push(v);
                    Ok(())
                }
                None => Err(VmError::InvalidInput),
            }
        }
        Instruction::InChar => {
            match input.read() {
                Some(v) => {
                    stack.push(v);
                    Ok(())
                }
                None => Err(VmError::InvalidInput),
            }
        }
        Instruction::OutNumber => {
            match stack.pop() {
                Some(v) => {
                    output.write_number(v);
                    proof { assert(stack@ =~= pre.stack.take(pre.stack.len() - 1)); }
                    Ok(())
                }
                None => Err(VmError::StackUnderflow),
            }
        }
        Instruction::OutChar => {
            match stack.pop() {
                Some(v) => {
                    output.write_char(v);
                    proof { assert(stack@ =~= pre.stack.take(pre.stack.len() - 1)); }
                    Ok(())
                }
                None => Err(VmError::StackUnderflow),
            }
        }
        Instruction::Nop => Ok(()),
        Instruction::Halt => {
            *halted = true;
            Ok(())
        }
    }
}

/// Rotates the top `depth` stack values right by t places (0 <= t < depth).
#[verifier::loop_isolation(false)]
fn roll_stack(stack: &mut Vec<i32>, depth: usize, t: usize)
    requires
        0 < depth <= old(stack)@.len(),
        t < depth,
    ensures
        final(stack)@ == roll_seq(old(stack)@, depth as int, t as int),
{
    let n = stack.len();
    let start = n - depth;
    let ghost s0 = stack@;
    let ghost target = roll_seq(s0, depth as int, t as int);
    let mut temp: Vec<i32> = Vec::new();
    let mut i: usize = 0;
    while i < depth
        invariant
            i <= depth,
            temp@.len() == i,
            stack@ == s0,
            forall|j: int| 0 <= j < i ==> #[trigger] temp@[j] == target[start + j],
        decreases depth - i,
    {
        let src = if i < t { i + (depth - t) } else { i - t };
        proof {
            assert(target[start as int + i as int] == s0[start as int + src as int]);
        }
        temp.push(stack[start + src]);
        i = i + 1;
    }
    let mut k: usize = 0;
    while k < depth
        invariant
            k <= depth,
            stack@.len() == s0.len(),
            temp@.len() == depth,
            forall|j: int| 0 <= j < depth ==> #[trigger] temp@[j] == target[start + j],
            forall|j: int| 0 <= j < start + k ==> #[trigger] stack@[j] == target[j],
            forall|j: int| start + k <= j < s0.len() ==> #[trigger] stack@[j] == s0[j],
        decreases depth - k,
    {
        proof {
            assert(target[start as int + k as int] == temp@[k as int]);
        }
        stack[start + k] = temp[k];
        k = k + 1;
    }
    proof {
        assert(stack@ =~= target);
    }
}


/// The machine state as mathematical values.
pub ghost struct VmView {
    pub position: Position,
    pub dp: Direction,
    pub cc: CodelChooser,
    pub stack: Seq<i32>,
    pub input: Seq<InputValue>,
    pub input_pos: int,
    pub output: Seq<OutputValue>,
    pub halted: bool,
    pub steps: nat,
    pub max_steps: Option<usize>,
}

impl VmView {
    pub open spec fn exec_parts(self) -> ExecParts {
        ExecParts {
            stack: self.stack,
            input: self.input,
            input_pos: self.input_pos,
            output: self.output,
            dp: self.dp,
            cc: self.cc,
            halted: self.halted,
        }
    }

    pub open spec fn with_parts(self, p: ExecParts) -> VmView {
        VmView {
            stack: p.stack,
            input: p.input,
            input_pos: p.input_pos,
            output: p.output,
            dp: p.dp,
            cc: p.cc,
            halted: p.halted,
            ..self
        }
    }

    pub open spec fn halt(self) -> VmView {
        VmView { halted: true, ..self }
    }
}

/// A step counter bumped without ever overflowing the machine word.
pub open spec fn inc_steps(s: nat) -> nat {
    if s < usize::MAX { s + 1 } else { s }
}

/// The instruction the machine would execute from this state, recomputed
/// from the grid: Halt on black or when trapped, Nop on white, otherwise the
/// color transition of the routed move (Nop when white was crossed).
pub open spec fn next_instruction_spec(g: Grid, v: VmView) -> Result<Instruction, VmError> {
    if !in_bounds(v.position, g.spec_width(), g.spec_height()) {
        Err(VmError::OutOfBounds)
    } else if g.spec_color_at(v.position) == PietColor::Black {
        Ok(Instruction::Halt)
    } else if g.spec_color_at(v.position) == PietColor::White {
        Ok(Instruction::Nop)
    } else {
        match route_spec(g, g.spec_block_id(v.position), v.dp, v.cc) {
            None => Ok(Instruction::Halt),
            Some((t, dp2, cc2, crossed)) => Ok(
                if crossed {
                    Instruction::Nop
                } else {
                    transition_instruction_spec(
                        g.spec_color_at(v.position),
                        g.spec_color_at(t),
                        wrap_to_i32(g.spec_block_size(g.spec_block_id(v.position))),
                    )
                },
            ),
        }
    }
}

/// One machine step over the grid: the next state and the error, if any.
/// The step recomputes the transition from the current codel, executes the
/// encoded instruction with underflow and division faults absorbed, and
/// commits the routed position and direction state.
pub open spec fn stroke_spec(g: Grid, v: VmView) -> (VmView, Option<VmError>) {
    if v.halted {
        (v, Some(VmError::Halted))
    } else if v.max_steps matches Some(m) && v.steps >= m {
        (v.halt(), Some(VmError::ExecutionTimeout((v.steps as usize))))
    } else if !in_bounds(v.position, g.spec_width(), g.spec_height()) {
        (v.halt(), Some(VmError::Halted))
    } else if g.spec_color_at(v.position) == PietColor::Black {
        (v.halt(), Some(VmError::Halted))
    } else if g.spec_color_at(v.position) == PietColor::White {
        match slide_spec(g, v.position, v.dp, 0) {
            Some(np) => (VmView { position: np, steps: inc_steps(v.steps), ..v }, None),
            None => (v.halt(), Some(VmError::Halted)),
        }
    } else {
        let b = g.spec_block_id(v.position);
        match route_spec(g, b, v.dp, v.cc) {
            None => (v.halt(), Some(VmError::Halted)),
            Some((t, dp2, cc2, crossed)) => {
                let instr = if crossed {
                    Instruction::Nop
                } else {
                    transition_instruction_spec(
                        g.spec_color_at(v.position),
                        g.spec_color_at(t),
                        wrap_to_i32(g.spec_block_size(b)),
                    )
                };
                if (instr == Instruction::InNumber || instr == Instruction::InChar)
                    && v.input_pos >= v.input.len() {
                    (v, Some(VmError::InvalidInput))
                } else {
                    let pre = ExecParts { dp: dp2, cc: cc2, ..v.exec_parts() };
                    let post = exec_instr_spec(instr, pre).0;
                    (VmView { position: t, steps: inc_steps(v.steps), ..v.with_parts(post) }, None)
                }
            },
        }
    }
}

/// Executing a successful step from a codel whose recorded next position
/// matches the machine's entry state leaves the machine exactly there; the
/// only way such a step can fail is an exhausted input buffer.
pub proof fn lemma_stroke_follows_next_position(
    g: Grid, v: VmView, np: Position,
)
    requires
        g.inv(),
        !v.halted,
        v.max_steps matches Some(m) ==> v.steps < m,
        in_bounds(v.position, g.spec_width(), g.spec_height()),
        crate::compiler::next_entry_ok(g, v.position, np),
        g.spec_color_at(v.position) == PietColor::White
            ==> slide_spec(g, v.position, v.dp, 0) == Some(np),
        g.spec_color_at(v.position).is_chromatic()
            ==> match route_spec(g, g.spec_block_id(v.position), v.dp, v.cc) {
                Some(t) => t.0 == np,
                None => false,
            },
    ensures
        match stroke_spec(g, v).1 {
            None => stroke_spec(g, v).0.position == np,
            Some(e) => e == VmError::InvalidInput,
        },
{
}

/// Running up to max steps: the final state and either how many steps ran
/// (stopping early exactly on a halt) or the first error other than a halt.
pub open spec fn play_spec(g: Grid, v: VmView, max: nat) -> (VmView, Result<nat, VmError>)
    decreases max,
{
    if v.halted || max == 0 {
        (v, Ok(0))
    } else {
        let s = stroke_spec(g, v);
        match s.1 {
            None => {
                let rest = play_spec(g, s.0, (max - 1) as nat);
                (rest.0, match rest.1 {
                    Ok(n) => Ok((n + 1) as nat),
                    Err(e) => Err(e),
                })
            },
            Some(VmError::Halted) => (s.0, Ok(0)),
            Some(e) => (s.0, Err(e)),
        }
    }
}

/// Snapshot of the machine state, for inspection.
#[derive(Debug, Clone)]
pub struct BytecodeVmSnapshot {
    pub position: Position,
    pub dp: Direction,
    pub cc: CodelChooser,
    pub stack: Vec<i32>,
    pub halted: bool,
    pub steps: usize,
    pub next_instruction: Option<Instruction>,
    pub instruction_index: Option<usize>,
}

/// The result of a dry-run preview of the next instruction.
#[derive(Debug, Clone)]
pub struct StackPreview {
    pub stack_before: Vec<i32>,
    pub stack_after: Vec<i32>,
    pub instruction: Instruction,
    pub success: bool,
    pub error: Option<VmError>,
}

/// The grid-driven stepwise interpreter: each step recomputes the transition
/// from the current codel against the grid, so the grid stays the single
/// source of truth.
#[derive(Debug, Clone)]
pub struct BytecodeVm {
    program: Program,
    grid: Grid,
    position: Position,
    dp: Direction,
    cc: CodelChooser,
    stack: Vec<i32>,
    input: Input,
    output: Output,
    halted: bool,
    steps: usize,
    max_steps: Option<usize>,
}

/// The default watchdog limit.
pub const DEFAULT_MAX_STEPS: usize = 100_000;

impl View for BytecodeVm {
    type V = VmView;

    closed spec fn view(&self) -> VmView {
        VmView {
            position: self.position,
            dp: self.dp,
            cc: self.cc,
            stack: self.stack@,
            input: self.input.spec_buffer(),
            input_pos: self.input.spec_pos(),
            output: self.output.spec_buffer(),
            halted: self.halted,
            steps: self.steps as nat,
            max_steps: self.max_steps,
        }
    }
}

/// The state a machine starts in.
pub open spec fn initial_vm_view(max_steps: Option<usize>) -> VmView {
    VmView {
        position: Position { x: 0, y: 0 },
        dp: Direction::Right,
        cc: CodelChooser::Left,
        stack: Seq::empty(),
        input: Seq::empty(),
        input_pos: 0,
        output: Seq::empty(),
        halted: false,
        steps: 0,
        max_steps,
    }
}

impl BytecodeVm {
    pub closed spec fn spec_grid(self) -> Grid {
        self.grid
    }

    pub closed spec fn spec_program(self) -> Program {
        self.program
    }

    pub open spec fn wf(self) -> bool {
        &&& self.spec_grid().inv()
        &&& self@.input_pos >= 0
        &&& self@.input_pos <= self@.input.len()
    }

    /// A machine over a compiled program and its grid, at the initial state,
    /// with the default watchdog limit.
    pub fn new(program: Program, grid: Grid) -> (vm: Self)
        requires
            grid.inv(),
        ensures
            vm.wf(),
            vm.spec_grid() == grid,
            vm.spec_program() == program,
            vm@ == initial_vm_view(Some(DEFAULT_MAX_STEPS)),
    {
        BytecodeVm {
            program,
            grid,
            position: Position::new(0, 0),
            dp: Direction::Right,
            cc: CodelChooser::Left,
            stack: Vec::new(),
            input: Input::new(),
            output: Output::new(),
            halted: false,
            steps: 0,
            max_steps: Some(DEFAULT_MAX_STEPS),
        }
    }

    /// Compiles the grid and builds a machine over the result.
    pub fn from_grid(grid: Grid) -> (r: Result<Self, VmError>)
        requires
            grid.inv(),
            grid.spec_width() * grid.spec_height() * 8 <= usize::MAX,
        ensures
            match r {
                Ok(vm) => {
                    &&& vm.wf()
                    &&& vm.spec_grid() == grid
                    &&& vm@ == initial_vm_view(Some(DEFAULT_MAX_STEPS))
                    &&& prog_ok(grid, vm.spec_program(), CompileMode::Release, vm.spec_program().metadata)
                    &&& blocks_mapped_ok(grid, vm.spec_program())
                    &&& vm.spec_program().metadata.grid_width == grid.spec_width()
                    &&& vm.spec_program().metadata.grid_height == grid.spec_height()
                    &&& vm.spec_program().instructions@.len()
                        <= 8 * grid.spec_width() * grid.spec_height()
                },
                Err(_) => false,
            },
    {
        let compiler = Compiler::new(grid);
        let program = match compiler.compile() {
            Ok(p) => p,
            Err(e) => {
                proof { assert(false); }
                return Err(e);
            }
        };
        let grid = compiler.into_grid();
        Ok(Self::new(program, grid))
    }

    /// Sets or clears the watchdog step limit.
    pub fn set_max_steps(&mut self, max_steps: Option<usize>)
        ensures
            final(self)@ == (VmView { max_steps, ..old(self)@ }),
            final(self).spec_grid() == old(self).spec_grid(),
            final(self).spec_program() == old(self).spec_program(),
            old(self).wf() ==> final(self).wf(),
    {
        self.max_steps = max_steps;
    }

    /// The configured watchdog step limit.
    pub fn get_max_steps(&self) -> (r: Option<usize>)
        ensures
            r == self@.max_steps,
    {
        self.max_steps
    }

    /// One execution step, as stroke_spec says: recompute the transition
    /// from the current codel, execute it, advance.
    #[verifier::spinoff_prover]
    #[verifier::rlimit(100)]
    pub fn stroke(&mut self) -> (r: Result<(), VmError>)
        requires
            old(self).wf(),
        ensures
            final(self).wf(),
            final(self).spec_grid() == old(self).spec_grid(),
            final(self).spec_program() == old(self).spec_program(),
            final(self)@ == stroke_spec(old(self).spec_grid(), old(self)@).0,
            r == (match stroke_spec(old(self).spec_grid(), old(self)@).1 {
                None => Ok::<(), VmError>(()),
                Some(e) => Err(e),
            }),
    {
        let ghost v0 = old(self)@;
        let ghost gg = old(self).spec_grid();
        if self.halted {
            return Err(VmError::Halted);
        }
        match self.max_steps {
            Some(m) => {
                if self.steps >= m {
                    self.halted = true;
                    return Err(VmError::ExecutionTimeout(self.steps));
                }
            }
            None => {}
        }
        let current_color = match self.grid.get(self.position) {
            Some(c) => c,
            None => {
                self.halted = true;
                return Err(VmError::Halted);
            }
        };
        if current_color.is_black() {
            self.halted = true;
            return Err(VmError::Halted);
        }
        if current_color.is_white() {
            match router::slide_through_white(&self.grid, self.position, self.dp) {
                Some(next_pos) => {
                    self.position = next_pos;
                    if self.steps < usize::MAX {
                        self.steps = self.steps + 1;
                    }
                    return Ok(());
                }
                None => {
                    self.halted = true;
                    return Err(VmError::Halted);
                }
            }
        }
        self.stroke_chromatic(current_color)
    }

    /// The chromatic arm of a step: route out of the current block, execute
    /// the encoded instruction with underflow and division faults absorbed,
    /// and commit the routed state.
    #[verifier::spinoff_prover]
    #[verifier::rlimit(100)]
    fn stroke_chromatic(&mut self, current_color: PietColor) -> (r: Result<(), VmError>)
        requires
            old(self).wf(),
            !old(self)@.halted,
            old(self)@.max_steps matches Some(m) ==> old(self)@.steps < m,
            in_bounds(old(self)@.position, old(self).spec_grid().spec_width(), old(self).spec_grid().spec_height()),
            current_color == old(self).spec_grid().spec_color_at(old(self)@.position),
            current_color.is_chromatic(),
        ensures
            final(self).wf(),
            final(self).spec_grid() == old(self).spec_grid(),
            final(self).spec_program() == old(self).spec_program(),
            final(self)@ == stroke_spec(old(self).spec_grid(), old(self)@).0,
            r == (match stroke_spec(old(self).spec_grid(), old(self)@).1 {
                None => Ok::<(), VmError>(()),
                Some(e) => Err(e),
            }),
    {
        let ghost v0 = old(self)@;
        let ghost gg = old(self).spec_grid();
        let block_id = match self.grid.get_block_id(self.position) {
            Some(b) => b,
            None => {
                self.halted = true;
                return Err(VmError::Halted);
            }
        };
        let block_size = match self.grid.get_block_info(block_id) {
            Some(info) => info.size,
            None => {
                self.halted = true;
                return Err(VmError::Halted);
            }
        };
        match router::route(&self.grid, block_id, self.dp, self.cc) {
            None => {
                self.halted = true;
                Err(VmError::Halted)
            }
            Some((final_pos, exit_dp, exit_cc, crossed_white)) => {
                let final_color = match self.grid.get(final_pos) {
                    Some(c) => c,
                    None => {
                        proof { assert(false); }
                        self.halted = true;
                        return Err(VmError::Halted);
                    }
                };
                let bs: i32 = block_size_value(block_size);
                let instr = if crossed_white {
                    Instruction::Nop
                } else {
                    get_transition_instruction(current_color, final_color, bs)
                };
                let needs_input = match instr {
                    Instruction::InNumber | Instruction::InChar => true,
                    _ => false,
                };
                if needs_input && !self.input.has_input() {
                    return Err(VmError::InvalidInput);
                }
                self.dp = exit_dp;
                self.cc = exit_cc;
                let exec_r = execute_instruction_on(
                    &instr,
                    &mut self.stack,
                    &mut self.input,
                    &mut self.output,
                    &mut self.dp,
                    &mut self.cc,
                    &mut self.halted,
                );
                match exec_r {
                    Ok(()) => {}
                    Err(VmError::StackUnderflow) => {}
                    Err(VmError::DivisionByZero) => {}
                    Err(_) => {
                        proof { assert(false); }
                    }
                }
                self.position = final_pos;
                if self.steps < usize::MAX {
                    self.steps = self.steps + 1;
                }
                proof {
                    assert(route_spec(gg, gg.spec_block_id(v0.position), v0.dp, v0.cc)
                        == Some((final_pos, exit_dp, exit_cc, crossed_white)));
                    assert(block_id as int == gg.spec_block_id(v0.position));
                    assert(block_size as int == gg.spec_block_size(gg.spec_block_id(v0.position)));
                    assert(self@ == stroke_spec(gg, v0).0);
                }
                Ok(())
            }
        }
    }

    /// Runs up to max_steps steps, stopping at a halt; other faults
    /// propagate. Returns how many steps ran, exactly as play_spec says.
    #[verifier::loop_isolation(false)]
    pub fn play(&mut self, max_steps: usize) -> (r: Result<usize, VmError>)
        requires
            old(self).wf(),
        ensures
            final(self).wf(),
            final(self).spec_grid() == old(self).spec_grid(),
            final(self).spec_program() == old(self).spec_program(),
            ({
                let full = play_spec(old(self).spec_grid(), old(self)@, max_steps as nat);
                final(self)@ == full.0 && (match full.1 {
                    Ok(n) => r == Ok::<usize, VmError>(n as usize),
                    Err(e) => r == Err::<usize, VmError>(e),
                })
            }),
    {
        let ghost gg = old(self).spec_grid();
        let ghost v0 = old(self)@;
        let mut executed: usize = 0;
        while executed < max_steps
            invariant
                executed <= max_steps,
                self.wf(),
                self.spec_grid() == gg,
                self.spec_program() == old(self).spec_program(),
                ({
                    let full = play_spec(gg, v0, max_steps as nat);
                    let rest = play_spec(gg, self@, (max_steps - executed) as nat);
                    full.0 == rest.0 && (match rest.1 {
                        Ok(n) => full.1 == Ok::<nat, VmError>((n + executed) as nat),
                        Err(e) => full.1 == Err::<nat, VmError>(e),
                    })
                }),
            decreases max_steps - executed,
        {
            if self.is_halted() {
                proof {
                    assert(play_spec(gg, self@, (max_steps - executed) as nat)
                        == (self@, Ok::<nat, VmError>(0)));
                }
                return Ok(executed);
            }
            let ghost v_pre = self@;
            match self.stroke() {
                Ok(()) => {
                    proof {
                        assert(play_spec(gg, v_pre, (max_steps - executed) as nat).0
                            == play_spec(gg, self@, (max_steps - executed - 1) as nat).0);
                    }
                    executed = executed + 1;
                }
                Err(VmError::Halted) => {
                    proof {
                        assert(play_spec(gg, v_pre, (max_steps - executed) as nat)
                            == (self@, Ok::<nat, VmError>(0)));
                    }
                    return Ok(executed);
                }
                Err(e) => {
                    proof {
                        assert(e != VmError::Halted);
                        assert(play_spec(gg, v_pre, (max_steps - executed) as nat)
                            == (self@, Err::<nat, VmError>(e)));
                    }
                    return Err(e);
                }
            }
        }
        proof {
            assert(play_spec(gg, self@, 0) == (self@, Ok::<nat, VmError>(0)));
        }
        Ok(executed)
    }

    /// The instruction the next step would execute, recomputed dynamically.
    fn get_next_instruction(&self) -> (r: Result<Instruction, VmError>)
        requires
            self.wf(),
        ensures
            r == next_instruction_spec(self.spec_grid(), self@),
    {
        let current_color = match self.grid.get(self.position) {
            Some(c) => c,
            None => {
                return Err(VmError::OutOfBounds);
            }
        };
        if current_color.is_black() {
            return Ok(Instruction::Halt);
        }
        if current_color.is_white() {
            return Ok(Instruction::Nop);
        }
        let block_id = match self.grid.get_block_id(self.position) {
            Some(b) => b,
            None => {
                proof { assert(false); }
                return Err(VmError::OutOfBounds);
            }
        };
        let block_size = match self.grid.get_block_info(block_id) {
            Some(info) => info.size,
            None => {
                proof { assert(false); }
                return Err(VmError::OutOfBounds);
            }
        };
        match router::route(&self.grid, block_id, self.dp, self.cc) {
            None => Ok(Instruction::Halt),
            Some((final_pos, _, _, crossed_white)) => {
                if crossed_white {
                    Ok(Instruction::Nop)
                } else {
                    let final_color = match self.grid.get(final_pos) {
                        Some(c) => c,
                        None => {
                            proof { assert(false); }
                            return Err(VmError::OutOfBounds);
                        }
                    };
                    let bs: i32 = block_size_value(block_size);
                    Ok(get_transition_instruction(current_color, final_color, bs))
                }
            }
        }
    }

    /// A snapshot of the current state, with the dynamically computed next
    /// instruction and the compiled instruction index at this codel.
    pub fn snapshot(&self) -> (s: BytecodeVmSnapshot)
        requires
            self.wf(),
            self.spec_program().wf(),
        ensures
            s.position == self@.position,
            s.dp == self@.dp,
            s.cc == self@.cc,
            s.stack@ == self@.stack,
            s.halted == self@.halted,
            s.steps == self@.steps,
            s.next_instruction == (match next_instruction_spec(self.spec_grid(), self@) {
                Ok(i) => Some(i),
                Err(_) => None::<Instruction>,
            }),
            s.instruction_index == (if self@.position.x < self.spec_program().width
                && self@.position.y < self.spec_program().height {
                crate::bytecode::grid_at(
                    self.spec_program().position_map@,
                    self@.position.x as int,
                    self@.position.y as int,
                )
            } else {
                None
            }),
    {
        let next_instruction = match self.get_next_instruction() {
            Ok(i) => Some(i),
            Err(_) => None,
        };
        let instruction_index = self.program.get_instruction_index_at(self.position.x, self.position.y);
        BytecodeVmSnapshot {
            position: self.position,
            dp: self.dp,
            cc: self.cc,
            stack: copy_stack(&self.stack),
            halted: self.halted,
            steps: self.steps,
            next_instruction,
            instruction_index,
        }
    }

    /// A dry run of the next instruction: the stack before and after, with
    /// no effect on the machine.
    pub fn preview_stack(&self) -> (r: Result<StackPreview, VmError>)
        requires
            self.wf(),
        ensures
            match r {
                Ok(p) => {
                    &&& next_instruction_spec(self.spec_grid(), self@) matches Ok(i) && p.instruction == i
                    &&& p.stack_before@ == self@.stack
                    &&& ({
                        let pre = ExecParts { stack: self@.stack, input: self@.input, input_pos: self@.input_pos, output: self@.output, dp: self@.dp, cc: self@.cc, halted: self@.halted };
                        let expect = exec_instr_spec(p.instruction, pre);
                        p.stack_after@ == expect.0.stack && p.success == (expect.1 is None)
                            && p.error == expect.1
                    })
                },
                Err(e) => next_instruction_spec(self.spec_grid(), self@) == Err::<Instruction, VmError>(e),
            },
    {
        let instr = match self.get_next_instruction() {
            Ok(i) => i,
            Err(e) => {
                return Err(e);
            }
        };
        let stack_before = copy_stack(&self.stack);
        let mut stack_after = copy_stack(&self.stack);
        let mut input2 = self.input.duplicate();
        let mut output2 = self.output.duplicate();
        let mut dp2 = self.dp;
        let mut cc2 = self.cc;
        let mut halted2 = self.halted;
        let exec_r = execute_instruction_on(
            &instr, &mut stack_after, &mut input2, &mut output2, &mut dp2, &mut cc2, &mut halted2,
        );
        let (success, error) = match exec_r {
            Ok(()) => (true, None),
            Err(e) => (false, Some(e)),
        };
        Ok(StackPreview { stack_before, stack_after, instruction: instr, success, error })
    }

    /// The output written so far, as plain values.
    pub fn ink(&self) -> (r: Vec<i32>)
        ensures
            r@ == self@.output.map_values(|v: OutputValue| output_value_of(v)),
    {
        self.output.read()
    }

    /// The output written so far, rendered as a string.
    pub fn ink_string(&self) -> (s: String)
        ensures
            s@ == render_output(self@.output),
    {
        self.output.read_string()
    }

    /// Appends a number to the input buffer.
    pub fn input(&mut self, value: i32)
        ensures
            final(self)@ == (VmView { input: old(self)@.input.push(InputValue::Number(value)), ..old(self)@ }),
            final(self).spec_grid() == old(self).spec_grid(),
            final(self).spec_program() == old(self).spec_program(),
            old(self).wf() ==> final(self).wf(),
    {
        self.input.write(value);
    }

    /// Appends a character to the input buffer, as its code point. A
    /// character appended this way reads back as a number too, matching the
    /// positional input model.
    pub fn input_char(&mut self, c: char)
        ensures
            final(self)@ == (VmView { input: old(self)@.input.push(InputValue::Number(c as i32)), ..old(self)@ }),
            final(self).spec_grid() == old(self).spec_grid(),
            final(self).spec_program() == old(self).spec_program(),
            old(self).wf() ==> final(self).wf(),
    {
        proof {
            vstd::utf8::char_is_scalar(c);
        }
        self.input.write(c as i32);
    }

    /// Appends every character of the text as a character input.
    pub fn load_input_text(&mut self, text: &str)
        ensures
            final(self)@ == (VmView {
                input: old(self)@.input + text@.map_values(|c: char| InputValue::Char(c as i32)),
                ..old(self)@
            }),
            final(self).spec_grid() == old(self).spec_grid(),
            final(self).spec_program() == old(self).spec_program(),
            old(self).wf() ==> final(self).wf(),
    {
        self.input.load_text(text);
    }

    /// Whether the next input entry exists.
    pub fn has_input(&self) -> (b: bool)
        ensures
            b == (self@.input_pos < self@.input.len()),
    {
        self.input.has_input()
    }

    /// Whether the machine has halted.
    pub fn is_halted(&self) -> (b: bool)
        ensures
            b == self@.halted,
    {
        self.halted
    }

    /// Current stack depth.
    pub fn stack_size(&self) -> (n: usize)
        ensures
            n == self@.stack.len(),
    {
        self.stack.len()
    }

    /// How many steps have executed.
    pub fn get_steps(&self) -> (n: usize)
        ensures
            n == self@.steps,
    {
        self.steps
    }
}

/// Copies a stack of plain values.
fn copy_stack(src: &Vec<i32>) -> (r: Vec<i32>)
    ensures
        r@ == src@,
{
    let mut r: Vec<i32> = Vec::new();
    let mut i: usize = 0;
    while i < src.len()
        invariant
            i <= src@.len(),
            r@ == src@.take(i as int),
        decreases src@.len() - i,
    {
        r.push(src[i]);
        proof {
            assert(r@ =~= src@.take(i as int + 1));
        }
        i = i + 1;
    }
    proof {
        assert(src@.take(src@.len() as int) =~= src@);
    }
    r
}

} // verus!

