use vstd::prelude::*;
use crate::bytecode::{grid_at, Instruction, InstructionDebugInfo, Program, ProgramMetadata};
use crate::error::VmError;
use crate::exits::{CodelChooser, Direction, Position};
use crate::grid::{cell_index, in_bounds, lemma_dir_roundtrip, route_spec, slide_spec, Grid};
use crate::ops::{get_operation, op_for_deltas, Operation, PietColor};
use crate::router;

verus! {

/// Compilation mode: release strips per-instruction debug records, debug
/// keeps them.
#[derive(Debug, Clone, Copy, PartialEq, Eq, Structural)]
pub enum CompileMode {
    Release,
    Debug,
}

/// The bytecode instruction a Piet operation lowers to; Push carries the
/// source block's codel count.
pub open spec fn instruction_for_op(op: Operation, block_size: i32) -> Instruction {
    match op {
        Operation::Push => Instruction::Push(block_size),
        Operation::Pop => Instruction::Pop,
        Operation::Add => Instruction::Add,
        Operation::Subtract => Instruction::Subtract,
        Operation::Multiply => Instruction::Multiply,
        Operation::Divide => Instruction::Divide,
        Operation::Mod => Instruction::Mod,
        Operation::Not => Instruction::Not,
        Operation::Greater => Instruction::Greater,
        Operation::Pointer => Instruction::Pointer,
        Operation::Switch => Instruction::Switch,
        Operation::Duplicate => Instruction::Duplicate,
        Operation::Roll => Instruction::Roll,
        Operation::InNumber => Instruction::InNumber,
        Operation::InChar => Instruction::InChar,
        Operation::OutNumber => Instruction::OutNumber,
        Operation::OutChar => Instruction::OutChar,
    }
}

/// A block's codel count reduced to a 32-bit word, wrapping modulo 2^32.
pub open spec fn wrap_to_i32(n: int) -> i32 {
    let m = n % 0x1_0000_0000;
    if m >= 0x8000_0000 {
        (m - 0x1_0000_0000) as i32
    } else {
        m as i32
    }
}

/// Reduces a block's codel count to the 32-bit value Push carries.
pub fn block_size_value(block_size: usize) -> (v: i32)
    ensures
        v == wrap_to_i32(block_size as int),
{
    let m: u64 = (block_size as u64) % 0x1_0000_0000u64;
    proof {
        vstd::arithmetic::div_mod::lemma_mod_bound(block_size as int, 0x1_0000_0000);
    }
    if m >= 0x8000_0000 {
        ((m as i64) - 0x1_0000_0000i64) as i32
    } else {
        m as i32
    }
}

/// The instruction encoded by a color transition: Nop to or from White and
/// Black, otherwise the canonical table entry for the hue and lightness
/// deltas, taken modulo 6 and 3.
pub open spec fn transition_instruction_spec(from: PietColor, to: PietColor, block_size: i32) -> Instruction {
    if to == PietColor::White || to == PietColor::Black {
        Instruction::Nop
    } else if from.is_chromatic() {
        let dh = (to.spec_hue()->Some_0 - from.spec_hue()->Some_0) as int % 6;
        let dl = (to.spec_lightness()->Some_0 - from.spec_lightness()->Some_0) as int % 3;
        match op_for_deltas(dh, dl) {
            None => Instruction::Nop,
            Some(op) => instruction_for_op(op, block_size),
        }
    } else {
        Instruction::Nop
    }
}

/// The operation of a transition is determined solely by the hue and
/// lightness changes: any two chromatic color pairs with the same deltas
/// (modulo 6 and 3) encode the same instruction.
pub proof fn lemma_transition_depends_on_deltas(
    a1: PietColor, a2: PietColor, b1: PietColor, b2: PietColor, block_size: i32,
)
    requires
        a1.is_chromatic(),
        a2.is_chromatic(),
        b1.is_chromatic(),
        b2.is_chromatic(),
        (a2.spec_hue()->Some_0 - a1.spec_hue()->Some_0) as int % 6
            == (b2.spec_hue()->Some_0 - b1.spec_hue()->Some_0) as int % 6,
        (a2.spec_lightness()->Some_0 - a1.spec_lightness()->Some_0) as int % 3
            == (b2.spec_lightness()->Some_0 - b1.spec_lightness()->Some_0) as int % 3,
    ensures
        transition_instruction_spec(a1, a2, block_size)
            == transition_instruction_spec(b1, b2, block_size),
{
}

/// Computes the instruction encoded by a color transition.
pub fn get_transition_instruction(from: PietColor, to: PietColor, block_size: i32) -> (instr: Instruction)
    ensures
        instr == transition_instruction_spec(from, to, block_size),
{
    if to.is_white() || to.is_black() {
        return Instruction::Nop;
    }
    let fh = from.hue();
    let fl = from.lightness();
    let th = to.hue();
    let tl = to.lightness();
    match (fh, fl, th, tl) {
        (Some(fh), Some(fl), Some(th), Some(tl)) => {
            let hue_change: i8 = (th as i8) - (fh as i8);
            let light_change: i8 = (tl as i8) - (fl as i8);
            match get_operation(hue_change, light_change) {
                None => Instruction::Nop,
                Some(op) => match op {
                    Operation::Push => Instruction::Push(block_size),
                    Operation::Pop => Instruction::Pop,
                    Operation::Add => Instruction::Add,
                    Operation::Subtract => Instruction::Subtract,
                    Operation::Multiply => Instruction::Multiply,
                    Operation::Divide => Instruction::Divide,
                    Operation::Mod => Instruction::Mod,
                    Operation::Not => Instruction::Not,
                    Operation::Greater => Instruction::Greater,
                    Operation::Pointer => Instruction::Pointer,
                    Operation::Switch => Instruction::Switch,
                    Operation::Duplicate => Instruction::Duplicate,
                    Operation::Roll => Instruction::Roll,
                    Operation::InNumber => Instruction::InNumber,
                    Operation::InChar => Instruction::InChar,
                    Operation::OutNumber => Instruction::OutNumber,
                    Operation::OutChar => Instruction::OutChar,
                },
            }
        }
        _ => Instruction::Nop,
    }
}

/// A human-readable name for each palette color.
pub open spec fn color_name_spec(color: PietColor) -> Seq<char> {
    match color {
        PietColor::White => "White"@,
        PietColor::Black => "Black"@,
        PietColor::LightRed => "LightRed"@,
        PietColor::Red => "Red"@,
        PietColor::DarkRed => "DarkRed"@,
        PietColor::LightYellow => "LightYellow"@,
        PietColor::Yellow => "Yellow"@,
        PietColor::DarkYellow => "DarkYellow"@,
        PietColor::LightGreen => "LightGreen"@,
        PietColor::Green => "Green"@,
        PietColor::DarkGreen => "DarkGreen"@,
        PietColor::LightCyan => "LightCyan"@,
        PietColor::Cyan => "Cyan"@,
        PietColor::DarkCyan => "DarkCyan"@,
        PietColor::LightBlue => "LightBlue"@,
        PietColor::Blue => "Blue"@,
        PietColor::DarkBlue => "DarkBlue"@,
        PietColor::LightMagenta => "LightMagenta"@,
        PietColor::Magenta => "Magenta"@,
        PietColor::DarkMagenta => "DarkMagenta"@,
    }
}

/// The human-readable name of a palette color.
pub fn color_name(color: PietColor) -> (s: String)
    ensures
        s@ == color_name_spec(color),
{
    let lit: &str = match color {
        PietColor::White => "White",
        PietColor::Black => "Black",
        PietColor::LightRed => "LightRed",
        PietColor::Red => "Red",
        PietColor::DarkRed => "DarkRed",
        PietColor::LightYellow => "LightYellow",
        PietColor::Yellow => "Yellow",
        PietColor::DarkYellow => "DarkYellow",
        PietColor::LightGreen => "LightGreen",
        PietColor::Green => "Green",
        PietColor::DarkGreen => "DarkGreen",
        PietColor::LightCyan => "LightCyan",
        PietColor::Cyan => "Cyan",
        PietColor::DarkCyan => "DarkCyan",
        PietColor::LightBlue => "LightBlue",
        PietColor::Blue => "Blue",
        PietColor::DarkBlue => "DarkBlue",
        PietColor::LightMagenta => "LightMagenta",
        PietColor::Magenta => "Magenta",
        PietColor::DarkMagenta => "DarkMagenta",
    };
    lit.to_owned()
}

/// A recorded next position is justified: from a white codel it is where the
/// white slide lands for some direction, from a chromatic codel it is the
/// landing of the routing relation for some entry state of its block.
pub open spec fn next_entry_ok(g: Grid, p: Position, np: Position) -> bool {
    &&& in_bounds(p, g.spec_width(), g.spec_height())
    &&& in_bounds(np, g.spec_width(), g.spec_height())
    &&& if g.spec_color_at(p) == PietColor::White {
        exists|dp: Direction| #[trigger] slide_spec(g, p, dp, 0) == Some(np)
    } else if g.spec_color_at(p).is_chromatic() {
        exists|dp: Direction, cc: CodelChooser|
            match #[trigger] route_spec(g, g.spec_block_id(p), dp, cc) {
                Some(t) => t.0 == np,
                None => false,
            }
    } else {
        false
    }
}

/// The instruction the routing relation dictates for a block entered with
/// (dp, cc): Halt when the eight-try search or the slide fails, the forced
/// Nop when white was crossed, otherwise the color transition of the landing.
pub open spec fn routed_instruction(g: Grid, b: int, dp: Direction, cc: CodelChooser) -> Instruction {
    match route_spec(g, b, dp, cc) {
        None => Instruction::Halt,
        Some(t) => if t.3 {
            Instruction::Nop
        } else {
            transition_instruction_spec(
                g.spec_block_color(b),
                g.spec_color_at(t.0),
                wrap_to_i32(g.spec_block_size(b)),
            )
        },
    }
}

/// A mapped instruction is justified by its codel: Halt on black, Nop on
/// white, and for a chromatic codel whatever the routing dictates for some
/// entry state of its block.
pub open spec fn map_entry_ok(g: Grid, p: Position, instr: Instruction) -> bool {
    if g.spec_color_at(p) == PietColor::Black {
        instr == Instruction::Halt
    } else if g.spec_color_at(p) == PietColor::White {
        instr == Instruction::Nop
    } else {
        exists|dp: Direction, cc: CodelChooser|
            #[trigger] routed_instruction(g, g.spec_block_id(p), dp, cc) == instr
    }
}

/// Every codel of the block is mapped to some instruction.
pub open spec fn block_fully_mapped(g: Grid, p: Program, b: int) -> bool {
    forall|k: int| 0 <= k < g.spec_block_positions(b).len()
        ==> grid_at(
            p.position_map@,
            (#[trigger] g.spec_block_positions(b)[k]).x as int,
            g.spec_block_positions(b)[k].y as int,
        ) is Some
}

/// A debug record on a chromatic block's instruction is justified: it names
/// a codel of the block and the block's size, and its landing and exit state
/// are the routing's outcome for some entry state (the landing equals the
/// source when that routing is trapped).
pub open spec fn debug_block_ok(g: Grid, b: int, d: InstructionDebugInfo) -> bool {
    &&& g.spec_block_positions(b).contains(d.from_pos)
    &&& d.block_size == g.spec_block_size(b)
    &&& exists|dp: Direction, cc: CodelChooser| match #[trigger] route_spec(g, b, dp, cc) {
        Some(t) => d.to_pos == t.0 && d.dp == t.1 && d.cc == t.2,
        None => d.to_pos == d.from_pos,
    }
}

/// A mapped instruction's debug record, when present, is justified by its
/// codel: black codels record themselves, white codels record their slide's
/// landing, and chromatic codels record their block's routing.
pub open spec fn debug_entry_ok(g: Grid, p: Position, dbg: Option<InstructionDebugInfo>) -> bool {
    match dbg {
        None => true,
        Some(d) => {
            if g.spec_color_at(p) == PietColor::Black {
                d.from_pos == p && d.to_pos == p && d.block_size == 1
            } else if g.spec_color_at(p) == PietColor::White {
                d.from_pos == p && slide_spec(g, p, d.dp, 0) == Some(d.to_pos) && d.block_size == 1
            } else {
                debug_block_ok(g, g.spec_block_id(p), d)
            }
        },
    }
}

/// Every mapped chromatic codel has its whole block mapped with it.
pub open spec fn blocks_mapped_ok(g: Grid, p: Program) -> bool {
    forall|xx: int, yy: int| 0 <= xx < p.width && 0 <= yy < p.height
        && (#[trigger] grid_at(p.position_map@, xx, yy)) is Some
        && g.spec_color_at(Position { x: xx as usize, y: yy as usize }).is_chromatic()
        ==> block_fully_mapped(g, p, g.spec_block_id(Position { x: xx as usize, y: yy as usize }))
}

/// Fully mapped blocks stay fully mapped when the position map only gains
/// entries.
proof fn lemma_full_maps_preserved(g: Grid, p0: Program, p1: Program)
    requires
        g.inv(),
        p0.width == g.spec_width(),
        p0.height == g.spec_height(),
        p1.width == p0.width,
        p1.height == p0.height,
        forall|xx: int, yy: int| 0 <= xx < p0.width && 0 <= yy < p0.height
            && (#[trigger] grid_at(p0.position_map@, xx, yy)) is Some
            ==> grid_at(p1.position_map@, xx, yy) is Some,
    ensures
        forall|b: int| 0 <= b < g.spec_block_count() && #[trigger] block_fully_mapped(g, p0, b)
            ==> block_fully_mapped(g, p1, b),
{
    assert forall|b: int| 0 <= b < g.spec_block_count() && #[trigger] block_fully_mapped(g, p0, b)
        implies block_fully_mapped(g, p1, b) by {
        assert forall|k: int| 0 <= k < g.spec_block_positions(b).len()
            implies grid_at(
                p1.position_map@,
                (#[trigger] g.spec_block_positions(b)[k]).x as int,
                g.spec_block_positions(b)[k].y as int,
            ) is Some by {
            g.lemma_position_block_id(b, k);
        }
    }
}

/// Block coverage carries over unchanged position maps.
proof fn lemma_bmo_carry(g: Grid, p0: Program, p1: Program)
    requires
        g.inv(),
        p0.width == g.spec_width(),
        p0.height == g.spec_height(),
        p1.width == p0.width,
        p1.height == p0.height,
        p1.position_map == p0.position_map,
        blocks_mapped_ok(g, p0),
    ensures
        blocks_mapped_ok(g, p1),
{
    lemma_full_maps_preserved(g, p0, p1);
    assert forall|xx: int, yy: int| 0 <= xx < p1.width && 0 <= yy < p1.height
        && (#[trigger] grid_at(p1.position_map@, xx, yy)) is Some
        && g.spec_color_at(Position { x: xx as usize, y: yy as usize }).is_chromatic()
        implies block_fully_mapped(g, p1, g.spec_block_id(Position { x: xx as usize, y: yy as usize })) by {
        let q = Position { x: xx as usize, y: yy as usize };
        g.lemma_block_facts(q);
        assert(grid_at(p0.position_map@, xx, yy) is Some);
        assert(block_fully_mapped(g, p0, g.spec_block_id(q)));
    }
}

/// Block coverage survives mapping one more codel, provided a chromatic
/// codel's block ends up fully mapped.
proof fn lemma_bmo_single_map(g: Grid, p0: Program, p1: Program, pos: Position)
    requires
        g.inv(),
        p0.width == g.spec_width(),
        p0.height == g.spec_height(),
        p1.width == p0.width,
        p1.height == p0.height,
        forall|xx: int, yy: int| 0 <= xx < p0.width && 0 <= yy < p0.height
            && (#[trigger] grid_at(p0.position_map@, xx, yy)) is Some
            ==> grid_at(p1.position_map@, xx, yy) is Some,
        forall|xx: int, yy: int| 0 <= xx < p0.width && 0 <= yy < p0.height
            && (#[trigger] grid_at(p1.position_map@, xx, yy)) is Some
            ==> grid_at(p0.position_map@, xx, yy) is Some
                || (xx == pos.x as int && yy == pos.y as int),
        blocks_mapped_ok(g, p0),
        in_bounds(pos, g.spec_width(), g.spec_height()) && g.spec_color_at(pos).is_chromatic()
            ==> block_fully_mapped(g, p1, g.spec_block_id(pos)),
    ensures
        blocks_mapped_ok(g, p1),
{
    lemma_full_maps_preserved(g, p0, p1);
    assert forall|xx: int, yy: int| 0 <= xx < p1.width && 0 <= yy < p1.height
        && (#[trigger] grid_at(p1.position_map@, xx, yy)) is Some
        && g.spec_color_at(Position { x: xx as usize, y: yy as usize }).is_chromatic()
        implies block_fully_mapped(g, p1,
            g.spec_block_id(Position { x: xx as usize, y: yy as usize })) by {
        let q = Position { x: xx as usize, y: yy as usize };
        g.lemma_block_facts(q);
        if grid_at(p0.position_map@, xx, yy) is Some {
            assert(block_fully_mapped(g, p0, g.spec_block_id(q)));
        } else {
            assert(q == pos);
        }
    }
}

/// Every instruction list entry and map entry a compiled program may hold,
/// relative to its grid: well-formed maps, parallel rich instructions, debug
/// records exactly in debug mode, justified next positions, and every mapped
/// instruction justified by its codel's color and routing.
pub open spec fn prog_ok(g: Grid, p: Program, mode: CompileMode, metadata: ProgramMetadata) -> bool {
    &&& p.wf()
    &&& p.rich_matches()
    &&& p.width == g.spec_width()
    &&& p.height == g.spec_height()
    &&& p.metadata == metadata
    &&& (mode == CompileMode::Debug ==> forall|i: int| 0 <= i < p.rich_instructions@.len()
        ==> (#[trigger] p.rich_instructions@[i]).debug is Some)
    &&& (mode == CompileMode::Release ==> forall|i: int| 0 <= i < p.rich_instructions@.len()
        ==> (#[trigger] p.rich_instructions@[i]).debug is None)
    &&& forall|xx: int, yy: int| 0 <= xx < p.width && 0 <= yy < p.height
        && (#[trigger] grid_at(p.next_position@, xx, yy)) is Some
        ==> next_entry_ok(
            g,
            Position { x: xx as usize, y: yy as usize },
            Position {
                x: grid_at(p.next_position@, xx, yy)->Some_0.0,
                y: grid_at(p.next_position@, xx, yy)->Some_0.1,
            },
        )
    &&& forall|xx: int, yy: int| 0 <= xx < p.width && 0 <= yy < p.height
        && (#[trigger] grid_at(p.position_map@, xx, yy)) is Some
        ==> map_entry_ok(
            g,
            Position { x: xx as usize, y: yy as usize },
            p.instructions@[grid_at(p.position_map@, xx, yy)->Some_0 as int],
        )
        && debug_entry_ok(
            g,
            Position { x: xx as usize, y: yy as usize },
            p.rich_instructions@[grid_at(p.position_map@, xx, yy)->Some_0 as int].debug,
        )
}

/// How many entries of the sequence are set.
pub open spec fn count_true(s: Seq<bool>) -> nat
    decreases s.len(),
{
    if s.len() == 0 {
        0
    } else {
        count_true(s.drop_last()) + (if s.last() { 1nat } else { 0nat })
    }
}

proof fn lemma_count_true_update(s: Seq<bool>, i: int)
    requires
        0 <= i < s.len(),
        !s[i],
    ensures
        count_true(s.update(i, true)) == count_true(s) + 1,
    decreases s.len(),
{
    let su = s.update(i, true);
    if i == s.len() - 1 {
        assert(su.drop_last() =~= s.drop_last());
    } else {
        assert(su.drop_last() =~= s.drop_last().update(i, true));
        lemma_count_true_update(s.drop_last(), i);
        assert(su.last() == s.last());
    }
}

proof fn lemma_count_true_le_len(s: Seq<bool>)
    ensures
        count_true(s) <= s.len(),
    decreases s.len(),
{
    if s.len() > 0 {
        lemma_count_true_le_len(s.drop_last());
    }
}

/// The flat index of an execution state (position, dp, cc) in a visited map
/// of eight entries per codel.
pub open spec fn state_index(p: Position, dp: Direction, cc: CodelChooser, w: int) -> int {
    cell_index(p, w) * 8 + dp.index() * 2 + cc.index()
}

/// Transforms a grid of colored codels into a bytecode program by walking
/// every execution state reachable from the top-left codel.
pub struct Compiler {
    grid: Grid,
    image_width: usize,
    image_height: usize,
    codel_size: usize,
    mode: CompileMode,
}

impl Compiler {
    pub closed spec fn spec_grid(self) -> Grid {
        self.grid
    }

    pub closed spec fn spec_mode(self) -> CompileMode {
        self.mode
    }

    pub closed spec fn spec_codel_size(self) -> int {
        self.codel_size as int
    }

    pub closed spec fn spec_image_width(self) -> int {
        self.image_width as int
    }

    pub closed spec fn spec_image_height(self) -> int {
        self.image_height as int
    }

    pub open spec fn wf(self) -> bool {
        self.spec_grid().inv()
    }

    /// The metadata the compiled program will carry.
    pub open spec fn spec_metadata(self) -> ProgramMetadata {
        ProgramMetadata {
            codel_size: self.spec_codel_size() as usize,
            image_width: self.spec_image_width() as usize,
            image_height: self.spec_image_height() as usize,
            grid_width: self.spec_grid().spec_width() as usize,
            grid_height: self.spec_grid().spec_height() as usize,
        }
    }

    /// A compiler over a grid, in release mode, with codel size 1.
    pub fn new(grid: Grid) -> (c: Self)
        requires
            grid.inv(),
        ensures
            c.wf(),
            c.spec_grid() == grid,
            c.spec_mode() == CompileMode::Release,
            c.spec_codel_size() == 1,
            c.spec_image_width() == grid.spec_width(),
            c.spec_image_height() == grid.spec_height(),
    {
        let w = grid.width();
        let h = grid.height();
        Compiler {
            grid,
            image_width: w,
            image_height: h,
            codel_size: 1,
            mode: CompileMode::Release,
        }
    }

    /// A compiler that remembers the original image's codel size and pixel
    /// dimensions; zero dimensions are derived from the grid.
    pub fn with_codel_size(grid: Grid, codel_size: usize, image_width: usize, image_height: usize) -> (c: Self)
        requires
            grid.inv(),
            grid.spec_width() * codel_size <= usize::MAX,
            grid.spec_height() * codel_size <= usize::MAX,
        ensures
            c.wf(),
            c.spec_grid() == grid,
            c.spec_mode() == CompileMode::Release,
            c.spec_codel_size() == codel_size,
            c.spec_image_width() == (if image_width == 0 { grid.spec_width() * codel_size } else { image_width as int }),
            c.spec_image_height() == (if image_height == 0 { grid.spec_height() * codel_size } else { image_height as int }),
    {
        let iw = if image_width == 0 { grid.width() * codel_size } else { image_width };
        let ih = if image_height == 0 { grid.height() * codel_size } else { image_height };
        Compiler {
            grid,
            codel_size,
            image_width: iw,
            image_height: ih,
            mode: CompileMode::Release,
        }
    }

    /// Releases the grid the compiler was built over.
    pub fn into_grid(self) -> (g: Grid)
        ensures
            g == self.spec_grid(),
    {
        self.grid
    }

    /// Selects the compilation mode.
    pub fn with_mode(self, mode: CompileMode) -> (c: Self)
        ensures
            c.spec_grid() == self.spec_grid(),
            c.spec_mode() == mode,
            c.spec_codel_size() == self.spec_codel_size(),
            c.spec_image_width() == self.spec_image_width(),
            c.spec_image_height() == self.spec_image_height(),
            self.wf() ==> c.wf(),
    {
        Compiler { mode, ..self }
    }

    /// Appends an instruction, attaching the debug record exactly in debug
    /// mode, and returns its index.
    fn emit_instruction(&self, program: &mut Program, instr: Instruction, debug: InstructionDebugInfo) -> (idx: usize)
        requires
            prog_ok(self.spec_grid(), *old(program), self.spec_mode(), self.spec_metadata()),
            old(program).instructions@.len() < usize::MAX,
        ensures
            prog_ok(self.spec_grid(), *final(program), self.spec_mode(), self.spec_metadata()),
            idx == old(program).instructions@.len(),
            final(program).instructions@ == old(program).instructions@.push(instr),
            final(program).position_map == old(program).position_map,
            final(program).next_position == old(program).next_position,
            final(program).instructions@.len() == old(program).instructions@.len() + 1,
            self.spec_mode() == CompileMode::Debug
                ==> final(program).rich_instructions@[idx as int].debug == Some(debug),
            self.spec_mode() == CompileMode::Release
                ==> final(program).rich_instructions@[idx as int].debug is None,
            forall|i: int| 0 <= i < old(program).rich_instructions@.len()
                ==> #[trigger] final(program).rich_instructions@[i]
                    == old(program).rich_instructions@[i],
    {
        match self.mode {
            CompileMode::Debug => program.add_rich_instruction(instr, debug),
            CompileMode::Release => program.add_instruction(instr),
        }
    }

    /// Maps one codel to an instruction index, preserving program shape; the
    /// instruction must be justified for that codel.
    fn map_codel(&self, program: &mut Program, pos: Position, idx: usize) -> (r: ())
        requires
            prog_ok(self.spec_grid(), *old(program), self.spec_mode(), self.spec_metadata()),
            idx < old(program).instructions@.len(),
            map_entry_ok(self.spec_grid(), pos, old(program).instructions@[idx as int]),
            debug_entry_ok(self.spec_grid(), pos, old(program).rich_instructions@[idx as int].debug),
        ensures
            prog_ok(self.spec_grid(), *final(program), self.spec_mode(), self.spec_metadata()),
            final(program).instructions == old(program).instructions,
            final(program).rich_instructions == old(program).rich_instructions,
            final(program).next_position == old(program).next_position,
            in_bounds(pos, self.spec_grid().spec_width(), self.spec_grid().spec_height())
                ==> grid_at(final(program).position_map@, pos.x as int, pos.y as int) is Some,
            forall|xx: int, yy: int| 0 <= xx < old(program).width && 0 <= yy < old(program).height
                ==> #[trigger] grid_at(final(program).position_map@, xx, yy)
                    == (if xx == pos.x as int && yy == pos.y as int
                        && in_bounds(pos, self.spec_grid().spec_width(), self.spec_grid().spec_height()) {
                        Some(idx)
                    } else {
                        grid_at(old(program).position_map@, xx, yy)
                    }),
    {
        program.map_position(pos.x, pos.y, idx);
    }

    /// Maps one codel's next position to a routed landing, keeping every
    /// recorded entry justified.
    fn map_codel_next(&self, program: &mut Program, pos: Position, np: Position, Ghost(dp): Ghost<Direction>, Ghost(cc): Ghost<CodelChooser>)
        requires
            prog_ok(self.spec_grid(), *old(program), self.spec_mode(), self.spec_metadata()),
            in_bounds(pos, self.spec_grid().spec_width(), self.spec_grid().spec_height()),
            in_bounds(np, self.spec_grid().spec_width(), self.spec_grid().spec_height()),
            if self.spec_grid().spec_color_at(pos) == PietColor::White {
                slide_spec(self.spec_grid(), pos, dp, 0) == Some(np)
            } else if self.spec_grid().spec_color_at(pos).is_chromatic() {
                match route_spec(self.spec_grid(), self.spec_grid().spec_block_id(pos), dp, cc) {
                    Some(t) => t.0 == np,
                    None => false,
                }
            } else {
                false
            },
        ensures
            prog_ok(self.spec_grid(), *final(program), self.spec_mode(), self.spec_metadata()),
            final(program).instructions == old(program).instructions,
            final(program).rich_instructions == old(program).rich_instructions,
            final(program).position_map == old(program).position_map,
    {
        let ghost g = self.spec_grid();
        program.map_next_position(pos.x, pos.y, np.x, np.y);
        proof {
            assert(next_entry_ok(g, pos, np));
            assert forall|xx: int, yy: int| 0 <= xx < final(program).width && 0 <= yy < final(program).height
                && (#[trigger] grid_at(final(program).next_position@, xx, yy)) is Some
                implies next_entry_ok(
                    g,
                    Position { x: xx as usize, y: yy as usize },
                    Position {
                        x: grid_at(final(program).next_position@, xx, yy)->Some_0.0,
                        y: grid_at(final(program).next_position@, xx, yy)->Some_0.1,
                    },
                ) by {
                if xx == pos.x as int && yy == pos.y as int {
                    assert(Position { x: xx as usize, y: yy as usize } == pos);
                } else {
                    assert(grid_at(final(program).next_position@, xx, yy)
                        == grid_at(old(program).next_position@, xx, yy));
                }
            }
        }
    }

    /// The flat index of a (dp, cc) pair, in [0, 8).
    fn dir_cc_index(dp: Direction, cc: CodelChooser) -> (i: usize)
        ensures
            i == dp.index() * 2 + cc.index(),
            i < 8,
    {
        let di: usize = match dp {
            Direction::Right => 0,
            Direction::Down => 1,
            Direction::Left => 2,
            Direction::Up => 3,
        };
        let ci: usize = match cc {
            CodelChooser::Left => 0,
            CodelChooser::Right => 1,
        };
        di * 2 + ci
    }

    /// The flat state index of (q, dp, cc), shown to fit the visited map.
    fn state_pos_index(q: Position, dp: Direction, cc: CodelChooser, width: usize, height: usize) -> (i: usize)
        requires
            in_bounds(q, width as int, height as int),
            width * height * 8 <= usize::MAX,
        ensures
            i == state_index(q, dp, cc, width as int),
            i < width * height * 8,
    {
        proof {
            assert(q.y * width + q.x < width * height) by (nonlinear_arith)
                requires 0 <= q.x < width && 0 <= q.y < height;
            assert((q.y * width + q.x) * 8 + 7 < width * height * 8) by (nonlinear_arith)
                requires q.y * width + q.x < width * height;
        }
        let di: usize = match dp {
            Direction::Right => 0,
            Direction::Down => 1,
            Direction::Left => 2,
            Direction::Up => 3,
        };
        let ci: usize = match cc {
            CodelChooser::Left => 0,
            CodelChooser::Right => 1,
        };
        (q.y * width + q.x) * 8 + di * 2 + ci
    }

    /// Enqueues a state unless it was already seen; marks it seen.
    fn push_state(
        visited: &mut Vec<bool>,
        queue: &mut Vec<(Position, Direction, CodelChooser)>,
        q: Position,
        dp: Direction,
        cc: CodelChooser,
        width: usize,
        height: usize,
    )
        requires
            in_bounds(q, width as int, height as int),
            old(visited)@.len() == width * height * 8,
            old(queue)@.len() <= count_true(old(visited)@),
        ensures
            final(visited)@.len() == old(visited)@.len(),
            final(queue)@.len() <= count_true(final(visited)@),
            old(queue)@.is_prefix_of(final(queue)@),
            forall|k: int| 0 <= k < final(queue)@.len()
                ==> #[trigger] final(queue)@[k] == (if k < old(queue)@.len() { old(queue)@[k] } else { (q, dp, cc) }),
            !old(visited)@[state_index(q, dp, cc, width as int)]
                ==> final(queue)@.len() == old(queue)@.len() + 1,
    {
        let l = visited.len();
        let si = Self::state_pos_index(q, dp, cc, width, height);
        if !visited[si] {
            visited[si] = true;
            proof {
                lemma_count_true_update(old(visited)@, si as int);
            }
            queue.push((q, dp, cc));
            proof {
                assert(old(queue)@ =~= final(queue)@.subrange(0, old(queue)@.len() as int));
            }
        } else {
            proof {
                assert(old(queue)@ =~= final(queue)@.subrange(0, old(queue)@.len() as int));
            }
        }
    }

    /// Emits the instruction for a routed exit of a block, maps the block,
    /// records it for reuse and enqueues the successor states.
    #[verifier::loop_isolation(false)]
    #[verifier::spinoff_prover]
    #[verifier::rlimit(100)]
    fn compile_exit(
        &self,
        g: &Grid,
        program: &mut Program,
        visited: &mut Vec<bool>,
        queue: &mut Vec<(Position, Direction, CodelChooser)>,
        block_instr: &mut Vec<Option<usize>>,
        pos: Position,
        dp: Direction,
        cc: CodelChooser,
        exit_pos: Position,
        exit_dp: Direction,
        exit_cc: CodelChooser,
        block_id: usize,
        block_size: usize,
        current_color: PietColor,
        key_idx: usize,
        width: usize,
        height: usize,
        nb: usize,
        nb8: usize,
    )
        requires
            g == self.spec_grid(),
            self.wf(),
            width == g.spec_width(),
            height == g.spec_height(),
            nb == g.spec_block_count(),
            nb8 == nb * 8,
            in_bounds(pos, g.spec_width(), g.spec_height()),
            g.spec_color_at(pos).is_chromatic(),
            current_color == g.spec_color_at(pos),
            block_id as int == g.spec_block_id(pos),
            0 <= block_id < nb,
            block_size as int == g.spec_block_size(block_id as int),
            g.spec_block_color(block_id as int) == current_color,
            g.spec_block_positions(block_id as int).contains(pos),
            crate::grid::find_exit_spec(*g, block_id as int, dp, cc, 0)
                == Some((exit_pos, exit_dp, exit_cc)),
            in_bounds(exit_pos, g.spec_width(), g.spec_height()),
            g.spec_color_at(exit_pos) != PietColor::Black,
            key_idx as int == block_id * 8 + dp.index() * 2 + cc.index(),
            key_idx < nb8,
            key_idx as int / 8 == block_id,
            Direction::from_index((key_idx as int % 8) / 2) == dp,
            CodelChooser::from_index(key_idx as int % 2) == cc,
            prog_ok(self.spec_grid(), *old(program), self.spec_mode(), self.spec_metadata()),
            blocks_mapped_ok(*g, *old(program)),
            old(program).instructions@.len() < usize::MAX,
            old(visited)@.len() == width * height * 8,
            old(queue)@.len() <= count_true(old(visited)@),
            old(block_instr)@.len() == nb8,
            forall|j: int| 0 <= j < nb8 && (#[trigger] old(block_instr)@[j]) is Some
                ==> old(block_instr)@[j]->Some_0 < old(program).instructions@.len()
                    && old(program).instructions@[old(block_instr)@[j]->Some_0 as int]
                        == routed_instruction(
                            *g,
                            j / 8,
                            Direction::from_index((j % 8) / 2),
                            CodelChooser::from_index(j % 2),
                        )
                    && 0 <= j / 8 < g.spec_block_count()
                    && block_fully_mapped(*g, *old(program), j / 8)
                    && (match old(program).rich_instructions@[old(block_instr)@[j]->Some_0 as int].debug {
                        None => true,
                        Some(d) => debug_block_ok(*g, j / 8, d),
                    }),
        ensures
            prog_ok(self.spec_grid(), *final(program), self.spec_mode(), self.spec_metadata()),
            blocks_mapped_ok(*g, *final(program)),
            final(program).instructions@.len() <= old(program).instructions@.len() + 1,
            final(visited)@.len() == old(visited)@.len(),
            final(queue)@.len() <= count_true(final(visited)@),
            forall|k: int| 0 <= k < old(queue)@.len()
                ==> #[trigger] final(queue)@[k] == old(queue)@[k],
            final(queue)@.len() >= old(queue)@.len(),
            final(block_instr)@.len() == nb8,
            forall|j: int| 0 <= j < nb8 && (#[trigger] final(block_instr)@[j]) is Some
                ==> final(block_instr)@[j]->Some_0 < final(program).instructions@.len()
                    && final(program).instructions@[final(block_instr)@[j]->Some_0 as int]
                        == routed_instruction(
                            *g,
                            j / 8,
                            Direction::from_index((j % 8) / 2),
                            CodelChooser::from_index(j % 2),
                        )
                    && 0 <= j / 8 < g.spec_block_count()
                    && block_fully_mapped(*g, *final(program), j / 8)
                    && (match final(program).rich_instructions@[final(block_instr)@[j]->Some_0 as int].debug {
                        None => true,
                        Some(d) => debug_block_ok(*g, j / 8, d),
                    }),
            forall|xx: int, yy: int| 0 <= xx < old(program).width && 0 <= yy < old(program).height
                && grid_at(old(program).position_map@, xx, yy) is Some
                ==> (#[trigger] grid_at(final(program).position_map@, xx, yy)) is Some,
            grid_at(final(program).position_map@, pos.x as int, pos.y as int) is Some,
    {
        let ghost gg = self.spec_grid();
        let ghost prog0 = *old(program);
                    let exit_color = match g.get(exit_pos) {
                        Some(c) => c,
                        None => {
                            return;
                        }
                    };
                    let mut crossed_white = false;
                    let mut final_pos = exit_pos;
                    if exit_color.is_white() {
                        match router::slide_through_white(g, exit_pos, exit_dp) {
                            Some(slide_pos) => {
                                final_pos = slide_pos;
                                crossed_white = true;
                            }
                            None => {
                                // the slide found no destination: halt
                                let dbg = InstructionDebugInfo {
                                    from_pos: pos,
                                    to_pos: pos,
                                    dp: exit_dp,
                                    cc: exit_cc,
                                    block_size,
                                    from_color: color_name(current_color),
                                    to_color: "None".to_owned(),
                                };
                                let idx = self.emit_instruction(program, Instruction::Halt, dbg);
                                proof {
                                    assert(route_spec(gg, block_id as int, dp, cc) is None);
                                    assert(match program.rich_instructions@[idx as int].debug {
                                        None => true,
                                        Some(d) => debug_block_ok(gg, block_id as int, d),
                                    });
                                    lemma_bmo_carry(gg, prog0, *program);
                                }
                                let ghost prog1 = *program;
                                self.map_block_positions(program, g, block_id, idx, pos, Ghost(dp), Ghost(cc));
                                proof {
                                    lemma_full_maps_preserved(gg, prog0, prog1);
                                    lemma_full_maps_preserved(gg, prog1, *program);
                                }
                                return;
                            }
                        }
                    }
                    let final_color = match g.get(final_pos) {
                        Some(c) => c,
                        None => {
                            return;
                        }
                    };
                    proof {
                        assert(route_spec(gg, block_id as int, dp, cc)
                            == Some((final_pos, exit_dp, exit_cc, crossed_white)));
                    }
                    let bs_i32: i32 = block_size_value(block_size);
                    let instr = if crossed_white {
                        Instruction::Nop
                    } else {
                        get_transition_instruction(current_color, final_color, bs_i32)
                    };
                    let dbg = InstructionDebugInfo {
                        from_pos: pos,
                        to_pos: final_pos,
                        dp: exit_dp,
                        cc: exit_cc,
                        block_size,
                        from_color: color_name(current_color),
                        to_color: color_name(final_color),
                    };
                    let idx = self.emit_instruction(program, instr, dbg);
                    proof {
                        assert(gg.spec_block_color(block_id as int) == current_color);
                        assert(routed_instruction(gg, block_id as int, dp, cc) == instr);
                        assert(match program.rich_instructions@[idx as int].debug {
                            None => true,
                            Some(d) => debug_block_ok(gg, block_id as int, d),
                        });
                        lemma_bmo_carry(gg, prog0, *program);
                    }
                    let ghost prog1 = *program;
                    self.map_block_transition(program, g, block_id, idx, final_pos, pos, Ghost(dp), Ghost(cc));
                    let ghost bi_before = block_instr@;
                    block_instr[key_idx] = Some(idx);
                    proof {
                        lemma_full_maps_preserved(gg, prog0, prog1);
                        lemma_full_maps_preserved(gg, prog1, *program);
                        assert forall|j: int| 0 <= j < nb8 && (#[trigger] block_instr@[j]) is Some
                            implies block_instr@[j]->Some_0 < program.instructions@.len()
                                && program.instructions@[block_instr@[j]->Some_0 as int]
                                    == routed_instruction(
                                        gg,
                                        j / 8,
                                        Direction::from_index((j % 8) / 2),
                                        CodelChooser::from_index(j % 2),
                                    )
                                && 0 <= j / 8 < gg.spec_block_count()
                                && block_fully_mapped(gg, *program, j / 8)
                                && (match program.rich_instructions@[block_instr@[j]->Some_0 as int].debug {
                                    None => true,
                                    Some(d) => debug_block_ok(gg, j / 8, d),
                                }) by {
                            if j != key_idx as int {
                                assert(block_instr@[j] == bi_before[j]);
                                assert(block_fully_mapped(gg, prog0, j / 8));
                            } else {
                                assert(j / 8 == block_id as int);
                            }
                        }
                    }
                    // enqueue the successor states; Pointer and Switch fan out
                    match instr {
                        Instruction::Switch => {
                            Self::push_state(visited, queue, final_pos, exit_dp, exit_cc, width, height);
                            Self::push_state(visited, queue, final_pos, exit_dp, exit_cc.toggle(), width, height);
                        }
                        Instruction::Pointer => {
                            Self::push_state(visited, queue, final_pos, exit_dp.rotate_clockwise(0), exit_cc, width, height);
                            Self::push_state(visited, queue, final_pos, exit_dp.rotate_clockwise(1), exit_cc, width, height);
                            Self::push_state(visited, queue, final_pos, exit_dp.rotate_clockwise(2), exit_cc, width, height);
                            Self::push_state(visited, queue, final_pos, exit_dp.rotate_clockwise(3), exit_cc, width, height);
                        }
                        _ => {
                            Self::push_state(visited, queue, final_pos, exit_dp, exit_cc, width, height);
                        }
                    }
    }

    /// Processes one dequeued chromatic state: reuse the block's compiled
    /// instruction, or route out of the block, emit the encoded instruction
    /// and map the whole block, enqueuing the successor states.
    #[verifier::loop_isolation(false)]
    #[verifier::spinoff_prover]
    #[verifier::rlimit(100)]
    fn compile_chromatic(
        &self,
        g: &Grid,
        program: &mut Program,
        visited: &mut Vec<bool>,
        queue: &mut Vec<(Position, Direction, CodelChooser)>,
        block_instr: &mut Vec<Option<usize>>,
        pos: Position,
        dp: Direction,
        cc: CodelChooser,
        width: usize,
        height: usize,
        nb: usize,
        nb8: usize,
    )
        requires
            g == self.spec_grid(),
            self.wf(),
            width == g.spec_width(),
            height == g.spec_height(),
            nb == g.spec_block_count(),
            nb8 == nb * 8,
            in_bounds(pos, g.spec_width(), g.spec_height()),
            g.spec_color_at(pos).is_chromatic(),
            prog_ok(self.spec_grid(), *old(program), self.spec_mode(), self.spec_metadata()),
            blocks_mapped_ok(*g, *old(program)),
            old(program).instructions@.len() < usize::MAX,
            old(visited)@.len() == width * height * 8,
            old(queue)@.len() <= count_true(old(visited)@),
            old(block_instr)@.len() == nb8,
            forall|j: int| 0 <= j < nb8 && (#[trigger] old(block_instr)@[j]) is Some
                ==> old(block_instr)@[j]->Some_0 < old(program).instructions@.len()
                    && old(program).instructions@[old(block_instr)@[j]->Some_0 as int]
                        == routed_instruction(
                            *g,
                            j / 8,
                            Direction::from_index((j % 8) / 2),
                            CodelChooser::from_index(j % 2),
                        )
                    && 0 <= j / 8 < g.spec_block_count()
                    && block_fully_mapped(*g, *old(program), j / 8)
                    && (match old(program).rich_instructions@[old(block_instr)@[j]->Some_0 as int].debug {
                        None => true,
                        Some(d) => debug_block_ok(*g, j / 8, d),
                    }),
        ensures
            prog_ok(self.spec_grid(), *final(program), self.spec_mode(), self.spec_metadata()),
            blocks_mapped_ok(*g, *final(program)),
            final(program).instructions@.len() <= old(program).instructions@.len() + 1,
            final(visited)@.len() == old(visited)@.len(),
            final(queue)@.len() <= count_true(final(visited)@),
            forall|k: int| 0 <= k < old(queue)@.len()
                ==> #[trigger] final(queue)@[k] == old(queue)@[k],
            final(queue)@.len() >= old(queue)@.len(),
            final(block_instr)@.len() == nb8,
            forall|j: int| 0 <= j < nb8 && (#[trigger] final(block_instr)@[j]) is Some
                ==> final(block_instr)@[j]->Some_0 < final(program).instructions@.len()
                    && final(program).instructions@[final(block_instr)@[j]->Some_0 as int]
                        == routed_instruction(
                            *g,
                            j / 8,
                            Direction::from_index((j % 8) / 2),
                            CodelChooser::from_index(j % 2),
                        )
                    && 0 <= j / 8 < g.spec_block_count()
                    && block_fully_mapped(*g, *final(program), j / 8)
                    && (match final(program).rich_instructions@[final(block_instr)@[j]->Some_0 as int].debug {
                        None => true,
                        Some(d) => debug_block_ok(*g, j / 8, d),
                    }),
            forall|xx: int, yy: int| 0 <= xx < old(program).width && 0 <= yy < old(program).height
                && grid_at(old(program).position_map@, xx, yy) is Some
                ==> (#[trigger] grid_at(final(program).position_map@, xx, yy)) is Some,
            grid_at(final(program).position_map@, pos.x as int, pos.y as int) is Some,
    {
        let ghost gg = self.spec_grid();
        let ghost prog0 = *old(program);
        let current_color = match g.get(pos) {
            Some(color) => color,
            None => {
                proof { assert(false); }
                return;
            }
        };
            let block_id = match g.get_block_id(pos) {
                Some(b) => b,
                None => {
                    return;
                }
            };
            let block_size = match g.get_block_info(block_id) {
                Some(info) => info.size,
                None => {
                    return;
                }
            };
            proof {
                gg.lemma_block_facts(pos);
            }
            let key = Self::dir_cc_index(dp, cc);
            proof {
                assert((block_id + 1) * 8 <= nb * 8) by (nonlinear_arith)
                    requires block_id + 1 <= nb;
            }
            let key_idx = block_id * 8 + key;
            proof {
                assert(key_idx as int / 8 == block_id && (key_idx as int % 8) / 2 == dp.index()
                    && key_idx as int % 2 == cc.index()) by (nonlinear_arith)
                    requires key_idx == block_id * 8 + dp.index() * 2 + cc.index()
                        && 0 <= dp.index() < 4 && 0 <= cc.index() < 2 && block_id >= 0;
                lemma_dir_roundtrip(dp);
                assert(CodelChooser::from_index(cc.index()) == cc) by {
                    match cc {
                        CodelChooser::Left => {}
                        CodelChooser::Right => {}
                    }
                }
            }
            match block_instr[key_idx] {
                Some(instr_idx) => {
                    // this (block, dp, cc) was already compiled: reuse its index
                    proof {
                        assert(program.instructions@[instr_idx as int]
                            == routed_instruction(gg, block_id as int, dp, cc));
                        assert(map_entry_ok(gg, pos, program.instructions@[instr_idx as int]));
                        assert(debug_entry_ok(gg, pos, program.rich_instructions@[instr_idx as int].debug));
                        assert(block_fully_mapped(gg, *program, block_id as int));
                    }
                    self.map_codel(program, pos, instr_idx);
                    proof {
                        lemma_full_maps_preserved(gg, prog0, *program);
                        assert(block_fully_mapped(gg, *program, block_id as int));
                        lemma_bmo_single_map(gg, prog0, *program, pos);
                    }
                    return;
                }
                None => {}
            }
            match router::find_valid_exit(g, block_id, dp, cc) {
                None => {
                    // trapped: eight rotations found no colored exit
                    let dbg = InstructionDebugInfo {
                        from_pos: pos,
                        to_pos: pos,
                        dp,
                        cc,
                        block_size,
                        from_color: color_name(current_color),
                        to_color: "Blocked".to_owned(),
                    };
                    let idx = self.emit_instruction(program, Instruction::Halt, dbg);
                    proof {
                        assert(route_spec(gg, block_id as int, dp, cc) is None);
                        assert(match program.rich_instructions@[idx as int].debug {
                            None => true,
                            Some(d) => debug_block_ok(gg, block_id as int, d),
                        });
                        lemma_bmo_carry(gg, prog0, *program);
                    }
                    let ghost prog1 = *program;
                    self.map_block_positions(program, g, block_id, idx, pos, Ghost(dp), Ghost(cc));
                    proof {
                        lemma_full_maps_preserved(gg, prog0, prog1);
                        lemma_full_maps_preserved(gg, prog1, *program);
                    }
                }
                Some((exit_pos, exit_dp, exit_cc)) => {
                    self.compile_exit(g, program, visited, queue, block_instr,
                        pos, dp, cc, exit_pos, exit_dp, exit_cc,
                        block_id, block_size, current_color, key_idx, width, height, nb, nb8);
                }
            }
    }

    /// Compiles the grid into a bytecode program by a breadth-first walk of
    /// the execution states reachable from ((0, 0), Right, Left). The walk
    /// visits each of the at most width x height x 4 x 2 distinct states at
    /// most once, which bounds both the walk and the emitted instructions.
    #[verifier::loop_isolation(false)]
    #[verifier::spinoff_prover]
    #[verifier::rlimit(100)]
    pub fn compile(&self) -> (r: Result<Program, VmError>)
        requires
            self.wf(),
            self.spec_grid().spec_width() * self.spec_grid().spec_height() * 8 <= usize::MAX,
        ensures
            match r {
                Ok(p) => {
                    &&& prog_ok(self.spec_grid(), p, self.spec_mode(), self.spec_metadata())
                    &&& blocks_mapped_ok(self.spec_grid(), p)
                    &&& p.instructions@.len()
                        <= 8 * self.spec_grid().spec_width() * self.spec_grid().spec_height()
                    &&& (in_bounds(Position { x: 0, y: 0 }, self.spec_grid().spec_width(), self.spec_grid().spec_height())
                        && (self.spec_grid().spec_color_at(Position { x: 0, y: 0 }).is_chromatic()
                            || self.spec_grid().spec_color_at(Position { x: 0, y: 0 }) == PietColor::Black
                            || (self.spec_grid().spec_color_at(Position { x: 0, y: 0 }) == PietColor::White
                                && slide_spec(self.spec_grid(), Position { x: 0, y: 0 }, Direction::Right, 0) is Some))
                        ==> grid_at(p.position_map@, 0, 0) is Some)
                },
                Err(_) => false,
            },
    {
        let g = &self.grid;
        let ghost gg = self.spec_grid();
        let width = g.width();
        let height = g.height();
        let metadata = ProgramMetadata {
            codel_size: self.codel_size,
            image_width: self.image_width,
            image_height: self.image_height,
            grid_width: width,
            grid_height: height,
        };
        let mut program = Program::with_metadata(metadata);
        proof {
            assert(width * height <= width * height * 8) by (nonlinear_arith)
                requires width * height >= 0;
            assert(prog_ok(gg, program, self.spec_mode(), self.spec_metadata()));
        }
        let wh = match width.checked_mul(height) {
            Some(t) => t,
            None => {
                proof {
                    assert(width * height <= width * height * 8) by (nonlinear_arith)
                        requires width * height >= 0;
                    assert(false);
                }
                0
            }
        };
        let wh8 = wh * 8;
        let mut visited: Vec<bool> = Vec::new();
        let mut i: usize = 0;
        while i < wh8
            invariant
                i <= wh8,
                visited@.len() == i,
                count_true(visited@) == 0,
                forall|j: int| 0 <= j < i ==> !(#[trigger] visited@[j]),
            decreases wh8 - i,
        {
            let ghost vprev = visited@;
            visited.push(false);
            proof {
                assert(visited@.drop_last() =~= vprev);
            }
            i = i + 1;
        }
        let nb = g.block_count();
        let nb8 = nb * 8;
        let mut block_instr: Vec<Option<usize>> = Vec::new();
        let mut bi: usize = 0;
        while bi < nb8
            invariant
                bi <= nb8,
                block_instr@.len() == bi,
                forall|j: int| 0 <= j < bi ==> (#[trigger] block_instr@[j]) is None,
            decreases nb8 - bi,
        {
            block_instr.push(None);
            bi = bi + 1;
        }
        let mut queue: Vec<(Position, Direction, CodelChooser)> = Vec::new();
        let start_pos = Position::new(0, 0);
        let start_dp = Direction::Right;
        let start_cc = CodelChooser::Left;
        if width > 0 && height > 0 {
            proof {
                assert(state_index(start_pos, start_dp, start_cc, width as int) == 0);
                assert(wh8 >= 8) by (nonlinear_arith)
                    requires wh8 == width * height * 8 && width >= 1 && height >= 1;
                assert(!visited@[0]);
            }
            Self::push_state(&mut visited, &mut queue, start_pos, start_dp, start_cc, width, height);
            proof {
                assert(queue@.len() == 1);
            }
        }
        let ghost started = width > 0 && height > 0;
        let mut head: usize = 0;
        while head < queue.len()
            invariant
                started ==> queue@.len() >= 1,
                head <= queue@.len(),
                visited@.len() == wh8,
                queue@.len() <= count_true(visited@),
                prog_ok(gg, program, self.spec_mode(), self.spec_metadata()),
                program.instructions@.len() <= head,
                block_instr@.len() == nb8,
                blocks_mapped_ok(gg, program),
                forall|j: int| 0 <= j < nb8 && (#[trigger] block_instr@[j]) is Some
                    ==> block_instr@[j]->Some_0 < program.instructions@.len()
                        && program.instructions@[block_instr@[j]->Some_0 as int]
                            == routed_instruction(
                                gg,
                                j / 8,
                                Direction::from_index((j % 8) / 2),
                                CodelChooser::from_index(j % 2),
                            )
                        && 0 <= j / 8 < gg.spec_block_count()
                        && block_fully_mapped(gg, program, j / 8)
                        && (match program.rich_instructions@[block_instr@[j]->Some_0 as int].debug {
                            None => true,
                            Some(d) => debug_block_ok(gg, j / 8, d),
                        }),
                queue@.len() >= 1 ==> queue@[0] == (start_pos, start_dp, start_cc),
                (head >= 1 && in_bounds(start_pos, width as int, height as int)
                    && (gg.spec_color_at(start_pos).is_chromatic()
                        || gg.spec_color_at(start_pos) == PietColor::Black
                        || (gg.spec_color_at(start_pos) == PietColor::White
                            && slide_spec(gg, start_pos, Direction::Right, 0) is Some)))
                    ==> grid_at(program.position_map@, 0, 0) is Some,
            decreases wh8 - head,
        {
            proof {
                lemma_count_true_le_len(visited@);
            }
            let (pos, dp, cc) = queue[head];
            head = head + 1;
            let ghost prog0 = program;
            let current_color = match g.get(pos) {
                Some(color) => color,
                None => {
                    continue;
                }
            };
            if current_color.is_black() {
                let dbg = InstructionDebugInfo {
                    from_pos: pos,
                    to_pos: pos,
                    dp,
                    cc,
                    block_size: 1,
                    from_color: color_name(PietColor::Black),
                    to_color: color_name(PietColor::Black),
                };
                let idx = self.emit_instruction(&mut program, Instruction::Halt, dbg);
                proof {
                    assert(debug_entry_ok(gg, pos, program.rich_instructions@[idx as int].debug));
                }
                self.map_codel(&mut program, pos, idx);
                proof {
                    lemma_full_maps_preserved(gg, prog0, program);
                    lemma_bmo_single_map(gg, prog0, program, pos);
                }
                continue;
            }
            if current_color.is_white() {
                match router::slide_through_white(g, pos, dp) {
                    Some(next_pos) => {
                        let to_name = match g.get(next_pos) {
                            Some(c) => color_name(c),
                            None => String::new(),
                        };
                        let dbg = InstructionDebugInfo {
                            from_pos: pos,
                            to_pos: next_pos,
                            dp,
                            cc,
                            block_size: 1,
                            from_color: color_name(PietColor::White),
                            to_color: to_name,
                        };
                        let idx = self.emit_instruction(&mut program, Instruction::Nop, dbg);
                        proof {
                            assert(debug_entry_ok(gg, pos, program.rich_instructions@[idx as int].debug));
                        }
                        self.map_codel(&mut program, pos, idx);
                        self.map_codel_next(&mut program, pos, next_pos, Ghost(dp), Ghost(cc));
                        proof {
                            lemma_full_maps_preserved(gg, prog0, program);
                            lemma_bmo_single_map(gg, prog0, program, pos);
                        }
                        Self::push_state(&mut visited, &mut queue, next_pos, dp, cc, width, height);
                    }
                    None => {}
                }
                continue;
            }
            self.compile_chromatic(g, &mut program, &mut visited, &mut queue, &mut block_instr,
                pos, dp, cc, width, height, nb, nb8);
            proof {
                if started && queue@.len() >= 1 {
                    assert(queue@[0] == (start_pos, start_dp, start_cc));
                }
            }
        }
        proof {
            lemma_count_true_le_len(visited@);
            assert(program.instructions@.len() <= 8 * gg.spec_width() * gg.spec_height()) by (nonlinear_arith)
                requires program.instructions@.len() <= wh8
                    && wh8 == width * height * 8
                    && width == gg.spec_width() && height == gg.spec_height();
        }
        Ok(program)
    }

    /// Maps every codel of a trapped block to one Halt instruction.
    #[verifier::loop_isolation(false)]
    fn map_block_positions(&self, program: &mut Program, g: &Grid, block_id: usize, idx: usize, pos: Position, Ghost(dp): Ghost<Direction>, Ghost(cc): Ghost<CodelChooser>)
        requires
            g == self.spec_grid(),
            self.wf(),
            0 <= block_id < g.spec_block_count(),
            prog_ok(self.spec_grid(), *old(program), self.spec_mode(), self.spec_metadata()),
            idx < old(program).instructions@.len(),
            old(program).instructions@[idx as int] == Instruction::Halt,
            g.spec_block_color(block_id as int).is_chromatic(),
            route_spec(*g, block_id as int, dp, cc) is None,
            g.spec_block_positions(block_id as int).contains(pos),
            match old(program).rich_instructions@[idx as int].debug {
                None => true,
                Some(d) => debug_block_ok(*g, block_id as int, d),
            },
            blocks_mapped_ok(*g, *old(program)),
        ensures
            prog_ok(self.spec_grid(), *final(program), self.spec_mode(), self.spec_metadata()),
            final(program).instructions == old(program).instructions,
            final(program).rich_instructions == old(program).rich_instructions,
            final(program).next_position == old(program).next_position,
            grid_at(final(program).position_map@, pos.x as int, pos.y as int) is Some,
            forall|xx: int, yy: int| 0 <= xx < old(program).width && 0 <= yy < old(program).height
                && grid_at(old(program).position_map@, xx, yy) is Some
                ==> (#[trigger] grid_at(final(program).position_map@, xx, yy)) is Some,
            blocks_mapped_ok(*g, *final(program)),
            block_fully_mapped(*g, *final(program), block_id as int),
    {
        let info = match g.get_block_info(block_id) {
            Some(info) => info,
            None => {
                proof { assert(false); }
                return;
            }
        };
        let ghost kpos = choose|k: int| 0 <= k < info.positions@.len() && info.positions@[k] == pos;
        proof {
            assert forall|j: int| 0 <= j < info.positions@.len()
                implies in_bounds(#[trigger] info.positions@[j], g.spec_width(), g.spec_height()) by {
                g.lemma_position_block_id(block_id as int, j);
            }
        }
        let mut k: usize = 0;
        while k < info.positions.len()
            invariant
                k <= info.positions@.len(),
                prog_ok(self.spec_grid(), *program, self.spec_mode(), self.spec_metadata()),
                program.instructions == old(program).instructions,
                program.rich_instructions == old(program).rich_instructions,
                program.next_position == old(program).next_position,
                idx < program.instructions@.len(),
                forall|j: int| 0 <= j < info.positions@.len()
                    ==> in_bounds(#[trigger] info.positions@[j], g.spec_width(), g.spec_height()),
                forall|j: int| 0 <= j < k
                    ==> grid_at(program.position_map@, (#[trigger] info.positions@[j]).x as int, info.positions@[j].y as int) is Some,
                forall|xx: int, yy: int| 0 <= xx < old(program).width && 0 <= yy < old(program).height
                    && grid_at(old(program).position_map@, xx, yy) is Some
                    ==> (#[trigger] grid_at(program.position_map@, xx, yy)) is Some,
                forall|xx: int, yy: int| 0 <= xx < old(program).width && 0 <= yy < old(program).height
                    && (#[trigger] grid_at(program.position_map@, xx, yy)) is Some
                    ==> grid_at(old(program).position_map@, xx, yy) is Some
                        || g.spec_block_positions(block_id as int).contains(Position { x: xx as usize, y: yy as usize }),
            decreases info.positions@.len() - k,
        {
            let bp = info.positions[k];
            proof {
                g.lemma_position_block_id(block_id as int, k as int);
                assert(routed_instruction(*g, block_id as int, dp, cc) == Instruction::Halt);
                assert(map_entry_ok(*g, bp, program.instructions@[idx as int]));
                assert(debug_entry_ok(*g, bp, program.rich_instructions@[idx as int].debug));
            }
            self.map_codel(program, bp, idx);
            k = k + 1;
        }
        proof {
            assert(grid_at(program.position_map@, info.positions@[kpos].x as int, info.positions@[kpos].y as int) is Some);
            assert(block_fully_mapped(*g, *program, block_id as int));
            lemma_full_maps_preserved(*g, *old(program), *program);
            assert forall|xx: int, yy: int| 0 <= xx < program.width && 0 <= yy < program.height
                && (#[trigger] grid_at(program.position_map@, xx, yy)) is Some
                && g.spec_color_at(Position { x: xx as usize, y: yy as usize }).is_chromatic()
                implies block_fully_mapped(*g, *program,
                    g.spec_block_id(Position { x: xx as usize, y: yy as usize })) by {
                let q = Position { x: xx as usize, y: yy as usize };
                assert(in_bounds(q, g.spec_width(), g.spec_height()));
                g.lemma_block_facts(q);
                if grid_at(old(program).position_map@, xx, yy) is Some {
                    assert(block_fully_mapped(*g, *old(program), g.spec_block_id(q)));
                } else {
                    let kq = choose|kq: int| 0 <= kq < g.spec_block_positions(block_id as int).len()
                        && g.spec_block_positions(block_id as int)[kq] == q;
                    g.lemma_position_block_id(block_id as int, kq);
                    assert(g.spec_block_id(q) == block_id as int);
                }
            }
        }
    }

    /// Maps every codel of a block to one instruction index and records the
    /// routed landing as its next position.
    #[verifier::loop_isolation(false)]
    fn map_block_transition(
        &self,
        program: &mut Program,
        g: &Grid,
        block_id: usize,
        idx: usize,
        final_pos: Position,
        pos: Position,
        Ghost(dp): Ghost<Direction>,
        Ghost(cc): Ghost<CodelChooser>,
    )
        requires
            g == self.spec_grid(),
            self.wf(),
            0 <= block_id < g.spec_block_count(),
            prog_ok(self.spec_grid(), *old(program), self.spec_mode(), self.spec_metadata()),
            idx < old(program).instructions@.len(),
            g.spec_block_positions(block_id as int).contains(pos),
            g.spec_block_color(block_id as int).is_chromatic(),
            in_bounds(final_pos, g.spec_width(), g.spec_height()),
            match route_spec(*g, block_id as int, dp, cc) {
                Some(t) => t.0 == final_pos,
                None => false,
            },
            old(program).instructions@[idx as int]
                == routed_instruction(*g, block_id as int, dp, cc),
            match old(program).rich_instructions@[idx as int].debug {
                None => true,
                Some(d) => debug_block_ok(*g, block_id as int, d),
            },
            blocks_mapped_ok(*g, *old(program)),
        ensures
            prog_ok(self.spec_grid(), *final(program), self.spec_mode(), self.spec_metadata()),
            final(program).instructions == old(program).instructions,
            final(program).rich_instructions == old(program).rich_instructions,
            grid_at(final(program).position_map@, pos.x as int, pos.y as int) is Some,
            forall|xx: int, yy: int| 0 <= xx < old(program).width && 0 <= yy < old(program).height
                && grid_at(old(program).position_map@, xx, yy) is Some
                ==> (#[trigger] grid_at(final(program).position_map@, xx, yy)) is Some,
            blocks_mapped_ok(*g, *final(program)),
            block_fully_mapped(*g, *final(program), block_id as int),
    {
        let info = match g.get_block_info(block_id) {
            Some(info) => info,
            None => {
                proof { assert(false); }
                return;
            }
        };
        let ghost kpos = choose|k: int| 0 <= k < info.positions@.len() && info.positions@[k] == pos;
        proof {
            assert forall|j: int| 0 <= j < info.positions@.len()
                implies in_bounds(#[trigger] info.positions@[j], g.spec_width(), g.spec_height()) by {
                g.lemma_position_block_id(block_id as int, j);
            }
        }
        let mut k: usize = 0;
        while k < info.positions.len()
            invariant
                k <= info.positions@.len(),
                prog_ok(self.spec_grid(), *program, self.spec_mode(), self.spec_metadata()),
                program.instructions == old(program).instructions,
                program.rich_instructions == old(program).rich_instructions,
                idx < program.instructions@.len(),
                forall|j: int| 0 <= j < info.positions@.len()
                    ==> in_bounds(#[trigger] info.positions@[j], g.spec_width(), g.spec_height()),
                forall|j: int| 0 <= j < k
                    ==> grid_at(program.position_map@, (#[trigger] info.positions@[j]).x as int, info.positions@[j].y as int) is Some,
                forall|xx: int, yy: int| 0 <= xx < old(program).width && 0 <= yy < old(program).height
                    && grid_at(old(program).position_map@, xx, yy) is Some
                    ==> (#[trigger] grid_at(program.position_map@, xx, yy)) is Some,
                forall|xx: int, yy: int| 0 <= xx < old(program).width && 0 <= yy < old(program).height
                    && (#[trigger] grid_at(program.position_map@, xx, yy)) is Some
                    ==> grid_at(old(program).position_map@, xx, yy) is Some
                        || g.spec_block_positions(block_id as int).contains(Position { x: xx as usize, y: yy as usize }),
            decreases info.positions@.len() - k,
        {
            let bp = info.positions[k];
            proof {
                g.lemma_position_block_id(block_id as int, k as int);
                assert(g.spec_color_at(bp) == g.spec_block_color(block_id as int));
                assert(g.spec_color_at(pos) == g.spec_block_color(block_id as int)) by {
                    let kp2 = choose|k2: int| 0 <= k2 < g.spec_block_positions(block_id as int).len()
                        && g.spec_block_positions(block_id as int)[k2] == pos;
                    g.lemma_position_block_id(block_id as int, kp2);
                }
                assert(map_entry_ok(*g, bp, program.instructions@[idx as int]));
                assert(debug_entry_ok(*g, bp, program.rich_instructions@[idx as int].debug));
            }
            self.map_codel(program, bp, idx);
            self.map_codel_next(program, bp, final_pos, Ghost(dp), Ghost(cc));
            k = k + 1;
        }
        proof {
            assert(grid_at(program.position_map@, info.positions@[kpos].x as int, info.positions@[kpos].y as int) is Some);
            assert(block_fully_mapped(*g, *program, block_id as int));
            lemma_full_maps_preserved(*g, *old(program), *program);
            assert forall|xx: int, yy: int| 0 <= xx < program.width && 0 <= yy < program.height
                && (#[trigger] grid_at(program.position_map@, xx, yy)) is Some
                && g.spec_color_at(Position { x: xx as usize, y: yy as usize }).is_chromatic()
                implies block_fully_mapped(*g, *program,
                    g.spec_block_id(Position { x: xx as usize, y: yy as usize })) by {
                let q = Position { x: xx as usize, y: yy as usize };
                assert(in_bounds(q, g.spec_width(), g.spec_height()));
                g.lemma_block_facts(q);
                if grid_at(old(program).position_map@, xx, yy) is Some {
                    assert(block_fully_mapped(*g, *old(program), g.spec_block_id(q)));
                } else {
                    let kq = choose|kq: int| 0 <= kq < g.spec_block_positions(block_id as int).len()
                        && g.spec_block_positions(block_id as int)[kq] == q;
                    g.lemma_position_block_id(block_id as int, kq);
                    assert(g.spec_block_id(q) == block_id as int);
                }
            }
        }
    }
}

} // verus!

