use vstd::prelude::*;
use crate::exits::{CodelChooser, Direction, Position};

verus! {

/// Metadata about a compiled program.
#[derive(Debug, Clone, Copy, PartialEq, Eq, Structural)]
pub struct ProgramMetadata {
    /// Codel size used during compilation, in pixels per codel.
    pub codel_size: usize,
    /// Original image width in pixels.
    pub image_width: usize,
    /// Original image height in pixels.
    pub image_height: usize,
    /// Logical grid width in codels.
    pub grid_width: usize,
    /// Logical grid height in codels.
    pub grid_height: usize,
}

impl Default for ProgramMetadata {
    fn default() -> (m: Self)
        ensures
            m.codel_size == 1,
            m.image_width == 0,
            m.image_height == 0,
            m.grid_width == 0,
            m.grid_height == 0,
    {
        ProgramMetadata {
            codel_size: 1,
            image_width: 0,
            image_height: 0,
            grid_width: 0,
            grid_height: 0,
        }
    }
}

/// Debug record attached to an instruction: where the transition started and
/// landed, the state on entry, and the colors involved.
#[derive(Debug, Clone)]
pub struct InstructionDebugInfo {
    /// Position of the source codel.
    pub from_pos: Position,
    /// Position of the destination codel.
    pub to_pos: Position,
    /// Direction pointer on entry.
    pub dp: Direction,
    /// Codel chooser on entry.
    pub cc: CodelChooser,
    /// Size of the source block (the Push argument).
    pub block_size: usize,
    /// Name of the source block's color.
    pub from_color: String,
    /// Name of the destination block's color.
    pub to_color: String,
}

impl Default for InstructionDebugInfo {
    fn default() -> (d: Self)
        ensures
            d.from_pos == (Position { x: 0, y: 0 }),
            d.to_pos == (Position { x: 0, y: 0 }),
            d.dp == Direction::Right,
            d.cc == CodelChooser::Left,
            d.block_size == 1,
            d.from_color@ == Seq::<char>::empty(),
            d.to_color@ == Seq::<char>::empty(),
    {
        InstructionDebugInfo {
            from_pos: Position { x: 0, y: 0 },
            to_pos: Position { x: 0, y: 0 },
            dp: Direction::Right,
            cc: CodelChooser::Left,
            block_size: 1,
            from_color: String::new(),
            to_color: String::new(),
        }
    }
}

/// One bytecode instruction.
#[derive(Debug, Clone, Copy, PartialEq, Eq, Structural)]
pub enum Instruction {
    /// Pushes the carried value (the source block's codel count).
    Push(i32),
    /// Removes the top of the stack.
    Pop,
    /// Adds the two topmost values.
    Add,
    /// Subtracts the top value from the second (second - first).
    Subtract,
    /// Multiplies the two topmost values.
    Multiply,
    /// Divides the second value by the first.
    Divide,
    /// Second value modulo the first, Euclidean.
    Mod,
    /// Logical negation: 0 becomes 1, anything else 0.
    Not,
    /// Pushes 1 when the second value is greater than the first, else 0.
    Greater,
    /// Pops n and rotates the direction pointer clockwise n times.
    Pointer,
    /// Pops n and toggles the codel chooser when n is odd.
    Switch,
    /// Duplicates the top of the stack.
    Duplicate,
    /// Pops times and depth and rolls the top depth values, times times.
    Roll,
    /// Reads a number from input.
    InNumber,
    /// Reads a character from input.
    InChar,
    /// Writes a number to output.
    OutNumber,
    /// Writes a character to output.
    OutChar,
    /// Does nothing (white slide, or no hue/lightness change).
    Nop,
    /// Halts the machine.
    Halt,
}

/// An instruction together with its optional debug record.
#[derive(Debug, Clone)]
pub struct RichInstruction {
    /// The operation itself.
    pub op: Instruction,
    /// Debug record; absent when compiled in release mode.
    pub debug: Option<InstructionDebugInfo>,
}

impl RichInstruction {
    /// An instruction carrying a debug record.
    pub fn new(op: Instruction, debug: InstructionDebugInfo) -> (r: Self)
        ensures
            r.op == op,
            r.debug == Some(debug),
    {
        RichInstruction { op, debug: Some(debug) }
    }

    /// An instruction without a debug record.
    pub fn simple(op: Instruction) -> (r: Self)
        ensures
            r.op == op,
            r.debug is None,
    {
        RichInstruction { op, debug: None }
    }
}

/// The entry of a row-major map of grid cells at (x, y).
pub open spec fn grid_at<T>(m: Seq<Vec<T>>, x: int, y: int) -> T {
    m[y]@[x]
}

/// A compiled program: bytecode, position maps and metadata.
#[derive(Debug, Clone)]
pub struct Program {
    /// Program metadata (codel size and dimensions).
    pub metadata: ProgramMetadata,
    /// Instructions with their debug records.
    pub rich_instructions: Vec<RichInstruction>,
    /// The bare instructions, parallel to rich_instructions.
    pub instructions: Vec<Instruction>,
    /// For each codel, the index of the instruction that executes there.
    pub position_map: Vec<Vec<Option<usize>>>,
    /// For each codel, where execution moves after its instruction.
    pub next_position: Vec<Vec<Option<(usize, usize)>>>,
    /// Grid width in codels.
    pub width: usize,
    /// Grid height in codels.
    pub height: usize,
}

impl Program {
    /// Both instruction lists run in parallel, the maps cover the grid
    /// rectangle, and every mapped index points at an instruction.
    pub open spec fn wf(self) -> bool {
        &&& self.instructions@.len() == self.rich_instructions@.len()
        &&& self.position_map@.len() == self.height
        &&& self.next_position@.len() == self.height
        &&& forall|y: int| 0 <= y < self.height ==> (#[trigger] self.position_map@[y])@.len() == self.width
        &&& forall|y: int| 0 <= y < self.height ==> (#[trigger] self.next_position@[y])@.len() == self.width
        &&& forall|y: int, x: int|
            0 <= y < self.height && 0 <= x < self.width
                && (#[trigger] self.position_map@[y]@[x]) is Some
                ==> self.position_map@[y]@[x]->Some_0 < self.instructions@.len()
    }

    /// The parallel lists agree on the bare instruction at every index.
    pub open spec fn rich_matches(self) -> bool {
        forall|i: int| 0 <= i < self.instructions@.len()
            ==> (#[trigger] self.rich_instructions@[i]).op == self.instructions@[i]
    }

    /// An empty program over a width x height codel grid.
    pub fn new(width: usize, height: usize) -> (p: Self)
        requires
            width * height <= usize::MAX,
        ensures
            p.wf(),
            p.rich_matches(),
            p.instructions@.len() == 0,
            p.width == width,
            p.height == height,
            p.metadata.codel_size == 1,
            p.metadata.image_width == width,
            p.metadata.image_height == height,
            p.metadata.grid_width == width,
            p.metadata.grid_height == height,
            forall|y: int, x: int| 0 <= y < height && 0 <= x < width
                ==> (#[trigger] p.position_map@[y]@[x]) is None,
            forall|y: int, x: int| 0 <= y < height && 0 <= x < width
                ==> (#[trigger] p.next_position@[y]@[x]) is None,
    {
        let metadata = ProgramMetadata {
            codel_size: 1,
            image_width: width,
            image_height: height,
            grid_width: width,
            grid_height: height,
        };
        Self::with_metadata(metadata)
    }

    /// An empty program whose dimensions come from explicit metadata.
    pub fn with_metadata(metadata: ProgramMetadata) -> (p: Self)
        ensures
            p.wf(),
            p.rich_matches(),
            p.instructions@.len() == 0,
            p.metadata == metadata,
            p.width == metadata.grid_width,
            p.height == metadata.grid_height,
            forall|y: int, x: int| 0 <= y < p.height && 0 <= x < p.width
                ==> (#[trigger] p.position_map@[y]@[x]) is None,
            forall|y: int, x: int| 0 <= y < p.height && 0 <= x < p.width
                ==> (#[trigger] p.next_position@[y]@[x]) is None,
    {
        let width = metadata.grid_width;
        let height = metadata.grid_height;
        let mut position_map: Vec<Vec<Option<usize>>> = Vec::new();
        let mut next_position: Vec<Vec<Option<(usize, usize)>>> = Vec::new();
        let mut y: usize = 0;
        while y < height
            invariant
                y <= height,
                position_map@.len() == y,
                next_position@.len() == y,
                forall|j: int| 0 <= j < y ==> (#[trigger] position_map@[j])@.len() == width,
                forall|j: int| 0 <= j < y ==> (#[trigger] next_position@[j])@.len() == width,
                forall|j: int, x: int| 0 <= j < y && 0 <= x < width
                    ==> (#[trigger] position_map@[j]@[x]) is None,
                forall|j: int, x: int| 0 <= j < y && 0 <= x < width
                    ==> (#[trigger] next_position@[j]@[x]) is None,
            decreases height - y,
        {
            let mut row_pm: Vec<Option<usize>> = Vec::new();
            let mut row_np: Vec<Option<(usize, usize)>> = Vec::new();
            let mut x: usize = 0;
            while x < width
                invariant
                    x <= width,
                    row_pm@.len() == x,
                    row_np@.len() == x,
                    forall|k: int| 0 <= k < x ==> (#[trigger] row_pm@[k]) is None,
                    forall|k: int| 0 <= k < x ==> (#[trigger] row_np@[k]) is None,
                decreases width - x,
            {
                row_pm.push(None);
                row_np.push(None);
                x = x + 1;
            }
            position_map.push(row_pm);
            next_position.push(row_np);
            y = y + 1;
        }
        Program {
            metadata,
            rich_instructions: Vec::new(),
            instructions: Vec::new(),
            position_map,
            next_position,
            width,
            height,
        }
    }

    /// Appends a bare instruction and returns its index.
    pub fn add_instruction(&mut self, instr: Instruction) -> (idx: usize)
        requires
            old(self).instructions@.len() < usize::MAX,
        ensures
            idx == old(self).instructions@.len(),
            final(self).instructions@ == old(self).instructions@.push(instr),
            final(self).rich_instructions@ == old(self).rich_instructions@.push(
                RichInstruction { op: instr, debug: None },
            ),
            final(self).position_map == old(self).position_map,
            final(self).next_position == old(self).next_position,
            final(self).metadata == old(self).metadata,
            final(self).width == old(self).width,
            final(self).height == old(self).height,
            old(self).wf() ==> final(self).wf(),
            (old(self).wf() && old(self).rich_matches()) ==> final(self).rich_matches(),
    {
        let idx = self.instructions.len();
        self.instructions.push(instr);
        self.rich_instructions.push(RichInstruction::simple(instr));
        idx
    }

    /// Appends an instruction with its debug record and returns its index.
    pub fn add_rich_instruction(&mut self, instr: Instruction, debug: InstructionDebugInfo) -> (idx: usize)
        requires
            old(self).instructions@.len() < usize::MAX,
        ensures
            idx == old(self).instructions@.len(),
            final(self).instructions@ == old(self).instructions@.push(instr),
            final(self).rich_instructions@.len() == old(self).rich_instructions@.len() + 1,
            final(self).rich_instructions@.last().op == instr,
            final(self).rich_instructions@.last().debug == Some(debug),
            forall|i: int| 0 <= i < old(self).rich_instructions@.len()
                ==> #[trigger] final(self).rich_instructions@[i] == old(self).rich_instructions@[i],
            final(self).position_map == old(self).position_map,
            final(self).next_position == old(self).next_position,
            final(self).metadata == old(self).metadata,
            final(self).width == old(self).width,
            final(self).height == old(self).height,
            old(self).wf() ==> final(self).wf(),
            (old(self).wf() && old(self).rich_matches()) ==> final(self).rich_matches(),
    {
        let idx = self.instructions.len();
        self.instructions.push(instr);
        self.rich_instructions.push(RichInstruction::new(instr, debug));
        idx
    }

    /// Maps a codel to an instruction index; out-of-range codels are ignored.
    pub fn map_position(&mut self, x: usize, y: usize, instr_idx: usize)
        requires
            old(self).wf(),
        ensures
            final(self).instructions == old(self).instructions,
            final(self).rich_instructions == old(self).rich_instructions,
            final(self).next_position == old(self).next_position,
            final(self).metadata == old(self).metadata,
            final(self).width == old(self).width,
            final(self).height == old(self).height,
            final(self).position_map@.len() == old(self).position_map@.len(),
            forall|j: int| 0 <= j < old(self).height
                ==> (#[trigger] final(self).position_map@[j])@.len()
                    == old(self).position_map@[j]@.len(),
            forall|xx: int, yy: int|
                0 <= yy < old(self).height && 0 <= xx < old(self).width
                    ==> #[trigger] grid_at(final(self).position_map@, xx, yy)
                        == (if xx == x && yy == y && x < old(self).width && y < old(self).height {
                            Some(instr_idx)
                        } else {
                            grid_at(old(self).position_map@, xx, yy)
                        }),
            instr_idx < old(self).instructions@.len() ==> final(self).wf(),
    {
        if y < self.height && x < self.width {
            self.position_map[y][x] = Some(instr_idx);
        }
    }

    /// Maps a codel to the position execution moves to next; out-of-range
    /// codels are ignored.
    pub fn map_next_position(&mut self, x: usize, y: usize, next_x: usize, next_y: usize)
        requires
            old(self).wf(),
        ensures
            final(self).instructions == old(self).instructions,
            final(self).rich_instructions == old(self).rich_instructions,
            final(self).position_map == old(self).position_map,
            final(self).metadata == old(self).metadata,
            final(self).width == old(self).width,
            final(self).height == old(self).height,
            final(self).wf(),
            final(self).next_position@.len() == old(self).next_position@.len(),
            forall|j: int| 0 <= j < old(self).height
                ==> (#[trigger] final(self).next_position@[j])@.len()
                    == old(self).next_position@[j]@.len(),
            forall|xx: int, yy: int|
                0 <= yy < old(self).height && 0 <= xx < old(self).width
                    ==> #[trigger] grid_at(final(self).next_position@, xx, yy)
                        == (if xx == x && yy == y && x < old(self).width && y < old(self).height {
                            Some((next_x, next_y))
                        } else {
                            grid_at(old(self).next_position@, xx, yy)
                        }),
    {
        if y < self.height && x < self.width {
            self.next_position[y][x] = Some((next_x, next_y));
        }
    }

    /// The recorded next position for a codel, or None when the codel is
    /// unmapped or out of range.
    pub fn get_next_position(&self, x: usize, y: usize) -> (r: Option<(usize, usize)>)
        requires
            self.wf(),
        ensures
            r == (if x < self.width && y < self.height {
                self.next_position@[y as int]@[x as int]
            } else {
                None
            }),
    {
        if y < self.height && x < self.width {
            self.next_position[y][x]
        } else {
            None
        }
    }

    /// The instruction mapped at a codel, or None.
    pub fn get_instruction_at(&self, x: usize, y: usize) -> (r: Option<&Instruction>)
        requires
            self.wf(),
        ensures
            r == (if x < self.width && y < self.height && self.position_map@[y as int]@[x as int] is Some {
                Some(&self.instructions@[self.position_map@[y as int]@[x as int]->Some_0 as int])
            } else {
                None::<&Instruction>
            }),
    {
        if y < self.height && x < self.width {
            match self.position_map[y][x] {
                Some(idx) => Some(&self.instructions[idx]),
                None => None,
            }
        } else {
            None
        }
    }

    /// The rich instruction mapped at a codel, or None.
    pub fn get_rich_instruction_at(&self, x: usize, y: usize) -> (r: Option<&RichInstruction>)
        requires
            self.wf(),
        ensures
            r == (if x < self.width && y < self.height && self.position_map@[y as int]@[x as int] is Some {
                Some(&self.rich_instructions@[self.position_map@[y as int]@[x as int]->Some_0 as int])
            } else {
                None::<&RichInstruction>
            }),
    {
        if y < self.height && x < self.width {
            match self.position_map[y][x] {
                Some(idx) => Some(&self.rich_instructions[idx]),
                None => None,
            }
        } else {
            None
        }
    }

    /// The instruction index mapped at a codel, or None.
    pub fn get_instruction_index_at(&self, x: usize, y: usize) -> (r: Option<usize>)
        requires
            self.wf(),
        ensures
            r == (if x < self.width && y < self.height {
                self.position_map@[y as int]@[x as int]
            } else {
                None
            }),
    {
        if y < self.height && x < self.width {
            self.position_map[y][x]
        } else {
            None
        }
    }

    /// The rich instruction at an index, or None when out of range.
    pub fn get_rich_instruction(&self, idx: usize) -> (r: Option<&RichInstruction>)
        ensures
            r == (if idx < self.rich_instructions@.len() {
                Some(&self.rich_instructions@[idx as int])
            } else {
                None::<&RichInstruction>
            }),
    {
        if idx < self.rich_instructions.len() {
            Some(&self.rich_instructions[idx])
        } else {
            None
        }
    }

    /// Number of instructions in the program.
    pub fn len(&self) -> (n: usize)
        ensures
            n == self.instructions@.len(),
    {
        self.instructions.len()
    }

    /// Whether the program holds no instruction.
    pub fn is_empty(&self) -> (b: bool)
        ensures
            b == (self.instructions@.len() == 0),
    {
        self.instructions.is_empty()
    }
}

} // verus!
