use vstd::prelude::*;
use crate::error::VmError;
use crate::exits::{CodelChooser, Direction, Position};
use crate::ops::PietColor;

verus! {

/// Identifies a block within a Grid.
pub type BlockId = usize;

/// Precomputed facts about one block: its codel count, color, and the set of
/// codels it covers (held as a duplicate-free vector).
#[derive(Debug, Clone)]
pub struct BlockInfo {
    pub size: usize,
    pub color: PietColor,
    pub positions: Vec<Position>,
}

/// Whether a position lies inside a w x h grid.
pub open spec fn in_bounds(p: Position, w: int, h: int) -> bool {
    p.x < w && p.y < h
}

/// Row-major cell index of a position.
pub open spec fn cell_index(p: Position, w: int) -> int {
    p.y * w + p.x
}

/// The color of the cell at a position.
pub open spec fn color_at(cells: Seq<PietColor>, w: int, p: Position) -> PietColor {
    cells[cell_index(p, w)]
}

/// Two in-bounds positions one step apart that carry the same color.
pub open spec fn adj_same(cells: Seq<PietColor>, w: int, h: int, p: Position, q: Position) -> bool {
    &&& in_bounds(p, w, h)
    &&& in_bounds(q, w, h)
    &&& exists|d: Direction| p.spec_step(d, w, h) == Some(q)
    &&& color_at(cells, w, p) == color_at(cells, w, q)
}

/// A set of positions closed under same-color adjacency.
pub open spec fn closed_region(cells: Seq<PietColor>, w: int, h: int, t: Set<Position>) -> bool {
    forall|p: Position, q: Position|
        t.contains(p) && #[trigger] adj_same(cells, w, h, p, q) ==> t.contains(q)
}

/// s is exactly the maximal 4-connected same-color region of p: it contains
/// p, holds only in-bounds codels of p's color, is closed under same-color
/// adjacency, and is contained in every such closed set holding p.
pub open spec fn is_color_region(
    cells: Seq<PietColor>, w: int, h: int, s: Set<Position>, p: Position,
) -> bool {
    &&& s.contains(p)
    &&& forall|q: Position| #[trigger] s.contains(q)
        ==> in_bounds(q, w, h) && color_at(cells, w, q) == color_at(cells, w, p)
    &&& closed_region(cells, w, h, s)
    &&& forall|t: Set<Position>| #[trigger] closed_region(cells, w, h, t) && t.contains(p)
        ==> s.subset_of(t)
}

/// Every entry after the first is adjacent (same color) to an earlier one.
pub open spec fn has_parent(cells: Seq<PietColor>, w: int, h: int, s: Seq<Position>, k: int) -> bool {
    exists|j: int| 0 <= j < k && adj_same(cells, w, h, s[j], s[k])
}

/// The sequence grows outward from its first entry: each later entry is
/// same-color adjacent to some earlier one.
pub open spec fn chain_connected(cells: Seq<PietColor>, w: int, h: int, s: Seq<Position>) -> bool {
    forall|k: int| 1 <= k < s.len() ==> #[trigger] has_parent(cells, w, h, s, k)
}

/// No value occurs twice in the sequence.
pub open spec fn distinct_seq<T>(s: Seq<T>) -> bool {
    forall|i: int, j: int| 0 <= i < j < s.len() ==> #[trigger] s[i] != #[trigger] s[j]
}

/// The shape every recorded block satisfies: nonempty, duplicate-free,
/// in bounds, single-colored, correctly back-referenced by the id map,
/// chain-connected from its seed, and closed under same-color adjacency.
pub open spec fn block_ok(
    cells: Seq<PietColor>, w: int, h: int, ids: Seq<usize>, info: BlockInfo, b: int,
) -> bool {
    let s = info.positions@;
    &&& s.len() >= 1
    &&& info.size == s.len()
    &&& distinct_seq(s)
    &&& forall|k: int| 0 <= k < s.len() ==> in_bounds(#[trigger] s[k], w, h)
        && color_at(cells, w, s[k]) == info.color
        && ids[cell_index(s[k], w)] == b
    &&& chain_connected(cells, w, h, s)
    &&& forall|k: int, q: Position| 0 <= k < s.len()
        && #[trigger] adj_same(cells, w, h, s[k], q) ==> s.contains(q)
}

/// The id map and the block table partition the grid into blocks.
pub open spec fn blocks_inv(
    cells: Seq<PietColor>, w: int, h: int, ids: Seq<usize>, blocks: Seq<BlockInfo>,
) -> bool {
    &&& ids.len() == cells.len()
    &&& cells.len() == w * h
    &&& forall|q: Position| in_bounds(q, w, h)
        ==> (#[trigger] ids[cell_index(q, w)]) < blocks.len()
            && blocks[ids[cell_index(q, w)] as int].positions@.contains(q)
    &&& forall|b: int| 0 <= b < blocks.len() ==> block_ok(cells, w, h, ids, #[trigger] blocks[b], b)
}

/// One attempted exit: a is at least as far along dp as b, with ties broken
/// by the codel chooser.
pub open spec fn beats(dp: Direction, cc: CodelChooser, a: Position, b: Position) -> bool {
    match dp {
        Direction::Right => a.x > b.x
            || (a.x == b.x && (if cc == CodelChooser::Left { a.y < b.y } else { a.y > b.y })),
        Direction::Down => a.y > b.y
            || (a.y == b.y && (if cc == CodelChooser::Left { a.x > b.x } else { a.x < b.x })),
        Direction::Left => a.x < b.x
            || (a.x == b.x && (if cc == CodelChooser::Left { a.y > b.y } else { a.y < b.y })),
        Direction::Up => a.y < b.y
            || (a.y == b.y && (if cc == CodelChooser::Left { a.x < b.x } else { a.x > b.x })),
    }
}

/// e is the exit codel of the positions for (dp, cc): a member that beats
/// every other member.
pub open spec fn is_exit_codel(
    positions: Seq<Position>, dp: Direction, cc: CodelChooser, e: Position,
) -> bool {
    &&& positions.contains(e)
    &&& forall|k: int| 0 <= k < positions.len()
        ==> #[trigger] positions[k] == e || beats(dp, cc, e, positions[k])
}

/// Whether an exit-table entry at flat index i carries what the table
/// promises: the entry is exactly one codel step, in the direction the index
/// encodes, from the block codel extremal for that direction and codel
/// chooser; the entry is None exactly when that step leaves the grid.
pub open spec fn exit_entry_ok(
    cells: Seq<PietColor>, w: int, h: int, blocks: Seq<BlockInfo>, i: int, entry: Option<Position>,
) -> bool {
    let b = i / 8;
    let di = (i % 8) / 2;
    let ci = i % 2;
    0 <= b < blocks.len() ==> exists|e: Position|
        #[trigger] is_exit_codel(blocks[b].positions@, Direction::from_index(di), CodelChooser::from_index(ci), e)
        && entry == e.spec_step(Direction::from_index(di), w, h)
}

/// What holds after the fill has tried one direction from codel p: a
/// same-color step that way leads into the gathered set or to a codel that
/// was assigned before the fill began.
pub open spec fn dir_tried(
    cells: Seq<PietColor>, w: int, h: int, ids0: Seq<usize>, ps: Seq<Position>,
    p: Position, d: Direction, col: PietColor,
) -> bool {
    match p.spec_step(d, w, h) {
        Some(q) => color_at(cells, w, q) == col
            ==> ps.contains(q) || ids0[cell_index(q, w)] != usize::MAX,
        None => true,
    }
}


/// The whole state a flood fill maintains: the id map extends the starting
/// map only on the gathered codels, which form a distinct, chain-connected,
/// single-colored set seeded at seed and marked new_id.
pub open spec fn fill_state_ok(
    cells: Seq<PietColor>, w: int, h: int, ids0: Seq<usize>, ids: Seq<usize>,
    ps: Seq<Position>, seed: Position, col: PietColor, new_id: usize,
) -> bool {
    &&& ids.len() == ids0.len()
    &&& ids0.len() == cells.len()
    &&& cells.len() == w * h
    &&& in_bounds(seed, w, h)
    &&& col == color_at(cells, w, seed)
    &&& new_id != usize::MAX
    &&& forall|i: int| 0 <= i < ids0.len()
        ==> #[trigger] ids0[i] == usize::MAX || ids0[i] != new_id
    &&& ps.len() >= 1
    &&& ps[0] == seed
    &&& distinct_seq(ps)
    &&& chain_connected(cells, w, h, ps)
    &&& forall|k: int| 0 <= k < ps.len() ==> in_bounds(#[trigger] ps[k], w, h)
        && color_at(cells, w, ps[k]) == col
        && ids[cell_index(ps[k], w)] == new_id
        && ids0[cell_index(ps[k], w)] == usize::MAX
    &&& forall|q: Position| in_bounds(q, w, h)
        ==> (((#[trigger] ids[cell_index(q, w)]) == new_id) <==> ps.contains(q))
    &&& forall|i: int| 0 <= i < ids0.len() && ids0[i] != usize::MAX
        ==> #[trigger] ids[i] == ids0[i]
    &&& forall|i: int| 0 <= i < ids0.len()
        ==> #[trigger] ids[i] == ids0[i] || ids[i] == new_id
}

/// The cell index of an in-bounds position stays within the cell array.
proof fn lemma_cell_index_bound(p: Position, w: int, h: int, len: int)
    requires
        in_bounds(p, w, h),
        len == w * h,
    ensures
        0 <= cell_index(p, w) < len,
{
    assert(p.y * w + p.x < w * h) by (nonlinear_arith)
        requires 0 <= p.x < w && 0 <= p.y < h;
}

/// Distinct in-bounds positions have distinct cell indices.
proof fn lemma_cell_index_injective(w: int, h: int, p: Position, q: Position)
    requires
        in_bounds(p, w, h),
        in_bounds(q, w, h),
        cell_index(p, w) == cell_index(q, w),
    ensures
        p == q,
{
    assert(p.x == q.x && p.y == q.y) by (nonlinear_arith)
        requires
            0 <= p.x < w && 0 <= q.x < w && 0 <= p.y && 0 <= q.y
            && p.y * w + p.x == q.y * w + q.x;
}

/// One step from an in-bounds position lands in bounds.
proof fn lemma_step_in_bounds(p: Position, d: Direction, w: int, h: int, q: Position)
    requires
        in_bounds(p, w, h),
        p.spec_step(d, w, h) == Some(q),
    ensures
        in_bounds(q, w, h),
{
    match d {
        Direction::Right => {}
        Direction::Down => {}
        Direction::Left => {}
        Direction::Up => {}
    }
}

/// A direction's clockwise order maps back to the direction.
pub proof fn lemma_dir_roundtrip(d: Direction)
    ensures
        Direction::from_index(d.index()) == d,
{
    match d {
        Direction::Right => {}
        Direction::Down => {}
        Direction::Left => {}
        Direction::Up => {}
    }
}

proof fn lemma_prefix_contains<T>(s1: Seq<T>, s2: Seq<T>, x: T)
    requires
        s1.is_prefix_of(s2),
        s1.contains(x),
    ensures
        s2.contains(x),
{
    let i = choose|i: int| 0 <= i < s1.len() && s1[i] == x;
    assert(s2[i] == x);
}

proof fn lemma_prefix_transitive<T>(s1: Seq<T>, s2: Seq<T>, s3: Seq<T>)
    requires
        s1.is_prefix_of(s2),
        s2.is_prefix_of(s3),
    ensures
        s1.is_prefix_of(s3),
{
    assert(s1 =~= s3.subrange(0, s1.len() as int));
}

/// A direction once tried stays tried as the gathered set grows.
proof fn lemma_dir_tried_monotone(
    cells: Seq<PietColor>, w: int, h: int, ids0: Seq<usize>,
    ps1: Seq<Position>, ps2: Seq<Position>, p: Position, d: Direction, col: PietColor,
)
    requires
        dir_tried(cells, w, h, ids0, ps1, p, d, col),
        ps1.is_prefix_of(ps2),
    ensures
        dir_tried(cells, w, h, ids0, ps2, p, d, col),
{
    match p.spec_step(d, w, h) {
        Some(q) => {
            if color_at(cells, w, q) == col && ps1.contains(q) {
                lemma_prefix_contains(ps1, ps2, q);
            }
        }
        None => {}
    }
}

/// How many entries of the sequence still carry the unassigned marker.
pub open spec fn count_unmarked(s: Seq<usize>) -> nat
    decreases s.len(),
{
    if s.len() == 0 {
        0
    } else {
        count_unmarked(s.drop_last()) + (if s.last() == usize::MAX { 1nat } else { 0nat })
    }
}

proof fn lemma_count_unmarked_update(s: Seq<usize>, i: int, v: usize)
    requires
        0 <= i < s.len(),
        s[i] == usize::MAX,
        v != usize::MAX,
    ensures
        count_unmarked(s.update(i, v)) < count_unmarked(s),
    decreases s.len(),
{
    let su = s.update(i, v);
    if i == s.len() - 1 {
        assert(su.drop_last() =~= s.drop_last());
        assert(su.last() == v);
        assert(s.last() == usize::MAX);
    } else {
        assert(su.drop_last() =~= s.drop_last().update(i, v));
        lemma_count_unmarked_update(s.drop_last(), i, v);
        assert(su.last() == s.last());
    }
}

/// Same-color adjacency runs both ways.
proof fn lemma_adj_symmetric(cells: Seq<PietColor>, w: int, h: int, p: Position, q: Position)
    requires
        adj_same(cells, w, h, p, q),
        w <= usize::MAX,
        h <= usize::MAX,
    ensures
        adj_same(cells, w, h, q, p),
{
    let d = choose|d: Direction| p.spec_step(d, w, h) == Some(q);
    match d {
        Direction::Right => {
            assert(q.spec_step(Direction::Left, w, h) == Some(p));
        }
        Direction::Down => {
            assert(q.spec_step(Direction::Up, w, h) == Some(p));
        }
        Direction::Left => {
            assert(q.spec_step(Direction::Right, w, h) == Some(p));
        }
        Direction::Up => {
            assert(q.spec_step(Direction::Down, w, h) == Some(p));
        }
    }
}

/// Walking a chain backward: any closed set containing some chain member
/// contains the chain's first entry.
proof fn lemma_chain_to_seed(
    cells: Seq<PietColor>, w: int, h: int, s: Seq<Position>, t: Set<Position>, k: int,
)
    requires
        w <= usize::MAX,
        h <= usize::MAX,
        chain_connected(cells, w, h, s),
        closed_region(cells, w, h, t),
        0 <= k < s.len(),
        t.contains(s[k]),
    ensures
        t.contains(s[0]),
    decreases k,
{
    if k > 0 {
        assert(has_parent(cells, w, h, s, k));
        let j = choose|j: int| 0 <= j < k && adj_same(cells, w, h, s[j], s[k]);
        lemma_adj_symmetric(cells, w, h, s[j], s[k]);
        assert(t.contains(s[j]));
        lemma_chain_to_seed(cells, w, h, s, t, j);
    }
}

/// Walking a chain forward: any closed set containing the chain's first
/// entry contains every chain member.
proof fn lemma_chain_from_seed(
    cells: Seq<PietColor>, w: int, h: int, s: Seq<Position>, t: Set<Position>, k: int,
)
    requires
        chain_connected(cells, w, h, s),
        closed_region(cells, w, h, t),
        s.len() > 0,
        t.contains(s[0]),
        0 <= k < s.len(),
    ensures
        t.contains(s[k]),
    decreases k,
{
    if k > 0 {
        assert(has_parent(cells, w, h, s, k));
        let j = choose|j: int| 0 <= j < k && adj_same(cells, w, h, s[j], s[k]);
        lemma_chain_from_seed(cells, w, h, s, t, j);
        assert(t.contains(s[k]));
    }
}

/// A Piet color grid with its precomputed blocks and exit table.
#[derive(Debug, Clone)]
pub struct Grid {
    width: usize,
    height: usize,
    cells: Vec<PietColor>,
    block_ids: Vec<usize>,
    blocks: Vec<BlockInfo>,
    exits: Vec<Option<Position>>,
}

impl Grid {
    pub closed spec fn spec_width(self) -> int {
        self.width as int
    }

    pub closed spec fn spec_height(self) -> int {
        self.height as int
    }

    pub closed spec fn spec_cells(self) -> Seq<PietColor> {
        self.cells@
    }

    /// The color at an in-bounds position.
    pub open spec fn spec_color_at(self, p: Position) -> PietColor {
        color_at(self.spec_cells(), self.spec_width(), p)
    }

    pub closed spec fn spec_block_id(self, p: Position) -> int {
        self.block_ids@[cell_index(p, self.spec_width())] as int
    }

    pub closed spec fn spec_block_count(self) -> int {
        self.blocks@.len() as int
    }

    pub closed spec fn spec_block_positions(self, b: int) -> Seq<Position> {
        self.blocks@[b].positions@
    }

    pub closed spec fn spec_block_color(self, b: int) -> PietColor {
        self.blocks@[b].color
    }

    pub closed spec fn spec_block_size(self, b: int) -> int {
        self.blocks@[b].size as int
    }

    /// The stored exit neighbor for (block, dp, cc).
    pub closed spec fn spec_exit(self, b: int, dp: Direction, cc: CodelChooser) -> Option<Position> {
        self.exits@[b * 8 + dp.index() * 2 + cc.index()]
    }

    /// The grid's structural invariant: the cell array matches the declared
    /// dimensions, the id map and block table partition the grid into
    /// maximal same-color blocks, and every exit-table entry is one codel
    /// step from its block's extremal codel for the encoded direction and
    /// codel chooser (None exactly when that step leaves the grid).
    pub closed spec fn inv(self) -> bool {
        &&& self.cells@.len() == self.spec_width() * self.spec_height()
        &&& self.block_ids@.len() == self.cells@.len()
        &&& blocks_inv(self.cells@, self.spec_width(), self.spec_height(), self.block_ids@, self.blocks@)
        &&& self.exits@.len() == self.blocks@.len() * 8
        &&& forall|i: int| 0 <= i < self.exits@.len()
            ==> exit_entry_ok(self.cells@, self.spec_width(), self.spec_height(), self.blocks@, i, #[trigger] self.exits@[i])
    }

    /// Facts every in-bounds position enjoys under the invariant: its block
    /// id is a valid index, the block contains it, and the block's color is
    /// the position's color.
    pub proof fn lemma_block_facts(self, p: Position)
        requires
            self.inv(),
            in_bounds(p, self.spec_width(), self.spec_height()),
        ensures
            0 <= self.spec_block_id(p) < self.spec_block_count(),
            self.spec_block_positions(self.spec_block_id(p)).contains(p),
            self.spec_block_color(self.spec_block_id(p)) == self.spec_color_at(p),
            self.spec_block_size(self.spec_block_id(p)) == self.spec_block_positions(self.spec_block_id(p)).len(),
            self.spec_block_positions(self.spec_block_id(p)).len() >= 1,
    {
        let w = self.spec_width();
        let h = self.spec_height();
        let b = self.spec_block_id(p);
        assert(self.block_ids@[cell_index(p, w)] < self.blocks@.len()
            && self.blocks@[b].positions@.contains(p));
        let s = self.blocks@[b].positions@;
        let k = choose|k: int| 0 <= k < s.len() && s[k] == p;
        assert(color_at(self.cells@, w, s[k]) == self.blocks@[b].color);
    }

    /// Every block of the grid is exactly the maximal 4-connected same-color
    /// region of each of its codels.
    pub proof fn lemma_block_is_region(self, p: Position)
        requires
            self.inv(),
            in_bounds(p, self.spec_width(), self.spec_height()),
        ensures
            is_color_region(
                self.spec_cells(),
                self.spec_width(),
                self.spec_height(),
                self.spec_block_positions(self.spec_block_id(p)).to_set(),
                p,
            ),
    {
        let cells = self.spec_cells();
        let w = self.spec_width();
        let h = self.spec_height();
        self.lemma_block_facts(p);
        let b = self.spec_block_id(p);
        let s = self.spec_block_positions(b);
        let region = s.to_set();
        // Membership, bounds and colors.
        assert(region.contains(p));
        assert forall|q: Position| #[trigger] region.contains(q)
            implies in_bounds(q, w, h) && color_at(cells, w, q) == color_at(cells, w, p) by {
            let k = choose|k: int| 0 <= k < s.len() && s[k] == q;
            let kp = choose|k: int| 0 <= k < s.len() && s[k] == p;
            assert(color_at(cells, w, s[k]) == self.blocks@[b].color);
            assert(color_at(cells, w, s[kp]) == self.blocks@[b].color);
        }
        // Closure.
        assert forall|a: Position, q: Position|
            region.contains(a) && #[trigger] adj_same(cells, w, h, a, q)
            implies region.contains(q) by {
            let k = choose|k: int| 0 <= k < s.len() && s[k] == a;
            assert(adj_same(cells, w, h, s[k], q));
            assert(s.contains(q));
        }
        // Minimality: the block sits inside every closed set containing p.
        assert forall|t: Set<Position>|
            #[trigger] closed_region(cells, w, h, t) && t.contains(p)
            implies region.subset_of(t) by {
            let kp = choose|k: int| 0 <= k < s.len() && s[k] == p;
            lemma_chain_to_seed(cells, w, h, s, t, kp);
            assert forall|q: Position| region.contains(q) implies t.contains(q) by {
                let k = choose|k: int| 0 <= k < s.len() && s[k] == q;
                lemma_chain_from_seed(cells, w, h, s, t, k);
            }
        }
    }

    /// Every exit-table entry is one codel step, in its direction, from the
    /// block codel extremal for that direction and codel chooser; the entry
    /// is None exactly when that step leaves the grid.
    pub proof fn lemma_exit_extremal(self, b: int, dp: Direction, cc: CodelChooser)
        requires
            self.inv(),
            0 <= b < self.spec_block_count(),
        ensures
            exists|e: Position|
                #[trigger] is_exit_codel(self.spec_block_positions(b), dp, cc, e)
                && self.spec_exit(b, dp, cc)
                    == e.spec_step(dp, self.spec_width(), self.spec_height()),
    {
        let w = self.spec_width();
        let h = self.spec_height();
        let di = dp.index();
        let ci = cc.index();
        let i = b * 8 + di * 2 + ci;
        assert(0 <= di < 4 && 0 <= ci < 2);
        assert(0 <= i < self.exits@.len());
        assert(exit_entry_ok(self.cells@, w, h, self.blocks@, i, self.exits@[i]));
        assert(i / 8 == b && (i % 8) / 2 == di && i % 2 == ci) by (nonlinear_arith)
            requires i == b * 8 + di * 2 + ci && 0 <= di < 4 && 0 <= ci < 2 && b >= 0;
        lemma_dir_roundtrip(dp);
        assert(CodelChooser::from_index(cc.index()) == cc) by {
            match cc {
                CodelChooser::Left => {}
                CodelChooser::Right => {}
            }
        }
        let e = choose|e: Position|
            #[trigger] is_exit_codel(self.blocks@[b].positions@, Direction::from_index(di), CodelChooser::from_index(ci), e)
            && self.exits@[i] == e.spec_step(Direction::from_index(di), w, h);
        assert(is_exit_codel(self.spec_block_positions(b), dp, cc, e)
            && self.spec_exit(b, dp, cc) == e.spec_step(dp, w, h));
    }

    /// Builds a grid from an explicit vector of colors laid out row-major.
    /// Fails with OutOfBounds when the vector's length is not width * height.
    pub fn new(width: usize, height: usize, cells: Vec<PietColor>) -> (r: Result<Self, VmError>)
        ensures
            match r {
                Ok(g) => {
                    &&& cells@.len() == width * height
                    &&& g.inv()
                    &&& g.spec_width() == width
                    &&& g.spec_height() == height
                    &&& g.spec_cells() == cells@
                },
                Err(e) => e == VmError::OutOfBounds && cells@.len() != width * height,
            },
    {
        let n = cells.len();
        let total = match width.checked_mul(height) {
            Some(t) => t,
            None => {
                proof {
                    assert(cells@.len() <= usize::MAX);
                }
                return Err(VmError::OutOfBounds);
            }
        };
        if n != total {
            return Err(VmError::OutOfBounds);
        }
        let (block_ids, blocks) = Self::build_blocks(&cells, width, height);
        let exits = Self::build_exits(&cells, width, height, &blocks);
        Ok(Grid { width, height, cells, block_ids, blocks, exits })
    }

    /// Flood-fills the same-color block seeded at seed, marking its codels
    /// with new_id in the id map and returning them in discovery order.
    #[verifier::loop_isolation(false)]
    fn flood_fill(
        cells: &Vec<PietColor>,
        width: usize,
        height: usize,
        block_ids: &mut Vec<usize>,
        seed: Position,
        new_id: usize,
    ) -> (positions: Vec<Position>)
        requires
            cells@.len() == width * height,
            old(block_ids)@.len() == cells@.len(),
            in_bounds(seed, width as int, height as int),
            old(block_ids)@[cell_index(seed, width as int)] == usize::MAX,
            new_id != usize::MAX,
            forall|i: int| 0 <= i < old(block_ids)@.len()
                ==> #[trigger] old(block_ids)@[i] == usize::MAX || old(block_ids)@[i] != new_id,
        ensures
            fill_state_ok(
                cells@, width as int, height as int, old(block_ids)@,
                final(block_ids)@, positions@, seed, color_at(cells@, width as int, seed), new_id,
            ),
            forall|k: int, q: Position| 0 <= k < positions@.len()
                && #[trigger] adj_same(cells@, width as int, height as int, positions@[k], q)
                ==> positions@.contains(q)
                    || old(block_ids)@[cell_index(q, width as int)] != usize::MAX,
    {
        let ghost w = width as int;
        let ghost h = height as int;
        let ghost ids0 = old(block_ids)@;
        let n = cells.len();
        let si = Self::cell_pos_index(seed, width, height);
        let seed_color = cells[si];
        let mut positions: Vec<Position> = Vec::new();
        block_ids[si] = new_id;
        positions.push(seed);
        proof {
            assert forall|q: Position| in_bounds(q, w, h)
                implies ((#[trigger] block_ids@[cell_index(q, w)]) == new_id
                    <==> positions@.contains(q)) by {
                lemma_cell_index_bound(q, w, h, cells@.len() as int);
                if block_ids@[cell_index(q, w)] == new_id {
                    if q != seed {
                        lemma_cell_index_injective(w, h, q, seed);
                        assert(ids0[cell_index(q, w)] != usize::MAX || ids0[cell_index(q, w)] == usize::MAX);
                        assert(block_ids@[cell_index(q, w)] == ids0[cell_index(q, w)]);
                        assert(false);
                    }
                    assert(positions@[0] == q);
                }
                if positions@.contains(q) {
                    assert(q == seed);
                }
            }
        }
        let mut next: usize = 0;
        while next < positions.len()
            invariant
                fill_state_ok(cells@, w, h, ids0, block_ids@, positions@, seed, seed_color, new_id),
                next <= positions@.len(),
                forall|k: int, q: Position| 0 <= k < next
                    && #[trigger] adj_same(cells@, w, h, positions@[k], q)
                    ==> positions@.contains(q) || ids0[cell_index(q, w)] != usize::MAX,
            decreases count_unmarked(block_ids@), positions@.len() - next,
        {
            let p = positions[next];
            proof {
                assert(positions@[next as int] == p);
                assert(positions@.contains(p));
            }
            let ghost ps0 = positions@;
            Self::try_neighbor(cells, width, height, block_ids, &mut positions, p,
                Direction::Right, seed_color, new_id, Ghost(ids0), Ghost(seed));
            let ghost ps1 = positions@;
            Self::try_neighbor(cells, width, height, block_ids, &mut positions, p,
                Direction::Down, seed_color, new_id, Ghost(ids0), Ghost(seed));
            let ghost ps2 = positions@;
            Self::try_neighbor(cells, width, height, block_ids, &mut positions, p,
                Direction::Left, seed_color, new_id, Ghost(ids0), Ghost(seed));
            let ghost ps3 = positions@;
            Self::try_neighbor(cells, width, height, block_ids, &mut positions, p,
                Direction::Up, seed_color, new_id, Ghost(ids0), Ghost(seed));
            let ghost ps4 = positions@;
            proof {
                lemma_prefix_transitive(ps0, ps1, ps4);
                lemma_prefix_transitive(ps1, ps2, ps4);
                lemma_prefix_transitive(ps2, ps3, ps4);
                lemma_dir_tried_monotone(cells@, w, h, ids0, ps1, ps4, p, Direction::Right, seed_color);
                lemma_dir_tried_monotone(cells@, w, h, ids0, ps2, ps4, p, Direction::Down, seed_color);
                lemma_dir_tried_monotone(cells@, w, h, ids0, ps3, ps4, p, Direction::Left, seed_color);
                assert forall|k: int, q: Position| 0 <= k < next + 1
                    && #[trigger] adj_same(cells@, w, h, ps4[k], q)
                    implies ps4.contains(q) || ids0[cell_index(q, w)] != usize::MAX by {
                    if k < next {
                        assert(ps4[k] == ps0[k]);
                        assert(adj_same(cells@, w, h, ps0[k], q));
                        if ps0.contains(q) {
                            lemma_prefix_contains(ps0, ps4, q);
                        }
                    } else {
                        assert(ps4[k] == ps0[next as int]);
                        assert(ps4[k] == p);
                        let d = choose|d: Direction| p.spec_step(d, w, h) == Some(q);
                        assert(color_at(cells@, w, q) == color_at(cells@, w, p));
                        assert(color_at(cells@, w, p) == seed_color);
                        match d {
                            Direction::Right => {
                                assert(dir_tried(cells@, w, h, ids0, ps4, p, Direction::Right, seed_color));
                            }
                            Direction::Down => {
                                assert(dir_tried(cells@, w, h, ids0, ps4, p, Direction::Down, seed_color));
                            }
                            Direction::Left => {
                                assert(dir_tried(cells@, w, h, ids0, ps4, p, Direction::Left, seed_color));
                            }
                            Direction::Up => {
                                assert(dir_tried(cells@, w, h, ids0, ps4, p, Direction::Up, seed_color));
                            }
                        }
                    }
                }
            }
            next = next + 1;
        }
        positions
    }

    /// Inspects one neighbor of p during a flood fill; an unassigned codel
    /// of the block's color is marked and gathered.
    fn try_neighbor(
        cells: &Vec<PietColor>,
        width: usize,
        height: usize,
        block_ids: &mut Vec<usize>,
        positions: &mut Vec<Position>,
        p: Position,
        dir: Direction,
        seed_color: PietColor,
        new_id: usize,
        Ghost(ids0): Ghost<Seq<usize>>,
        Ghost(seed): Ghost<Position>,
    )
        requires
            fill_state_ok(
                cells@, width as int, height as int, ids0,
                old(block_ids)@, old(positions)@, seed, seed_color, new_id,
            ),
            old(positions)@.contains(p),
        ensures
            fill_state_ok(
                cells@, width as int, height as int, ids0,
                final(block_ids)@, final(positions)@, seed, seed_color, new_id,
            ),
            old(positions)@.is_prefix_of(final(positions)@),
            dir_tried(cells@, width as int, height as int, ids0, final(positions)@, p, dir, seed_color),
            (final(positions)@ == old(positions)@ && final(block_ids)@ == old(block_ids)@)
                || (final(positions)@.len() == old(positions)@.len() + 1
                    && count_unmarked(final(block_ids)@) < count_unmarked(old(block_ids)@)),
    {
        let ghost w = width as int;
        let ghost h = height as int;
        let n = cells.len();
        proof {
            let kp0 = choose|k: int| 0 <= k < old(positions)@.len() && old(positions)@[k] == p;
            assert(in_bounds(old(positions)@[kp0], w, h));
        }
        match p.step(dir, width, height) {
            Some(q) => {
                proof {
                    lemma_step_in_bounds(p, dir, w, h, q);
                }
                let qi = Self::cell_pos_index(q, width, height);
                if block_ids[qi] == usize::MAX && Self::color_eq(cells[qi], seed_color) {
                    let ghost kp = choose|k: int| 0 <= k < old(positions)@.len()
                        && old(positions)@[k] == p;
                    block_ids[qi] = new_id;
                    proof {
                        lemma_count_unmarked_update(old(block_ids)@, cell_index(q, w), new_id);
                    }
                    positions.push(q);
                    proof {
                        let ps = positions@;
                        let kq = ps.len() - 1;
                        assert(ps[kq] == q);
                        assert(adj_same(cells@, w, h, p, q)) by {
                            assert(p.spec_step(dir, w, h) == Some(q));
                            assert(color_at(cells@, w, p) == seed_color);
                        }
                        assert(chain_connected(cells@, w, h, ps)) by {
                            assert(has_parent(cells@, w, h, ps, kq)) by {
                                assert(ps[kp] == p);
                                assert(0 <= kp < kq && adj_same(cells@, w, h, ps[kp], ps[kq]));
                            }
                            assert forall|k: int| 1 <= k < ps.len()
                                implies #[trigger] has_parent(cells@, w, h, ps, k) by {
                                if k < kq {
                                    assert(has_parent(cells@, w, h, old(positions)@, k));
                                    let j = choose|j: int| 0 <= j < k
                                        && adj_same(cells@, w, h, old(positions)@[j], old(positions)@[k]);
                                    assert(adj_same(cells@, w, h, ps[j], ps[k]));
                                }
                            }
                        }
                        assert(distinct_seq(ps)) by {
                            assert forall|i: int, j: int| 0 <= i < j < ps.len()
                                implies #[trigger] ps[i] != #[trigger] ps[j] by {
                                if j == kq {
                                    // q was unassigned, gathered codels are assigned
                                    assert(ps[i] == old(positions)@[i]);
                                    assert(old(block_ids)@[cell_index(old(positions)@[i], w)] == new_id);
                                    if ps[i] == q {
                                        assert(old(block_ids)@[cell_index(q, w)] == usize::MAX);
                                        assert(false);
                                    }
                                } else {
                                    assert(ps[i] == old(positions)@[i]);
                                    assert(ps[j] == old(positions)@[j]);
                                }
                            }
                        }
                        assert forall|r: Position| in_bounds(r, w, h)
                            implies ((#[trigger] block_ids@[cell_index(r, w)]) == new_id
                                <==> ps.contains(r)) by {
                            lemma_cell_index_bound(r, w, h, cells@.len() as int);
                            if r == q {
                                assert(ps[kq] == r);
                            } else {
                                if cell_index(r, w) == cell_index(q, w) {
                                    lemma_cell_index_injective(w, h, r, q);
                                }
                                assert(block_ids@[cell_index(r, w)]
                                    == old(block_ids)@[cell_index(r, w)]);
                                if ps.contains(r) {
                                    let kr = choose|kr: int| 0 <= kr < ps.len() && ps[kr] == r;
                                    assert(kr != kq);
                                    assert(old(positions)@[kr] == r);
                                    assert(old(positions)@.contains(r));
                                }
                                if old(positions)@.contains(r) {
                                    let kr = choose|kr: int| 0 <= kr < old(positions)@.len()
                                        && old(positions)@[kr] == r;
                                    assert(ps[kr] == r);
                                    assert(ps.contains(r));
                                }
                            }
                        }
                        assert(old(positions)@.is_prefix_of(ps));
                        assert(dir_tried(cells@, w, h, ids0, ps, p, dir, seed_color)) by {
                            assert(ps.contains(q));
                        }
                    }
                } else {
                    proof {
                        assert(dir_tried(cells@, w, h, ids0, positions@, p, dir, seed_color)) by {
                            if color_at(cells@, w, q) == seed_color {
                                // q is already assigned: to this block or earlier
                                if block_ids@[cell_index(q, w)] == new_id {
                                    assert(positions@.contains(q));
                                } else {
                                    assert(block_ids@[cell_index(q, w)] != usize::MAX);
                                    assert(ids0[cell_index(q, w)] != usize::MAX);
                                }
                            }
                        }
                        assert(positions@.is_prefix_of(positions@));
                    }
                }
            }
            None => {
                proof {
                    assert(positions@.is_prefix_of(positions@));
                }
            }
        }
    }

    /// The row-major cell index of an in-bounds position, shown to stay
    /// within the cell array.
    fn cell_pos_index(p: Position, width: usize, height: usize) -> (i: usize)
        requires
            in_bounds(p, width as int, height as int),
            width * height <= usize::MAX,
        ensures
            i == cell_index(p, width as int),
            i < width * height,
    {
        proof {
            assert(p.y * width + p.x < width * height) by (nonlinear_arith)
                requires p.x < width && p.y < height;
        }
        p.y * width + p.x
    }

    /// Compares two palette colors.
    fn color_eq(a: PietColor, b: PietColor) -> (r: bool)
        ensures
            r == (a == b),
    {
        a == b
    }

    /// Scans the grid row-major and flood-fills a fresh block at every codel
    /// not yet assigned to one.
    #[verifier::loop_isolation(false)]
    fn build_blocks(cells: &Vec<PietColor>, width: usize, height: usize) -> (r: (Vec<usize>, Vec<BlockInfo>))
        requires
            cells@.len() == width * height,
        ensures
            blocks_inv(cells@, width as int, height as int, r.0@, r.1@),
    {
        let ghost w = width as int;
        let ghost h = height as int;
        let n = cells.len();
        proof {
            assert(width * height <= usize::MAX);
        }
        let mut block_ids: Vec<usize> = Vec::new();
        let mut i: usize = 0;
        while i < cells.len()
            invariant
                block_ids@.len() == i,
                i <= cells@.len(),
                forall|j: int| 0 <= j < i ==> #[trigger] block_ids@[j] == usize::MAX,
            decreases cells@.len() - i,
        {
            block_ids.push(usize::MAX);
            i = i + 1;
        }
        proof {
            assert forall|q: Position| in_bounds(q, w, h)
                implies (#[trigger] block_ids@[cell_index(q, w)]) == usize::MAX by {
                lemma_cell_index_bound(q, w, h, cells@.len() as int);
            }
        }
        let mut blocks: Vec<BlockInfo> = Vec::new();
        let mut y: usize = 0;
        while y < height
            invariant
                cells@.len() == width * height,
                block_ids@.len() == cells@.len(),
                y <= height,
                blocks@.len() <= y * width,
                // cells before the scan point are all assigned
                forall|q: Position| in_bounds(q, w, h) && cell_index(q, w) < y * width
                    ==> #[trigger] block_ids@[cell_index(q, w)] != usize::MAX,
                // assigned cells belong to a recorded block that contains them
                forall|q: Position| in_bounds(q, w, h)
                    && #[trigger] block_ids@[cell_index(q, w)] != usize::MAX
                    ==> block_ids@[cell_index(q, w)] < blocks@.len()
                        && blocks@[block_ids@[cell_index(q, w)] as int].positions@.contains(q),
                forall|i2: int| 0 <= i2 < block_ids@.len()
                    ==> #[trigger] block_ids@[i2] == usize::MAX || block_ids@[i2] < blocks@.len(),
                forall|b: int| 0 <= b < blocks@.len()
                    ==> block_ok(cells@, w, h, block_ids@, #[trigger] blocks@[b], b),
            decreases height - y,
        {
            let mut x: usize = 0;
            while x < width
                invariant
                    cells@.len() == width * height,
                    block_ids@.len() == cells@.len(),
                    y < height,
                    x <= width,
                    blocks@.len() <= y * width + x,
                    forall|q: Position| in_bounds(q, w, h) && cell_index(q, w) < y * width + x
                        ==> #[trigger] block_ids@[cell_index(q, w)] != usize::MAX,
                    forall|q: Position| in_bounds(q, w, h)
                        && #[trigger] block_ids@[cell_index(q, w)] != usize::MAX
                        ==> block_ids@[cell_index(q, w)] < blocks@.len()
                            && blocks@[block_ids@[cell_index(q, w)] as int].positions@.contains(q),
                    forall|i2: int| 0 <= i2 < block_ids@.len()
                        ==> #[trigger] block_ids@[i2] == usize::MAX || block_ids@[i2] < blocks@.len(),
                    forall|b: int| 0 <= b < blocks@.len()
                        ==> block_ok(cells@, w, h, block_ids@, #[trigger] blocks@[b], b),
                decreases width - x,
            {
                let p = Position { x, y };
                let pi = Self::cell_pos_index(p, width, height);
                if block_ids[pi] == usize::MAX {
                    let new_id = blocks.len();
                    proof {
                        assert(y * width + x < cells@.len()) by (nonlinear_arith)
                            requires x < width && y < height && cells@.len() == width * height;
                    }
                    let ghost ids_before = block_ids@;
                    let ghost blocks_before = blocks@;
                    let positions = Self::flood_fill(cells, width, height, &mut block_ids, p, new_id);
                    proof {
                        // The new block is fully closed: a same-color neighbor
                        // assigned earlier would, by that block's closure and
                        // adjacency symmetry, already contain this codel.
                        assert forall|k: int, q: Position| 0 <= k < positions@.len()
                            && #[trigger] adj_same(cells@, w, h, positions@[k], q)
                            implies positions@.contains(q) by {
                            if !positions@.contains(q) {
                                assert(ids_before[cell_index(q, w)] != usize::MAX);
                                let b2 = ids_before[cell_index(q, w)] as int;
                                assert(block_ok(cells@, w, h, ids_before, blocks_before[b2], b2));
                                let s2 = blocks_before[b2].positions@;
                                assert(s2.contains(q));
                                let k2 = choose|k2: int| 0 <= k2 < s2.len() && s2[k2] == q;
                                lemma_adj_symmetric(cells@, w, h, positions@[k], q);
                                assert(adj_same(cells@, w, h, s2[k2], positions@[k]));
                                assert(s2.contains(positions@[k]));
                                let k3 = choose|k3: int| 0 <= k3 < s2.len() && s2[k3] == positions@[k];
                                assert(ids_before[cell_index(s2[k3], w)] == b2);
                                assert(ids_before[cell_index(positions@[k], w)] == usize::MAX);
                                assert(false);
                            }
                        }
                    }
                    let size = positions.len();
                    let color = cells[pi];
                    let ghost psv = positions@;
                    blocks.push(BlockInfo { size, color, positions });
                    proof {
                        assert forall|q: Position| in_bounds(q, w, h)
                            && (#[trigger] block_ids@[cell_index(q, w)]) != usize::MAX
                            implies block_ids@[cell_index(q, w)] < blocks@.len()
                                && blocks@[block_ids@[cell_index(q, w)] as int].positions@.contains(q) by {
                            lemma_cell_index_bound(q, w, h, cells@.len() as int);
                            if block_ids@[cell_index(q, w)] == new_id {
                                assert(blocks@[new_id as int].positions@ == psv);
                                assert(psv.contains(q));
                            } else {
                                assert(block_ids@[cell_index(q, w)] == ids_before[cell_index(q, w)]);
                                assert(ids_before[cell_index(q, w)] != usize::MAX);
                                assert(blocks@[block_ids@[cell_index(q, w)] as int]
                                    == blocks_before[block_ids@[cell_index(q, w)] as int]);
                            }
                        }
                        // Earlier blocks are untouched by the fill.
                        assert forall|b: int| 0 <= b < blocks@.len()
                            implies block_ok(cells@, w, h, block_ids@, #[trigger] blocks@[b], b) by {
                            if b < blocks_before.len() {
                                assert(blocks@[b] == blocks_before[b]);
                                assert(block_ok(cells@, w, h, ids_before, blocks_before[b], b));
                                let s2 = blocks_before[b].positions@;
                                assert forall|k: int| 0 <= k < s2.len()
                                    implies in_bounds(#[trigger] s2[k], w, h)
                                        && color_at(cells@, w, s2[k]) == blocks_before[b].color
                                        && block_ids@[cell_index(s2[k], w)] == b by {
                                    assert(ids_before[cell_index(s2[k], w)] == b);
                                    assert(b != usize::MAX as int);
                                    assert(cell_index(s2[k], w) < cells@.len()) by (nonlinear_arith)
                                        requires in_bounds(s2[k], w, h) && cells@.len() == w * h && w >= 0;
                                }
                            } else {
                                assert(b == blocks_before.len());
                                assert(blocks@[b].positions@ == positions@);
                            }
                        }
                    }
                }
                x = x + 1;
                proof {
                    assert(y * width + x <= y * width + width) by (nonlinear_arith)
                        requires x <= width;
                }
            }
            proof {
                assert((y + 1) * width == y * width + width) by (nonlinear_arith);
                assert((y + 1) * width <= cells@.len()) by (nonlinear_arith)
                    requires cells@.len() == width * height && y + 1 <= height;
            }
            y = y + 1;
        }
        proof {
            assert forall|q: Position| in_bounds(q, w, h)
                implies (#[trigger] block_ids@[cell_index(q, w)]) < blocks@.len()
                    && blocks@[block_ids@[cell_index(q, w)] as int].positions@.contains(q) by {
                assert(q.y * w + q.x < y * w) by (nonlinear_arith)
                    requires 0 <= q.x < w && 0 <= q.y < h && h <= y && w == width && h == height;
                assert(block_ids@[cell_index(q, w)] != usize::MAX);
            }
        }
        (block_ids, blocks)
    }

    /// Picks the exit codel of a block for (dp, cc): the member furthest
    /// along dp, ties broken by cc.
    fn select_exit_codel(positions: &Vec<Position>, dp: Direction, cc: CodelChooser) -> (r: Option<Position>)
        ensures
            match r {
                Some(e) => is_exit_codel(positions@, dp, cc, e),
                None => positions@.len() == 0,
            },
    {
        if positions.len() == 0 {
            return None;
        }
        let mut best = positions[0];
        let mut k: usize = 1;
        while k < positions.len()
            invariant
                1 <= k <= positions@.len(),
                positions@.contains(best),
                forall|j: int| 0 <= j < k
                    ==> #[trigger] positions@[j] == best || beats(dp, cc, best, positions@[j]),
            decreases positions@.len() - k,
        {
            let cand = positions[k];
            if Self::better_exec(dp, cc, cand, best) {
                best = cand;
            }
            k = k + 1;
        }
        Some(best)
    }

    /// Whether a beats b as an exit candidate for (dp, cc).
    fn better_exec(dp: Direction, cc: CodelChooser, a: Position, b: Position) -> (r: bool)
        ensures
            r == beats(dp, cc, a, b),
    {
        match dp {
            Direction::Right => a.x > b.x
                || (a.x == b.x && (match cc { CodelChooser::Left => a.y < b.y, CodelChooser::Right => a.y > b.y })),
            Direction::Down => a.y > b.y
                || (a.y == b.y && (match cc { CodelChooser::Left => a.x > b.x, CodelChooser::Right => a.x < b.x })),
            Direction::Left => a.x < b.x
                || (a.x == b.x && (match cc { CodelChooser::Left => a.y > b.y, CodelChooser::Right => a.y < b.y })),
            Direction::Up => a.y < b.y
                || (a.y == b.y && (match cc { CodelChooser::Left => a.x < b.x, CodelChooser::Right => a.x > b.x })),
        }
    }

    /// Precomputes the exit-neighbor table, eight entries per block.
    #[verifier::loop_isolation(false)]
    fn build_exits(
        cells: &Vec<PietColor>, width: usize, height: usize, blocks: &Vec<BlockInfo>,
    ) -> (exits: Vec<Option<Position>>)
        requires
            cells@.len() == width * height,
            forall|b: int| 0 <= b < blocks@.len() ==> (#[trigger] blocks@[b]).positions@.len() >= 1,
        ensures
            exits@.len() == blocks@.len() * 8,
            forall|i: int| 0 <= i < exits@.len()
                ==> exit_entry_ok(cells@, width as int, height as int, blocks@, i, #[trigger] exits@[i]),
    {
        let ghost w = width as int;
        let ghost h = height as int;
        let mut exits: Vec<Option<Position>> = Vec::new();
        let mut b: usize = 0;
        let dirs: [Direction; 4] = [Direction::Right, Direction::Down, Direction::Left, Direction::Up];
        let ccs: [CodelChooser; 2] = [CodelChooser::Left, CodelChooser::Right];
        while b < blocks.len()
            invariant
                cells@.len() == width * height,
                b <= blocks@.len(),
                exits@.len() == b * 8,
                dirs@ =~= seq![Direction::Right, Direction::Down, Direction::Left, Direction::Up],
                ccs@ =~= seq![CodelChooser::Left, CodelChooser::Right],
                forall|bb: int| 0 <= bb < blocks@.len() ==> (#[trigger] blocks@[bb]).positions@.len() >= 1,
                forall|i: int| 0 <= i < exits@.len()
                    ==> exit_entry_ok(cells@, w, h, blocks@, i, #[trigger] exits@[i]),
            decreases blocks@.len() - b,
        {
            let mut di: usize = 0;
            while di < 4
                invariant
                    cells@.len() == width * height,
                    b < blocks@.len(),
                    di <= 4,
                    exits@.len() == b * 8 + di * 2,
                    dirs@ =~= seq![Direction::Right, Direction::Down, Direction::Left, Direction::Up],
                    ccs@ =~= seq![CodelChooser::Left, CodelChooser::Right],
                    forall|bb: int| 0 <= bb < blocks@.len() ==> (#[trigger] blocks@[bb]).positions@.len() >= 1,
                    forall|i: int| 0 <= i < exits@.len()
                        ==> exit_entry_ok(cells@, w, h, blocks@, i, #[trigger] exits@[i]),
                decreases 4 - di,
            {
                let mut ci: usize = 0;
                while ci < 2
                    invariant
                        cells@.len() == width * height,
                        b < blocks@.len(),
                        di < 4,
                        ci <= 2,
                        exits@.len() == b * 8 + di * 2 + ci,
                        dirs@ =~= seq![Direction::Right, Direction::Down, Direction::Left, Direction::Up],
                        ccs@ =~= seq![CodelChooser::Left, CodelChooser::Right],
                        forall|bb: int| 0 <= bb < blocks@.len() ==> (#[trigger] blocks@[bb]).positions@.len() >= 1,
                        forall|i: int| 0 <= i < exits@.len()
                            ==> exit_entry_ok(cells@, w, h, blocks@, i, #[trigger] exits@[i]),
                    decreases 2 - ci,
                {
                    let dp = dirs[di];
                    let cc = ccs[ci];
                    let codel = Self::select_exit_codel(&blocks[b].positions, dp, cc);
                    let entry = match codel {
                        Some(e) => e.step(dp, width, height),
                        None => None,
                    };
                    proof {
                        let i = exits@.len() as int;
                        assert(i / 8 == b && (i % 8) / 2 == di && i % 2 == ci) by (nonlinear_arith)
                            requires i == b * 8 + di * 2 + ci && 0 <= di < 4 && 0 <= ci < 2 && b >= 0;
                        assert(Direction::from_index(di as int) == dp) by {
                            if di == 0 {
                                assert(dirs@[0] == Direction::Right);
                            } else if di == 1 {
                                assert(dirs@[1] == Direction::Down);
                            } else if di == 2 {
                                assert(dirs@[2] == Direction::Left);
                            } else {
                                assert(dirs@[3] == Direction::Up);
                            }
                        }
                        assert(CodelChooser::from_index(ci as int) == cc) by {
                            if ci == 0 {
                                assert(ccs@[0] == CodelChooser::Left);
                            } else {
                                assert(ccs@[1] == CodelChooser::Right);
                            }
                        }
                        match codel {
                            Some(e) => {
                                assert(is_exit_codel(blocks@[b as int].positions@, dp, cc, e));
                                assert(entry == e.spec_step(dp, w, h));
                                assert(exit_entry_ok(cells@, w, h, blocks@, i, entry));
                            }
                            None => {
                                assert(blocks@[b as int].positions@.len() >= 1);
                                assert(false);
                            }
                        }
                    }
                    exits.push(entry);
                    ci = ci + 1;
                }
                di = di + 1;
            }
            b = b + 1;
        }
        exits
    }

    pub fn width(&self) -> (r: usize)
        ensures
            r == self.spec_width(),
    {
        self.width
    }

    pub fn height(&self) -> (r: usize)
        ensures
            r == self.spec_height(),
    {
        self.height
    }

    /// The color at a position, None when the position is out of bounds.
    pub fn get(&self, pos: Position) -> (r: Option<PietColor>)
        requires
            self.inv(),
        ensures
            r == (if in_bounds(pos, self.spec_width(), self.spec_height()) {
                Some(self.spec_color_at(pos))
            } else {
                None
            }),
    {
        if pos.x < self.width && pos.y < self.height {
            let n = self.cells.len();
            let i = Self::cell_pos_index(pos, self.width, self.height);
            Some(self.cells[i])
        } else {
            None
        }
    }

    /// The id of the block covering a position, None when out of bounds.
    pub fn get_block_id(&self, pos: Position) -> (r: Option<BlockId>)
        requires
            self.inv(),
        ensures
            r == (if in_bounds(pos, self.spec_width(), self.spec_height()) {
                Some(self.spec_block_id(pos) as usize)
            } else {
                None
            }),
            r matches Some(b) ==> 0 <= b < self.spec_block_count()
                && b as int == self.spec_block_id(pos),
    {
        if pos.x < self.width && pos.y < self.height {
            let n = self.cells.len();
            let i = Self::cell_pos_index(pos, self.width, self.height);
            proof {
                self.lemma_block_facts(pos);
            }
            Some(self.block_ids[i])
        } else {
            None
        }
    }

    /// The recorded facts about a block, None for an unknown id.
    pub fn get_block_info(&self, block_id: BlockId) -> (r: Option<&BlockInfo>)
        requires
            self.inv(),
        ensures
            match r {
                Some(info) => {
                    &&& 0 <= block_id < self.spec_block_count()
                    &&& info.positions@ == self.spec_block_positions(block_id as int)
                    &&& info.color == self.spec_block_color(block_id as int)
                    &&& info.size == self.spec_block_size(block_id as int)
                    &&& info.size == info.positions@.len()
                    &&& info.size >= 1
                },
                None => block_id >= self.spec_block_count(),
            },
    {
        if block_id < self.blocks.len() {
            Some(&self.blocks[block_id])
        } else {
            None
        }
    }

    /// The precomputed exit neighbor for (block, dp, cc); None both for an
    /// unknown block and for an exit that would leave the grid.
    pub fn get_exit(&self, block_id: BlockId, dp: Direction, cc: CodelChooser) -> (r: Option<Position>)
        requires
            self.inv(),
        ensures
            r == (if 0 <= block_id < self.spec_block_count() {
                self.spec_exit(block_id as int, dp, cc)
            } else {
                None
            }),
            r matches Some(q) ==> in_bounds(q, self.spec_width(), self.spec_height()),
    {
        if block_id < self.blocks.len() {
            let el = self.exits.len();
            let di = match dp {
                Direction::Right => 0usize,
                Direction::Down => 1usize,
                Direction::Left => 2usize,
                Direction::Up => 3usize,
            };
            let ci = match cc {
                CodelChooser::Left => 0usize,
                CodelChooser::Right => 1usize,
            };
            proof {
                assert(self.exits@.len() == self.blocks@.len() * 8);
                assert((block_id + 1) * 8 <= self.blocks@.len() * 8) by (nonlinear_arith)
                    requires block_id + 1 <= self.blocks@.len();
                assert(block_id * 8 + di * 2 + ci < self.exits@.len());
            }
            let r = self.exits[block_id * 8 + di * 2 + ci];
            proof {
                if r is Some {
                    self.lemma_exit_extremal(block_id as int, dp, cc);
                }
            }
            r
        } else {
            None
        }
    }

    /// All codels of the maximal same-color region around start, or an empty
    /// vector when start is out of bounds.
    pub fn find_block(&self, start: Position) -> (r: Vec<Position>)
        requires
            self.inv(),
        ensures
            if in_bounds(start, self.spec_width(), self.spec_height()) {
                r@ == self.spec_block_positions(self.spec_block_id(start))
            } else {
                r@ == Seq::<Position>::empty()
            },
    {
        if start.x < self.width && start.y < self.height {
            let n = self.cells.len();
            let i = Self::cell_pos_index(start, self.width, self.height);
            proof {
                self.lemma_block_facts(start);
            }
            let b = self.block_ids[i];
            let src = &self.blocks[b].positions;
            let mut r: Vec<Position> = Vec::new();
            let mut k: usize = 0;
            while k < src.len()
                invariant
                    k <= src@.len(),
                    r@ == src@.take(k as int),
                decreases src@.len() - k,
            {
                r.push(src[k]);
                proof {
                    assert(r@ =~= src@.take(k as int + 1));
                }
                k = k + 1;
            }
            proof {
                assert(src@.take(src@.len() as int) =~= src@);
            }
            r
        } else {
            Vec::new()
        }
    }


    /// How many blocks the grid was partitioned into.
    pub fn block_count(&self) -> (n: usize)
        requires
            self.inv(),
        ensures
            n == self.spec_block_count(),
            n * 8 <= usize::MAX,
    {
        let el = self.exits.len();
        self.blocks.len()
    }

    /// A block's recorded codels are duplicate-free, so its size is its
    /// codel count.
    pub proof fn lemma_block_positions_distinct(self, b: int)
        requires
            self.inv(),
            0 <= b < self.spec_block_count(),
        ensures
            distinct_seq(self.spec_block_positions(b)),
            self.spec_block_size(b) == self.spec_block_positions(b).len(),
    {
        assert(block_ok(self.cells@, self.spec_width(), self.spec_height(), self.block_ids@, self.blocks@[b], b));
    }

    /// A codel listed under a block is in bounds, carries the block's color,
    /// and maps back to that block's id.
    pub proof fn lemma_position_block_id(self, b: int, k: int)
        requires
            self.inv(),
            0 <= b < self.spec_block_count(),
            0 <= k < self.spec_block_positions(b).len(),
        ensures
            in_bounds(self.spec_block_positions(b)[k], self.spec_width(), self.spec_height()),
            self.spec_block_id(self.spec_block_positions(b)[k]) == b,
            self.spec_color_at(self.spec_block_positions(b)[k]) == self.spec_block_color(b),
    {
        let s = self.blocks@[b].positions@;
        assert(block_ok(self.cells@, self.spec_width(), self.spec_height(), self.block_ids@, self.blocks@[b], b));
        assert(in_bounds(s[k], self.spec_width(), self.spec_height())
            && color_at(self.cells@, self.spec_width(), s[k]) == self.blocks@[b].color
            && self.block_ids@[cell_index(s[k], self.spec_width())] == b);
    }

    /// The exit codel of an arbitrary set of positions for (dp, cc): the
    /// member furthest along dp, ties broken by cc; None for an empty set.
    pub fn find_exit(
        &self, block: &Vec<Position>, dp: Direction, cc: CodelChooser,
    ) -> (r: Option<Position>)
        ensures
            match r {
                Some(e) => is_exit_codel(block@, dp, cc, e),
                None => block@.len() == 0,
            },
    {
        Self::select_exit_codel(block, dp, cc)
    }
}


/// The palette color of the pixel at (x, y) in a row-major RGBA buffer.
pub open spec fn rgb_at(rgba: Seq<u8>, width: int, x: int, y: int) -> PietColor {
    let idx = (y * width + x) * 4;
    PietColor::spec_from_rgb(rgba[idx], rgba[idx + 1], rgba[idx + 2])
}

/// g is the pixel buffer reduced by codel size cs: dimensions divided by cs
/// and each codel colored like its top-left pixel.
pub open spec fn downsampled_grid(g: Grid, rgba: Seq<u8>, width: int, height: int, cs: int) -> bool {
    &&& 1 <= cs
    &&& g.spec_width() == width / cs
    &&& g.spec_height() == height / cs
    &&& g.spec_width() >= 1
    &&& g.spec_height() >= 1
    &&& forall|p: Position| in_bounds(p, g.spec_width(), g.spec_height())
        ==> #[trigger] g.spec_color_at(p) == rgb_at(rgba, width, p.x * cs, p.y * cs)
}

/// Copies a vector of plain values.
fn copy_vec<T: Copy>(src: &Vec<T>) -> (r: Vec<T>)
    ensures
        r@ == src@,
{
    let mut r: Vec<T> = Vec::new();
    let mut i: usize = 0;
    while i < src.len()
        invariant
            i <= src@.len(),
            r@ == src@.take(i as int),
        decreases src@.len() - i,
    {
        r.push(src[i]);
        proof {
            assert(r@ =~= src@.take(i as int + 1));
        }
        i = i + 1;
    }
    proof {
        assert(src@.take(src@.len() as int) =~= src@);
    }
    r
}

/// The RGB triple of pixel (x, y) in a row-major RGBA buffer.
pub open spec fn pix(rgba: Seq<u8>, w: int, x: int, y: int) -> (u8, u8, u8) {
    (rgba[(y * w + x) * 4], rgba[(y * w + x) * 4 + 1], rgba[(y * w + x) * 4 + 2])
}

/// Where the same-color run that begins at start in a row ends: the first
/// x at or past the scan point whose pixel leaves the run's color (or the
/// row's edge).
pub open spec fn row_run_end(rgba: Seq<u8>, w: int, row: int, start: int, x: int) -> int
    decreases w - x,
    when x <= w
{
    if x >= w || pix(rgba, w, x, row) != pix(rgba, w, start, row) {
        x
    } else {
        row_run_end(rgba, w, row, start, x + 1)
    }
}

proof fn lemma_row_run_end_bounds(rgba: Seq<u8>, w: int, row: int, start: int, x: int)
    requires
        x <= w,
    ensures
        x <= row_run_end(rgba, w, row, start, x) <= w,
    decreases w - x,
{
    if !(x >= w || pix(rgba, w, x, row) != pix(rgba, w, start, row)) {
        lemma_row_run_end_bounds(rgba, w, row, start, x + 1);
    }
}

/// The run lengths of a row from the scan point on, in order.
pub open spec fn row_runs_spec(rgba: Seq<u8>, w: int, row: int, x: int) -> Seq<int>
    decreases w - x,
    when 0 <= x <= w
    via row_runs_spec_decreases
{
    if x >= w {
        Seq::empty()
    } else {
        let e = row_run_end(rgba, w, row, x, x + 1);
        seq![e - x] + row_runs_spec(rgba, w, row, e)
    }
}

#[via_fn]
proof fn row_runs_spec_decreases(rgba: Seq<u8>, w: int, row: int, x: int) {
    if 0 <= x < w {
        lemma_row_run_end_bounds(rgba, w, row, x, x + 1);
    }
}

/// Where the same-color run that begins at start in a column ends.
pub open spec fn col_run_end(rgba: Seq<u8>, w: int, h: int, col: int, start: int, y: int) -> int
    decreases h - y,
    when y <= h
{
    if y >= h || pix(rgba, w, col, y) != pix(rgba, w, col, start) {
        y
    } else {
        col_run_end(rgba, w, h, col, start, y + 1)
    }
}

proof fn lemma_col_run_end_bounds(rgba: Seq<u8>, w: int, h: int, col: int, start: int, y: int)
    requires
        y <= h,
    ensures
        y <= col_run_end(rgba, w, h, col, start, y) <= h,
    decreases h - y,
{
    if !(y >= h || pix(rgba, w, col, y) != pix(rgba, w, col, start)) {
        lemma_col_run_end_bounds(rgba, w, h, col, start, y + 1);
    }
}

/// The run lengths of a column from the scan point on, in order.
pub open spec fn col_runs_spec(rgba: Seq<u8>, w: int, h: int, col: int, y: int) -> Seq<int>
    decreases h - y,
    when 0 <= y <= h
    via col_runs_spec_decreases
{
    if y >= h {
        Seq::empty()
    } else {
        let e = col_run_end(rgba, w, h, col, y, y + 1);
        seq![e - y] + col_runs_spec(rgba, w, h, col, e)
    }
}

#[via_fn]
proof fn col_runs_spec_decreases(rgba: Seq<u8>, w: int, h: int, col: int, y: int) {
    if 0 <= y < h {
        lemma_col_run_end_bounds(rgba, w, h, col, y, y + 1);
    }
}

/// Pixel (dx, dy) of the tile at (cx, cy) matches the tile's top-left pixel.
pub open spec fn tile_pixel_ok(rgba: Seq<u8>, w: int, s: int, cx: int, cy: int, dx: int, dy: int) -> bool {
    pix(rgba, w, cx * s + dx, cy * s + dy) == pix(rgba, w, cx * s, cy * s)
}

/// The whole tile at (cx, cy) holds one color.
pub open spec fn tile_ok(rgba: Seq<u8>, w: int, s: int, cx: int, cy: int) -> bool {
    forall|dx: int, dy: int| 0 <= dx < s && 0 <= dy < s
        ==> #[trigger] tile_pixel_ok(rgba, w, s, cx, cy, dx, dy)
}

/// Every s x s tile starting at a multiple of s holds one color.
pub open spec fn tiles_uniform_spec(rgba: Seq<u8>, w: int, h: int, s: int) -> bool {
    forall|cx: int, cy: int| 0 <= cx < w / s && 0 <= cy < h / s
        ==> #[trigger] tile_ok(rgba, w, s, cx, cy)
}

/// The tile sizes the detection probes.
pub open spec fn probe_sizes() -> Seq<int> {
    seq![2, 4, 5, 8, 10, 16, 20, 25, 32]
}

/// The probed sizes, from index i on, that divide both dimensions and whose
/// tiles are all uniform.
pub open spec fn candidate_sizes_spec(rgba: Seq<u8>, w: int, h: int, i: int) -> Seq<int>
    decreases probe_sizes().len() - i,
    when 0 <= i <= probe_sizes().len()
{
    if i >= probe_sizes().len() {
        Seq::empty()
    } else {
        let s = probe_sizes()[i];
        (if w % s == 0 && h % s == 0 && tiles_uniform_spec(rgba, w, h, s) {
            seq![s]
        } else {
            Seq::empty()
        }) + candidate_sizes_spec(rgba, w, h, i + 1)
    }
}

/// The sampled lengths the detection folds: run lengths along the first,
/// middle and last row and column, then the accepted probe sizes.
pub open spec fn sampled_lengths(rgba: Seq<u8>, w: int, h: int) -> Seq<int> {
    (if w >= 1 && h >= 1 {
        row_runs_spec(rgba, w, 0, 0)
            + row_runs_spec(rgba, w, h / 2, 0)
            + row_runs_spec(rgba, w, h - 1, 0)
            + col_runs_spec(rgba, w, h, 0, 0)
            + col_runs_spec(rgba, w, h, w / 2, 0)
            + col_runs_spec(rgba, w, h, w - 1, 0)
    } else {
        Seq::empty()
    }) + candidate_sizes_spec(rgba, w, h, 0)
}

/// Folding the sampled lengths through the greatest common divisor, stopping
/// early once it reaches 1.
pub open spec fn gcd_fold(acc: nat, s: Seq<int>, i: int) -> nat
    decreases s.len() - i,
    when 0 <= i <= s.len()
{
    if i >= s.len() || acc == 1 {
        acc
    } else {
        gcd_fold(gcd_spec(acc, s[i] as nat), s, i + 1)
    }
}

/// What the codel-size detection computes for a well-formed buffer: the
/// greatest common divisor of the sampled run lengths and accepted tile
/// sizes, and 1 when nothing was sampled.
pub open spec fn detect_codel_size_spec(rgba: Seq<u8>, w: int, h: int) -> int {
    let rs = sampled_lengths(rgba, w, h);
    if rs.len() == 0 {
        1
    } else {
        gcd_fold(rs[0] as nat, rs, 1) as int
    }
}

/// Euclid's greatest common divisor.
pub open spec fn gcd_spec(a: nat, b: nat) -> nat
    decreases b,
{
    if b == 0 {
        a
    } else {
        gcd_spec(b, a % b)
    }
}

proof fn lemma_gcd_pos(a: nat, b: nat)
    requires
        a >= 1 || b >= 1,
    ensures
        gcd_spec(a, b) >= 1,
    decreases b,
{
    if b != 0 {
        lemma_gcd_pos(b, a % b);
    }
}

/// A codel coordinate scaled by the codel size stays short of the pixel
/// dimension it was derived from.
proof fn lemma_scaled_coord_bound(c: int, cs: int, total: int)
    requires
        cs >= 1,
        0 <= c,
        c < total / cs,
        total >= 0,
    ensures
        c * cs + cs <= total,
        c * cs < total,
{
    vstd::arithmetic::div_mod::lemma_fundamental_div_mod(total, cs);
    assert((c + 1) * cs <= (total / cs) * cs) by (nonlinear_arith)
        requires c + 1 <= total / cs && cs >= 1;
    assert((total / cs) * cs <= total) by (nonlinear_arith)
        requires total == cs * (total / cs) + total % cs && total % cs >= 0;
    assert((c + 1) * cs == c * cs + cs) by (nonlinear_arith);
}

impl Grid {
    /// Creates a grid from RGBA pixel data, detecting the codel size.
    pub fn from_rgba(width: usize, height: usize, rgba_data: &[u8]) -> (r: Result<Self, VmError>)
        ensures
            match r {
                Ok(g) => {
                    &&& rgba_data@.len() == width * height * 4
                    &&& g.inv()
                    &&& downsampled_grid(g, rgba_data@, width as int, height as int,
                        detect_codel_size_spec(rgba_data@, width as int, height as int))
                },
                Err(e) => e == VmError::OutOfBounds,
            },
            rgba_data@.len() != width * height * 4 ==> r is Err,
            (rgba_data@.len() == width * height * 4
                && width as int / detect_codel_size_spec(rgba_data@, width as int, height as int) >= 1
                && height as int / detect_codel_size_spec(rgba_data@, width as int, height as int) >= 1)
                ==> r is Ok,
    {
        Self::from_rgba_with_codel_size(width, height, rgba_data, None)
    }

    /// Detects the codel size of RGBA pixel data; 1 when nothing better can
    /// be told (the caller may always override the detection).
    pub fn detect_codel_size_from_rgba(width: usize, height: usize, rgba_data: &[u8]) -> (r: usize)
        ensures
            r >= 1,
            rgba_data@.len() != width * height * 4 ==> r == 1,
            rgba_data@.len() == width * height * 4
                ==> r as int == detect_codel_size_spec(rgba_data@, width as int, height as int),
    {
        let n0 = rgba_data.len();
        let total = match width.checked_mul(height) {
            Some(t) => match t.checked_mul(4) {
                Some(t4) => t4,
                None => {
                    proof {
                        assert(rgba_data@.len() <= usize::MAX);
                    }
                    return 1;
                },
            },
            None => {
                proof {
                    assert(rgba_data@.len() <= usize::MAX);
                    assert(width * height * 4 > usize::MAX) by (nonlinear_arith)
                        requires width * height > usize::MAX;
                }
                return 1;
            },
        };
        if rgba_data.len() != total {
            return 1;
        }
        Self::detect_codel_size(width, height, rgba_data)
    }

    /// Creates a grid from RGBA pixel data with an explicit codel size, or
    /// detects one when none is given. A codel size c reduces the image to a
    /// (width / c) x (height / c) grid sampled at each codel's top-left
    /// pixel.
    #[verifier::loop_isolation(false)]
    pub fn from_rgba_with_codel_size(
        width: usize,
        height: usize,
        rgba_data: &[u8],
        codel_size: Option<usize>,
    ) -> (r: Result<Self, VmError>)
        requires
            codel_size matches Some(c) ==> c >= 1,
        ensures
            match r {
                Ok(g) => {
                    &&& rgba_data@.len() == width * height * 4
                    &&& g.inv()
                    &&& exists|cs: int|
                        #[trigger] downsampled_grid(g, rgba_data@, width as int, height as int, cs)
                        && (codel_size matches Some(c) ==> cs == c)
                        && (codel_size is None
                            ==> cs == detect_codel_size_spec(rgba_data@, width as int, height as int))
                },
                Err(e) => e == VmError::OutOfBounds,
            },
            rgba_data@.len() != width * height * 4 ==> r is Err,
            (codel_size matches Some(c) && rgba_data@.len() == width * height * 4
                && width as int / c as int >= 1 && height as int / c as int >= 1) ==> r is Ok,
            (codel_size is None && rgba_data@.len() == width * height * 4
                && width as int / detect_codel_size_spec(rgba_data@, width as int, height as int) >= 1
                && height as int / detect_codel_size_spec(rgba_data@, width as int, height as int) >= 1)
                ==> r is Ok,
    {
        let n0 = rgba_data.len();
        let total = match width.checked_mul(height) {
            Some(t) => match t.checked_mul(4) {
                Some(t4) => t4,
                None => {
                    proof { assert(rgba_data@.len() <= usize::MAX); }
                    return Err(VmError::OutOfBounds);
                },
            },
            None => {
                proof {
                    assert(rgba_data@.len() <= usize::MAX);
                    assert(width * height * 4 > usize::MAX) by (nonlinear_arith)
                        requires width * height > usize::MAX;
                }
                return Err(VmError::OutOfBounds);
            },
        };
        if rgba_data.len() != total {
            return Err(VmError::OutOfBounds);
        }
        let cs = match codel_size {
            Some(c) => c,
            None => Self::detect_codel_size(width, height, rgba_data),
        };
        let new_width = width / cs;
        let new_height = height / cs;
        if new_width == 0 || new_height == 0 {
            return Err(VmError::OutOfBounds);
        }
        let ghost w = width as int;
        let ghost h = height as int;
        let nw_nh = match new_width.checked_mul(new_height) {
            Some(t) => t,
            None => {
                proof {
                    lemma_scaled_coord_bound(new_width as int - 1, cs as int, w);
                    lemma_scaled_coord_bound(new_height as int - 1, cs as int, h);
                    assert(new_width * new_height <= width * height) by (nonlinear_arith)
                        requires 1 <= new_width <= width && 1 <= new_height <= height;
                    assert(width * height <= width * height * 4) by (nonlinear_arith)
                        requires width * height >= 0;
                    assert(false);
                }
                return Err(VmError::OutOfBounds);
            },
        };
        proof {
            lemma_scaled_coord_bound(new_width as int - 1, cs as int, w);
            lemma_scaled_coord_bound(new_height as int - 1, cs as int, h);
            assert(new_width * new_height <= width * height) by (nonlinear_arith)
                requires 1 <= new_width <= width && 1 <= new_height <= height;
        }
        let mut cells: Vec<PietColor> = Vec::with_capacity(nw_nh);
        let mut cy: usize = 0;
        while cy < new_height
            invariant
                cy <= new_height,
                cells@.len() == cy * new_width,
                forall|p: Position| in_bounds(p, new_width as int, new_height as int)
                    && cell_index(p, new_width as int) < cells@.len()
                    ==> #[trigger] cells@[cell_index(p, new_width as int)]
                        == rgb_at(rgba_data@, w, p.x * cs, p.y * cs),
            decreases new_height - cy,
        {
            let mut cx: usize = 0;
            while cx < new_width
                invariant
                    cy < new_height,
                    cx <= new_width,
                    cells@.len() == cy * new_width + cx,
                    forall|p: Position| in_bounds(p, new_width as int, new_height as int)
                        && cell_index(p, new_width as int) < cells@.len()
                        ==> #[trigger] cells@[cell_index(p, new_width as int)]
                            == rgb_at(rgba_data@, w, p.x * cs, p.y * cs),
                decreases new_width - cx,
            {
                proof {
                    lemma_scaled_coord_bound(cx as int, cs as int, w);
                    lemma_scaled_coord_bound(cy as int, cs as int, h);
                }
                let px = cx * cs;
                let py = cy * cs;
                proof {
                    assert(py * width + px < width * height) by (nonlinear_arith)
                        requires 0 <= px < width && 0 <= py < height;
                    assert((py * width + px) * 4 + 3 < width * height * 4) by (nonlinear_arith)
                        requires py * width + px < width * height;
                }
                let idx = (py * width + px) * 4;
                let color = match PietColor::from_rgb(rgba_data[idx], rgba_data[idx + 1], rgba_data[idx + 2]) {
                    Ok(c) => c,
                    Err(_) => PietColor::Black,
                };
                cells.push(color);
                proof {
                    let p0 = Position { x: cx, y: cy };
                    assert(cell_index(p0, new_width as int) == cells@.len() - 1);
                    assert(cells@[cell_index(p0, new_width as int)]
                        == rgb_at(rgba_data@, w, p0.x * cs, p0.y * cs));
                    assert forall|p: Position| in_bounds(p, new_width as int, new_height as int)
                        && cell_index(p, new_width as int) < cells@.len()
                        implies #[trigger] cells@[cell_index(p, new_width as int)]
                            == rgb_at(rgba_data@, w, p.x * cs, p.y * cs) by {
                        if cell_index(p, new_width as int) == cells@.len() - 1 {
                            lemma_cell_index_injective(new_width as int, new_height as int, p, p0);
                        }
                    }
                }
                cx = cx + 1;
            }
            proof {
                assert((cy + 1) * new_width == cy * new_width + new_width) by (nonlinear_arith);
            }
            cy = cy + 1;
        }
        proof {
            assert(cells@.len() == new_width * new_height) by (nonlinear_arith)
                requires cells@.len() == new_height * new_width;
        }
        let ghost cells_view = cells@;
        let g = match Self::new(new_width, new_height, cells) {
            Ok(g) => g,
            Err(e) => {
                proof {
                    assert(false);
                }
                return Err(VmError::OutOfBounds);
            }
        };
        proof {
            let csi = cs as int;
            assert forall|p: Position| in_bounds(p, g.spec_width(), g.spec_height())
                implies #[trigger] g.spec_color_at(p)
                    == rgb_at(rgba_data@, w, p.x * csi, p.y * csi) by {
                lemma_cell_index_bound(p, new_width as int, new_height as int, cells_view.len() as int);
            }
            assert(downsampled_grid(g, rgba_data@, w, h, cs as int));
        }
        Ok(g)
    }

    /// Reads pixel (x, y) of a row-major RGBA buffer.
    fn pixel(rgba_data: &[u8], width: usize, height: usize, x: usize, y: usize) -> (p: (u8, u8, u8))
        requires
            x < width,
            y < height,
            rgba_data@.len() == width * height * 4,
        ensures
            p.0 == rgba_data@[(y * width + x) * 4],
            p.1 == rgba_data@[(y * width + x) * 4 + 1],
            p.2 == rgba_data@[(y * width + x) * 4 + 2],
    {
        let n = rgba_data.len();
        proof {
            assert(y * width + x < width * height) by (nonlinear_arith)
                requires 0 <= x < width && 0 <= y < height;
            assert((y * width + x) * 4 + 3 < width * height * 4) by (nonlinear_arith)
                requires y * width + x < width * height;
        }
        let idx = (y * width + x) * 4;
        (rgba_data[idx], rgba_data[idx + 1], rgba_data[idx + 2])
    }

    fn pixel_eq(a: (u8, u8, u8), b: (u8, u8, u8)) -> (r: bool)
        ensures
            r == (a == b),
    {
        a.0 == b.0 && a.1 == b.1 && a.2 == b.2
    }

    /// Appends the run lengths along one row, exactly as row_runs_spec says.
    #[verifier::loop_isolation(false)]
    fn row_runs(rgba_data: &[u8], width: usize, height: usize, row: usize, runs: &mut Vec<usize>)
        requires
            row < height,
            width >= 1,
            rgba_data@.len() == width * height * 4,
            forall|k: int| 0 <= k < old(runs)@.len() ==> (#[trigger] old(runs)@[k]) >= 1,
        ensures
            final(runs)@.map_values(|v: usize| v as int)
                == old(runs)@.map_values(|v: usize| v as int)
                    + row_runs_spec(rgba_data@, width as int, row as int, 0),
            forall|k: int| 0 <= k < final(runs)@.len() ==> (#[trigger] final(runs)@[k]) >= 1,
            final(runs)@.len() >= 1,
    {
        let ghost w = width as int;
        let ghost rr = row as int;
        let ghost base = old(runs)@.map_values(|v: usize| v as int);
        let mut x: usize = 0;
        while x < width
            invariant
                x <= width,
                runs@.len() >= old(runs)@.len(),
                x >= 1 ==> runs@.len() >= old(runs)@.len() + 1,
                forall|k: int| 0 <= k < runs@.len() ==> (#[trigger] runs@[k]) >= 1,
                base + row_runs_spec(rgba_data@, w, rr, 0)
                    == runs@.map_values(|v: usize| v as int) + row_runs_spec(rgba_data@, w, rr, x as int),
            decreases width - x,
        {
            let color = Self::pixel(rgba_data, width, height, x, row);
            proof {
                assert(color == pix(rgba_data@, w, x as int, rr));
            }
            let mut run_len: usize = 1;
            let mut done = false;
            while x + run_len < width && !done
                invariant
                    run_len >= 1,
                    x < width,
                    x + run_len <= width,
                    color == pix(rgba_data@, w, x as int, rr),
                    row_run_end(rgba_data@, w, rr, x as int, x as int + 1)
                        == row_run_end(rgba_data@, w, rr, x as int, x as int + run_len),
                    done ==> x + run_len < width
                        && pix(rgba_data@, w, x as int + run_len, rr) != pix(rgba_data@, w, x as int, rr),
                decreases width - x - run_len, (if done { 0int } else { 1int }),
            {
                let p = Self::pixel(rgba_data, width, height, x + run_len, row);
                proof {
                    assert(p == pix(rgba_data@, w, x as int + run_len, rr));
                }
                if Self::pixel_eq(p, color) {
                    run_len = run_len + 1;
                } else {
                    done = true;
                }
            }
            proof {
                assert(row_run_end(rgba_data@, w, rr, x as int, x as int + run_len)
                    == x as int + run_len);
                let e = x as int + run_len;
                let ghost pre_mapped = runs@.map_values(|v: usize| v as int);
                assert(row_runs_spec(rgba_data@, w, rr, x as int)
                    == seq![e - x] + row_runs_spec(rgba_data@, w, rr, e));
            }
            let ghost pre = runs@;
            runs.push(run_len);
            proof {
                assert(runs@.map_values(|v: usize| v as int)
                    =~= pre.map_values(|v: usize| v as int).push(run_len as int));
                assert(base + row_runs_spec(rgba_data@, w, rr, 0)
                    =~= runs@.map_values(|v: usize| v as int)
                        + row_runs_spec(rgba_data@, w, rr, x as int + run_len));
            }
            x = x + run_len;
        }
        proof {
            assert(row_runs_spec(rgba_data@, w, rr, x as int) =~= Seq::<int>::empty());
            assert(final(runs)@.map_values(|v: usize| v as int)
                =~= base + row_runs_spec(rgba_data@, w, rr, 0));
        }
    }

    /// Appends the run lengths along one column, exactly as col_runs_spec
    /// says.
    #[verifier::loop_isolation(false)]
    fn col_runs(rgba_data: &[u8], width: usize, height: usize, col: usize, runs: &mut Vec<usize>)
        requires
            col < width,
            height >= 1,
            rgba_data@.len() == width * height * 4,
            forall|k: int| 0 <= k < old(runs)@.len() ==> (#[trigger] old(runs)@[k]) >= 1,
        ensures
            final(runs)@.map_values(|v: usize| v as int)
                == old(runs)@.map_values(|v: usize| v as int)
                    + col_runs_spec(rgba_data@, width as int, height as int, col as int, 0),
            forall|k: int| 0 <= k < final(runs)@.len() ==> (#[trigger] final(runs)@[k]) >= 1,
            final(runs)@.len() >= 1,
    {
        let ghost w = width as int;
        let ghost h = height as int;
        let ghost cl = col as int;
        let ghost base = old(runs)@.map_values(|v: usize| v as int);
        let mut y: usize = 0;
        while y < height
            invariant
                y <= height,
                runs@.len() >= old(runs)@.len(),
                y >= 1 ==> runs@.len() >= old(runs)@.len() + 1,
                forall|k: int| 0 <= k < runs@.len() ==> (#[trigger] runs@[k]) >= 1,
                base + col_runs_spec(rgba_data@, w, h, cl, 0)
                    == runs@.map_values(|v: usize| v as int) + col_runs_spec(rgba_data@, w, h, cl, y as int),
            decreases height - y,
        {
            let color = Self::pixel(rgba_data, width, height, col, y);
            proof {
                assert(color == pix(rgba_data@, w, cl, y as int));
            }
            let mut run_len: usize = 1;
            let mut done = false;
            while y + run_len < height && !done
                invariant
                    run_len >= 1,
                    y < height,
                    y + run_len <= height,
                    color == pix(rgba_data@, w, cl, y as int),
                    col_run_end(rgba_data@, w, h, cl, y as int, y as int + 1)
                        == col_run_end(rgba_data@, w, h, cl, y as int, y as int + run_len),
                    done ==> y + run_len < height
                        && pix(rgba_data@, w, cl, y as int + run_len) != pix(rgba_data@, w, cl, y as int),
                decreases height - y - run_len, (if done { 0int } else { 1int }),
            {
                let p = Self::pixel(rgba_data, width, height, col, y + run_len);
                proof {
                    assert(p == pix(rgba_data@, w, cl, y as int + run_len));
                }
                if Self::pixel_eq(p, color) {
                    run_len = run_len + 1;
                } else {
                    done = true;
                }
            }
            proof {
                assert(col_run_end(rgba_data@, w, h, cl, y as int, y as int + run_len)
                    == y as int + run_len);
                let e = y as int + run_len;
                assert(col_runs_spec(rgba_data@, w, h, cl, y as int)
                    == seq![e - y] + col_runs_spec(rgba_data@, w, h, cl, e));
            }
            let ghost pre = runs@;
            runs.push(run_len);
            proof {
                assert(runs@.map_values(|v: usize| v as int)
                    =~= pre.map_values(|v: usize| v as int).push(run_len as int));
                assert(base + col_runs_spec(rgba_data@, w, h, cl, 0)
                    =~= runs@.map_values(|v: usize| v as int)
                        + col_runs_spec(rgba_data@, w, h, cl, y as int + run_len));
            }
            y = y + run_len;
        }
        proof {
            assert(col_runs_spec(rgba_data@, w, h, cl, y as int) =~= Seq::<int>::empty());
            assert(final(runs)@.map_values(|v: usize| v as int)
                =~= base + col_runs_spec(rgba_data@, w, h, cl, 0));
        }
    }

    /// Whether every size x size tile starting at a multiple of size holds
    /// a single color, exactly as tiles_uniform_spec says.
    #[verifier::loop_isolation(false)]
    fn tiles_uniform(rgba_data: &[u8], width: usize, height: usize, size: usize) -> (r: bool)
        requires
            size >= 1,
            width % size == 0,
            height % size == 0,
            rgba_data@.len() == width * height * 4,
        ensures
            r == tiles_uniform_spec(rgba_data@, width as int, height as int, size as int),
    {
        let ghost w = width as int;
        let ghost h = height as int;
        let ghost s = size as int;
        let tiles_x = width / size;
        let tiles_y = height / size;
        let mut cy: usize = 0;
        while cy < tiles_y
            invariant
                cy <= tiles_y,
                forall|cx2: int, cy2: int| 0 <= cx2 < w / s && 0 <= cy2 < cy
                    ==> #[trigger] tile_ok(rgba_data@, w, s, cx2, cy2),
            decreases tiles_y - cy,
        {
            let mut cx: usize = 0;
            while cx < tiles_x
                invariant
                    cx <= tiles_x,
                    cy < tiles_y,
                    forall|cx2: int, cy2: int| 0 <= cx2 < w / s && 0 <= cy2 < cy
                        ==> #[trigger] tile_ok(rgba_data@, w, s, cx2, cy2),
                    forall|cx2: int| 0 <= cx2 < cx
                        ==> #[trigger] tile_ok(rgba_data@, w, s, cx2, cy as int),
                decreases tiles_x - cx,
            {
                proof {
                    lemma_scaled_coord_bound(cx as int, size as int, width as int);
                    lemma_scaled_coord_bound(cy as int, size as int, height as int);
                }
                let base_x = cx * size;
                let base_y = cy * size;
                let base_color = Self::pixel(rgba_data, width, height, base_x, base_y);
                proof {
                    assert(base_color == pix(rgba_data@, w, cx as int * s, cy as int * s));
                }
                let mut dy: usize = 0;
                while dy < size
                    invariant
                        dy <= size,
                        base_x == cx * size,
                        base_y == cy * size,
                        base_x + size <= width,
                        base_y + size <= height,
                        base_color == pix(rgba_data@, w, cx as int * s, cy as int * s),
                        forall|dx2: int, dy2: int| 0 <= dx2 < s && 0 <= dy2 < dy
                            ==> #[trigger] tile_pixel_ok(rgba_data@, w, s, cx as int, cy as int, dx2, dy2),
                    decreases size - dy,
                {
                    let mut dx: usize = 0;
                    while dx < size
                        invariant
                            dx <= size,
                            dy < size,
                            base_x == cx * size,
                            base_y == cy * size,
                            base_x + size <= width,
                            base_y + size <= height,
                            base_color == pix(rgba_data@, w, cx as int * s, cy as int * s),
                            forall|dx2: int, dy2: int| 0 <= dx2 < s && 0 <= dy2 < dy
                                ==> #[trigger] tile_pixel_ok(rgba_data@, w, s, cx as int, cy as int, dx2, dy2),
                            forall|dx2: int| 0 <= dx2 < dx
                                ==> #[trigger] tile_pixel_ok(rgba_data@, w, s, cx as int, cy as int, dx2, dy as int),
                        decreases size - dx,
                    {
                        let p = Self::pixel(rgba_data, width, height, base_x + dx, base_y + dy);
                        proof {
                            assert(p == pix(rgba_data@, w, cx as int * s + dx, cy as int * s + dy));
                        }
                        if !Self::pixel_eq(p, base_color) {
                            proof {
                                assert(!tile_pixel_ok(rgba_data@, w, s, cx as int, cy as int, dx as int, dy as int));
                                assert(!tile_ok(rgba_data@, w, s, cx as int, cy as int));
                                assert(!tiles_uniform_spec(rgba_data@, w, h, s));
                            }
                            return false;
                        }
                        dx = dx + 1;
                    }
                    dy = dy + 1;
                }
                proof {
                    assert(tile_ok(rgba_data@, w, s, cx as int, cy as int));
                }
                cx = cx + 1;
            }
            cy = cy + 1;
        }
        proof {
            assert(tiles_uniform_spec(rgba_data@, w, h, s));
        }
        true
    }

    /// Euclid's greatest common divisor.
    fn gcd(a: usize, b: usize) -> (r: usize)
        ensures
            r == gcd_spec(a as nat, b as nat),
            (a >= 1 || b >= 1) ==> r >= 1,
        decreases b,
    {
        proof {
            if a >= 1 || b >= 1 {
                lemma_gcd_pos(a as nat, b as nat);
            }
        }
        if b == 0 {
            a
        } else {
            Self::gcd(b, a % b)
        }
    }

    /// Codel-size detection, exactly as detect_codel_size_spec says: the
    /// greatest common divisor of the color run lengths along the first,
    /// middle and last row and column, together with the probed tile sizes
    /// whose tiles are uniform; 1 when nothing is sampled.
    #[verifier::loop_isolation(false)]
    fn detect_codel_size(width: usize, height: usize, rgba_data: &[u8]) -> (r: usize)
        requires
            rgba_data@.len() == width * height * 4,
        ensures
            r as int == detect_codel_size_spec(rgba_data@, width as int, height as int),
            r >= 1,
    {
        let ghost w = width as int;
        let ghost h = height as int;
        let ghost target = sampled_lengths(rgba_data@, w, h);
        let mut runs: Vec<usize> = Vec::new();
        if width >= 1 && height >= 1 {
            Self::row_runs(rgba_data, width, height, 0, &mut runs);
            Self::row_runs(rgba_data, width, height, height / 2, &mut runs);
            Self::row_runs(rgba_data, width, height, height - 1, &mut runs);
            Self::col_runs(rgba_data, width, height, 0, &mut runs);
            Self::col_runs(rgba_data, width, height, width / 2, &mut runs);
            Self::col_runs(rgba_data, width, height, width - 1, &mut runs);
            proof {
                assert(runs@.map_values(|v: usize| v as int)
                    =~= row_runs_spec(rgba_data@, w, 0, 0)
                        + row_runs_spec(rgba_data@, w, h / 2, 0)
                        + row_runs_spec(rgba_data@, w, h - 1, 0)
                        + col_runs_spec(rgba_data@, w, h, 0, 0)
                        + col_runs_spec(rgba_data@, w, h, w / 2, 0)
                        + col_runs_spec(rgba_data@, w, h, w - 1, 0));
            }
        }
        let ghost scan = runs@.map_values(|v: usize| v as int);
        let sizes: [usize; 9] = [2, 4, 5, 8, 10, 16, 20, 25, 32];
        let mut si: usize = 0;
        while si < 9
            invariant
                si <= 9,
                forall|k: int| 0 <= k < runs@.len() ==> (#[trigger] runs@[k]) >= 1,
                sizes@ =~= seq![2usize, 4usize, 5usize, 8usize, 10usize, 16usize, 20usize, 25usize, 32usize],
                probe_sizes() =~= sizes@.map_values(|v: usize| v as int),
                scan + candidate_sizes_spec(rgba_data@, w, h, 0)
                    == runs@.map_values(|v: usize| v as int)
                        + candidate_sizes_spec(rgba_data@, w, h, si as int),
            decreases 9 - si,
        {
            let size = sizes[si];
            proof {
                assert(size >= 1);
                assert(probe_sizes()[si as int] == size as int);
            }
            if width % size == 0 && height % size == 0 {
                if Self::tiles_uniform(rgba_data, width, height, size) {
                    let ghost pre = runs@;
                    runs.push(size);
                    proof {
                        assert(runs@.map_values(|v: usize| v as int)
                            =~= pre.map_values(|v: usize| v as int).push(size as int));
                        assert(candidate_sizes_spec(rgba_data@, w, h, si as int)
                            == seq![size as int] + candidate_sizes_spec(rgba_data@, w, h, si as int + 1));
                        assert(scan + candidate_sizes_spec(rgba_data@, w, h, 0)
                            =~= runs@.map_values(|v: usize| v as int)
                                + candidate_sizes_spec(rgba_data@, w, h, si as int + 1));
                    }
                } else {
                    proof {
                        assert(candidate_sizes_spec(rgba_data@, w, h, si as int)
                            =~= candidate_sizes_spec(rgba_data@, w, h, si as int + 1));
                    }
                }
            } else {
                proof {
                    assert(candidate_sizes_spec(rgba_data@, w, h, si as int)
                        =~= candidate_sizes_spec(rgba_data@, w, h, si as int + 1));
                }
            }
            si = si + 1;
        }
        proof {
            assert(candidate_sizes_spec(rgba_data@, w, h, 9) =~= Seq::<int>::empty());
            assert(runs@.map_values(|v: usize| v as int) =~= target);
        }
        if runs.len() == 0 {
            proof {
                assert(target.len() == 0);
            }
            return 1;
        }
        let mut result = runs[0];
        proof {
            assert(target[0] == runs@[0] as int);
        }
        let mut k: usize = 1;
        while k < runs.len() && result != 1
            invariant
                1 <= k <= runs@.len(),
                result >= 1,
                runs@.map_values(|v: usize| v as int) == target,
                target.len() == runs@.len(),
                forall|j: int| 0 <= j < runs@.len() ==> (#[trigger] runs@[j]) >= 1,
                gcd_fold(target[0] as nat, target, 1) == gcd_fold(result as nat, target, k as int),
            decreases runs@.len() - k,
        {
            let ghost res0 = result;
            proof {
                assert(target[k as int] == runs@[k as int] as int);
            }
            result = Self::gcd(result, runs[k]);
            proof {
                lemma_gcd_pos(res0 as nat, runs@[k as int] as nat);
                assert(gcd_fold(res0 as nat, target, k as int)
                    == gcd_fold(gcd_spec(res0 as nat, target[k as int] as nat), target, k as int + 1));
                assert(gcd_spec(res0 as nat, target[k as int] as nat) == result as nat);
            }
            k = k + 1;
        }
        proof {
            assert(gcd_fold(result as nat, target, k as int) == result as nat);
        }
        result
    }
}

/// How many codels lie between pos and the grid edge ahead in direction dp
/// (a termination measure for the white slide).
pub open spec fn edge_distance(pos: Position, dp: Direction, w: int, h: int) -> int {
    match dp {
        Direction::Right => w - pos.x,
        Direction::Down => h - pos.y,
        Direction::Left => pos.x + 1,
        Direction::Up => pos.y + 1,
    }
}

/// Where sliding through white from pos in direction dp ends up: step while
/// the next codel is white; on an edge or a black codel rotate the direction
/// pointer on every second attempt; stop at the first chromatic codel, or
/// give up after eight failed attempts.
pub open spec fn slide_spec(g: Grid, pos: Position, dp: Direction, attempts: nat) -> Option<Position>
    decreases 8 - attempts, edge_distance(pos, dp, g.spec_width(), g.spec_height()),
{
    if attempts >= 8 {
        None
    } else {
        match pos.spec_step(dp, g.spec_width(), g.spec_height()) {
            Some(q) => {
                if g.spec_color_at(q) == PietColor::White {
                    slide_spec(g, q, dp, attempts)
                } else if g.spec_color_at(q) != PietColor::Black {
                    Some(q)
                } else {
                    slide_spec(
                        g,
                        pos,
                        if attempts % 2 == 1 { Direction::from_index((dp.index() + 1) % 4) } else { dp },
                        attempts + 1,
                    )
                }
            }
            None => slide_spec(
                g,
                pos,
                if attempts % 2 == 1 { Direction::from_index((dp.index() + 1) % 4) } else { dp },
                attempts + 1,
            ),
        }
    }
}

/// Piet's eight-try search for a colored exit of a block: on a missing exit
/// or a black neighbor, even attempts toggle the codel chooser and odd
/// attempts rotate the direction pointer clockwise.
pub open spec fn find_exit_spec(
    g: Grid, b: int, dp: Direction, cc: CodelChooser, attempts: nat,
) -> Option<(Position, Direction, CodelChooser)>
    decreases 8 - attempts,
{
    if attempts >= 8 {
        None
    } else {
        let e = g.spec_exit(b, dp, cc);
        if e is Some && g.spec_color_at(e->Some_0) != PietColor::Black {
            Some((e->Some_0, dp, cc))
        } else {
            if attempts % 2 == 0 {
                find_exit_spec(g, b, dp, cc.spec_toggle(), attempts + 1)
            } else {
                find_exit_spec(g, b, Direction::from_index((dp.index() + 1) % 4), cc, attempts + 1)
            }
        }
    }
}

/// The complete transition out of a block: find a colored exit, then slide
/// when it lands on white. The bool records whether white was crossed (the
/// operation is then suppressed).
pub open spec fn route_spec(
    g: Grid, b: int, dp: Direction, cc: CodelChooser,
) -> Option<(Position, Direction, CodelChooser, bool)> {
    match find_exit_spec(g, b, dp, cc, 0) {
        None => None,
        Some((q, dp2, cc2)) => {
            if g.spec_color_at(q) == PietColor::White {
                match slide_spec(g, q, dp2, 0) {
                    None => None,
                    Some(t) => Some((t, dp2, cc2, true)),
                }
            } else {
                Some((q, dp2, cc2, false))
            }
        },
    }
}


} // verus!

