use vstd::prelude::*;

verus! {

/// Direction Pointer: the direction the interpreter moves, ordered clockwise.
#[derive(Debug, Clone, Copy, PartialEq, Eq, Structural, Hash)]
pub enum Direction {
    Right,
    Down,
    Left,
    Up,
}

impl Direction {
    /// Clockwise order of the direction, in [0, 4).
    pub open spec fn index(self) -> int {
        match self {
            Direction::Right => 0,
            Direction::Down => 1,
            Direction::Left => 2,
            Direction::Up => 3,
        }
    }

    /// The direction standing at a clockwise order, for orders in [0, 4).
    pub open spec fn from_index(i: int) -> Direction {
        if i == 0 { Direction::Right }
        else if i == 1 { Direction::Down }
        else if i == 2 { Direction::Left }
        else { Direction::Up }
    }

    /// Rotates the direction pointer clockwise n times; negative n rotates
    /// counterclockwise. The result's order is (order + n) mod 4.
    pub fn rotate_clockwise(self, n: i32) -> (d: Direction)
        ensures
            d == Direction::from_index((self.index() + n as int) % 4),
    {
        let r: i32 = match n.checked_rem_euclid(4) {
            Some(v) => v,
            None => 0,
        };
        proof {
            vstd::arithmetic::div_mod::lemma_mod_bound(n as int, 4);
            vstd::arithmetic::div_mod::lemma_add_mod_noop(self.index(), n as int, 4);
            vstd::arithmetic::div_mod::lemma_mod_bound(self.index() + n as int, 4);
            vstd::arithmetic::div_mod::lemma_small_mod(self.index() as nat, 4);
            vstd::arithmetic::div_mod::lemma_small_mod((if self.index() + r < 4 { self.index() + r } else { self.index() + r - 4 }) as nat, 4);
            vstd::arithmetic::div_mod::lemma_mod_sub_multiples_vanish(self.index() + r as int, 4);
        }
        let cur: i32 = match self {
            Direction::Right => 0,
            Direction::Down => 1,
            Direction::Left => 2,
            Direction::Up => 3,
        };
        let total: i32 = cur + r;
        let idx: i32 = if total >= 4 { total - 4 } else { total };
        match idx {
            0 => Direction::Right,
            1 => Direction::Down,
            2 => Direction::Left,
            _ => Direction::Up,
        }
    }

    /// The unit step (dx, dy) of this direction; y grows downward.
    pub open spec fn spec_delta(self) -> (i32, i32) {
        match self {
            Direction::Right => (1i32, 0i32),
            Direction::Down => (0i32, 1i32),
            Direction::Left => (-1i32, 0i32),
            Direction::Up => (0i32, -1i32),
        }
    }

    /// Returns the unit step (dx, dy) for this direction.
    pub fn delta(self) -> (d: (i32, i32))
        ensures
            d == self.spec_delta(),
    {
        match self {
            Direction::Right => (1, 0),
            Direction::Down => (0, 1),
            Direction::Left => (-1, 0),
            Direction::Up => (0, -1),
        }
    }
}

/// Codel Chooser: which side of the block the exit codel is taken from.
#[derive(Debug, Clone, Copy, PartialEq, Eq, Structural, Hash)]
pub enum CodelChooser {
    Left,
    Right,
}

impl CodelChooser {
    pub open spec fn index(self) -> int {
        match self {
            CodelChooser::Left => 0,
            CodelChooser::Right => 1,
        }
    }

    /// The codel chooser standing at an order, for orders in [0, 2).
    pub open spec fn from_index(i: int) -> CodelChooser {
        if i == 0 { CodelChooser::Left } else { CodelChooser::Right }
    }

    pub open spec fn spec_toggle(self) -> CodelChooser {
        match self {
            CodelChooser::Left => CodelChooser::Right,
            CodelChooser::Right => CodelChooser::Left,
        }
    }

    /// Swaps the codel chooser between Left and Right.
    pub fn toggle(self) -> (c: CodelChooser)
        ensures
            c == self.spec_toggle(),
    {
        match self {
            CodelChooser::Left => CodelChooser::Right,
            CodelChooser::Right => CodelChooser::Left,
        }
    }
}

/// A codel position on the grid, with 0 <= x < width and 0 <= y < height
/// when in bounds.
#[derive(Debug, Clone, Copy, PartialEq, Eq, Structural, Hash)]
pub struct Position {
    pub x: usize,
    pub y: usize,
}

impl Position {
    pub fn new(x: usize, y: usize) -> (p: Position)
        ensures
            p.x == x && p.y == y,
    {
        Position { x, y }
    }

    /// Where one step in the given direction lands, or None when the
    /// destination falls outside the [0, width) x [0, height) rectangle.
    pub open spec fn spec_step(self, dir: Direction, width: int, height: int) -> Option<Position> {
        match dir {
            Direction::Right => if self.x + 1 < width && self.y < height {
                Some(Position { x: (self.x + 1) as usize, y: self.y })
            } else {
                None
            },
            Direction::Down => if self.y + 1 < height && self.x < width {
                Some(Position { x: self.x, y: (self.y + 1) as usize })
            } else {
                None
            },
            Direction::Left => if self.x >= 1 && self.x - 1 < width && self.y < height {
                Some(Position { x: (self.x - 1) as usize, y: self.y })
            } else {
                None
            },
            Direction::Up => if self.y >= 1 && self.y - 1 < height && self.x < width {
                Some(Position { x: self.x, y: (self.y - 1) as usize })
            } else {
                None
            },
        }
    }

    /// Moves one codel in the given direction, if that stays within bounds.
    pub fn step(&self, dir: Direction, width: usize, height: usize) -> (r: Option<Position>)
        ensures
            r == self.spec_step(dir, width as int, height as int),
    {
        match dir {
            Direction::Right => {
                if width > 0 && self.x < width - 1 && self.y < height {
                    Some(Position { x: self.x + 1, y: self.y })
                } else {
                    None
                }
            }
            Direction::Down => {
                if height > 0 && self.y < height - 1 && self.x < width {
                    Some(Position { x: self.x, y: self.y + 1 })
                } else {
                    None
                }
            }
            Direction::Left => {
                if self.x >= 1 && self.x - 1 < width && self.y < height {
                    Some(Position { x: self.x - 1, y: self.y })
                } else {
                    None
                }
            }
            Direction::Up => {
                if self.y >= 1 && self.y - 1 < height && self.x < width {
                    Some(Position { x: self.x, y: self.y - 1 })
                } else {
                    None
                }
            }
        }
    }
}

} // verus!
