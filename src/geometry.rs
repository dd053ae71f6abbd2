use vstd::prelude::*;

verus! {

/// A point on the grid of one level.
#[derive(Clone, Copy, Debug, PartialEq, Eq, Structural)]
pub struct Position {
    pub level: usize,
    pub x: usize,
    pub y: usize,
}

/// One of the four grid directions.
#[derive(Clone, Copy, Debug, PartialEq, Eq, Structural)]
pub enum Direction {
    Left,
    Right,
    Up,
    Down,
}

impl Direction {
    /// Horizontal component of the unit step.
    pub open spec fn dx(self) -> int {
        match self {
            Direction::Left => -1,
            Direction::Right => 1,
            _ => 0,
        }
    }

    /// Vertical component of the unit step.
    pub open spec fn dy(self) -> int {
        match self {
            Direction::Up => -1,
            Direction::Down => 1,
            _ => 0,
        }
    }
}

/// The position one step from `p` in direction `d`, or `None` when a
/// coordinate would leave the range of `usize` (in particular, go negative).
pub open spec fn step(p: Position, d: Direction) -> Option<Position> {
    let x = p.x + d.dx();
    let y = p.y + d.dy();
    if 0 <= x <= usize::MAX && 0 <= y <= usize::MAX {
        Some(Position { level: p.level, x: x as usize, y: y as usize })
    } else {
        None
    }
}

impl std::ops::Add<Direction> for Position {
    type Output = Option<Position>;

    /// Checked step: `None` instead of an underflowing coordinate.
    fn add(self, direction: Direction) -> (r: Option<Position>)
        ensures
            r == step(self, direction),
    {
        match direction {
            Direction::Left => if self.x == 0 {
                None
            } else {
                Some(Position { level: self.level, x: self.x - 1, y: self.y })
            },
            Direction::Right => if self.x == usize::MAX {
                None
            } else {
                Some(Position { level: self.level, x: self.x + 1, y: self.y })
            },
            Direction::Up => if self.y == 0 {
                None
            } else {
                Some(Position { level: self.level, x: self.x, y: self.y - 1 })
            },
            Direction::Down => if self.y == usize::MAX {
                None
            } else {
                Some(Position { level: self.level, x: self.x, y: self.y + 1 })
            },
        }
    }
}

impl vstd::std_specs::ops::AddSpecImpl<Direction> for Position {
    open spec fn obeys_add_spec() -> bool {
        true
    }

    open spec fn add_req(self, rhs: Direction) -> bool {
        true
    }

    open spec fn add_spec(self, rhs: Direction) -> Option<Position> {
        step(self, rhs)
    }
}

} // verus!
