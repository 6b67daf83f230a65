//! Points on the board, the four cardinal directions and Manhattan distance.

use vstd::prelude::*;

verus! {

/// A cell coordinate: `x` counts rows from the top, `y` counts columns from the left.
#[derive(Clone, Copy, Debug, PartialEq, Eq, Structural)]
pub struct Point {
    pub x: i32,
    pub y: i32,
}

impl View for Point {
    type V = (int, int);

    open spec fn view(&self) -> (int, int) {
        (self.x as int, self.y as int)
    }
}

/// The distance between two integers on the number line.
pub open spec fn gap(a: int, b: int) -> nat {
    if a >= b {
        (a - b) as nat
    } else {
        (b - a) as nat
    }
}

/// Manhattan distance between two cells.
pub open spec fn manhattan(p: (int, int), q: (int, int)) -> nat {
    gap(p.0, q.0) + gap(p.1, q.1)
}

/// Two cells are adjacent when they share an edge.
pub open spec fn adjacent(p: (int, int), q: (int, int)) -> bool {
    manhattan(p, q) == 1
}

/// The cell reached from `p` by the offset `d`.
pub open spec fn shifted(p: (int, int), d: (int, int)) -> (int, int) {
    (p.0 + d.0, p.1 + d.1)
}

/// One of the four directions in which a leaf can point, or the root can step.
#[derive(Clone, Copy, Debug, PartialEq, Eq, Structural)]
pub enum Direction {
    Up,
    Down,
    Left,
    Right,
}

impl Direction {
    /// The unit offset of the direction: up decreases the row, left decreases the column.
    pub open spec fn delta(self) -> (int, int) {
        match self {
            Direction::Up => (-1, 0),
            Direction::Down => (1, 0),
            Direction::Left => (0, -1),
            Direction::Right => (0, 1),
        }
    }

    /// The direction after a quarter turn clockwise: up, right, down, left, up.
    pub open spec fn spec_clockwise(self) -> Direction {
        match self {
            Direction::Up => Direction::Right,
            Direction::Right => Direction::Down,
            Direction::Down => Direction::Left,
            Direction::Left => Direction::Up,
        }
    }

    /// The direction after a quarter turn counter-clockwise.
    pub open spec fn spec_counter_clockwise(self) -> Direction {
        match self {
            Direction::Up => Direction::Left,
            Direction::Left => Direction::Down,
            Direction::Down => Direction::Right,
            Direction::Right => Direction::Up,
        }
    }

    /// The direction after a half turn.
    pub open spec fn spec_opposite(self) -> Direction {
        match self {
            Direction::Up => Direction::Down,
            Direction::Down => Direction::Up,
            Direction::Left => Direction::Right,
            Direction::Right => Direction::Left,
        }
    }

    /// The letter that names the direction in an operation line.
    pub open spec fn spec_symbol(self) -> char {
        match self {
            Direction::Up => 'U',
            Direction::Down => 'D',
            Direction::Left => 'L',
            Direction::Right => 'R',
        }
    }

    /// Row offset of one step in this direction.
    pub fn dx(self) -> (r: i32)
        ensures
            r == self.delta().0,
    {
        match self {
            Direction::Up => -1,
            Direction::Down => 1,
            Direction::Left => 0,
            Direction::Right => 0,
        }
    }

    /// Column offset of one step in this direction.
    pub fn dy(self) -> (r: i32)
        ensures
            r == self.delta().1,
    {
        match self {
            Direction::Up => 0,
            Direction::Down => 0,
            Direction::Left => -1,
            Direction::Right => 1,
        }
    }

    /// The direction after a quarter turn clockwise.
    #[verifier::when_used_as_spec(spec_clockwise)]
    pub fn clockwise(self) -> (r: Direction)
        ensures
            r == self.spec_clockwise(),
    {
        match self {
            Direction::Up => Direction::Right,
            Direction::Right => Direction::Down,
            Direction::Down => Direction::Left,
            Direction::Left => Direction::Up,
        }
    }

    /// The direction after a quarter turn counter-clockwise.
    #[verifier::when_used_as_spec(spec_counter_clockwise)]
    pub fn counter_clockwise(self) -> (r: Direction)
        ensures
            r == self.spec_counter_clockwise(),
    {
        match self {
            Direction::Up => Direction::Left,
            Direction::Left => Direction::Down,
            Direction::Down => Direction::Right,
            Direction::Right => Direction::Up,
        }
    }

    /// The direction after a half turn.
    #[verifier::when_used_as_spec(spec_opposite)]
    pub fn opposite(self) -> (r: Direction)
        ensures
            r == self.spec_opposite(),
    {
        match self {
            Direction::Up => Direction::Down,
            Direction::Down => Direction::Up,
            Direction::Left => Direction::Right,
            Direction::Right => Direction::Left,
        }
    }

    /// The direction that a letter names, if it names one.
    pub open spec fn spec_from_symbol(c: char) -> Option<Direction> {
        if c == 'U' {
            Some(Direction::Up)
        } else if c == 'D' {
            Some(Direction::Down)
        } else if c == 'L' {
            Some(Direction::Left)
        } else if c == 'R' {
            Some(Direction::Right)
        } else {
            None
        }
    }

    /// The direction that a letter names, if it names one.
    #[verifier::when_used_as_spec(spec_from_symbol)]
    pub fn from_symbol(c: char) -> (r: Option<Direction>)
        ensures
            r == Direction::spec_from_symbol(c),
    {
        if c == 'U' {
            Some(Direction::Up)
        } else if c == 'D' {
            Some(Direction::Down)
        } else if c == 'L' {
            Some(Direction::Left)
        } else if c == 'R' {
            Some(Direction::Right)
        } else {
            None
        }
    }

    /// The letter that names the direction in an operation line.
    #[verifier::when_used_as_spec(spec_symbol)]
    pub fn symbol(self) -> (c: char)
        ensures
            c == self.spec_symbol(),
    {
        match self {
            Direction::Up => 'U',
            Direction::Down => 'D',
            Direction::Left => 'L',
            Direction::Right => 'R',
        }
    }
}

/// Quarter turns compose as rotations of a square do: a clockwise turn undoes a
/// counter-clockwise one, two clockwise turns make a half turn, and four make none.
pub proof fn lemma_quarter_turns(d: Direction)
    ensures
        d.clockwise().counter_clockwise() == d,
        d.counter_clockwise().clockwise() == d,
        d.clockwise().clockwise() == d.opposite(),
        d.counter_clockwise().counter_clockwise() == d.opposite(),
        d.opposite().opposite() == d,
        d.clockwise() != d,
        d.opposite().delta() == (-d.delta().0, -d.delta().1),
        Direction::from_symbol(d.symbol()) == Some(d),
{
}

/// Manhattan distance between two points.
pub fn calc_dist(p: &Point, q: &Point) -> (d: i32)
    requires
        manhattan(p@, q@) <= i32::MAX,
    ensures
        d == manhattan(p@, q@),
{
    let dx: i64 = p.x as i64 - q.x as i64;
    let dy: i64 = p.y as i64 - q.y as i64;
    let ax: i64 = if dx < 0 { -dx } else { dx };
    let ay: i64 = if dy < 0 { -dy } else { dy };
    (ax + ay) as i32
}

/// Whether `q` lies directly above, below, left or right of `p`.
pub fn is_close(p: &Point, q: &Point) -> (r: bool)
    ensures
        r == adjacent(p@, q@),
{
    let dx: i64 = p.x as i64 - q.x as i64;
    let dy: i64 = p.y as i64 - q.y as i64;
    let ax: i64 = if dx < 0 { -dx } else { dx };
    let ay: i64 = if dy < 0 { -dy } else { dy };
    ax + ay == 1
}

} // verus!
