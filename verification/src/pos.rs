//! Tile coordinates, facing directions and attack kinds.

use vstd::prelude::*;

verus! {

/// A tile coordinate. `x` grows to the east, `y` to the north.
#[derive(Clone, Copy, Debug, PartialEq, Eq, Hash, Structural)]
pub struct Pos {
    pub x: usize,
    pub y: usize,
}

/// The way a unit faces.
#[derive(Clone, Copy, Debug, PartialEq, Eq, Structural)]
pub enum Direction {
    East,
    South,
    West,
    North,
}

/// How a unit attacks: along the four lines through its tile, or over any
/// tile within its range.
#[derive(Clone, Copy, Debug, PartialEq, Eq, Structural)]
pub enum AttackType {
    Melee,
    Ranged,
}

/// Distance between two numbers.
pub open spec fn gap(a: int, b: int) -> int {
    if a <= b {
        b - a
    } else {
        a - b
    }
}

/// Taxicab distance between two tiles.
pub open spec fn manhattan(a: Pos, b: Pos) -> int {
    gap(a.x as int, b.x as int) + gap(a.y as int, b.y as int)
}

/// Two tiles share an edge.
pub open spec fn adjacent(a: Pos, b: Pos) -> bool {
    manhattan(a, b) == 1
}

/// The tile one step from `p` in direction `d`, where the coordinates allow it.
pub open spec fn step_spec(p: Pos, d: Direction) -> Option<Pos> {
    match d {
        Direction::North => if p.y < usize::MAX {
            Some(Pos { x: p.x, y: (p.y + 1) as usize })
        } else {
            None
        },
        Direction::South => if p.y > 0 {
            Some(Pos { x: p.x, y: (p.y - 1) as usize })
        } else {
            None
        },
        Direction::East => if p.x < usize::MAX {
            Some(Pos { x: (p.x + 1) as usize, y: p.y })
        } else {
            None
        },
        Direction::West => if p.x > 0 {
            Some(Pos { x: (p.x - 1) as usize, y: p.y })
        } else {
            None
        },
    }
}

/// The facing of a unit that turns from `from` towards `to`: north or south
/// when the rows differ, else east or west when the columns differ, else
/// unchanged.
pub open spec fn facing_spec(current: Direction, from: Pos, to: Pos) -> Direction {
    if to.y < from.y {
        Direction::South
    } else if to.y > from.y {
        Direction::North
    } else if to.x < from.x {
        Direction::West
    } else if to.x > from.x {
        Direction::East
    } else {
        current
    }
}

impl Pos {
    pub fn new(x: usize, y: usize) -> (p: Pos)
        ensures
            p == (Pos { x, y }),
    {
        Pos { x, y }
    }

    /// Whether two coordinates name the same tile.
    pub fn same(&self, other: &Pos) -> (r: bool)
        ensures
            r == (*self == *other),
    {
        self.x == other.x && self.y == other.y
    }

    /// Taxicab distance to `other`; `usize::MAX` where it would not fit.
    pub fn distance(&self, other: &Pos) -> (d: usize)
        ensures
            d == if manhattan(*self, *other) <= usize::MAX {
                manhattan(*self, *other)
            } else {
                usize::MAX as int
            },
    {
        let dx: usize = if self.x <= other.x {
            other.x - self.x
        } else {
            self.x - other.x
        };
        let dy: usize = if self.y <= other.y {
            other.y - self.y
        } else {
            self.y - other.y
        };
        if dx > usize::MAX - dy {
            usize::MAX
        } else {
            dx + dy
        }
    }

    /// The neighbouring tile in direction `d`.
    pub fn step(&self, d: Direction) -> (r: Option<Pos>)
        ensures
            r == step_spec(*self, d),
    {
        match d {
            Direction::North => if self.y < usize::MAX {
                Some(Pos { x: self.x, y: self.y + 1 })
            } else {
                None
            },
            Direction::South => if self.y > 0 {
                Some(Pos { x: self.x, y: self.y - 1 })
            } else {
                None
            },
            Direction::East => if self.x < usize::MAX {
                Some(Pos { x: self.x + 1, y: self.y })
            } else {
                None
            },
            Direction::West => if self.x > 0 {
                Some(Pos { x: self.x - 1, y: self.y })
            } else {
                None
            },
        }
    }
}

impl Direction {
    /// What a direction name stands for.
    pub open spec fn parse_spec(s: Seq<char>) -> Option<Direction> {
        if s == "East"@ {
            Some(Direction::East)
        } else if s == "South"@ {
            Some(Direction::South)
        } else if s == "West"@ {
            Some(Direction::West)
        } else if s == "North"@ {
            Some(Direction::North)
        } else {
            None
        }
    }

    /// Reads a direction from its name; `None` for any other text.
    pub fn from_string(dir_string: String) -> (r: Option<Direction>)
        ensures
            r == Direction::parse_spec(dir_string@),
    {
        if dir_string == "East".to_owned() {
            Some(Direction::East)
        } else if dir_string == "South".to_owned() {
            Some(Direction::South)
        } else if dir_string == "West".to_owned() {
            Some(Direction::West)
        } else if dir_string == "North".to_owned() {
            Some(Direction::North)
        } else {
            None
        }
    }

    /// The facing after turning from `from` towards `to`.
    pub fn facing(self, from: Pos, to: Pos) -> (d: Direction)
        ensures
            d == facing_spec(self, from, to),
    {
        if to.y < from.y {
            Direction::South
        } else if to.y > from.y {
            Direction::North
        } else if to.x < from.x {
            Direction::West
        } else if to.x > from.x {
            Direction::East
        } else {
            self
        }
    }
}

impl Default for Direction {
    fn default() -> (d: Direction)
        ensures
            d == Direction::East,
    {
        Direction::East
    }
}

impl AttackType {
    /// What an attack kind's name stands for.
    pub open spec fn parse_spec(s: Seq<char>) -> Option<AttackType> {
        if s == "Melee"@ {
            Some(AttackType::Melee)
        } else if s == "Ranged"@ {
            Some(AttackType::Ranged)
        } else {
            None
        }
    }

    /// Reads an attack kind from its name; `None` for any other text.
    pub fn from_string(string: String) -> (r: Option<AttackType>)
        ensures
            r == AttackType::parse_spec(string@),
    {
        if string == "Melee".to_owned() {
            Some(AttackType::Melee)
        } else if string == "Ranged".to_owned() {
            Some(AttackType::Ranged)
        } else {
            None
        }
    }
}

impl Default for AttackType {
    fn default() -> (k: AttackType)
        ensures
            k == AttackType::Melee,
    {
        AttackType::Melee
    }
}

/// Each adjacent tile is one step away in some direction.
pub proof fn lemma_adjacent_is_step(p: Pos, q: Pos)
    requires
        adjacent(p, q),
    ensures
        exists|d: Direction| step_spec(p, d) == Some(q),
{
    if q.y > p.y {
        assert(step_spec(p, Direction::North) == Some(q));
    } else if q.y < p.y {
        assert(step_spec(p, Direction::South) == Some(q));
    } else if q.x > p.x {
        assert(step_spec(p, Direction::East) == Some(q));
    } else {
        assert(step_spec(p, Direction::West) == Some(q));
    }
}

/// The taxicab distance obeys the triangle inequality.
pub proof fn lemma_manhattan_triangle(a: Pos, b: Pos, c: Pos)
    ensures
        manhattan(a, c) <= manhattan(a, b) + manhattan(b, c),
        manhattan(a, b) == manhattan(b, a),
        manhattan(a, b) >= 0,
        manhattan(a, b) == 0 <==> a == b,
{
}

} // verus!
