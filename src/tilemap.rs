//! The hexagonal tile map.
//!
//! A [`Tile`] is one hexagon in axial coordinates. A [`Joint`] is an edge of a
//! tile together with an orientation, and is the node type of the rail graph.
//!
//! Tile coordinates wrap around at the limits of `i32`, as the release build
//! of plain integer arithmetic does.

use vstd::prelude::*;

verus! {

/// The coordinate after `x` in wrapping `i32` arithmetic.
pub open spec fn inc(x: i32) -> i32 {
    if x == i32::MAX { i32::MIN } else { (x + 1) as i32 }
}

/// The coordinate before `x` in wrapping `i32` arithmetic.
pub open spec fn dec(x: i32) -> i32 {
    if x == i32::MIN { i32::MAX } else { (x - 1) as i32 }
}

fn step_up(x: i32) -> (r: i32)
    ensures
        r == inc(x),
{
    if x == i32::MAX { i32::MIN } else { x + 1 }
}

fn step_down(x: i32) -> (r: i32)
    ensures
        r == dec(x),
{
    if x == i32::MIN { i32::MAX } else { x - 1 }
}

/// An axial tile coordinate. The first coordinate points east, the second
/// north-east.
#[derive(Clone, Copy, Debug, PartialEq, Eq, Structural, Hash, Default)]
pub struct Tile(pub i32, pub i32);

/// The six directions of the grid, counted in sixths of a counterclockwise
/// turn starting at the positive x axis.
#[derive(Clone, Copy, Debug, PartialEq, Eq, Structural, Hash)]
pub enum Direction {
    East,
    NorthEast,
    NorthWest,
    West,
    SouthWest,
    SouthEast,
}

/// The edge of `tile` that faces `side`.
///
/// Used as a track coordinate, `(0, 0)` East is the right edge of the origin
/// tile, and a track starting there runs towards the west.
#[derive(Clone, Copy, Debug, PartialEq, Eq, Structural, Hash)]
pub struct Joint {
    pub tile: Tile,
    pub side: Direction,
}

impl Direction {
    /// The number of sixth turns, in `0..6`.
    pub open spec fn index(self) -> nat {
        match self {
            Direction::East => 0,
            Direction::NorthEast => 1,
            Direction::NorthWest => 2,
            Direction::West => 3,
            Direction::SouthWest => 4,
            Direction::SouthEast => 5,
        }
    }

    /// The direction `n` sixth turns from east, for any integer `n`.
    pub open spec fn from_index(n: int) -> Direction {
        let m = n % 6;
        if m == 0 {
            Direction::East
        } else if m == 1 {
            Direction::NorthEast
        } else if m == 2 {
            Direction::NorthWest
        } else if m == 3 {
            Direction::West
        } else if m == 4 {
            Direction::SouthWest
        } else {
            Direction::SouthEast
        }
    }

    /// Half a turn: three sixth turns.
    pub open spec fn spec_opposite(self) -> Direction {
        match self {
            Direction::East => Direction::West,
            Direction::NorthEast => Direction::SouthWest,
            Direction::NorthWest => Direction::SouthEast,
            Direction::West => Direction::East,
            Direction::SouthWest => Direction::NorthEast,
            Direction::SouthEast => Direction::NorthWest,
        }
    }

    /// Four sixth turns.
    pub open spec fn spec_curve_left(self) -> Direction {
        match self {
            Direction::East => Direction::SouthWest,
            Direction::NorthEast => Direction::SouthEast,
            Direction::NorthWest => Direction::East,
            Direction::West => Direction::NorthEast,
            Direction::SouthWest => Direction::NorthWest,
            Direction::SouthEast => Direction::West,
        }
    }

    /// Two sixth turns.
    pub open spec fn spec_curve_right(self) -> Direction {
        match self {
            Direction::East => Direction::NorthWest,
            Direction::NorthEast => Direction::West,
            Direction::NorthWest => Direction::SouthWest,
            Direction::West => Direction::SouthEast,
            Direction::SouthWest => Direction::East,
            Direction::SouthEast => Direction::NorthEast,
        }
    }

    /// Number of sixth turns from east.
    pub fn sixth_turns(&self) -> (r: u8)
        ensures
            r as nat == self.index(),
            r < 6,
    {
        match self {
            Direction::East => 0,
            Direction::NorthEast => 1,
            Direction::NorthWest => 2,
            Direction::West => 3,
            Direction::SouthWest => 4,
            Direction::SouthEast => 5,
        }
    }

    /// The direction `turns` sixth turns counterclockwise from east; negative
    /// values turn clockwise.
    pub fn from_sixth_turns(turns: i8) -> (r: Direction)
        ensures
            r == Direction::from_index(turns as int),
    {
        let t: i16 = turns as i16;
        let m: i16 = if t >= 0 { t % 6 } else { (t + 132) % 6 };
        assert(m as int == (turns as int) % 6);
        if m == 0 {
            Direction::East
        } else if m == 1 {
            Direction::NorthEast
        } else if m == 2 {
            Direction::NorthWest
        } else if m == 3 {
            Direction::West
        } else if m == 4 {
            Direction::SouthWest
        } else {
            Direction::SouthEast
        }
    }

    /// Half a turn.
    pub fn opposite(&self) -> (r: Direction)
        ensures
            r == self.spec_opposite(),
    {
        match self {
            Direction::East => Direction::West,
            Direction::NorthEast => Direction::SouthWest,
            Direction::NorthWest => Direction::SouthEast,
            Direction::West => Direction::East,
            Direction::SouthWest => Direction::NorthEast,
            Direction::SouthEast => Direction::NorthWest,
        }
    }

    /// Two sixth turns clockwise, where a track curving right ends.
    pub fn curve_right(&self) -> (r: Direction)
        ensures
            r == self.spec_curve_right(),
    {
        match self {
            Direction::East => Direction::NorthWest,
            Direction::NorthEast => Direction::West,
            Direction::NorthWest => Direction::SouthWest,
            Direction::West => Direction::SouthEast,
            Direction::SouthWest => Direction::East,
            Direction::SouthEast => Direction::NorthEast,
        }
    }

    /// Two sixth turns counterclockwise, where a track curving left ends.
    pub fn curve_left(&self) -> (r: Direction)
        ensures
            r == self.spec_curve_left(),
    {
        match self {
            Direction::East => Direction::SouthWest,
            Direction::NorthEast => Direction::SouthEast,
            Direction::NorthWest => Direction::East,
            Direction::West => Direction::NorthEast,
            Direction::SouthWest => Direction::NorthWest,
            Direction::SouthEast => Direction::West,
        }
    }
}

impl Tile {
    pub open spec fn spec_neighbor_to(self, dir: Direction) -> Tile {
        match dir {
            Direction::East => Tile(inc(self.0), self.1),
            Direction::West => Tile(dec(self.0), self.1),
            Direction::NorthEast => Tile(self.0, inc(self.1)),
            Direction::NorthWest => Tile(dec(self.0), inc(self.1)),
            Direction::SouthEast => Tile(inc(self.0), dec(self.1)),
            Direction::SouthWest => Tile(self.0, dec(self.1)),
        }
    }

    /// The tile next to this one in direction `dir`.
    pub fn neighbor_to(&self, dir: Direction) -> (r: Tile)
        ensures
            r == self.spec_neighbor_to(dir),
    {
        match dir {
            Direction::East => Tile(step_up(self.0), self.1),
            Direction::West => Tile(step_down(self.0), self.1),
            Direction::NorthEast => Tile(self.0, step_up(self.1)),
            Direction::NorthWest => Tile(step_down(self.0), step_up(self.1)),
            Direction::SouthEast => Tile(step_up(self.0), step_down(self.1)),
            Direction::SouthWest => Tile(self.0, step_down(self.1)),
        }
    }
}

impl Joint {
    pub open spec fn spec_opposite(self) -> Joint {
        Joint { tile: self.tile.spec_neighbor_to(self.side), side: self.side.spec_opposite() }
    }

    pub open spec fn spec_next_straight(self) -> Joint {
        Joint { tile: self.tile.spec_neighbor_to(self.side.spec_opposite()), side: self.side }
    }

    pub open spec fn spec_next_left(self) -> Joint {
        Joint {
            tile: self.tile.spec_neighbor_to(self.side.spec_curve_left()),
            side: self.side.spec_curve_left().spec_opposite(),
        }
    }

    pub open spec fn spec_next_right(self) -> Joint {
        Joint {
            tile: self.tile.spec_neighbor_to(self.side.spec_curve_right()),
            side: self.side.spec_curve_right().spec_opposite(),
        }
    }

    /// The same grid edge seen from the neighboring tile, facing back.
    pub fn opposite(&self) -> (r: Joint)
        ensures
            r == self.spec_opposite(),
    {
        Joint { tile: self.tile.neighbor_to(self.side), side: self.side.opposite() }
    }

    /// Where a straight track starting at this joint ends.
    pub fn next_straight(&self) -> (r: Joint)
        ensures
            r == self.spec_next_straight(),
    {
        Joint { tile: self.tile.neighbor_to(self.side.opposite()), side: self.side }
    }

    /// Where a left-curving track starting at this joint ends.
    pub fn next_left(&self) -> (r: Joint)
        ensures
            r == self.spec_next_left(),
    {
        let turn = self.side.curve_left();
        Joint { tile: self.tile.neighbor_to(turn), side: turn.opposite() }
    }

    /// Where a right-curving track starting at this joint ends.
    pub fn next_right(&self) -> (r: Joint)
        ensures
            r == self.spec_next_right(),
    {
        let turn = self.side.curve_right();
        Joint { tile: self.tile.neighbor_to(turn), side: turn.opposite() }
    }
}

/// The three turns add three, four and two sixth turns, modulo six.
pub proof fn lemma_turns_add(d: Direction)
    ensures
        d.spec_opposite() == Direction::from_index(d.index() as int + 3),
        d.spec_curve_left() == Direction::from_index(d.index() as int + 4),
        d.spec_curve_right() == Direction::from_index(d.index() as int + 2),
{
}

/// Half a turn twice is no turn; six left or six right curves are a full
/// turn.
pub proof fn lemma_direction_cycles(d: Direction)
    ensures
        d.spec_opposite().spec_opposite() == d,
        d.spec_curve_left().spec_curve_left().spec_curve_left().spec_curve_left().spec_curve_left().spec_curve_left()
            == d,
        d.spec_curve_right().spec_curve_right().spec_curve_right().spec_curve_right().spec_curve_right().spec_curve_right()
            == d,
{
}

/// Seen from the other side twice, a joint is itself.
pub proof fn lemma_joint_opposite_involution(j: Joint)
    ensures
        j.spec_opposite().spec_opposite() == j,
{
}

/// A step to a neighbor and a step back return to the tile.
pub proof fn lemma_neighbor_and_back(t: Tile, d: Direction)
    ensures
        t.spec_neighbor_to(d).spec_neighbor_to(d.spec_opposite()) == t,
{
}

} // verus!
