//! Places on the map, the steps between them and the rectangles that hold them.

use vstd::prelude::*;

verus! {

/// One tile of one floor.
#[derive(Debug, Clone, Copy, PartialEq, Eq, PartialOrd, Ord, Hash, Structural)]
pub struct Position {
    pub x: u16,
    pub y: u16,
    pub z: u8,
}

/// A step to one of the eight neighbouring tiles.
#[derive(Debug, Clone, Copy, PartialEq, Eq, Hash, Structural)]
pub enum Direction {
    North,
    East,
    West,
    South,
    NorthEast,
    NorthWest,
    SouthEast,
    SouthWest,
}

/// How far apart two coordinates are.
pub open spec fn gap(a: u16, b: u16) -> int {
    if a >= b {
        a - b
    } else {
        b - a
    }
}

/// A coordinate after a step of `by`, going round at the ends of the map.
pub open spec fn shifted(a: u16, by: int) -> u16 {
    ((a + by) % 65536) as u16
}

impl Direction {
    /// The columns that the step crosses, eastward.
    pub open spec fn dx(self) -> int {
        match self {
            Direction::East | Direction::NorthEast | Direction::SouthEast => 1,
            Direction::West | Direction::NorthWest | Direction::SouthWest => -1,
            _ => 0,
        }
    }

    /// The rows that the step crosses, southward.
    pub open spec fn dy(self) -> int {
        match self {
            Direction::South | Direction::SouthEast | Direction::SouthWest => 1,
            Direction::North | Direction::NorthEast | Direction::NorthWest => -1,
            _ => 0,
        }
    }

    /// The direction whose step is `(dx, dy)`.
    pub fn from_step(dx: i32, dy: i32) -> (r: Option<Direction>)
        ensures
            r matches Some(d) ==> d.dx() == dx && d.dy() == dy,
            r is None ==> !(-1 <= dx <= 1 && -1 <= dy <= 1 && !(dx == 0 && dy == 0)),
    {
        if dx == 0 && dy == -1 {
            Some(Direction::North)
        } else if dx == 1 && dy == 0 {
            Some(Direction::East)
        } else if dx == -1 && dy == 0 {
            Some(Direction::West)
        } else if dx == 0 && dy == 1 {
            Some(Direction::South)
        } else if dx == 1 && dy == -1 {
            Some(Direction::NorthEast)
        } else if dx == -1 && dy == -1 {
            Some(Direction::NorthWest)
        } else if dx == 1 && dy == 1 {
            Some(Direction::SouthEast)
        } else if dx == -1 && dy == 1 {
            Some(Direction::SouthWest)
        } else {
            None
        }
    }

    /// Whether the step crosses a row and a column at once.
    pub fn is_diagonal(&self) -> (r: bool)
        ensures
            r == (self.dx() != 0 && self.dy() != 0),
    {
        match self {
            Direction::North | Direction::East | Direction::West | Direction::South => false,
            _ => true,
        }
    }
}

/// A step is told by the rows and columns it crosses.
pub proof fn lemma_direction_by_step(a: Direction, b: Direction)
    requires
        a.dx() == b.dx(),
        a.dy() == b.dy(),
    ensures
        a == b,
{
}

impl Position {
    pub fn new(x: u16, y: u16, z: u8) -> (p: Position)
        ensures
            p == (Position { x, y, z }),
    {
        Position { x, y, z }
    }

    /// Where a step in `direction` leads.
    pub open spec fn spec_step(self, direction: Direction) -> Position {
        Position { x: shifted(self.x, direction.dx()), y: shifted(self.y, direction.dy()), z: self.z }
    }

    /// Where a step in `direction` leads.
    pub fn step(&self, direction: Direction) -> (p: Position)
        ensures
            p == self.spec_step(direction),
    {
        let x: u16 = match direction {
            Direction::East | Direction::NorthEast | Direction::SouthEast => self.x.wrapping_add(1),
            Direction::West | Direction::NorthWest | Direction::SouthWest => self.x.wrapping_sub(1),
            _ => self.x,
        };
        let y: u16 = match direction {
            Direction::South | Direction::SouthEast | Direction::SouthWest => self.y.wrapping_add(1),
            Direction::North | Direction::NorthEast | Direction::NorthWest => self.y.wrapping_sub(1),
            _ => self.y,
        };
        Position { x, y, z: self.z }
    }

    /// The steps from one tile to the other, where a diagonal step counts as one.
    pub open spec fn spec_distance(self, other: Position) -> int {
        if gap(self.x, other.x) >= gap(self.y, other.y) {
            gap(self.x, other.x)
        } else {
            gap(self.y, other.y)
        }
    }

    /// The steps from one tile to the other, where a diagonal step counts as one.
    pub fn distance(&self, other: &Position) -> (d: u16)
        ensures
            d == self.spec_distance(*other),
    {
        let dx: u16 = if self.x >= other.x { self.x - other.x } else { other.x - self.x };
        let dy: u16 = if self.y >= other.y { self.y - other.y } else { other.y - self.y };
        if dx >= dy {
            dx
        } else {
            dy
        }
    }

    /// Whether `other` lies on the same floor, at most `radius` steps away.
    pub open spec fn spec_is_within(self, other: Position, radius: u16) -> bool {
        self.z == other.z && self.spec_distance(other) <= radius
    }

    /// Whether `other` lies on the same floor, at most `radius` steps away.
    pub fn is_within(&self, other: &Position, radius: u16) -> (r: bool)
        ensures
            r == self.spec_is_within(*other, radius),
    {
        self.z == other.z && self.distance(other) <= radius
    }
}

/// The tiles of a floor from `min_x` to `max_x` and from `min_y` to `max_y`, the ends counted.
#[derive(Debug, Clone, Copy, PartialEq, Eq, Structural)]
pub struct Rect {
    pub min_x: u16,
    pub min_y: u16,
    pub max_x: u16,
    pub max_y: u16,
}

pub open spec fn back(a: u16, by: int) -> u16 {
    if a >= by {
        (a - by) as u16
    } else {
        0
    }
}

pub open spec fn ahead(a: u16, by: int) -> u16 {
    if a + by <= u16::MAX {
        (a + by) as u16
    } else {
        u16::MAX
    }
}

impl Rect {
    pub fn new(min_x: u16, min_y: u16, max_x: u16, max_y: u16) -> (r: Rect)
        ensures
            r == (Rect { min_x, min_y, max_x, max_y }),
    {
        Rect { min_x, min_y, max_x, max_y }
    }

    /// The tile's column and row lie in the rectangle, whatever its floor.
    pub open spec fn holds(self, p: Position) -> bool {
        self.min_x <= p.x <= self.max_x && self.min_y <= p.y <= self.max_y
    }

    /// Whether the tile's column and row lie in the rectangle, whatever its floor.
    pub fn contains(&self, p: &Position) -> (r: bool)
        ensures
            r == self.holds(*p),
    {
        self.min_x <= p.x && p.x <= self.max_x && self.min_y <= p.y && p.y <= self.max_y
    }

    /// The tiles up to `reach` columns and rows away from `center`, as far as the map goes.
    pub open spec fn around(center: Position, reach: (u16, u16)) -> Rect {
        Rect {
            min_x: back(center.x, reach.0 as int),
            min_y: back(center.y, reach.1 as int),
            max_x: ahead(center.x, reach.0 as int),
            max_y: ahead(center.y, reach.1 as int),
        }
    }

    /// The tiles up to `reach` columns and rows away from `center`, as far as the map goes.
    pub fn radius(center: &Position, reach: (u16, u16)) -> (r: Rect)
        ensures
            r == Rect::around(*center, reach),
    {
        Rect {
            min_x: center.x.saturating_sub(reach.0),
            min_y: center.y.saturating_sub(reach.1),
            max_x: center.x.saturating_add(reach.0),
            max_y: center.y.saturating_add(reach.1),
        }
    }

    /// What a player at `center` sees of a floor.
    pub open spec fn viewport(center: Position) -> Rect {
        Rect::around(center, (9, 7))
    }

    /// What a player at `center` sees of its floor.
    pub fn player_viewport(center: &Position) -> (r: Rect)
        ensures
            r == Rect::viewport(*center),
    {
        Rect::radius(center, (9, 7))
    }
}

impl Position {
    /// The tile at an offset, where the map goes so far.
    pub open spec fn offset_by(self, dx: int, dy: int) -> Option<Position> {
        if 0 <= self.x + dx <= u16::MAX && 0 <= self.y + dy <= u16::MAX {
            Some(Position { x: (self.x + dx) as u16, y: (self.y + dy) as u16, z: self.z })
        } else {
            None
        }
    }

    /// The tile at an offset, where the map goes so far.
    pub fn checked_offset(&self, dx: i32, dy: i32) -> (r: Option<Position>)
        ensures
            r == self.offset_by(dx as int, dy as int),
    {
        let x: i64 = self.x as i64 + dx as i64;
        let y: i64 = self.y as i64 + dy as i64;
        if 0 <= x && x <= u16::MAX as i64 && 0 <= y && y <= u16::MAX as i64 {
            Some(Position { x: x as u16, y: y as u16, z: self.z })
        } else {
            None
        }
    }
}

/// North is up the map and east is to its right: a step moves by one row, one column or one of
/// each, on its own floor, and at an edge of the map goes round to the other.
pub proof fn law_a_step_goes_where_its_name_says(p: Position, direction: Direction)
    ensures
        ({
            let to = p.spec_step(direction);
            &&& to.z == p.z
            &&& match direction {
                Direction::North | Direction::NorthEast | Direction::NorthWest => to.y == (if p.y
                    == 0 {
                    65535
                } else {
                    p.y - 1
                }),
                Direction::South | Direction::SouthEast | Direction::SouthWest => to.y == (if p.y
                    == 65535 {
                    0
                } else {
                    p.y + 1
                }),
                Direction::East | Direction::West => to.y == p.y,
            }
            &&& match direction {
                Direction::East | Direction::NorthEast | Direction::SouthEast => to.x == (if p.x
                    == 65535 {
                    0
                } else {
                    p.x + 1
                }),
                Direction::West | Direction::NorthWest | Direction::SouthWest => to.x == (if p.x
                    == 0 {
                    65535
                } else {
                    p.x - 1
                }),
                Direction::North | Direction::South => to.x == p.x,
            }
        }),
{
}

/// A rectangle around a tile holds just the tiles that are no more columns and no more rows away
/// than it reaches; what a player sees is nine columns and seven rows to every side.
pub proof fn law_a_rect_holds_what_it_reaches(center: Position, reach: (u16, u16), p: Position)
    ensures
        Rect::around(center, reach).holds(p) <==> -(reach.0 as int) <= p.x - center.x <= reach.0
            && -(reach.1 as int) <= p.y - center.y <= reach.1,
        Rect::viewport(center).holds(p) <==> -9 <= p.x - center.x <= 9 && -7 <= p.y - center.y
            <= 7,
        Rect::viewport(center).holds(p) <==> Rect::viewport(p).holds(center),
{
}

/// Distance is the number of steps that it takes: it is the same both ways, none only between tiles
/// of one column and row, and no step changes it by more than one.
pub proof fn law_distance_counts_steps(a: Position, b: Position, direction: Direction, n: nat)
    ensures
        a.spec_distance(b) == b.spec_distance(a),
        a.spec_distance(b) == 0 <==> a.x == b.x && a.y == b.y,
        a.spec_distance(b) <= n <==> -n <= a.x - b.x <= n && -n <= a.y - b.y <= n,
        0 < a.x < u16::MAX && 0 < a.y < u16::MAX ==> a.spec_distance(a.spec_step(direction)) == 1,
{
    law_a_step_goes_where_its_name_says(a, direction);
}

/// An offset moves by just that many columns and rows, on the same floor, and to nowhere just where
/// the map does not go so far.
pub proof fn law_an_offset_moves_by_what_it_says(p: Position, dx: int, dy: int)
    ensures
        match p.offset_by(dx, dy) {
            Some(q) => q.x - p.x == dx && q.y - p.y == dy && q.z == p.z,
            None => p.x + dx < 0 || p.x + dx > 65535 || p.y + dy < 0 || p.y + dy > 65535,
        },
{
}

} // verus!
