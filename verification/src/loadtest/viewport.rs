//! Pure geometry: where the tiles of a map description and of a walk's strip belong, as functions
//! of a position, a direction and a floor.

use crate::constants::{PLAYER_VIEWPORT_HEIGHT, PLAYER_VIEWPORT_WIDTH, VIEWPORT_SIZE};
use crate::entities::position::{Direction, Position};
use vstd::prelude::*;

verus! {

/// The columns on either side of the middle of the view.
pub const HALF_WIDTH: i64 = 9;

/// The rows on either side of the middle of the view.
pub const HALF_HEIGHT: i64 = 7;

/// `v`, or the end of the `u16` range that it lies beyond.
pub open spec fn clamped(v: int) -> u16 {
    if v < 0 {
        0
    } else if v > u16::MAX {
        u16::MAX
    } else {
        v as u16
    }
}

/// `v`, or the end of the `u16` range that it lies beyond.
pub fn clamp_to_u16(v: i64) -> (r: u16)
    ensures
        r == clamped(v as int),
{
    if v < 0 {
        0
    } else if v > u16::MAX as i64 {
        u16::MAX
    } else {
        v as u16
    }
}

/// The part of `floor` that is seen around `center`. Floors above and below are seen shifted, by
/// one tile on both axes for each floor between.
pub struct Frame {
    pub x_start: int,
    pub x_end: int,
    pub y_start: int,
    pub y_end: int,
}

pub open spec fn at_least_zero(v: int) -> int {
    if v < 0 {
        0
    } else {
        v
    }
}

pub open spec fn viewed(center: Position, floor: u8) -> Frame {
    let x = center.x + center.z - floor;
    let y = center.y + center.z - floor;
    Frame {
        x_start: at_least_zero(x - HALF_WIDTH),
        x_end: x + HALF_WIDTH,
        y_start: at_least_zero(y - HALF_HEIGHT),
        y_end: y + HALF_HEIGHT,
    }
}

/// The middle of the view of `floor` from `center`.
fn floor_center(center: &Position, floor: u8) -> (r: (i64, i64))
    ensures
        r.0 == center.x + center.z - floor,
        r.1 == center.y + center.z - floor,
{
    let floor_offset: i64 = center.z as i64 - floor as i64;
    (center.x as i64 + floor_offset, center.y as i64 + floor_offset)
}

/// The tile that slot `index` of a map description stands for, `None` where the slot lies past
/// the edge of what is seen.
pub open spec fn described(center: Position, floor: u8, index: int) -> Option<Position> {
    let frame = viewed(center, floor);
    let x = frame.x_start + index % (PLAYER_VIEWPORT_WIDTH as int);
    let y = frame.y_start + index / (PLAYER_VIEWPORT_WIDTH as int);
    if x <= frame.x_end && y <= frame.y_end {
        Some(Position { x: clamped(x), y: clamped(y), z: floor })
    } else {
        None
    }
}

/// The tiles of a map description, row by row.
pub fn describe_map_positions(center: &Position, floor: u8) -> (r: Vec<Option<Position>>)
    ensures
        r.len() == VIEWPORT_SIZE,
        forall|i: int| 0 <= i < VIEWPORT_SIZE ==> r@[i] == described(*center, floor, i),
{
    let (cx, cy) = floor_center(center, floor);
    let x_start: i64 = if cx - HALF_WIDTH < 0 { 0 } else { cx - HALF_WIDTH };
    let y_start: i64 = if cy - HALF_HEIGHT < 0 { 0 } else { cy - HALF_HEIGHT };
    let x_end: i64 = cx + HALF_WIDTH;
    let y_end: i64 = cy + HALF_HEIGHT;
    let mut positions: Vec<Option<Position>> = Vec::new();
    let mut index: usize = 0;
    while index < VIEWPORT_SIZE
        invariant
            index <= VIEWPORT_SIZE,
            positions.len() == index,
            x_start == viewed(*center, floor).x_start,
            y_start == viewed(*center, floor).y_start,
            x_end == viewed(*center, floor).x_end,
            y_end == viewed(*center, floor).y_end,
            0 <= x_start <= 70000,
            0 <= y_start <= 70000,
            forall|i: int| 0 <= i < index ==> positions@[i] == described(*center, floor, i),
        decreases VIEWPORT_SIZE - index,
    {
        let x: i64 = x_start + (index % PLAYER_VIEWPORT_WIDTH) as i64;
        let y: i64 = y_start + (index / PLAYER_VIEWPORT_WIDTH) as i64;
        let position = if x <= x_end && y <= y_end {
            Some(Position::new(clamp_to_u16(x), clamp_to_u16(y), floor))
        } else {
            None
        };
        positions.push(position);
        index += 1;
    }
    positions
}

/// How many whole numbers lie from `from` to `to`, both counted.
pub open spec fn span(from: int, to: int) -> nat {
    if to < from {
        0
    } else {
        (to - from + 1) as nat
    }
}

/// The tiles of row `y` from column `from` to column `to`, west to east.
pub open spec fn row(from: int, to: int, y: int, floor: u8) -> Seq<Position> {
    Seq::new(span(from, to), |i: int| Position { x: clamped(from + i), y: clamped(y), z: floor })
}

/// The tiles of column `x` from row `from` to row `to`, north to south.
pub open spec fn column(x: int, from: int, to: int, floor: u8) -> Seq<Position> {
    Seq::new(span(from, to), |i: int| Position { x: clamped(x), y: clamped(from + i), z: floor })
}

/// The strip that a step in `direction` onto `center` uncovers on `floor`: the row or the column
/// at the edge of the view, and for a diagonal step both, their common corner once.
pub open spec fn uncovered(center: Position, direction: Direction, floor: u8) -> Seq<Position> {
    let f = viewed(center, floor);
    let top = row(f.x_start, f.x_end, f.y_start, floor);
    let bottom = row(f.x_start, f.x_end, f.y_end, floor);
    match direction {
        Direction::North => top,
        Direction::South => bottom,
        Direction::East => column(f.x_end, f.y_start, f.y_end, floor),
        Direction::West => column(f.x_start, f.y_start, f.y_end, floor),
        Direction::NorthEast => top + column(f.x_end, f.y_start + 1, f.y_end, floor),
        Direction::NorthWest => top + column(f.x_start, f.y_start + 1, f.y_end, floor),
        Direction::SouthEast => bottom + column(f.x_end, f.y_start, f.y_end - 1, floor),
        Direction::SouthWest => bottom + column(f.x_start, f.y_start, f.y_end - 1, floor),
    }
}

fn push_row(out: &mut Vec<Position>, from: i64, to: i64, y: i64, floor: u8)
    requires
        to < i64::MAX,
    ensures
        final(out)@ == old(out)@ + row(from as int, to as int, y as int, floor),
{
    let ghost before = out@;
    let mut x: i64 = from;
    assert(out@ =~= before + row(from as int, x - 1, y as int, floor));
    while x <= to
        invariant
            from <= x,
            x <= to + 1 || x == from,
            to < i64::MAX,
            out@ == before + row(from as int, x - 1, y as int, floor),
        decreases to + 1 - x,
    {
        out.push(Position::new(clamp_to_u16(x), clamp_to_u16(y), floor));
        x += 1;
        assert(out@ =~= before + row(from as int, x - 1, y as int, floor));
    }
    assert(out@ =~= before + row(from as int, to as int, y as int, floor));
}

fn push_column(out: &mut Vec<Position>, x: i64, from: i64, to: i64, floor: u8)
    requires
        to < i64::MAX,
    ensures
        final(out)@ == old(out)@ + column(x as int, from as int, to as int, floor),
{
    let ghost before = out@;
    let mut y: i64 = from;
    assert(out@ =~= before + column(x as int, from as int, y - 1, floor));
    while y <= to
        invariant
            from <= y,
            y <= to + 1 || y == from,
            to < i64::MAX,
            out@ == before + column(x as int, from as int, y - 1, floor),
        decreases to + 1 - y,
    {
        out.push(Position::new(clamp_to_u16(x), clamp_to_u16(y), floor));
        y += 1;
        assert(out@ =~= before + column(x as int, from as int, y - 1, floor));
    }
    assert(out@ =~= before + column(x as int, from as int, to as int, floor));
}

/// The strip that a step in `direction` onto `center` uncovers, in the order in which the server
/// sends its tiles.
pub fn expansion_positions(center: &Position, direction: Direction, floor: u8) -> (r: Vec<Position>)
    ensures
        r@ == uncovered(*center, direction, floor),
{
    let (x, y) = floor_center(center, floor);
    let x_start: i64 = if x - HALF_WIDTH < 0 { 0 } else { x - HALF_WIDTH };
    let x_end: i64 = x + HALF_WIDTH;
    let y_start: i64 = if y - HALF_HEIGHT < 0 { 0 } else { y - HALF_HEIGHT };
    let y_end: i64 = y + HALF_HEIGHT;
    let mut positions: Vec<Position> = Vec::new();
    match direction {
        Direction::North => push_row(&mut positions, x_start, x_end, y_start, floor),
        Direction::South => push_row(&mut positions, x_start, x_end, y_end, floor),
        Direction::East => push_column(&mut positions, x_end, y_start, y_end, floor),
        Direction::West => push_column(&mut positions, x_start, y_start, y_end, floor),
        Direction::NorthEast => {
            push_row(&mut positions, x_start, x_end, y_start, floor);
            push_column(&mut positions, x_end, y_start + 1, y_end, floor);
        },
        Direction::NorthWest => {
            push_row(&mut positions, x_start, x_end, y_start, floor);
            push_column(&mut positions, x_start, y_start + 1, y_end, floor);
        },
        Direction::SouthEast => {
            push_row(&mut positions, x_start, x_end, y_end, floor);
            push_column(&mut positions, x_end, y_start, y_end - 1, floor);
        },
        Direction::SouthWest => {
            push_row(&mut positions, x_start, x_end, y_end, floor);
            push_column(&mut positions, x_start, y_start, y_end - 1, floor);
        },
    }
    assert(positions@ =~= uncovered(*center, direction, floor));
    positions
}

/// A view that no edge of the map cuts off.
pub open spec fn inland(center: Position, floor: u8) -> bool {
    let f = viewed(center, floor);
    &&& f.x_end - f.x_start == 2 * HALF_WIDTH
    &&& f.y_end - f.y_start == 2 * HALF_HEIGHT
    &&& f.x_end <= u16::MAX
    &&& f.y_end <= u16::MAX
}

/// Away from the map's edges, no two slots of a map description stand for the same tile, and none
/// is empty.
pub proof fn law_described_tiles_are_distinct(center: Position, floor: u8, i: int, j: int)
    requires
        inland(center, floor),
        0 <= i < VIEWPORT_SIZE,
        0 <= j < VIEWPORT_SIZE,
        described(center, floor, i) == described(center, floor, j),
    ensures
        described(center, floor, i) is Some,
        i == j,
{
}

/// A diagonal step uncovers each of its tiles once.
pub proof fn law_uncovered_tiles_are_distinct(center: Position, direction: Direction, floor: u8)
    requires
        inland(center, floor),
    ensures
        uncovered(center, direction, floor).no_duplicates(),
{
}

/// How many tiles a step uncovers away from the map's edges.
pub proof fn law_uncovered_length(center: Position, direction: Direction, floor: u8)
    requires
        inland(center, floor),
    ensures
        uncovered(center, direction, floor).len() == if direction.dx() != 0 && direction.dy() != 0 {
            PLAYER_VIEWPORT_WIDTH + PLAYER_VIEWPORT_HEIGHT - 1
        } else if direction.dy() != 0 {
            PLAYER_VIEWPORT_WIDTH as int
        } else {
            PLAYER_VIEWPORT_HEIGHT as int
        },
{
}

/// Whether the tile is in the view of somebody at these coordinates: a floor higher up is seen as
/// far shifted to the lower right as it lies higher.
pub open spec fn in_sight(x: int, y: int, z: int, tile: Position) -> bool {
    let higher = z - tile.z;
    let right = tile.x - (x + higher);
    let down = tile.y - (y + higher);
    &&& -(PLAYER_VIEWPORT_WIDTH as int) < 2 * right < PLAYER_VIEWPORT_WIDTH
    &&& -(PLAYER_VIEWPORT_HEIGHT as int) < 2 * down < PLAYER_VIEWPORT_HEIGHT
}

/// A description goes over all that is in view, row by row from the upper left corner, and over
/// nothing else.
pub proof fn law_a_description_goes_over_the_view(
    center: Position,
    floor: u8,
    tile: Position,
    index: int,
)
    requires
        tile.z == floor,
        0 <= index < VIEWPORT_SIZE,
    ensures
        ({
            let left = center.x + center.z - floor - PLAYER_VIEWPORT_WIDTH as int / 2;
            let top = center.y + center.z - floor - PLAYER_VIEWPORT_HEIGHT as int / 2;
            let from_x = if left < 0 {
                0
            } else {
                left
            };
            let from_y = if top < 0 {
                0
            } else {
                top
            };
            let at = (tile.y - from_y) * PLAYER_VIEWPORT_WIDTH + (tile.x - from_x);
            &&& in_sight(center.x as int, center.y as int, center.z as int, tile) ==> 0 <= at
                < VIEWPORT_SIZE && described(center, floor, at) == Some(tile)
            &&& described(center, floor, index) == Some(tile) && tile.x < u16::MAX && tile.y
                < u16::MAX ==> in_sight(
                center.x as int,
                center.y as int,
                center.z as int,
                tile,
            ) && at == index
        }),
{
    let f = viewed(center, floor);
    let w = tile.x - f.x_start;
    let h = tile.y - f.y_start;
    if in_sight(center.x as int, center.y as int, center.z as int, tile) {
        assert(0 <= w < 19);
        assert(0 <= h < 15);
        assert((h * 19 + w) % 19 == w);
        assert((h * 19 + w) / 19 == h);
    }
}

/// A step uncovers just the tiles that are in view after it and were not before.
pub proof fn law_a_step_uncovers_what_comes_into_view(
    center: Position,
    direction: Direction,
    floor: u8,
    tile: Position,
)
    requires
        inland(center, floor),
        tile.z == floor,
    ensures
        uncovered(center, direction, floor).contains(tile) <==> in_sight(
            center.x as int,
            center.y as int,
            center.z as int,
            tile,
        ) && !in_sight(
            center.x - direction.dx(),
            center.y - direction.dy(),
            center.z as int,
            tile,
        ),
{
    let f = viewed(center, floor);
    let seq = uncovered(center, direction, floor);
    let w = span(f.x_start, f.x_end);
    if in_sight(center.x as int, center.y as int, center.z as int, tile) && !in_sight(
        center.x - direction.dx(),
        center.y - direction.dy(),
        center.z as int,
        tile,
    ) {
        let along = tile.x - f.x_start;
        let down = tile.y - f.y_start;
        match direction {
            Direction::North | Direction::South => {
                assert(seq[along] == tile);
            },
            Direction::East | Direction::West => {
                assert(seq[down] == tile);
            },
            Direction::NorthEast | Direction::NorthWest => {
                if down == 0 {
                    assert(seq[along] == tile);
                } else {
                    assert(seq[w + down - 1] == tile);
                }
            },
            Direction::SouthEast | Direction::SouthWest => {
                if tile.y == f.y_end {
                    assert(seq[along] == tile);
                } else {
                    assert(seq[w + down] == tile);
                }
            },
        }
    }
    if seq.contains(tile) {
        let i = seq.index_of(tile);
        assert(seq[i] == tile);
    }
}

} // verus!
