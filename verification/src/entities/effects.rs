//! Visual effects and the areas they cover.

use crate::entities::agent::Facing;
use crate::entities::position::Position;
use vstd::prelude::*;

verus! {

#[derive(Debug, Clone, Copy, PartialEq, Eq, Hash, Structural)]
pub struct EffectId(pub u16);

#[derive(Debug, Clone, Copy, PartialEq, Eq, Hash, Structural)]
pub struct MissileId(pub u16);

/// Something that flies from one tile to another.
#[derive(Debug, Clone, Copy, PartialEq, Eq, Structural)]
pub struct Missile {
    pub missile_id: MissileId,
    pub from: Position,
    pub to: Position,
}

/// An effect on the tiles that lie at `delta` from `origin`.
#[derive(Debug, PartialEq, Eq)]
pub struct AreaEffect {
    pub effect_id: EffectId,
    pub origin: Position,
    pub delta: Vec<(i8, i8)>,
}

pub struct AreaEffectView {
    pub effect_id: EffectId,
    pub origin: Position,
    pub delta: Seq<(i8, i8)>,
}

impl View for AreaEffect {
    type V = AreaEffectView;

    open spec fn view(&self) -> AreaEffectView {
        AreaEffectView { effect_id: self.effect_id, origin: self.origin, delta: self.delta@ }
    }
}

/// An effect on one tile.
pub open spec fn single_effect(effect_id: EffectId, origin: Position) -> AreaEffectView {
    AreaEffectView { effect_id, origin, delta: seq![(0i8, 0i8)] }
}

impl AreaEffect {
    /// Covering only the tile it names.
    pub fn single(effect_id: EffectId, origin: Position) -> (a: Self)
        ensures
            a.effect_id == effect_id,
            a.origin == origin,
            a.delta@ == seq![(0i8, 0i8)],
            a@ == single_effect(effect_id, origin),
    {
        let mut delta: Vec<(i8, i8)> = Vec::new();
        delta.push((0, 0));
        assert(delta@ =~= seq![(0i8, 0i8)]);
        AreaEffect { effect_id, origin, delta }
    }
}

/// A tile a quarter turn further, clockwise.
pub open spec fn turned(tile: (i8, i8)) -> (i8, i8) {
    ((-tile.1) as i8, tile.0)
}

/// Every tile a quarter turn further, clockwise.
pub open spec fn turned_all(tiles: Seq<(i8, i8)>) -> Seq<(i8, i8)> {
    Seq::new(tiles.len(), |i: int| turned(tiles[i]))
}

/// No tile lies so far out that it cannot be turned.
pub open spec fn turnable(tiles: Seq<(i8, i8)>) -> bool {
    forall|i: int|
        0 <= i < tiles.len() ==> (#[trigger] tiles[i]).0 > i8::MIN && tiles[i].1 > i8::MIN
}

/// A mask and its three quarter-turns.
#[derive(Debug, PartialEq, Eq)]
pub struct Rotations {
    pub north: Vec<(i8, i8)>,
    pub east: Vec<(i8, i8)>,
    pub south: Vec<(i8, i8)>,
    pub west: Vec<(i8, i8)>,
}

impl Rotations {
    /// The mask of a side.
    pub open spec fn side(&self, facing: Facing) -> Seq<(i8, i8)> {
        match facing {
            Facing::North => self.north@,
            Facing::East => self.east@,
            Facing::South => self.south@,
            Facing::West => self.west@,
        }
    }

    /// Each side is the one before it, turned by a quarter.
    pub open spec fn of(&self, mask: Seq<(i8, i8)>) -> bool {
        &&& self.north@ == mask
        &&& self.east@ == turned_all(mask)
        &&& self.south@ == turned_all(turned_all(mask))
        &&& self.west@ == turned_all(turned_all(turned_all(mask)))
    }
}

/// The tiles that an area covers, seen from its origin, for each side it can face, and for a
/// throw that runs diagonally.
#[derive(Debug, PartialEq, Eq)]
pub struct AreaShape {
    pub delta: Rotations,
    pub diagonal: Option<Rotations>,
}

/// The side that a diagonal throw is a turn of north-west of.
pub open spec fn diagonal_side(dx: i32, dy: i32) -> Facing {
    if dx <= 0 && dy <= 0 {
        Facing::North
    } else if dx > 0 && dy <= 0 {
        Facing::East
    } else if dx > 0 {
        Facing::South
    } else {
        Facing::West
    }
}

/// The side that a throw faces, that of the thrower where it goes nowhere.
pub open spec fn straight_side(dx: i32, dy: i32, facing: Facing) -> Facing {
    if dx == 0 && dy == 0 {
        facing
    } else if dx < 0 {
        Facing::West
    } else if dx > 0 {
        Facing::East
    } else if dy < 0 {
        Facing::North
    } else {
        Facing::South
    }
}

impl AreaShape {
    /// Every tile a quarter turn further, clockwise.
    pub fn rotate_cw(tiles: &Vec<(i8, i8)>) -> (r: Vec<(i8, i8)>)
        requires
            turnable(tiles@),
        ensures
            r@ == turned_all(tiles@),
            turnable(r@),
    {
        let mut r: Vec<(i8, i8)> = Vec::new();
        let mut i: usize = 0;
        while i < tiles.len()
            invariant
                i <= tiles@.len(),
                turnable(tiles@),
                r@ == turned_all(tiles@.take(i as int)),
            decreases tiles.len() - i,
        {
            let (dx, dy) = tiles[i];
            assert(tiles@[i as int].1 > i8::MIN);
            r.push((-dy, dx));
            i += 1;
            assert(r@ =~= turned_all(tiles@.take(i as int)));
        }
        assert(tiles@.take(i as int) =~= tiles@);
        assert forall|j: int| 0 <= j < r@.len() implies (#[trigger] r@[j]).0 > i8::MIN && r@[j].1
            > i8::MIN by {
            assert(tiles@[j].0 > i8::MIN && tiles@[j].1 > i8::MIN);
        }
        r
    }

    /// A mask and its three quarter-turns.
    pub fn rotations(mask: Vec<(i8, i8)>) -> (r: Rotations)
        requires
            turnable(mask@),
        ensures
            r.of(mask@),
    {
        let quarter = AreaShape::rotate_cw(&mask);
        let half = AreaShape::rotate_cw(&quarter);
        let three_quarters = AreaShape::rotate_cw(&half);
        Rotations { north: mask, east: quarter, south: half, west: three_quarters }
    }

    /// A shape drawn as it faces north.
    pub fn new(north_facing: Vec<(i8, i8)>) -> (s: Self)
        requires
            turnable(north_facing@),
        ensures
            s.delta.of(north_facing@),
            s.diagonal is None,
    {
        AreaShape { delta: AreaShape::rotations(north_facing), diagonal: None }
    }

    /// A shape drawn as it faces north, and once more as it is thrown north-west.
    pub fn with_diagonal(north_facing: Vec<(i8, i8)>, north_west_facing: Vec<(i8, i8)>) -> (s: Self)
        requires
            turnable(north_facing@),
            turnable(north_west_facing@),
        ensures
            s.delta.of(north_facing@),
            s.diagonal matches Some(diagonal) && diagonal.of(north_west_facing@),
    {
        AreaShape {
            delta: AreaShape::rotations(north_facing),
            diagonal: Some(AreaShape::rotations(north_west_facing)),
        }
    }

    /// The tiles covered, as the shape was drawn.
    pub fn get_delta(&self) -> (r: &Vec<(i8, i8)>)
        ensures
            r@ == self.delta.side(Facing::North),
    {
        &self.delta.north
    }

    /// The tiles covered when facing this side.
    pub fn get_delta_facing(&self, facing: Facing) -> (r: &Vec<(i8, i8)>)
        ensures
            r@ == self.delta.side(facing),
    {
        match facing {
            Facing::North => &self.delta.north,
            Facing::East => &self.delta.east,
            Facing::South => &self.delta.south,
            Facing::West => &self.delta.west,
        }
    }

    /// The tiles covered by a throw at what lies at `offset`.
    pub open spec fn towards(&self, offset: (i32, i32), facing: Facing) -> Seq<(i8, i8)> {
        let (dx, dy) = offset;
        match self.diagonal {
            Some(diagonal) => if dx != 0 && dy != 0 {
                diagonal.side(diagonal_side(dx, dy))
            } else {
                self.delta.side(straight_side(dx, dy, facing))
            },
            None => self.delta.side(straight_side(dx, dy, facing)),
        }
    }

    /// The tiles covered by a throw at what lies at `offset`.
    pub fn get_delta_towards(&self, offset: (i32, i32), facing: Facing) -> (r: &Vec<(i8, i8)>)
        ensures
            r@ == self.towards(offset, facing),
    {
        let (dx, dy) = offset;
        if let Some(diagonal) = &self.diagonal {
            if dx != 0 && dy != 0 {
                return if dx > 0 {
                    if dy > 0 {
                        &diagonal.south
                    } else {
                        &diagonal.east
                    }
                } else {
                    if dy > 0 {
                        &diagonal.west
                    } else {
                        &diagonal.north
                    }
                };
            }
        }
        let side = if dx == 0 && dy == 0 {
            facing
        } else if dx < 0 {
            Facing::West
        } else if dx > 0 {
            Facing::East
        } else if dy < 0 {
            Facing::North
        } else {
            Facing::South
        };
        self.get_delta_facing(side)
    }
}

/// Four quarter turns bring every tile back to where it was.
pub proof fn law_four_turns_are_none(tiles: Seq<(i8, i8)>)
    requires
        turnable(tiles),
    ensures
        turned_all(turned_all(turned_all(turned_all(tiles)))) == tiles,
{
    let four = turned_all(turned_all(turned_all(turned_all(tiles))));
    assert forall|i: int| 0 <= i < tiles.len() implies four[i] == tiles[i] by {
        assert(tiles[i].0 > i8::MIN && tiles[i].1 > i8::MIN);
    }
    assert(four =~= tiles);
}

/// Two quarter turns put every tile on the opposite side of the origin.
pub proof fn law_two_turns_are_opposite(tiles: Seq<(i8, i8)>, i: int)
    requires
        turnable(tiles),
        0 <= i < tiles.len(),
    ensures
        turned_all(turned_all(tiles))[i].0 == -tiles[i].0,
        turned_all(turned_all(tiles))[i].1 == -tiles[i].1,
{
    assert(tiles[i].0 > i8::MIN && tiles[i].1 > i8::MIN);
}

/// A shape drawn as it faces north keeps its tiles and their order whichever side it faces: what
/// was ahead lies to the east of somebody who faces east, behind the drawing for one who faces
/// south, and to the west for one who faces west.
pub proof fn law_a_shape_turns_with_whoever_faces(r: Rotations, mask: Seq<(i8, i8)>, i: int)
    requires
        r.of(mask),
        turnable(mask),
        0 <= i < mask.len(),
    ensures
        forall|facing: Facing| (#[trigger] r.side(facing)).len() == mask.len(),
        r.side(Facing::North)[i] == mask[i],
        r.side(Facing::East)[i].0 == -mask[i].1 && r.side(Facing::East)[i].1 == mask[i].0,
        r.side(Facing::South)[i].0 == -mask[i].0 && r.side(Facing::South)[i].1 == -mask[i].1,
        r.side(Facing::West)[i].0 == mask[i].1 && r.side(Facing::West)[i].1 == -mask[i].0,
{
    assert(mask[i].0 > i8::MIN && mask[i].1 > i8::MIN);
    let east = turned_all(mask);
    let south = turned_all(east);
    assert(east[i] == turned(mask[i]));
    assert(south[i] == turned(east[i]));
    assert(turned_all(south)[i] == turned(south[i]));
}

/// A throw turns the shape the way it goes: a straight one from how it was drawn to the north, and
/// a diagonal one, where the shape was drawn for that, from how it was drawn to the north-west.
/// Without such a drawing a diagonal throw goes east or west, and one that goes nowhere the way
/// its thrower faces.
pub proof fn law_a_throw_turns_the_shape_its_way(
    shape: AreaShape,
    mask: Seq<(i8, i8)>,
    diagonal: Seq<(i8, i8)>,
    offset: (i32, i32),
    facing: Facing,
    i: int,
)
    requires
        shape.delta.of(mask),
        turnable(mask),
        shape.diagonal matches Some(d) ==> d.of(diagonal) && turnable(diagonal),
    ensures
        ({
            let tiles = shape.towards(offset, facing);
            let (dx, dy) = offset;
            if shape.diagonal is Some && dx != 0 && dy != 0 {
                &&& tiles.len() == diagonal.len()
                &&& 0 <= i < tiles.len() ==> {
                    let (x, y) = diagonal[i];
                    if dx < 0 && dy < 0 {
                        tiles[i] == diagonal[i]
                    } else if dx > 0 && dy < 0 {
                        tiles[i].0 == -y && tiles[i].1 == x
                    } else if dx > 0 && dy > 0 {
                        tiles[i].0 == -x && tiles[i].1 == -y
                    } else {
                        tiles[i].0 == y && tiles[i].1 == -x
                    }
                }
            } else {
                &&& tiles.len() == mask.len()
                &&& 0 <= i < tiles.len() ==> {
                    let (x, y) = mask[i];
                    if dx > 0 {
                        tiles[i].0 == -y && tiles[i].1 == x
                    } else if dx < 0 {
                        tiles[i].0 == y && tiles[i].1 == -x
                    } else if dy < 0 {
                        tiles[i] == mask[i]
                    } else if dy > 0 {
                        tiles[i].0 == -x && tiles[i].1 == -y
                    } else {
                        tiles[i] == shape.delta.side(facing)[i]
                    }
                }
            }
        }),
{
    if 0 <= i < mask.len() {
        law_a_shape_turns_with_whoever_faces(shape.delta, mask, i);
    }
    if let Some(d) = shape.diagonal {
        if 0 <= i < diagonal.len() {
            law_a_shape_turns_with_whoever_faces(d, diagonal, i);
        }
    }
}

} // verus!
