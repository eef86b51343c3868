//! Spell groups, areas and positions.

use rustibia::entities::agent::Facing;
use rustibia::entities::effects::{AreaEffect, AreaShape, EffectId};
use rustibia::entities::position::{Direction, Position, Rect};
use rustibia::entities::spells::SpellGroup;

#[test]
fn the_group_wire_ids_are_pinned() {
    assert_eq!(SpellGroup::Attack.as_id(), 0);
    assert_eq!(SpellGroup::Healing.as_id(), 1);
    assert_eq!(SpellGroup::Support.as_id(), 2);
}

#[test]
fn four_quarter_turns_bring_a_shape_back() {
    let mask = vec![(0, -1), (1, -2), (-3, -4)];
    let mut turned = mask.clone();
    for _ in 0..4 {
        turned = AreaShape::rotate_cw(&turned);
    }
    assert_eq!(turned, mask);
    assert_eq!(AreaShape::rotate_cw(&mask), vec![(1, 0), (2, 1), (4, -3)]);
}

#[test]
fn a_shape_faces_where_its_caster_faces() {
    let wave = AreaShape::new(vec![(0, -1), (0, -2)]);
    assert_eq!(wave.get_delta_facing(Facing::North), &vec![(0, -1), (0, -2)]);
    assert_eq!(wave.get_delta_facing(Facing::East), &vec![(1, 0), (2, 0)]);
    assert_eq!(wave.get_delta_facing(Facing::South), &vec![(0, 1), (0, 2)]);
    assert_eq!(wave.get_delta_facing(Facing::West), &vec![(-1, 0), (-2, 0)]);
}

#[test]
fn a_single_effect_covers_its_own_tile() {
    let at = Position::new(3, 4, 5);
    let effect = AreaEffect::single(EffectId(9), at);
    assert_eq!(effect.effect_id, EffectId(9));
    assert_eq!(effect.origin, at);
    assert_eq!(effect.delta, vec![(0, 0)]);
}

#[test]
fn a_step_moves_by_one_and_a_diagonal_counts_as_one() {
    let at = Position::new(10, 10, 7);
    assert_eq!(at.step(Direction::NorthEast), Position::new(11, 9, 7));
    assert_eq!(at.distance(&Position::new(13, 11, 7)), 3);
    assert!(at.is_within(&Position::new(11, 11, 7), 1));
    assert!(!at.is_within(&Position::new(11, 11, 6), 1));
    assert!(Direction::NorthEast.is_diagonal());
    assert!(!Direction::North.is_diagonal());
}

#[test]
fn a_viewport_stops_at_the_edge_of_the_map() {
    let rect = Rect::player_viewport(&Position::new(3, 100, 7));
    assert!(rect.contains(&Position::new(0, 93, 7)));
    assert!(rect.contains(&Position::new(12, 107, 7)));
    assert!(!rect.contains(&Position::new(13, 100, 7)));
    assert!(!rect.contains(&Position::new(3, 92, 7)));
    assert_eq!(Position::new(3, 3, 7).checked_offset(-4, 0), None);
}
