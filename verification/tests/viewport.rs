//! Which tiles a description and a step uncover.

use rustibia::constants::{PLAYER_VIEWPORT_HEIGHT, PLAYER_VIEWPORT_WIDTH, VIEWPORT_SIZE};
use rustibia::entities::position::{Direction, Position};
use rustibia::loadtest::viewport::{clamp_to_u16, describe_map_positions, expansion_positions};


#[test]
fn describe_map_places_tiles_row_major_around_the_center() {
    let center = Position::new(200, 200, 7);
    let positions: Vec<Option<Position>> = describe_map_positions(&center, 7);

    let center_index =
        (PLAYER_VIEWPORT_HEIGHT / 2) * PLAYER_VIEWPORT_WIDTH + PLAYER_VIEWPORT_WIDTH / 2;
    assert_eq!(positions[center_index], Some(center));
    assert_eq!(
        positions[center_index - PLAYER_VIEWPORT_WIDTH],
        Some(Position::new(200, 199, 7))
    );
    assert_eq!(
        positions[center_index + 1],
        Some(Position::new(201, 200, 7))
    );

    let half_w = (PLAYER_VIEWPORT_WIDTH / 2) as u16;
    let half_h = (PLAYER_VIEWPORT_HEIGHT / 2) as u16;
    assert_eq!(
        positions[0],
        Some(Position::new(200 - half_w, 200 - half_h, 7))
    );
}

#[test]
fn describe_map_applies_the_floor_offset() {
    let center = Position::new(200, 200, 7);
    let positions: Vec<Option<Position>> = describe_map_positions(&center, 5);

    let center_index =
        (PLAYER_VIEWPORT_HEIGHT / 2) * PLAYER_VIEWPORT_WIDTH + PLAYER_VIEWPORT_WIDTH / 2;
    // floor_offset = center.z (7) - floor (5) = 2, shifting both axes by 2.
    assert_eq!(positions[center_index], Some(Position::new(202, 202, 5)));
}

#[test]
fn describe_map_skips_slots_past_the_clamped_rect_at_the_map_edge() {
    let center = Position::new(3, 3, 7);
    let positions: Vec<Option<Position>> = describe_map_positions(&center, 7);

    // x_start = (3 - 9).max(0) = 0, x_end = 3 + 9 = 12: 13 of 19 columns are real.
    // y_start = (3 - 7).max(0) = 0, y_end = 3 + 7 = 10: 11 of 15 rows are real.
    for row in 0..PLAYER_VIEWPORT_HEIGHT {
        for col in 0..PLAYER_VIEWPORT_WIDTH {
            let index = row * PLAYER_VIEWPORT_WIDTH + col;
            let expected = if col <= 12 && row <= 10 {
                Some(Position::new(col as u16, row as u16, 7))
            } else {
                None
            };
            assert_eq!(positions[index], expected, "row {row} col {col}");
        }
    }
}

#[test]
fn an_east_step_uncovers_a_north_to_south_column_at_x_end() {
    let from = Position::new(100, 100, 7);
    let positions = expansion_positions(&from, Direction::East, 7);

    let x_end = 100 + (PLAYER_VIEWPORT_WIDTH / 2) as u16;
    let y_start = 100 - (PLAYER_VIEWPORT_HEIGHT / 2) as u16;
    assert_eq!(positions.len(), PLAYER_VIEWPORT_HEIGHT);
    assert_eq!(positions[0], Position::new(x_end, y_start, 7));
    assert_eq!(
        positions[PLAYER_VIEWPORT_HEIGHT / 2],
        Position::new(x_end, 100, 7)
    );
    assert_eq!(
        positions[PLAYER_VIEWPORT_HEIGHT - 1],
        Position::new(x_end, y_start + PLAYER_VIEWPORT_HEIGHT as u16 - 1, 7)
    );
}

#[test]
fn a_north_step_uncovers_a_west_to_east_row_at_y_start() {
    let from = Position::new(100, 100, 7);
    let positions = expansion_positions(&from, Direction::North, 7);

    let x_start = 100 - (PLAYER_VIEWPORT_WIDTH / 2) as u16;
    let y_start = 100 - (PLAYER_VIEWPORT_HEIGHT / 2) as u16;
    assert_eq!(positions.len(), PLAYER_VIEWPORT_WIDTH);
    assert_eq!(positions[0], Position::new(x_start, y_start, 7));
    assert_eq!(
        positions[PLAYER_VIEWPORT_WIDTH / 2],
        Position::new(100, y_start, 7)
    );
    assert_eq!(
        positions[PLAYER_VIEWPORT_WIDTH - 1],
        Position::new(x_start + PLAYER_VIEWPORT_WIDTH as u16 - 1, y_start, 7)
    );
}

#[test]
fn a_northeast_step_uncovers_an_l_shaped_strip() {
    let from = Position::new(100, 100, 7);
    let positions = expansion_positions(&from, Direction::NorthEast, 7);

    let x_start = 100 - (PLAYER_VIEWPORT_WIDTH / 2) as u16;
    let x_end = 100 + (PLAYER_VIEWPORT_WIDTH / 2) as u16;
    let y_start = 100 - (PLAYER_VIEWPORT_HEIGHT / 2) as u16;
    let y_end = 100 + (PLAYER_VIEWPORT_HEIGHT / 2) as u16;

    assert_eq!(
        positions.len(),
        PLAYER_VIEWPORT_WIDTH + PLAYER_VIEWPORT_HEIGHT - 1
    );
    assert_eq!(positions[0], Position::new(x_start, y_start, 7));
    assert_eq!(
        positions[PLAYER_VIEWPORT_WIDTH - 1],
        Position::new(x_end, y_start, 7)
    );
    assert_eq!(
        positions[PLAYER_VIEWPORT_WIDTH],
        Position::new(x_end, y_start + 1, 7)
    );
    assert_eq!(
        positions[PLAYER_VIEWPORT_WIDTH + PLAYER_VIEWPORT_HEIGHT - 2],
        Position::new(x_end, y_end, 7)
    );
}

#[test]
fn a_southwest_step_uncovers_an_l_shaped_strip() {
    let from = Position::new(100, 100, 7);
    let positions = expansion_positions(&from, Direction::SouthWest, 7);

    let x_start = 100 - (PLAYER_VIEWPORT_WIDTH / 2) as u16;
    let x_end = 100 + (PLAYER_VIEWPORT_WIDTH / 2) as u16;
    let y_start = 100 - (PLAYER_VIEWPORT_HEIGHT / 2) as u16;
    let y_end = 100 + (PLAYER_VIEWPORT_HEIGHT / 2) as u16;

    assert_eq!(
        positions.len(),
        PLAYER_VIEWPORT_WIDTH + PLAYER_VIEWPORT_HEIGHT - 1
    );
    assert_eq!(positions[0], Position::new(x_start, y_end, 7));
    assert_eq!(
        positions[PLAYER_VIEWPORT_WIDTH - 1],
        Position::new(x_end, y_end, 7)
    );
    assert_eq!(
        positions[PLAYER_VIEWPORT_WIDTH],
        Position::new(x_start, y_start, 7)
    );
    assert_eq!(
        positions[PLAYER_VIEWPORT_WIDTH + PLAYER_VIEWPORT_HEIGHT - 2],
        Position::new(x_start, y_end - 1, 7)
    );
}

#[test]
fn a_view_has_as_many_places_as_the_wire_sends() {
    let center = Position::new(200, 200, 7);
    assert_eq!(describe_map_positions(&center, 7).len(), VIEWPORT_SIZE);
    assert_eq!(clamp_to_u16(-5), 0);
    assert_eq!(clamp_to_u16(70000), u16::MAX);
    assert_eq!(clamp_to_u16(1234), 1234);
}
