use snake::game::{Direction, Game, GameState, Tile, FIELD_COLS, FIELD_LINES};

/// Every `(line, col)` currently holding an apple.
fn apple_cells(game: &Game) -> Vec<(usize, usize)> {
    let mut cells = Vec::new();
    let field = game.field();
    for line in 0..field.len() {
        for col in 0..field[line].len() {
            if matches!(field[line][col], Tile::Apple) {
                cells.push((line, col));
            }
        }
    }
    cells
}

/// Every `(line, col)` currently holding a snake segment, with its age.
fn snake_segments(game: &Game) -> Vec<(usize, usize, u16)> {
    let mut cells = Vec::new();
    let field = game.field();
    for line in 0..field.len() {
        for col in 0..field[line].len() {
            if let Tile::Snake(age) = field[line][col] {
                cells.push((line, col, age));
            }
        }
    }
    cells
}

/// Revert every cell to `Free`.
fn clear_board(game: &mut Game) {
    let lines = game.field().len();
    let cols = game.field()[0].len();
    for line in 0..lines {
        for col in 0..cols {
            game.set_tile(line, col, Tile::Free);
        }
    }
}

/// Move the one apple to `(line, col)`.
fn relocate_apple(game: &mut Game, line: usize, col: usize) {
    for (al, ac) in apple_cells(game) {
        game.set_tile(al, ac, Tile::Free);
    }
    game.set_tile(line, col, Tile::Apple);
}

#[test]
fn fresh_game_defaults() {
    let game = Game::new();
    assert!(matches!(game.state(), GameState::Starting));
    assert_eq!(game.points(), 0);
    assert_eq!(game.head_pos().x, 0);
    assert_eq!(game.head_pos().y, 0);
    let field = game.field();
    assert_eq!(field.len(), FIELD_LINES);
    for line in field {
        assert_eq!(line.len(), FIELD_COLS);
        for tile in line {
            assert!(matches!(tile, Tile::Free));
        }
    }
}

#[test]
fn with_dims_shapes_field() {
    let game = Game::with_dims(3, 7);
    let field = game.field();
    assert_eq!(field.len(), 3);
    for line in field {
        assert_eq!(line.len(), 7);
    }
}

// A restart must place exactly one apple and exactly one starting segment
// on two free cells.  This would fail if the random sampler handed back an
// out-of-range index (the grid access would panic) or a constant occupied
// cell.
#[test]
fn restart_places_apple_and_snake() {
    let mut game = Game::with_dims(5, 5);
    game.move_to(Direction::Right);
    assert!(matches!(game.state(), GameState::Started));
    assert_eq!(game.points(), 0);
    assert_eq!(apple_cells(&game).len(), 1);
    let segments = snake_segments(&game);
    assert_eq!(segments.len(), 1);
    assert_eq!(segments[0].2, 1);
    assert_ne!(
        (segments[0].0, segments[0].1),
        (apple_cells(&game)[0].0, apple_cells(&game)[0].1)
    );
}

// The decay pass runs on every tick, whatever the phase.
#[test]
fn decay_runs_in_every_phase() {
    let mut game = Game::with_dims(3, 3);
    game.set_tile(1, 1, Tile::Snake(3));
    assert!(matches!(game.state(), GameState::Starting));
    game.step();
    assert!(matches!(game.field()[1][1], Tile::Snake(2)));
    game.step();
    assert!(matches!(game.field()[1][1], Tile::Snake(1)));
    game.step();
    assert!(matches!(game.field()[1][1], Tile::Free));
    assert!(matches!(game.state(), GameState::Starting));
}

// Wrap-around never lets the head leave the field.
#[test]
fn wraparound_keeps_head_in_bounds() {
    let mut game = Game::with_dims(3, 3);
    game.move_to(Direction::Right);
    clear_board(&mut game);
    game.set_tile(2, 2, Tile::Apple);
    for _ in 0..7 {
        game.step();
        assert!(matches!(game.state(), GameState::Started));
        assert!(game.head_pos().x < 3);
        assert!(game.head_pos().y < 3);
    }
    // Seven rightward steps from column 0 on a 3-wide field end on column 1.
    assert_eq!(game.head_pos().x, 1);
    assert_eq!(game.head_pos().y, 0);
}

// Requesting the exact opposite direction while the round runs is ignored:
// the next two ticks still move the head rightward, wrapping at the edge.
#[test]
fn reversal_request_is_ignored() {
    let mut game = Game::with_dims(3, 3);
    game.move_to(Direction::Right);
    clear_board(&mut game);
    game.set_tile(0, 1, Tile::Apple);
    game.step();
    assert_eq!(game.points(), 1);
    assert_eq!(game.head_pos().x, 1);
    relocate_apple(&mut game, 2, 0);
    game.move_to(Direction::Left);
    game.step();
    assert_eq!(game.head_pos().x, 2);
    assert_eq!(game.head_pos().y, 0);
    game.step();
    assert_eq!(game.head_pos().x, 0);
    assert_eq!(game.head_pos().y, 0);
    assert!(matches!(game.state(), GameState::Started));
    assert_eq!(game.points(), 1);
}

// Requesting the direction already travelled is a true no-op.
#[test]
fn same_direction_request_is_noop() {
    let mut game = Game::with_dims(4, 4);
    game.move_to(Direction::Down);
    let field_before = game.field().clone();
    let head_before = game.head_pos();
    let points_before = game.points();
    game.move_to(Direction::Down);
    assert_eq!(game.field(), &field_before);
    assert_eq!(game.head_pos(), head_before);
    assert_eq!(game.points(), points_before);
    assert!(matches!(game.state(), GameState::Started));
}

// On a 3x3 grid, head at (0,0) moving right with the apple at line 0,
// column 1: one tick eats it.
#[test]
fn eating_apple_scores() {
    let mut game = Game::with_dims(3, 3);
    game.move_to(Direction::Right);
    clear_board(&mut game);
    game.set_tile(0, 1, Tile::Apple);
    game.step();
    assert_eq!(game.points(), 1);
    assert_eq!(game.head_pos().x, 1);
    assert_eq!(game.head_pos().y, 0);
    assert!(matches!(game.head(), Tile::Snake(2)));
    let apples = apple_cells(&game);
    assert_eq!(apples.len(), 1);
    assert_ne!(apples[0], (0, 1));
}

// Running into one's own trail clears every cell and ends the round in the
// same tick.
#[test]
fn self_collision_ends_round() {
    let mut game = Game::with_dims(3, 3);
    game.move_to(Direction::Right);
    clear_board(&mut game);
    game.set_tile(0, 1, Tile::Apple);
    game.step();
    assert_eq!(game.points(), 1);
    relocate_apple(&mut game, 2, 0);
    game.set_head(Tile::Free);
    game.set_tile(0, 2, Tile::Snake(2));
    game.step();
    assert!(matches!(game.state(), GameState::Ended));
    assert_eq!(game.points(), 1);
    for line in game.field() {
        for tile in line {
            assert!(matches!(tile, Tile::Free));
        }
    }
    game.step();
    assert!(matches!(game.state(), GameState::Ended));
}

// With length 3, after 3 collision-free ticks the trail is exactly 3
// segments long: one fresh stamping per tick, one expiry per tick.
#[test]
fn trail_length_matches_snake_length() {
    let mut game = Game::with_dims(5, 5);
    game.move_to(Direction::Right);
    clear_board(&mut game);
    game.set_tile(0, 1, Tile::Apple);
    game.step();
    assert_eq!(game.points(), 1);
    relocate_apple(&mut game, 0, 2);
    game.step();
    assert_eq!(game.points(), 2);
    relocate_apple(&mut game, 4, 4);
    game.step();
    game.step();
    game.step();
    assert_eq!(game.points(), 2);
    assert!(matches!(game.state(), GameState::Started));
    assert_eq!(snake_segments(&game).len(), 3);
}
