use puyo_puyo_game::board::Board;
use puyo_puyo_game::board::Cell;
use puyo_puyo_game::board::PuyoColor;
use puyo_puyo_game::game::Game;
use puyo_puyo_game::game::GameMode;
use puyo_puyo_game::game::Inputs;
use puyo_puyo_game::puyo_pair::PuyoPair;

fn right() -> Inputs {
    let mut inputs = Inputs::none();
    inputs.move_right = true;
    inputs
}

#[test]
fn test_gravity_is_idempotent() {
    let mut board = Board::new(6, 12);
    board.set_cell(1, 3, Cell::Filled(PuyoColor::Red));
    board.set_cell(4, 0, Cell::Filled(PuyoColor::Blue));
    board.set_cell(4, 6, Cell::Filled(PuyoColor::Green));

    assert!(board.apply_gravity());

    let snapshot: Vec<Vec<Option<Cell>>> = (0..6)
        .map(|x| (0..12).map(|y| board.get_cell(x, y)).collect())
        .collect();

    assert!(!board.apply_gravity());

    for x in 0..6 {
        for y in 0..12 {
            assert_eq!(board.get_cell(x, y), snapshot[x][y]);
        }
    }
}

#[test]
fn test_gravity_full_column_does_not_move() {
    let mut board = Board::new(6, 12);
    for y in 0..12 {
        board.set_cell(0, y, Cell::Filled(PuyoColor::Red));
    }

    assert!(!board.apply_gravity());

    for y in 0..12 {
        assert_eq!(board.get_cell(0, y), Some(Cell::Filled(PuyoColor::Red)));
    }
}

#[test]
fn test_gravity_preserves_column_order() {
    let mut board = Board::new(6, 12);
    board.set_cell(2, 3, Cell::Filled(PuyoColor::Red));
    board.set_cell(2, 7, Cell::Filled(PuyoColor::Blue));

    board.apply_gravity();

    assert_eq!(board.get_cell(2, 10), Some(Cell::Filled(PuyoColor::Red)));
    assert_eq!(board.get_cell(2, 11), Some(Cell::Filled(PuyoColor::Blue)));
}

#[test]
fn test_rotation_four_times_returns_to_start() {
    let mut pair = PuyoPair::new(2, 5, PuyoColor::Red, PuyoColor::Blue);

    pair.rotate_right();
    pair.rotate_right();
    pair.rotate_right();
    pair.rotate_right();

    assert_eq!(pair.axis_x(), 2);
    assert_eq!(pair.axis_y(), 5);
    assert_eq!(pair.child_x(), 2);
    assert_eq!(pair.child_y(), 4);
}

#[test]
fn test_find_connected_full_board() {
    let mut board = Board::new(6, 12);
    for x in 0..6 {
        for y in 0..12 {
            board.set_cell(x, y, Cell::Filled(PuyoColor::Red));
        }
    }

    assert_eq!(board.find_connected(0, 0).len(), 72);
    assert_eq!(board.check_erase().len(), 72);

    let positions = board.check_erase();
    board.erase_puyos(&positions);
    assert!(board.is_all_clear());
}

#[test]
fn test_find_connected_empty_start_cell() {
    let board = Board::new(6, 12);

    assert_eq!(board.find_connected(3, 3).len(), 0);
    assert_eq!(board.find_connected(99, 99).len(), 0);
}

#[test]
fn test_piece_lands_and_next_piece_spawns() {
    let mut game = Game::new();
    game.start();

    let (axis_color, child_color) = {
        let pair = game.current_pair().unwrap();
        (pair.axis_color(), pair.child_color())
    };

    // The pair starts at (2, 1) over an empty board: ten full intervals
    // bring the axis to the floor, the eleventh lands it.
    for _ in 0..11 {
        assert_eq!(game.mode(), GameMode::Playing);
        game.update(1000, &Inputs::none());
    }

    assert_eq!(game.mode(), GameMode::Checking);
    assert!(game.current_pair().is_none());
    let board = game.board().unwrap();
    assert_eq!(board.get_cell(2, 11), Some(Cell::Filled(axis_color)));
    assert_eq!(board.get_cell(2, 10), Some(Cell::Filled(child_color)));

    // Two loose cells form no group, so the next tick spawns a new pair.
    game.update(0, &Inputs::none());
    assert_eq!(game.mode(), GameMode::Playing);
    let pair = game.current_pair().unwrap();
    assert_eq!(pair.axis_x(), 2);
    assert_eq!(pair.axis_y(), 1);
    assert_eq!(pair.child_x(), 2);
    assert_eq!(pair.child_y(), 0);
}

#[test]
fn test_blocked_spawn_ends_game() {
    let mut game = Game::new();
    game.start();

    game.board_mut().set_cell(2, 1, Cell::Filled(PuyoColor::Red));

    // The pair sits right on the filled spawn cell, so it lands at once.
    game.update(1000, &Inputs::none());
    assert_eq!(game.mode(), GameMode::Checking);

    // No group to erase, and the spawn coordinate is occupied.
    game.update(0, &Inputs::none());
    assert_eq!(game.mode(), GameMode::GameOver);
    assert!(game.is_game_over());
    assert!(game.current_pair().is_none());
}

#[test]
fn test_cascade_awards_score_through_ticks() {
    let mut game = Game::new();
    game.start();

    // Steer the pair to the rightmost column so its cells stay clear of
    // the prepared group.
    game.update(0, &right());
    game.update(0, &right());
    game.update(0, &right());
    {
        let pair = game.current_pair().unwrap();
        assert_eq!(pair.axis_x(), 5);
    }

    {
        let board = game.board_mut();
        board.set_cell(0, 11, Cell::Filled(PuyoColor::Red));
        board.set_cell(1, 11, Cell::Filled(PuyoColor::Red));
        board.set_cell(2, 11, Cell::Filled(PuyoColor::Red));
        board.set_cell(3, 11, Cell::Filled(PuyoColor::Red));
    }

    for _ in 0..11 {
        game.update(1000, &Inputs::none());
    }
    assert_eq!(game.mode(), GameMode::Checking);

    // Checking: four cells erased on cascade step one is worth 40 points.
    game.update(0, &Inputs::none());
    assert_eq!(game.mode(), GameMode::Erasing);
    assert_eq!(game.score(), 40);
    assert_eq!(game.chain_count(), 1);
    let board = game.board().unwrap();
    assert_eq!(board.get_cell(0, 11), Some(Cell::Empty));
    assert_eq!(board.get_cell(3, 11), Some(Cell::Empty));

    // Erasing shows the removal frame, Falling compacts, and the second
    // Checking finds nothing more: a fresh pair spawns, the chain resets.
    game.update(0, &Inputs::none());
    assert_eq!(game.mode(), GameMode::Falling);
    game.update(0, &Inputs::none());
    assert_eq!(game.mode(), GameMode::Checking);
    game.update(0, &Inputs::none());
    assert_eq!(game.mode(), GameMode::Playing);
    assert_eq!(game.score(), 40);
    assert_eq!(game.chain_count(), 0);
}

#[test]
fn test_wall_kick_through_input_tick() {
    let mut game = Game::new();
    game.start();

    game.update(0, &right());
    game.update(0, &right());
    game.update(0, &right());

    let mut rotate = Inputs::none();
    rotate.rotate_cw = true;
    game.update(0, &rotate);

    let pair = game.current_pair().unwrap();
    assert_eq!(pair.axis_x(), 4);
    assert_eq!(pair.child_x(), 5);
    assert_eq!(pair.child_y(), 1);
}

#[test]
fn test_can_move_down_until_floor() {
    let board = Board::new(6, 12);
    let mut pair = PuyoPair::new(2, 10, PuyoColor::Red, PuyoColor::Blue);

    assert!(pair.can_move_down(&board));
    pair.move_down();
    assert_eq!(pair.axis_y(), 11);
    assert_eq!(pair.child_y(), 10);
    assert!(!pair.can_move_down(&board));
}

#[test]
fn test_cannot_move_down_onto_filled_cell() {
    let mut board = Board::new(6, 12);
    board.set_cell(2, 11, Cell::Filled(PuyoColor::Green));
    let pair = PuyoPair::new(2, 10, PuyoColor::Red, PuyoColor::Blue);

    assert!(!pair.can_move_down(&board));
}

#[test]
fn test_default_game_matches_fresh_game() {
    let game = Game::default();

    assert_eq!(game.mode(), GameMode::Start);
    assert_eq!(game.score(), 0);
    assert_eq!(game.chain_count(), 0);
    assert!(game.board().is_some());
    assert!(game.current_pair().is_none());
}
