use puyo_puyo_game::board::Cell;
use puyo_puyo_game::board::PuyoColor;
use puyo_puyo_game::game::Game;
use puyo_puyo_game::game::GameMode;

#[test]
fn test_complete_game_scenario() {
    let mut game = Game::new();

    assert_eq!(game.score(), 0);
    assert_eq!(game.chain_count(), 0);
    assert_eq!(game.mode(), GameMode::Start);

    game.start();

    assert_eq!(game.mode(), GameMode::Playing);

    assert!(game.current_pair().is_some());
}

#[test]
fn integration_test_test_game_initialization() {
    let game = Game::new();

    assert_eq!(game.score(), 0);
    assert_eq!(game.chain_count(), 0);
    assert_eq!(game.mode(), GameMode::Start);
    assert!(game.board().is_some());
    assert!(game.current_pair().is_none());
}

#[test]
fn test_board_manipulation() {
    let mut game = Game::new();
    game.start();

    {
        let board = game.board_mut();
        board.set_cell(0, 11, Cell::Filled(PuyoColor::Red));
        board.set_cell(1, 11, Cell::Filled(PuyoColor::Blue));
        board.set_cell(2, 11, Cell::Filled(PuyoColor::Green));
        board.set_cell(3, 11, Cell::Filled(PuyoColor::Yellow));
    }

    if let Some(board) = game.board() {
        assert_eq!(board.get_cell(0, 11), Some(Cell::Filled(PuyoColor::Red)));
        assert_eq!(board.get_cell(1, 11), Some(Cell::Filled(PuyoColor::Blue)));
        assert_eq!(board.get_cell(2, 11), Some(Cell::Filled(PuyoColor::Green)));
        assert_eq!(board.get_cell(3, 11), Some(Cell::Filled(PuyoColor::Yellow)));
    }
}

#[test]
fn test_erasure_detection() {
    let mut game = Game::new();
    game.start();

    {
        let board = game.board_mut();
        board.set_cell(0, 11, Cell::Filled(PuyoColor::Red));
        board.set_cell(1, 11, Cell::Filled(PuyoColor::Red));
        board.set_cell(2, 11, Cell::Filled(PuyoColor::Red));
        board.set_cell(3, 11, Cell::Filled(PuyoColor::Red));
    }

    if let Some(board) = game.board() {
        let erase_positions = board.check_erase();
        assert_eq!(erase_positions.len(), 4);
    }
}

#[test]
fn test_all_clear_detection() {
    let mut game = Game::new();
    game.start();

    if let Some(board) = game.board() {
        assert!(board.is_all_clear());
    }

    game.board_mut().set_cell(0, 11, Cell::Filled(PuyoColor::Red));

    if let Some(board) = game.board() {
        assert!(!board.is_all_clear());
    }

    game.board_mut().set_cell(0, 11, Cell::Empty);

    if let Some(board) = game.board() {
        assert!(board.is_all_clear());
    }
}

#[test]
fn test_game_over_detection() {
    let mut game = Game::new();
    game.start();

    assert!(!game.is_game_over());
    assert_eq!(game.mode(), GameMode::Playing);

    {
        let board = game.board_mut();
        board.set_cell(2, 1, Cell::Filled(PuyoColor::Red));
        board.set_cell(2, 0, Cell::Filled(PuyoColor::Blue));
    }
}

#[test]
fn test_restart_resets_game_state() {
    let mut game = Game::new();
    game.start();

    game.board_mut().set_cell(0, 11, Cell::Filled(PuyoColor::Red));

    assert!(game.current_pair().is_some());

    game.restart();

    assert_eq!(game.score(), 0);
    assert_eq!(game.chain_count(), 0);
    assert_eq!(game.mode(), GameMode::Playing);
    assert!(game.current_pair().is_some());
}

#[test]
fn test_score_management() {
    let mut game = Game::new();
    game.start();

    assert_eq!(game.score(), 0);

    game.add_score(4, 1);
    assert_eq!(game.score(), 40);

    game.add_score(4, 2);
    assert_eq!(game.score(), 120);
}

#[test]
fn test_chain_management() {
    let mut game = Game::new();
    game.start();

    assert_eq!(game.chain_count(), 0);

    game.increment_chain();
    assert_eq!(game.chain_count(), 1);

    game.increment_chain();
    assert_eq!(game.chain_count(), 2);

    game.reset_chain();
    assert_eq!(game.chain_count(), 0);
}

#[test]
fn test_all_clear_bonus() {
    let mut game = Game::new();
    game.start();

    let initial_score = game.score();

    game.add_all_clear_bonus();

    assert_eq!(game.score(), initial_score + 5000);
}
