use puyo_puyo_game::board::Board;
use puyo_puyo_game::board::Cell;
use puyo_puyo_game::board::PuyoColor;

#[test]
fn test_create_board() {
    let board = Board::new(6, 12);

    assert_eq!(board.cols(), 6);
    assert_eq!(board.rows(), 12);
}

#[test]
fn test_all_cells_are_empty_initially() {
    let board = Board::new(6, 12);

    for x in 0..board.cols() {
        for y in 0..board.rows() {
            assert_eq!(board.get_cell(x, y), Some(Cell::Empty));
        }
    }
}

#[test]
fn test_set_and_get_cell() {
    let mut board = Board::new(6, 12);

    board.set_cell(2, 5, Cell::Filled(PuyoColor::Red));

    assert_eq!(board.get_cell(2, 5), Some(Cell::Filled(PuyoColor::Red)));
}

#[test]
fn test_get_cell_out_of_bounds() {
    let board = Board::new(6, 12);

    assert_eq!(board.get_cell(10, 20), None);
}

#[test]
fn test_find_connected_same_color_horizontal() {
    let mut board = Board::new(6, 12);
    board.set_cell(0, 11, Cell::Filled(PuyoColor::Red));
    board.set_cell(1, 11, Cell::Filled(PuyoColor::Red));
    board.set_cell(2, 11, Cell::Filled(PuyoColor::Red));
    board.set_cell(3, 11, Cell::Filled(PuyoColor::Red));

    let connected = board.find_connected(0, 11);

    assert_eq!(connected.len(), 4);
}

#[test]
fn test_find_connected_same_color_square() {
    let mut board = Board::new(6, 12);
    board.set_cell(1, 10, Cell::Filled(PuyoColor::Red));
    board.set_cell(2, 10, Cell::Filled(PuyoColor::Red));
    board.set_cell(1, 11, Cell::Filled(PuyoColor::Red));
    board.set_cell(2, 11, Cell::Filled(PuyoColor::Red));

    let connected = board.find_connected(1, 10);

    assert_eq!(connected.len(), 4);
}

#[test]
fn test_find_connected_different_colors() {
    let mut board = Board::new(6, 12);
    board.set_cell(1, 10, Cell::Filled(PuyoColor::Red));
    board.set_cell(2, 10, Cell::Filled(PuyoColor::Blue));
    board.set_cell(1, 11, Cell::Filled(PuyoColor::Blue));
    board.set_cell(2, 11, Cell::Filled(PuyoColor::Red));

    let connected = board.find_connected(1, 10);

    assert_eq!(connected.len(), 1);
}

#[test]
fn test_check_erase_4_connected() {
    let mut board = Board::new(6, 12);
    board.set_cell(0, 11, Cell::Filled(PuyoColor::Red));
    board.set_cell(1, 11, Cell::Filled(PuyoColor::Red));
    board.set_cell(2, 11, Cell::Filled(PuyoColor::Red));
    board.set_cell(3, 11, Cell::Filled(PuyoColor::Red));

    let erase_positions = board.check_erase();

    assert_eq!(erase_positions.len(), 4);
}

#[test]
fn test_check_erase_less_than_4() {
    let mut board = Board::new(6, 12);
    board.set_cell(0, 11, Cell::Filled(PuyoColor::Red));
    board.set_cell(1, 11, Cell::Filled(PuyoColor::Red));
    board.set_cell(2, 11, Cell::Filled(PuyoColor::Red));

    let erase_positions = board.check_erase();

    assert_eq!(erase_positions.len(), 0);
}

#[test]
fn test_check_erase_multiple_groups() {
    let mut board = Board::new(6, 12);
    board.set_cell(0, 11, Cell::Filled(PuyoColor::Red));
    board.set_cell(1, 11, Cell::Filled(PuyoColor::Red));
    board.set_cell(2, 11, Cell::Filled(PuyoColor::Red));
    board.set_cell(3, 11, Cell::Filled(PuyoColor::Red));

    board.set_cell(5, 8, Cell::Filled(PuyoColor::Blue));
    board.set_cell(5, 9, Cell::Filled(PuyoColor::Blue));
    board.set_cell(5, 10, Cell::Filled(PuyoColor::Blue));
    board.set_cell(5, 11, Cell::Filled(PuyoColor::Blue));

    let erase_positions = board.check_erase();

    assert_eq!(erase_positions.len(), 8);
}

#[test]
fn test_erase_puyos() {
    let mut board = Board::new(6, 12);
    board.set_cell(0, 11, Cell::Filled(PuyoColor::Red));
    board.set_cell(1, 11, Cell::Filled(PuyoColor::Red));
    board.set_cell(2, 11, Cell::Filled(PuyoColor::Red));
    board.set_cell(3, 11, Cell::Filled(PuyoColor::Red));

    let erase_positions = board.check_erase();
    board.erase_puyos(&erase_positions);

    assert_eq!(board.get_cell(0, 11), Some(Cell::Empty));
    assert_eq!(board.get_cell(1, 11), Some(Cell::Empty));
    assert_eq!(board.get_cell(2, 11), Some(Cell::Empty));
    assert_eq!(board.get_cell(3, 11), Some(Cell::Empty));
}

#[test]
fn test_apply_gravity() {
    let mut board = Board::new(6, 12);
    board.set_cell(2, 5, Cell::Filled(PuyoColor::Red));
    board.set_cell(2, 11, Cell::Filled(PuyoColor::Blue));

    board.apply_gravity();

    assert_eq!(board.get_cell(2, 5), Some(Cell::Empty));
    assert_eq!(board.get_cell(2, 10), Some(Cell::Filled(PuyoColor::Red)));
    assert_eq!(board.get_cell(2, 11), Some(Cell::Filled(PuyoColor::Blue)));
}

#[test]
fn test_apply_gravity_multiple_puyos() {
    let mut board = Board::new(6, 12);
    board.set_cell(1, 5, Cell::Filled(PuyoColor::Red));
    board.set_cell(2, 5, Cell::Filled(PuyoColor::Blue));
    board.set_cell(3, 5, Cell::Filled(PuyoColor::Green));

    board.apply_gravity();

    assert_eq!(board.get_cell(1, 11), Some(Cell::Filled(PuyoColor::Red)));
    assert_eq!(board.get_cell(2, 11), Some(Cell::Filled(PuyoColor::Blue)));
    assert_eq!(board.get_cell(3, 11), Some(Cell::Filled(PuyoColor::Green)));
}

#[test]
fn test_apply_gravity_stacked_puyos() {
    let mut board = Board::new(6, 12);
    board.set_cell(2, 5, Cell::Filled(PuyoColor::Red));
    board.set_cell(2, 6, Cell::Filled(PuyoColor::Blue));
    board.set_cell(2, 7, Cell::Filled(PuyoColor::Green));

    board.apply_gravity();

    assert_eq!(board.get_cell(2, 9), Some(Cell::Filled(PuyoColor::Red)));
    assert_eq!(board.get_cell(2, 10), Some(Cell::Filled(PuyoColor::Blue)));
    assert_eq!(board.get_cell(2, 11), Some(Cell::Filled(PuyoColor::Green)));
}

#[test]
fn test_apply_gravity_l_shape() {
    let mut board = Board::new(6, 12);
    board.set_cell(2, 10, Cell::Filled(PuyoColor::Red));
    board.set_cell(2, 11, Cell::Filled(PuyoColor::Red));

    board.set_cell(2, 9, Cell::Filled(PuyoColor::Blue));
    board.set_cell(3, 9, Cell::Filled(PuyoColor::Blue));

    board.apply_gravity();

    assert_eq!(board.get_cell(2, 9), Some(Cell::Filled(PuyoColor::Blue)));
    assert_eq!(board.get_cell(3, 9), Some(Cell::Empty));
    assert_eq!(board.get_cell(3, 11), Some(Cell::Filled(PuyoColor::Blue)));
}
