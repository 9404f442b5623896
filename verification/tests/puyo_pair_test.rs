use puyo_puyo_game::board::Board;
use puyo_puyo_game::board::PuyoColor;
use puyo_puyo_game::puyo_pair::PuyoPair;

#[test]
fn test_create_puyo_pair() {
    let pair = PuyoPair::new(2, 1, PuyoColor::Red, PuyoColor::Blue);

    assert_eq!(pair.axis_x(), 2);
    assert_eq!(pair.axis_y(), 1);
    assert_eq!(pair.axis_color(), PuyoColor::Red);
    assert_eq!(pair.child_color(), PuyoColor::Blue);
}

#[test]
fn test_child_position_initially_above_axis() {
    let pair = PuyoPair::new(2, 1, PuyoColor::Red, PuyoColor::Blue);

    assert_eq!(pair.child_x(), 2);
    assert_eq!(pair.child_y(), 0);
}

#[test]
fn test_can_move_left_when_space_is_available() {
    let pair = PuyoPair::new(2, 1, PuyoColor::Red, PuyoColor::Blue);
    let board = Board::new(6, 12);

    assert!(pair.can_move_left(&board));
}

#[test]
fn test_cannot_move_left_at_left_edge() {
    let pair = PuyoPair::new(0, 1, PuyoColor::Red, PuyoColor::Blue);
    let board = Board::new(6, 12);

    assert!(!pair.can_move_left(&board));
}

#[test]
fn test_can_move_right_when_space_is_available() {
    let pair = PuyoPair::new(2, 1, PuyoColor::Red, PuyoColor::Blue);
    let board = Board::new(6, 12);

    assert!(pair.can_move_right(&board));
}

#[test]
fn test_cannot_move_right_at_right_edge() {
    let pair = PuyoPair::new(5, 1, PuyoColor::Red, PuyoColor::Blue);
    let board = Board::new(6, 12);

    assert!(!pair.can_move_right(&board));
}

#[test]
fn test_move_left_changes_position() {
    let mut pair = PuyoPair::new(2, 1, PuyoColor::Red, PuyoColor::Blue);

    pair.move_left();

    assert_eq!(pair.axis_x(), 1);
    assert_eq!(pair.child_x(), 1);
}

#[test]
fn test_move_right_changes_position() {
    let mut pair = PuyoPair::new(2, 1, PuyoColor::Red, PuyoColor::Blue);

    pair.move_right();

    assert_eq!(pair.axis_x(), 3);
    assert_eq!(pair.child_x(), 3);
}

#[test]
fn test_rotate_right_from_up() {
    let mut pair = PuyoPair::new(2, 1, PuyoColor::Red, PuyoColor::Blue);
    assert_eq!(pair.child_x, 2);
    assert_eq!(pair.child_y, 0);

    pair.rotate_right();
    assert_eq!(pair.child_x, 3);
    assert_eq!(pair.child_y, 1);
}

#[test]
fn test_rotate_right_from_right() {
    let mut pair = PuyoPair::new(2, 1, PuyoColor::Red, PuyoColor::Blue);
    pair.child_x = 3;
    pair.child_y = 1;

    pair.rotate_right();
    assert_eq!(pair.child_x, 2);
    assert_eq!(pair.child_y, 2);
}

#[test]
fn test_rotate_right_from_down() {
    let mut pair = PuyoPair::new(2, 1, PuyoColor::Red, PuyoColor::Blue);
    pair.child_x = 2;
    pair.child_y = 2;

    pair.rotate_right();
    assert_eq!(pair.child_x, 1);
    assert_eq!(pair.child_y, 1);
}

#[test]
fn test_rotate_right_from_left() {
    let mut pair = PuyoPair::new(2, 1, PuyoColor::Red, PuyoColor::Blue);
    pair.child_x = 1;
    pair.child_y = 1;

    pair.rotate_right();
    assert_eq!(pair.child_x, 2);
    assert_eq!(pair.child_y, 0);
}

#[test]
fn test_rotate_left_from_up() {
    let mut pair = PuyoPair::new(2, 1, PuyoColor::Red, PuyoColor::Blue);

    pair.rotate_left();
    assert_eq!(pair.child_x, 1);
    assert_eq!(pair.child_y, 1);
}

#[test]
fn test_can_rotate_right() {
    let board = Board::new(6, 12);
    let pair = PuyoPair::new(2, 1, PuyoColor::Red, PuyoColor::Blue);
    assert!(pair.can_rotate_right(&board));
}

#[test]
fn test_cannot_rotate_right_at_right_edge() {
    let board = Board::new(6, 12);
    let pair = PuyoPair::new(5, 1, PuyoColor::Red, PuyoColor::Blue);
    assert!(!pair.can_rotate_right(&board));
}

#[test]
fn test_wall_kick_right_rotation() {
    let board = Board::new(6, 12);
    let mut pair = PuyoPair::new(5, 1, PuyoColor::Red, PuyoColor::Blue);

    pair.rotate_right_with_wall_kick(&board);

    assert_eq!(pair.axis_x, 4);
    assert_eq!(pair.child_x, 5);
    assert_eq!(pair.child_y, 1);
}

#[test]
fn test_wall_kick_left_rotation() {
    let board = Board::new(6, 12);
    let mut pair = PuyoPair::new(0, 1, PuyoColor::Red, PuyoColor::Blue);

    pair.rotate_left_with_wall_kick(&board);

    assert_eq!(pair.axis_x, 1);
    assert_eq!(pair.child_x, 0);
    assert_eq!(pair.child_y, 1);
}
