use chess::position::{
    move_down, move_down_down, move_down_down_left, move_down_left, move_down_right, move_left,
    move_right, move_up, move_up_left, move_up_left_left, move_up_right, move_up_up,
    move_up_up_right, Square,
};

fn sq(file: usize, rank: usize) -> Square {
    Square { file, rank }
}

#[test]
fn single_steps_inside_the_board() {
    assert_eq!(move_right(sq(3, 3)), Ok(sq(4, 3)));
    assert_eq!(move_left(sq(3, 3)), Ok(sq(2, 3)));
    assert_eq!(move_up(sq(3, 3)), Ok(sq(3, 4)));
    assert_eq!(move_down(sq(3, 3)), Ok(sq(3, 2)));
}

#[test]
fn single_steps_fail_off_the_edge() {
    assert_eq!(move_right(sq(7, 3)), Err(()));
    assert_eq!(move_left(sq(0, 3)), Err(()));
    assert_eq!(move_up(sq(3, 7)), Err(()));
    assert_eq!(move_down(sq(3, 0)), Err(()));
}

#[test]
fn diagonal_steps() {
    assert_eq!(move_up_right(sq(3, 3)), Ok(sq(4, 4)));
    assert_eq!(move_up_left(sq(3, 3)), Ok(sq(2, 4)));
    assert_eq!(move_down_right(sq(3, 3)), Ok(sq(4, 2)));
    assert_eq!(move_down_left(sq(3, 3)), Ok(sq(2, 2)));
    assert_eq!(move_up_right(sq(7, 3)), Err(()));
    assert_eq!(move_up_left(sq(0, 3)), Err(()));
    assert_eq!(move_down_left(sq(3, 0)), Err(()));
}

#[test]
fn pawn_double_steps() {
    assert_eq!(move_up_up(sq(4, 1)), Ok(sq(4, 3)));
    assert_eq!(move_up_up(sq(4, 5)), Ok(sq(4, 7)));
    assert_eq!(move_up_up(sq(4, 6)), Err(()));
    assert_eq!(move_down_down(sq(4, 6)), Ok(sq(4, 4)));
    assert_eq!(move_down_down(sq(4, 1)), Err(()));
}

#[test]
fn knight_offsets_short_circuit_at_the_edge() {
    assert_eq!(move_up_up_right(sq(0, 0)), Ok(sq(1, 2)));
    assert_eq!(move_up_left_left(sq(1, 0)), Err(()));
    assert_eq!(move_up_left_left(sq(2, 0)), Ok(sq(0, 1)));
    assert_eq!(move_down_down_left(sq(1, 1)), Err(()));
}
