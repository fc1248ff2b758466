use room_mvp::cursor::{
    clear_to_line_end, hide_cursor, move_down_lines, move_left, move_right, move_to,
    move_to_column, move_up_lines, restore_position, save_position, show,
};

#[test]
fn absolute_position_is_well_formed() {
    assert_eq!(move_to(3, 5), "\x1b[3;5H");
}

#[test]
fn line_navigation_shortcuts() {
    assert_eq!(move_down_lines(0), "");
    assert_eq!(move_down_lines(2), "\x1b[2E");
    assert_eq!(move_up_lines(1), "\x1b[1F");
}

#[test]
fn relative_moves_omit_zero_ops() {
    assert_eq!(move_right(0), "");
    assert_eq!(move_left(3), "\x1b[3D");
}

#[test]
fn column_moves_and_fixed_sequences() {
    assert_eq!(move_to_column(12), "\x1b[12G");
    assert_eq!(move_right(7), "\x1b[7C");
    assert_eq!(move_left(0), "");
    assert_eq!(move_up_lines(0), "");
    assert_eq!(save_position(), "\x1b[s");
    assert_eq!(restore_position(), "\x1b[u");
    assert_eq!(hide_cursor(), "\x1b[?25l");
    assert_eq!(show(), "\x1b[?25h");
    assert_eq!(clear_to_line_end(), "\x1b[K");
}

#[test]
fn absolute_position_with_large_numbers() {
    assert_eq!(move_to(65535, 10), "\x1b[65535;10H");
    assert_eq!(move_to(0, 0), "\x1b[0;0H");
}
