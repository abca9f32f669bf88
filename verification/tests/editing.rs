use sudoku::editor::{InputEvent, SudokuInput};

#[test]
fn cursor_wraps_right_from_last_column() {
    let mut s = SudokuInput::new();
    for _ in 0..8 {
        s.move_cursor(0, 1);
    }
    assert_eq!((s.cursor_row(), s.cursor_col()), (0, 8));
    s.move_cursor(0, 1);
    assert_eq!((s.cursor_row(), s.cursor_col()), (0, 0));
}

#[test]
fn cursor_wraps_up_from_first_row() {
    let mut s = SudokuInput::new();
    assert_eq!(s.cursor_row(), 0);
    s.move_cursor(-1, 0);
    assert_eq!((s.cursor_row(), s.cursor_col()), (8, 0));
}

#[test]
fn nine_moves_in_one_direction_return_to_start() {
    let mut s = SudokuInput::new();
    s.move_cursor(1, 0);
    s.move_cursor(0, 1);
    let start = (s.cursor_row(), s.cursor_col());
    for _ in 0..9 {
        s.move_cursor(1, 0);
    }
    assert_eq!((s.cursor_row(), s.cursor_col()), start);
    for _ in 0..9 {
        s.move_cursor(0, -1);
    }
    assert_eq!((s.cursor_row(), s.cursor_col()), start);
}

#[test]
fn set_value_overwrites_and_clears() {
    let mut s = SudokuInput::new();
    s.set_value(Some(5));
    assert_eq!(s.entry(0, 0), Some(5));
    s.set_value(Some(7));
    assert_eq!(s.entry(0, 0), Some(7));
    s.set_value(None);
    assert_eq!(s.entry(0, 0), None);
}

#[test]
fn reset_clears_grid_but_not_cursor() {
    let mut s = SudokuInput::new();
    s.set_value(Some(3));
    s.move_cursor(1, 1);
    s.set_value(Some(4));
    s.reset();
    assert_eq!((s.cursor_row(), s.cursor_col()), (1, 1));
    for r in 0..9 {
        for c in 0..9 {
            assert_eq!(s.entry(r, c), None);
        }
    }
}

#[test]
fn to_array_maps_empty_to_zero() {
    let mut s = SudokuInput::new();
    s.set_value(Some(9));
    s.move_cursor(1, 0);
    s.move_cursor(1, 0);
    s.move_cursor(0, 1);
    s.move_cursor(0, 1);
    s.move_cursor(0, 1);
    s.set_value(Some(1));
    let a = s.to_array();
    assert_eq!(a[0][0], 9);
    assert_eq!(a[2][3], 1);
    assert_eq!(a[1][1], 0);
}

#[test]
fn events_drive_the_editor() {
    let mut s = SudokuInput::new();
    assert!(!s.apply_event(InputEvent::Down));
    assert!(!s.apply_event(InputEvent::Right));
    assert!(!s.apply_event(InputEvent::Digit(6)));
    assert_eq!(s.entry(1, 1), Some(6));
    assert!(!s.apply_event(InputEvent::Clear));
    assert_eq!(s.entry(1, 1), None);
    assert!(!s.apply_event(InputEvent::Digit(2)));
    assert!(!s.apply_event(InputEvent::Other));
    assert_eq!(s.entry(1, 1), Some(2));
    assert!(!s.apply_event(InputEvent::Reset));
    assert_eq!(s.entry(1, 1), None);
    assert!(s.apply_event(InputEvent::Quit));
}
