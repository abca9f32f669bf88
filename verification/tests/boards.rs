use sudoku::board::Puzzle;
use sudoku::keys::key_of;

fn empty_grid() -> [[u8; 9]; 9] {
    [[0; 9]; 9]
}

#[test]
fn single_clue_is_marked() {
    let mut grid = empty_grid();
    grid[0][0] = 5;
    let p = Puzzle::from_array(&grid);
    let mut clue_count = 0;
    for key in 0..81u8 {
        if p.clue(key) {
            clue_count += 1;
            assert_eq!(key, key_of(0, 0));
        }
    }
    assert_eq!(clue_count, 1);
    assert_eq!(p.get(key_of(0, 0)), Some(5));
    assert_eq!(p.get(key_of(1, 0)), None);
}

#[test]
fn out_of_range_entries_are_empty() {
    let mut grid = empty_grid();
    grid[3][4] = 12;
    grid[5][6] = 9;
    let p = Puzzle::from_array(&grid);
    assert_eq!(p.get(key_of(4, 3)), None);
    assert!(!p.clue(key_of(4, 3)));
    assert_eq!(p.get(key_of(6, 5)), Some(9));
    assert!(p.clue(key_of(6, 5)));
}

#[test]
fn set_overwrites_without_touching_clues() {
    let mut grid = empty_grid();
    grid[0][0] = 5;
    let mut p = Puzzle::from_array(&grid);
    p.set(key_of(0, 0), None);
    assert_eq!(p.get(key_of(0, 0)), None);
    assert!(p.clue(key_of(0, 0)));
    p.set(key_of(2, 1), Some(7));
    assert_eq!(p.get(key_of(2, 1)), Some(7));
    assert!(!p.clue(key_of(2, 1)));
}

#[test]
fn decode_identity_assignment_reproduces_board() {
    let mut grid = empty_grid();
    for r in 0..9 {
        for c in 0..9 {
            grid[r][c] = ((r * 3 + r / 3 + c) % 9 + 1) as u8;
        }
    }
    let mut p = Puzzle::from_array(&grid);
    let mut assignment = Vec::new();
    for key in 0..81u8 {
        assignment.push(p.get(key).unwrap());
    }
    let before: Vec<Option<u8>> = (0..81u8).map(|k| p.get(k)).collect();
    let clues_before: Vec<bool> = (0..81u8).map(|k| p.clue(k)).collect();
    p.decode_assignment(&assignment);
    for key in 0..81u8 {
        assert_eq!(p.get(key), before[key as usize]);
        assert_eq!(p.clue(key), clues_before[key as usize]);
    }
}

#[test]
fn render_distinguishes_clues_from_solved_cells() {
    let mut grid = empty_grid();
    grid[0][0] = 5;
    let mut p = Puzzle::from_array(&grid);
    p.set(key_of(1, 0), Some(3));
    let text = p.render();
    // 10 separator lines frame the 9 rows.
    let sep = "+---+---+---+---+---+---+---+---+---+\n";
    assert_eq!(text.matches(sep).count(), 10);
    // The clue digit is printed plain; the filled-in digit is styled.
    assert!(text.contains(" 5 |"));
    assert!(!text.contains("\u{1b}[1;34m5"));
    assert!(text.contains("\u{1b}[1;34m3\u{1b}[0m"));
    // An empty cell prints as a blank.
    assert!(text.contains("   |"));
}
