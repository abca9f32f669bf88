use sudoku::board::Puzzle;
use sudoku::engine::SatOutcome;
use sudoku::keys::key_of;

// A classic puzzle with a unique solution, and that solution.
const PUZZLE: [[u8; 9]; 9] = [
    [5, 3, 0, 0, 7, 0, 0, 0, 0],
    [6, 0, 0, 1, 9, 5, 0, 0, 0],
    [0, 9, 8, 0, 0, 0, 0, 6, 0],
    [8, 0, 0, 0, 6, 0, 0, 0, 3],
    [4, 0, 0, 8, 0, 3, 0, 0, 1],
    [7, 0, 0, 0, 2, 0, 0, 0, 6],
    [0, 6, 0, 0, 0, 0, 2, 8, 0],
    [0, 0, 0, 4, 1, 9, 0, 0, 5],
    [0, 0, 0, 0, 8, 0, 0, 7, 9],
];

const SOLUTION: [[u8; 9]; 9] = [
    [5, 3, 4, 6, 7, 8, 9, 1, 2],
    [6, 7, 2, 1, 9, 5, 3, 4, 8],
    [1, 9, 8, 3, 4, 2, 5, 6, 7],
    [8, 5, 9, 7, 6, 1, 4, 2, 3],
    [4, 2, 6, 8, 5, 3, 7, 9, 1],
    [7, 1, 3, 9, 2, 4, 8, 5, 6],
    [9, 6, 1, 5, 3, 7, 2, 8, 4],
    [2, 8, 7, 4, 1, 9, 6, 3, 5],
    [3, 4, 5, 2, 8, 6, 1, 7, 9],
];

fn grid_of(p: &Puzzle) -> [[u8; 9]; 9] {
    let mut out = [[0u8; 9]; 9];
    for r in 0..9 {
        for c in 0..9 {
            out[r][c] = p.get(key_of(c as u8, r as u8)).unwrap_or(0);
        }
    }
    out
}

fn groups_all_distinct(grid: &[[u8; 9]; 9]) -> bool {
    for r in 0..9 {
        let mut seen = [false; 10];
        for c in 0..9 {
            let v = grid[r][c] as usize;
            if v == 0 || seen[v] {
                return false;
            }
            seen[v] = true;
        }
    }
    for c in 0..9 {
        let mut seen = [false; 10];
        for r in 0..9 {
            let v = grid[r][c] as usize;
            if v == 0 || seen[v] {
                return false;
            }
            seen[v] = true;
        }
    }
    for b in 0..9 {
        let mut seen = [false; 10];
        for i in 0..9 {
            let r = (b / 3) * 3 + i / 3;
            let c = (b % 3) * 3 + i % 3;
            let v = grid[r][c] as usize;
            if v == 0 || seen[v] {
                return false;
            }
            seen[v] = true;
        }
    }
    true
}

#[test]
fn known_solvable_puzzle_is_solved() {
    let mut p = Puzzle::from_array(&PUZZLE);
    let outcome = p.solve();
    assert_eq!(outcome, SatOutcome::Satisfiable);
    let solved = grid_of(&p);
    assert!(groups_all_distinct(&solved));
    for r in 0..9 {
        for c in 0..9 {
            if PUZZLE[r][c] != 0 {
                assert_eq!(solved[r][c], PUZZLE[r][c], "clue at row {r}, col {c} changed");
                assert!(p.clue(key_of(c as u8, r as u8)));
            }
        }
    }
    assert_eq!(solved, SOLUTION);
}

#[test]
fn fully_solved_grid_stays_itself() {
    let mut p = Puzzle::from_array(&SOLUTION);
    let outcome = p.solve();
    assert_eq!(outcome, SatOutcome::Satisfiable);
    assert_eq!(grid_of(&p), SOLUTION);
}

#[test]
fn render_after_solve_distinguishes_clues() {
    let mut p = Puzzle::from_array(&PUZZLE);
    assert_eq!(p.solve(), SatOutcome::Satisfiable);
    let text = p.render();
    // The clue at the top-left keeps its plain rendering; every digit the
    // solver filled in is styled, and no cell is left blank.
    assert!(text.contains(" 5 |"));
    let empty_cells = PUZZLE.iter().flatten().filter(|&&v| v == 0).count();
    assert_eq!(text.matches("\u{1b}[1;34m").count(), empty_cells);
    assert!(!text.contains("   |"));
}

#[test]
fn duplicate_in_a_row_is_unsatisfiable() {
    let mut grid = [[0u8; 9]; 9];
    grid[4][1] = 6;
    grid[4][7] = 6;
    let mut p = Puzzle::from_array(&grid);
    let before = grid_of(&p);
    let outcome = p.solve();
    assert_eq!(outcome, SatOutcome::Unsatisfiable);
    // The board is left exactly as submitted.
    assert_eq!(grid_of(&p), before);
    assert_eq!(p.get(key_of(1, 4)), Some(6));
    assert_eq!(p.get(key_of(7, 4)), Some(6));
}

#[test]
fn conflicting_user_entry_is_unsatisfiable_even_against_a_clue() {
    // A non-clue entry conflicting with a clue in the same column: both are
    // encoded as hard equalities, so the check must report unsatisfiable.
    let mut grid = [[0u8; 9]; 9];
    grid[0][0] = 5;
    let mut p = Puzzle::from_array(&grid);
    p.set(key_of(0, 8), Some(5));
    let before = grid_of(&p);
    let outcome = p.solve();
    assert_eq!(outcome, SatOutcome::Unsatisfiable);
    assert_eq!(grid_of(&p), before);
}
