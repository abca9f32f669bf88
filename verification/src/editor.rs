//! The interactive grid-editing state machine: a 9x9 grid of optional
//! digits and a cursor that wraps cyclically in both dimensions. Input
//! events become board mutations here; reading keys and drawing the screen
//! live outside the library.

use vstd::prelude::*;
use vstd::arithmetic::div_mod::{
    lemma_fundamental_div_mod, lemma_mod_add_multiples_vanish, lemma_mod_multiples_vanish,
};

verus! {

/// One step of a cursor coordinate under a direction delta, reduced
/// modulo 9 so it wraps rather than clamps.
pub open spec fn wrap_step(c: int, d: int) -> int {
    (c + d) % 9
}

/// The cursor coordinate after `n` repetitions of the same delta.
pub open spec fn wrap_iter(c: int, d: int, n: nat) -> int
    decreases n,
{
    if n == 0 {
        c
    } else {
        wrap_step(wrap_iter(c, d, (n - 1) as nat), d)
    }
}

proof fn lemma_wrap_iter_linear(c: int, d: int, n: nat)
    requires
        0 <= c < 9,
    ensures
        wrap_iter(c, d, n) == (c + n * d) % 9,
    decreases n,
{
    if n == 0 {
        lemma_small_mod_int(c);
    } else {
        lemma_wrap_iter_linear(c, d, (n - 1) as nat);
        let m = (n - 1) as int;
        let a = c + m * d;
        lemma_fundamental_div_mod(a, 9);
        lemma_mod_multiples_vanish(a / 9, a % 9 + d, 9);
        assert(m * d + d == n * d) by (nonlinear_arith)
            requires
                m == n - 1,
        ;
    }
}

proof fn lemma_small_mod_int(c: int)
    requires
        0 <= c < 9,
    ensures
        c % 9 == c,
{
    lemma_mod_multiples_vanish(0, c, 9);
}

/// Law: moving right from the last column wraps to column 0, and moving up
/// from the first row wraps to row 8; the cursor wraps rather than clamps.
pub proof fn lemma_cursor_wraparound()
    ensures
        wrap_step(8, 1) == 0,
        wrap_step(0, -1) == 8,
{
}

/// Law: repeating any single-direction move nine times returns the cursor
/// to its starting coordinate; the grid surface is a torus of period 9.
pub proof fn lemma_nine_moves_return_to_start(c: int, d: int)
    requires
        0 <= c < 9,
    ensures
        wrap_iter(c, d, 9) == c,
{
    lemma_wrap_iter_linear(c, d, 9);
    lemma_mod_multiples_vanish(d, c, 9);
    lemma_small_mod_int(c);
}

/// An input event, as the editor understands it. Anything the editor does
/// not recognise arrives as `Other` and is a no-op.
#[derive(Clone, Copy, Debug, PartialEq, Eq, Structural)]
pub enum InputEvent {
    Up,
    Down,
    Left,
    Right,
    Digit(u8),
    Clear,
    Reset,
    Quit,
    Other,
}

/// The editing session: the grid being entered and the cursor position.
pub struct SudokuInput {
    grid: [[Option<u8>; 9]; 9],
    cursor_row: usize,
    cursor_col: usize,
}

impl SudokuInput {
    /// The entry at row `r`, column `c`.
    pub closed spec fn cell_at(self, r: int, c: int) -> Option<u8> {
        self.grid@[r]@[c]
    }

    /// The cursor's row.
    pub closed spec fn row(self) -> int {
        self.cursor_row as int
    }

    /// The cursor's column.
    pub closed spec fn col(self) -> int {
        self.cursor_col as int
    }

    /// The cursor is on the grid and every non-empty entry is a digit 1..=9.
    pub open spec fn wf(self) -> bool {
        &&& 0 <= self.row() < 9
        &&& 0 <= self.col() < 9
        &&& forall|r: int, c: int|
            0 <= r < 9 && 0 <= c < 9 ==> ((#[trigger] self.cell_at(r, c)) matches Some(v)
                ==> 1 <= v <= 9)
    }

    /// Both grids hold the same entries everywhere.
    pub open spec fn same_grid(self, other: SudokuInput) -> bool {
        forall|r: int, c: int|
            0 <= r < 9 && 0 <= c < 9 ==> #[trigger] self.cell_at(r, c) == other.cell_at(r, c)
    }

    /// A fresh session: an empty grid, cursor at the top-left cell.
    pub fn new() -> (s: SudokuInput)
        ensures
            s.wf(),
            s.row() == 0,
            s.col() == 0,
            forall|r: int, c: int| 0 <= r < 9 && 0 <= c < 9 ==> #[trigger] s.cell_at(r, c) is None,
    {
        SudokuInput { grid: [[None; 9]; 9], cursor_row: 0, cursor_col: 0 }
    }

    /// The cursor's row, for display.
    pub fn cursor_row(&self) -> (r: usize)
        ensures
            r == self.row(),
            self.wf() ==> r < 9,
    {
        self.cursor_row
    }

    /// The cursor's column, for display.
    pub fn cursor_col(&self) -> (c: usize)
        ensures
            c == self.col(),
            self.wf() ==> c < 9,
    {
        self.cursor_col
    }

    /// The entry at row `r`, column `c`, for display.
    pub fn entry(&self, r: usize, c: usize) -> (v: Option<u8>)
        requires
            r < 9,
            c < 9,
        ensures
            v == self.cell_at(r as int, c as int),
    {
        self.grid[r][c]
    }

    /// Moves the cursor by a direction delta, wrapping each coordinate
    /// modulo 9 so it never leaves the 9x9 surface.
    pub fn move_cursor(&mut self, dr: i32, dc: i32)
        requires
            old(self).wf(),
            -1 <= dr <= 1,
            -1 <= dc <= 1,
        ensures
            final(self).wf(),
            final(self).row() == wrap_step(old(self).row(), dr as int),
            final(self).col() == wrap_step(old(self).col(), dc as int),
            final(self).same_grid(*old(self)),
    {
        proof {
            lemma_mod_add_multiples_vanish(old(self).row() - 1, 9);
            lemma_mod_add_multiples_vanish(old(self).col() - 1, 9);
            lemma_small_mod_int(old(self).row());
            lemma_small_mod_int(old(self).col());
        }
        let step_r: usize = if dr < 0 {
            8
        } else if dr > 0 {
            1
        } else {
            0
        };
        let step_c: usize = if dc < 0 {
            8
        } else if dc > 0 {
            1
        } else {
            0
        };
        self.cursor_row = (self.cursor_row + step_r) % 9;
        self.cursor_col = (self.cursor_col + step_c) % 9;
        proof {
            assert forall|r: int, c: int| 0 <= r < 9 && 0 <= c < 9 implies #[trigger] self.cell_at(
                r,
                c,
            ) == old(self).cell_at(r, c) by {
            }
        }
    }

    /// Writes `val` into the cell under the cursor, unconditionally
    /// overwriting whatever was there.
    pub fn set_value(&mut self, val: Option<u8>)
        requires
            old(self).wf(),
            val matches Some(v) ==> 1 <= v <= 9,
        ensures
            final(self).wf(),
            final(self).row() == old(self).row(),
            final(self).col() == old(self).col(),
            final(self).cell_at(old(self).row(), old(self).col()) == val,
            forall|r: int, c: int|
                0 <= r < 9 && 0 <= c < 9 && !(r == old(self).row() && c == old(self).col())
                    ==> #[trigger] final(self).cell_at(r, c) == old(self).cell_at(r, c),
    {
        let mut row = self.grid[self.cursor_row];
        row[self.cursor_col] = val;
        self.grid[self.cursor_row] = row;
        proof {
            assert forall|r: int, c: int| 0 <= r < 9 && 0 <= c < 9 implies ((#[trigger] self
                .cell_at(r, c)) matches Some(v) ==> 1 <= v <= 9) by {
                if !(r == old(self).row() && c == old(self).col()) {
                    assert(self.cell_at(r, c) == old(self).cell_at(r, c));
                }
            }
        }
    }

    /// Clears the whole grid to empty; the cursor stays where it was.
    pub fn reset(&mut self)
        requires
            old(self).wf(),
        ensures
            final(self).wf(),
            final(self).row() == old(self).row(),
            final(self).col() == old(self).col(),
            forall|r: int, c: int|
                0 <= r < 9 && 0 <= c < 9 ==> #[trigger] final(self).cell_at(r, c) is None,
    {
        self.grid = [[None; 9]; 9];
    }

    /// The grid as a plain 9x9 array: empty cells become 0, entered digits
    /// stand for themselves.
    pub fn to_array(&self) -> (out: [[u8; 9]; 9])
        requires
            self.wf(),
        ensures
            forall|r: int, c: int|
                0 <= r < 9 && 0 <= c < 9 ==> #[trigger] out@[r]@[c] == (match self.cell_at(r, c) {
                    Some(v) => v,
                    None => 0u8,
                }),
    {
        let mut out: [[u8; 9]; 9] = [[0; 9]; 9];
        let mut r: usize = 0;
        while r < 9
            invariant
                self.wf(),
                r <= 9,
                forall|rr: int, cc: int|
                    0 <= rr < r && 0 <= cc < 9 ==> #[trigger] out@[rr]@[cc] == (match self.cell_at(
                        rr,
                        cc,
                    ) {
                        Some(v) => v,
                        None => 0u8,
                    }),
            decreases 9 - r,
        {
            let mut row_out: [u8; 9] = [0; 9];
            let mut c: usize = 0;
            while c < 9
                invariant
                    self.wf(),
                    r < 9,
                    c <= 9,
                    forall|cc: int|
                        0 <= cc < c ==> #[trigger] row_out@[cc] == (match self.cell_at(
                            r as int,
                            cc,
                        ) {
                            Some(v) => v,
                            None => 0u8,
                        }),
                    forall|cc: int| c <= cc < 9 ==> #[trigger] row_out@[cc] == 0u8,
                decreases 9 - c,
            {
                if let Some(v) = self.grid[r][c] {
                    row_out[c] = v;
                }
                c = c + 1;
            }
            out[r] = row_out;
            r = r + 1;
        }
        out
    }

    /// Turns one input event into its board or cursor mutation and reports
    /// whether the session should end. Unrecognised events change nothing.
    pub fn apply_event(&mut self, ev: InputEvent) -> (quit: bool)
        requires
            old(self).wf(),
            ev matches InputEvent::Digit(d) ==> 1 <= d <= 9,
        ensures
            final(self).wf(),
            quit == (ev is Quit),
            ev is Up ==> final(self).row() == wrap_step(old(self).row(), -1)
                && final(self).col() == old(self).col() && final(self).same_grid(*old(self)),
            ev is Down ==> final(self).row() == wrap_step(old(self).row(), 1)
                && final(self).col() == old(self).col() && final(self).same_grid(*old(self)),
            ev is Left ==> final(self).col() == wrap_step(old(self).col(), -1)
                && final(self).row() == old(self).row() && final(self).same_grid(*old(self)),
            ev is Right ==> final(self).col() == wrap_step(old(self).col(), 1)
                && final(self).row() == old(self).row() && final(self).same_grid(*old(self)),
            forall|d: u8|
                ev == InputEvent::Digit(d) ==> final(self).cell_at(
                    old(self).row(),
                    old(self).col(),
                ) == Some(d) && final(self).row() == old(self).row() && final(self).col() == old(
                    self,
                ).col() && (forall|r: int, c: int|
                    0 <= r < 9 && 0 <= c < 9 && !(r == old(self).row() && c == old(self).col())
                        ==> #[trigger] final(self).cell_at(r, c) == old(self).cell_at(r, c)),
            ev is Clear ==> final(self).cell_at(old(self).row(), old(self).col()) is None
                && final(self).row() == old(self).row() && final(self).col() == old(self).col()
                && (forall|r: int, c: int|
                0 <= r < 9 && 0 <= c < 9 && !(r == old(self).row() && c == old(self).col())
                    ==> #[trigger] final(self).cell_at(r, c) == old(self).cell_at(r, c)),
            ev is Reset ==> final(self).row() == old(self).row() && final(self).col() == old(
                self,
            ).col() && (forall|r: int, c: int|
                0 <= r < 9 && 0 <= c < 9 ==> #[trigger] final(self).cell_at(r, c) is None),
            ev is Quit || ev is Other ==> *final(self) == *old(self),
    {
        match ev {
            InputEvent::Up => {
                self.move_cursor(-1, 0);
                false
            },
            InputEvent::Down => {
                self.move_cursor(1, 0);
                false
            },
            InputEvent::Left => {
                self.move_cursor(0, -1);
                false
            },
            InputEvent::Right => {
                self.move_cursor(0, 1);
                false
            },
            InputEvent::Digit(d) => {
                self.set_value(Some(d));
                false
            },
            InputEvent::Clear => {
                self.set_value(None);
                false
            },
            InputEvent::Reset => {
                self.reset();
                false
            },
            InputEvent::Quit => true,
            InputEvent::Other => false,
        }
    }
}

} // verus!
