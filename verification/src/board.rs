//! The puzzle board: 81 cells addressed by the keys of `crate::keys`, each
//! empty or holding a digit 1..=9, with the originally-given clue cells
//! tracked separately from solver-filled cells.

use vstd::prelude::*;
use vstd::string::StringExecFns;
use crate::keys::key_index;

verus! {

/// What a raw grid entry denotes: digits 1..=9 stand for themselves, any
/// other byte stands for an empty cell.
pub open spec fn entry_value(x: u8) -> Option<u8> {
    if 1 <= x <= 9 {
        Some(x)
    } else {
        None
    }
}

/// A 9x9 Sudoku board. `cells[k]` is the value of the cell with key `k`;
/// `clues[k]` records whether that cell was given when the board was built.
pub struct Puzzle {
    cells: [Option<u8>; 81],
    clues: [bool; 81],
}

impl Puzzle {
    /// The value of the cell with key `k`.
    pub closed spec fn cell(self, k: int) -> Option<u8> {
        self.cells@[k]
    }

    /// Whether the cell with key `k` was given as a clue.
    pub closed spec fn is_clue(self, k: int) -> bool {
        self.clues@[k]
    }

    /// Every non-empty cell holds a digit in 1..=9.
    pub open spec fn wf(self) -> bool {
        forall|k: int|
            0 <= k < 81 ==> ((#[trigger] self.cell(k)) matches Some(v) ==> 1 <= v <= 9)
    }

    /// Every cell is non-empty, as after a successful solve.
    pub open spec fn all_filled(self) -> bool {
        forall|k: int| 0 <= k < 81 ==> (#[trigger] self.cell(k)) is Some
    }

    /// Builds the full 81-entry board from a 9x9 array indexed `data[row][col]`.
    /// Entries outside 1..=9 are treated as empty; every non-empty entry is
    /// recorded as a clue.
    pub fn from_array(data: &[[u8; 9]; 9]) -> (p: Puzzle)
        ensures
            p.wf(),
            forall|c: int, r: int|
                0 <= c < 9 && 0 <= r < 9 ==> #[trigger] p.cell(key_index(c, r))
                    == entry_value(data@[r]@[c]),
            forall|c: int, r: int|
                0 <= c < 9 && 0 <= r < 9 ==> (#[trigger] p.is_clue(key_index(c, r))
                    <==> entry_value(data@[r]@[c]) is Some),
    {
        let mut cells: [Option<u8>; 81] = [None; 81];
        let mut clues: [bool; 81] = [false; 81];
        let mut k: usize = 0;
        while k < 81
            invariant
                k <= 81,
                forall|j: int|
                    0 <= j < k ==> #[trigger] cells@[j]
                        == entry_value(data@[j % 9]@[j / 9]),
                forall|j: int|
                    0 <= j < k ==> (#[trigger] clues@[j]
                        <==> entry_value(data@[j % 9]@[j / 9]) is Some),
                forall|j: int| k <= j < 81 ==> #[trigger] cells@[j] is None,
                forall|j: int| k <= j < 81 ==> !(#[trigger] clues@[j]),
            decreases 81 - k,
        {
            let col: usize = k / 9;
            let row: usize = k % 9;
            let v: u8 = data[row][col];
            if 1 <= v && v <= 9 {
                cells[k] = Some(v);
                clues[k] = true;
            }
            k = k + 1;
        }
        let p = Puzzle { cells, clues };
        proof {
            crate::keys::lemma_key_bijection();
        }
        p
    }

    /// Whether the cell with key `key` was given as a clue.
    pub fn clue(&self, key: u8) -> (b: bool)
        requires
            key < 81,
        ensures
            b == self.is_clue(key as int),
    {
        self.clues[key as usize]
    }

    /// Direct read of the cell with key `key`.
    pub fn get(&self, key: u8) -> (v: Option<u8>)
        requires
            key < 81,
        ensures
            v == self.cell(key as int),
    {
        self.cells[key as usize]
    }

    /// Direct, unrestricted write of the cell with key `key`. The clue
    /// marking is left as it was: clues are recorded once, at construction.
    pub fn set(&mut self, key: u8, val: Option<u8>)
        requires
            old(self).wf(),
            key < 81,
            val matches Some(v) ==> 1 <= v <= 9,
        ensures
            final(self).wf(),
            final(self).cell(key as int) == val,
            forall|k: int|
                0 <= k < 81 && k != key ==> #[trigger] final(self).cell(k)
                    == old(self).cell(k),
            forall|k: int|
                0 <= k < 81 ==> #[trigger] final(self).is_clue(k) == old(self).is_clue(k),
    {
        self.cells[key as usize] = val;
        proof {
            assert forall|k: int| 0 <= k < 81 implies ((#[trigger] self.cell(k)) matches Some(
                v,
            ) ==> 1 <= v <= 9) by {
                if k != key as int {
                    assert(self.cell(k) == old(self).cell(k));
                }
            }
        }
    }

    /// Decode of a satisfying assignment: overwrites every cell with the
    /// assignment's value for it, leaving the clue markings untouched.
    pub fn decode_assignment(&mut self, assignment: &Vec<u8>)
        requires
            old(self).wf(),
            assignment@.len() == 81,
            forall|k: int| 0 <= k < 81 ==> 1 <= #[trigger] assignment@[k] <= 9,
        ensures
            final(self).wf(),
            final(self).all_filled(),
            forall|k: int|
                0 <= k < 81 ==> #[trigger] final(self).cell(k) == Some(assignment@[k]),
            forall|k: int|
                0 <= k < 81 ==> #[trigger] final(self).is_clue(k) == old(self).is_clue(k),
    {
        let mut k: usize = 0;
        while k < 81
            invariant
                k <= 81,
                assignment@.len() == 81,
                forall|j: int| 0 <= j < 81 ==> 1 <= #[trigger] assignment@[j] <= 9,
                forall|j: int|
                    0 <= j < k ==> #[trigger] self.cells@[j] == Some(assignment@[j]),
                forall|j: int|
                    k <= j < 81 ==> #[trigger] self.cells@[j] == old(self).cells@[j],
                self.clues == old(self).clues,
            decreases 81 - k,
        {
            self.cells[k] = Some(assignment[k]);
            k = k + 1;
        }
    }
}

/// The digit `d` as the one character that prints it.
pub open spec fn digit_text(d: u8) -> Seq<char> {
    if d == 1 {
        "1"@
    } else if d == 2 {
        "2"@
    } else if d == 3 {
        "3"@
    } else if d == 4 {
        "4"@
    } else if d == 5 {
        "5"@
    } else if d == 6 {
        "6"@
    } else if d == 7 {
        "7"@
    } else if d == 8 {
        "8"@
    } else {
        "9"@
    }
}

/// How one cell prints: ` X |` with X the digit or a blank. A solver-filled
/// digit is wrapped in bold-blue terminal styling; a clue digit is plain, so
/// the two are visually distinct.
pub open spec fn cell_text(v: Option<u8>, clue: bool) -> Seq<char> {
    match v {
        None => "   |"@,
        Some(d) => if clue {
            " "@ + digit_text(d) + " |"@
        } else {
            " "@ + "\u{1b}[1;34m"@ + digit_text(d) + "\u{1b}[0m"@ + " |"@
        },
    }
}

/// The separator line between puzzle rows.
pub open spec fn sep_text() -> Seq<char> {
    "+---+---+---+---+---+---+---+---+---+\n"@
}

proof fn lemma_digit_char(d: u8)
    requires
        1 <= d <= 9,
    ensures
        digit_text(d).len() == 1,
        digit_text(d)[0] as int == '0' as int + d,
{
    reveal_strlit("1");
    reveal_strlit("2");
    reveal_strlit("3");
    reveal_strlit("4");
    reveal_strlit("5");
    reveal_strlit("6");
    reveal_strlit("7");
    reveal_strlit("8");
    reveal_strlit("9");
}

/// Law: a cell's rendering determines the cell. Distinct digits render
/// distinctly, an empty cell renders as a blank unlike any digit, and a
/// clue digit never renders like a solver-filled digit: the plain and the
/// styled form differ for every pair of digits.
pub proof fn lemma_cell_text_distinguishes(v1: Option<u8>, c1: bool, v2: Option<u8>, c2: bool)
    requires
        v1 matches Some(d) ==> 1 <= d <= 9,
        v2 matches Some(d) ==> 1 <= d <= 9,
        cell_text(v1, c1) == cell_text(v2, c2),
    ensures
        v1 == v2,
        v1 is Some ==> c1 == c2,
{
    reveal_strlit("   |");
    reveal_strlit(" ");
    reveal_strlit(" |");
    reveal_strlit("\u{1b}[1;34m");
    reveal_strlit("\u{1b}[0m");
    if let Some(d1) = v1 {
        lemma_digit_char(d1);
    }
    if let Some(d2) = v2 {
        lemma_digit_char(d2);
    }
    // An empty cell or a plain clue digit takes 4 characters, a styled
    // digit 15; among equal lengths, the character after the leading blank
    // tells a blank from a digit and one digit from another.
    match (v1, v2) {
        (None, None) => {},
        (Some(d1), Some(d2)) => {
            if c1 && c2 {
                assert(cell_text(v1, c1)[1] == digit_text(d1)[0]);
                assert(cell_text(v2, c2)[1] == digit_text(d2)[0]);
            } else if !c1 && !c2 {
                assert(cell_text(v1, c1)[8] == digit_text(d1)[0]);
                assert(cell_text(v2, c2)[8] == digit_text(d2)[0]);
            } else {
                assert(cell_text(Some(d1), true).len() == 4);
                assert(cell_text(Some(d1), false).len() == 15);
                assert(cell_text(Some(d2), true).len() == 4);
                assert(cell_text(Some(d2), false).len() == 15);
                assert(false);
            }
        },
        (None, Some(d2)) => {
            if c2 {
                assert(cell_text(v1, c1)[1] == ' ');
                assert(cell_text(v2, c2)[1] == digit_text(d2)[0]);
            } else {
                assert(cell_text(v1, c1).len() == 4);
                assert(cell_text(v2, c2).len() == 15);
            }
            assert(false);
        },
        (Some(d1), None) => {
            if c1 {
                assert(cell_text(v1, c1)[1] == digit_text(d1)[0]);
                assert(cell_text(v2, c2)[1] == ' ');
            } else {
                assert(cell_text(v1, c1).len() == 15);
                assert(cell_text(v2, c2).len() == 4);
            }
            assert(false);
        },
    }
}

/// The first `c` cells of row `r`, after the opening `|`.
pub open spec fn row_text_upto(p: Puzzle, r: int, c: int) -> Seq<char>
    decreases c,
{
    if c <= 0 {
        "|"@
    } else {
        row_text_upto(p, r, c - 1) + cell_text(
            p.cell(key_index(c - 1, r)),
            p.is_clue(key_index(c - 1, r)),
        )
    }
}

/// One full printed row, newline included.
pub open spec fn row_text(p: Puzzle, r: int) -> Seq<char> {
    row_text_upto(p, r, 9) + "\n"@
}

/// The leading separator and the first `r` rows, each followed by its
/// separator line.
pub open spec fn render_upto(p: Puzzle, r: int) -> Seq<char>
    decreases r,
{
    if r <= 0 {
        sep_text()
    } else {
        render_upto(p, r - 1) + row_text(p, r - 1) + sep_text()
    }
}

/// The whole printed board: 10 separator lines framing 9 rows.
pub open spec fn render_text(p: Puzzle) -> Seq<char> {
    render_upto(p, 9)
}

fn digit_str(d: u8) -> (r: &'static str)
    requires
        1 <= d <= 9,
    ensures
        r@ == digit_text(d),
{
    if d == 1 {
        "1"
    } else if d == 2 {
        "2"
    } else if d == 3 {
        "3"
    } else if d == 4 {
        "4"
    } else if d == 5 {
        "5"
    } else if d == 6 {
        "6"
    } else if d == 7 {
        "7"
    } else if d == 8 {
        "8"
    } else {
        "9"
    }
}

impl Puzzle {
    /// Renders the board as a human-viewable grid with separator lines,
    /// clue digits plain and solver-filled digits styled. A pure projection:
    /// the board itself is untouched.
    pub fn render(&self) -> (out: String)
        requires
            self.wf(),
        ensures
            out@ == render_text(*self),
    {
        let mut out = String::new();
        out.append("+---+---+---+---+---+---+---+---+---+\n");
        proof {
            assert(out@ =~= render_upto(*self, 0));
        }
        let mut r: usize = 0;
        while r < 9
            invariant
                self.wf(),
                r <= 9,
                out@ == render_upto(*self, r as int),
            decreases 9 - r,
        {
            out.append("|");
            proof {
                assert(out@ =~= render_upto(*self, r as int) + row_text_upto(*self, r as int, 0));
            }
            let mut c: usize = 0;
            while c < 9
                invariant
                    self.wf(),
                    r < 9,
                    c <= 9,
                    out@ == render_upto(*self, r as int) + row_text_upto(
                        *self,
                        r as int,
                        c as int,
                    ),
                decreases 9 - c,
            {
                let k = crate::keys::key_of(c as u8, r as u8);
                match self.get(k) {
                    None => {
                        out.append("   |");
                    },
                    Some(d) => {
                        if self.clue(k) {
                            out.append(" ");
                            out.append(digit_str(d));
                            out.append(" |");
                        } else {
                            out.append(" ");
                            out.append("\u{1b}[1;34m");
                            out.append(digit_str(d));
                            out.append("\u{1b}[0m");
                            out.append(" |");
                        }
                    },
                }
                proof {
                    assert(out@ =~= render_upto(*self, r as int) + row_text_upto(
                        *self,
                        r as int,
                        c as int + 1,
                    ));
                }
                c = c + 1;
            }
            out.append("\n");
            out.append("+---+---+---+---+---+---+---+---+---+\n");
            proof {
                assert(out@ =~= render_upto(*self, r as int + 1));
            }
            r = r + 1;
        }
        out
    }
}

/// Law: decoding the identity assignment of a fully-filled board reproduces
/// that exact board. `before` is any well-formed, fully-filled board, `a` its
/// own values read back as an assignment, and `after` any board related to
/// `before` and `a` as `decode_assignment`'s contract relates its result to
/// its inputs; then `after` is `before` again.
pub proof fn lemma_decode_identity_round_trip(before: Puzzle, after: Puzzle, a: Seq<u8>)
    requires
        before.wf(),
        before.all_filled(),
        a.len() == 81,
        forall|k: int| 0 <= k < 81 ==> #[trigger] before.cell(k) == Some(a[k]),
        forall|k: int| 0 <= k < 81 ==> #[trigger] after.cell(k) == Some(a[k]),
        forall|k: int| 0 <= k < 81 ==> #[trigger] after.is_clue(k) == before.is_clue(k),
    ensures
        after == before,
{
    assert forall|i: int| 0 <= i < 81 implies after.cells@[i] == before.cells@[i] by {
        assert(after.cell(i) == Some(a[i]));
        assert(before.cell(i) == Some(a[i]));
    }
    assert forall|i: int| 0 <= i < 81 implies after.clues@[i] == before.clues@[i] by {
        assert(after.is_clue(i) == before.is_clue(i));
    }
    assert(after.cells =~= before.cells);
    assert(after.clues =~= before.clues);
}

} // verus!
