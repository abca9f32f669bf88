//! Piped-mode input: a fixed 9-line, 9-character-per-line textual grid.
//! Each character is a digit 1..=9 or any other single character denoting an
//! empty cell; lines are separated by a single line terminator (`\n` or
//! `\r\n`), with one optional trailing terminator. Any other shape is a
//! parse failure, reported before any solving is attempted.

use vstd::prelude::*;
use vstd::string::StrSliceExecFns;
use crate::board::{entry_value, Puzzle};
use crate::keys::key_index;

verus! {

/// A character that can only appear inside a line terminator.
pub open spec fn is_break(ch: char) -> bool {
    ch == '\n' || ch == '\r'
}

/// What one grid character denotes: a digit 1..=9 stands for itself, any
/// other character for an empty cell.
pub open spec fn cell_value(ch: char) -> Option<u8> {
    if '1' as int <= ch as int && ch as int <= '9' as int {
        Some((ch as int - '0' as int) as u8)
    } else {
        None
    }
}

/// Nine terminator-free characters start at `pos`: one full grid line.
pub open spec fn row_at(s: Seq<char>, pos: int) -> bool {
    &&& 0 <= pos
    &&& pos + 9 <= s.len()
    &&& forall|i: int| pos <= i < pos + 9 ==> !is_break(#[trigger] s[i])
}

/// The width of the line terminator at `pos`: 1 for `\n`, 2 for `\r\n`,
/// 0 when no terminator starts there.
pub open spec fn sep_len_at(s: Seq<char>, pos: int) -> int {
    if 0 <= pos < s.len() && s[pos] == '\n' {
        1
    } else if 0 <= pos && pos + 1 < s.len() && s[pos] == '\r' && s[pos + 1] == '\n' {
        2
    } else {
        0
    }
}

/// The position just after `n` terminator-separated grid lines starting at
/// `pos`, or `None` where the text does not have that shape.
pub open spec fn rows_end(s: Seq<char>, pos: int, n: nat) -> Option<int>
    decreases n,
{
    if n == 0 {
        Some(pos)
    } else if !row_at(s, pos) {
        None
    } else if n == 1 {
        Some(pos + 9)
    } else if sep_len_at(s, pos + 9) == 0 {
        None
    } else {
        rows_end(s, pos + 9 + sep_len_at(s, pos + 9), (n - 1) as nat)
    }
}

/// Where line `k` of the grid starts, counting each earlier line's nine
/// characters and its terminator.
pub open spec fn row_start(s: Seq<char>, k: nat) -> int
    decreases k,
{
    if k == 0 {
        0
    } else {
        let prev = row_start(s, (k - 1) as nat);
        prev + 9 + sep_len_at(s, prev + 9)
    }
}

/// The whole text is exactly `n` terminator-separated grid lines, with at
/// most one trailing terminator and nothing else.
pub open spec fn lines_shape(s: Seq<char>, n: nat) -> bool {
    match rows_end(s, 0, n) {
        Some(end) => end + sep_len_at(s, end) == s.len(),
        None => false,
    }
}

/// An accepted text is one shaped as exactly nine grid lines.
pub open spec fn valid_grid_text(s: Seq<char>) -> bool {
    lines_shape(s, 9)
}

proof fn lemma_rows_end_extends(s: Seq<char>, pos: int, n: nat, m: nat)
    requires
        1 <= n < m,
        rows_end(s, pos, n) is Some,
        rows_end(s, pos, m) is Some,
    ensures
        sep_len_at(s, rows_end(s, pos, n)->Some_0) > 0,
        rows_end(
            s,
            rows_end(s, pos, n)->Some_0 + sep_len_at(s, rows_end(s, pos, n)->Some_0),
            (m - n) as nat,
        ) == rows_end(s, pos, m),
    decreases n,
{
    let sl = sep_len_at(s, pos + 9);
    if n == 1 {
        assert(rows_end(s, pos, m) == rows_end(s, pos + 9 + sl, (m - 1) as nat));
    } else {
        assert(rows_end(s, pos, n) == rows_end(s, pos + 9 + sl, (n - 1) as nat));
        assert(rows_end(s, pos, m) == rows_end(s, pos + 9 + sl, (m - 1) as nat));
        lemma_rows_end_extends(s, pos + 9 + sl, (n - 1) as nat, (m - 1) as nat);
    }
}

/// Law: a text shaped as `n` grid lines, for any `n` other than nine, is
/// rejected. In particular input of 8 or 10 lines fails before any solving.
pub proof fn lemma_line_count_must_be_nine(s: Seq<char>, n: nat)
    requires
        lines_shape(s, n),
        n != 9,
    ensures
        !valid_grid_text(s),
{
    if valid_grid_text(s) {
        if n == 0 {
            // The whole text is at most one terminator: too short for a line.
            assert(s.len() <= 2);
            assert(!row_at(s, 0));
            assert(false);
        } else if n < 9 {
            let e = rows_end(s, 0, n)->Some_0;
            lemma_rows_end_extends(s, 0, n, 9);
            // After the `n` lines everything is consumed, yet more lines
            // would have to start at the end of the text.
            assert(e + sep_len_at(s, e) == s.len());
            assert(!row_at(s, s.len() as int));
            assert(false);
        } else {
            let e9 = rows_end(s, 0, 9)->Some_0;
            lemma_rows_end_extends(s, 0, 9, n);
            assert(e9 + sep_len_at(s, e9) == s.len());
            assert(!row_at(s, s.len() as int));
            assert(false);
        }
    }
}

proof fn lemma_row_start_suffix(s: Seq<char>, k: nat)
    requires
        k < 9,
        valid_grid_text(s),
    ensures
        rows_end(s, row_start(s, k), (9 - k) as nat) == rows_end(s, 0, 9),
        row_at(s, row_start(s, k)),
        k < 8 ==> sep_len_at(s, row_start(s, k) + 9) > 0,
    decreases k,
{
    if k != 0 {
        lemma_row_start_suffix(s, (k - 1) as nat);
        let prev = row_start(s, (k - 1) as nat);
        let sl = sep_len_at(s, prev + 9);
        assert(rows_end(s, prev, (10 - k) as nat) == rows_end(s, prev + 9 + sl, (9 - k) as nat));
    }
}

/// Law: every line of an accepted text is exactly nine characters long: at
/// each line's start stand nine terminator-free characters, followed by a
/// line terminator (after the ninth, by at most one terminator and the end
/// of the text). A shorter or longer line anywhere falsifies
/// `valid_grid_text`.
pub proof fn lemma_accepted_lines_are_nine_chars(s: Seq<char>, k: nat)
    requires
        valid_grid_text(s),
        k < 9,
    ensures
        row_at(s, row_start(s, k)),
        k < 8 ==> sep_len_at(s, row_start(s, k) + 9) > 0,
        k == 8 ==> row_start(s, 8) + 9 + sep_len_at(s, row_start(s, 8) + 9) == s.len(),
{
    lemma_row_start_suffix(s, k);
    if k == 8 {
        assert(rows_end(s, row_start(s, 8), 1) == Some(row_start(s, 8) + 9));
    }
}

/// The one way piped-mode input is rejected: its shape is not a 9x9 grid.
#[derive(Clone, Copy, Debug, PartialEq, Eq, Structural)]
pub enum ParseError {
    Malformed,
}

fn sep_len(input: &str, pos: usize, n: usize) -> (sep: usize)
    requires
        n == input@.len(),
        pos <= n,
    ensures
        sep == sep_len_at(input@, pos as int),
{
    if pos < n {
        let ch = input.get_char(pos);
        if ch == '\n' {
            return 1;
        }
        if ch == '\r' && pos + 1 < n {
            let ch2 = input.get_char(pos + 1);
            if ch2 == '\n' {
                return 2;
            }
        }
    }
    0
}

/// Parses a piped-mode grid. Succeeds exactly on well-shaped input, and the
/// board it builds holds, cell by cell, what the text's lines say; every
/// non-empty cell is recorded as a clue.
pub fn parse(input: &str) -> (res: Result<Puzzle, ParseError>)
    ensures
        res is Ok <==> valid_grid_text(input@),
        res matches Ok(p) ==> {
            &&& p.wf()
            &&& forall|c: int, r: int|
                0 <= c < 9 && 0 <= r < 9 ==> #[trigger] p.cell(key_index(c, r)) == cell_value(
                    input@[row_start(input@, r as nat) + c],
                )
            &&& forall|c: int, r: int|
                0 <= c < 9 && 0 <= r < 9 ==> (#[trigger] p.is_clue(key_index(c, r)) <==> cell_value(
                    input@[row_start(input@, r as nat) + c],
                ) is Some)
        },
{
    let ghost s = input@;
    let n = input.unicode_len();
    let mut grid: [[u8; 9]; 9] = [[0; 9]; 9];
    let mut pos: usize = 0;
    let mut row: usize = 0;
    while row < 9
        invariant
            n == s.len(),
            s == input@,
            row <= 9,
            pos <= n,
            row < 9 ==> pos == row_start(s, row as nat),
            rows_end(s, 0, 9) == rows_end(s, pos as int, (9 - row) as nat),
            forall|rr: int, cc: int|
                0 <= rr < row && 0 <= cc < 9 ==> #[trigger] grid@[rr]@[cc] == (match cell_value(
                    s[row_start(s, rr as nat) + cc],
                ) {
                    Some(v) => v,
                    None => 0u8,
                }),
        decreases 9 - row,
    {
        let ghost pos0 = pos as int;
        let mut row_vals: [u8; 9] = [0; 9];
        let mut c: usize = 0;
        while c < 9
            invariant
                n == s.len(),
                s == input@,
                row < 9,
                c <= 9,
                pos0 == pos - c,
                0 <= pos0,
                pos <= n,
                rows_end(s, 0, 9) == rows_end(s, pos0, (9 - row) as nat),
                forall|i: int| pos0 <= i < pos0 + c ==> !is_break(#[trigger] s[i]),
                forall|cc: int|
                    0 <= cc < c ==> #[trigger] row_vals@[cc] == (match cell_value(
                        s[pos0 + cc],
                    ) {
                        Some(v) => v,
                        None => 0u8,
                    }),
                forall|cc: int| c <= cc < 9 ==> #[trigger] row_vals@[cc] == 0u8,
            decreases 9 - c,
        {
            if pos >= n {
                proof {
                    assert(!row_at(s, pos0));
                    assert(rows_end(s, pos0, (9 - row) as nat) is None);
                }
                return Err(ParseError::Malformed);
            }
            let ch = input.get_char(pos);
            if ch == '\n' || ch == '\r' {
                proof {
                    assert(is_break(s[pos0 + c]));
                    assert(!row_at(s, pos0));
                    assert(rows_end(s, pos0, (9 - row) as nat) is None);
                }
                return Err(ParseError::Malformed);
            }
            let code: u32 = ch as u32;
            if 0x31 <= code && code <= 0x39 {
                row_vals[c] = (code - 0x30) as u8;
            }
            c = c + 1;
            pos = pos + 1;
        }
        grid[row] = row_vals;
        proof {
            assert(row_at(s, pos0));
        }
        if row < 8 {
            let sep = sep_len(input, pos, n);
            if sep == 0 {
                proof {
                    assert(rows_end(s, pos0, (9 - row) as nat) is None);
                }
                return Err(ParseError::Malformed);
            }
            proof {
                assert(rows_end(s, pos0, (9 - row) as nat) == rows_end(
                    s,
                    pos0 + 9 + sep,
                    (9 - (row + 1)) as nat,
                ));
                assert(row_start(s, (row + 1) as nat) == pos0 + 9 + sep_len_at(s, pos0 + 9));
            }
            pos = pos + sep;
        } else {
            proof {
                assert(rows_end(s, pos0, 1) == Some(pos0 + 9));
            }
        }
        row = row + 1;
    }
    // All nine lines are read; only an optional trailing terminator may remain.
    let sep = sep_len(input, pos, n);
    proof {
        assert(rows_end(s, 0, 9) == Some(pos as int));
    }
    if pos + sep != n {
        return Err(ParseError::Malformed);
    }
    let p = Puzzle::from_array(&grid);
    proof {
        crate::keys::lemma_key_bijection();
        assert forall|cc: int, rr: int| 0 <= cc < 9 && 0 <= rr < 9 implies #[trigger] p.cell(
            key_index(cc, rr),
        ) == cell_value(s[row_start(s, rr as nat) + cc]) by {
            assert(grid@[rr]@[cc] == (match cell_value(s[row_start(s, rr as nat) + cc]) {
                Some(v) => v,
                None => 0u8,
            }));
            assert(p.cell(key_index(cc, rr)) == entry_value(grid@[rr]@[cc]));
        }
        assert forall|cc: int, rr: int| 0 <= cc < 9 && 0 <= rr < 9 implies (#[trigger] p.is_clue(
            key_index(cc, rr),
        ) <==> cell_value(s[row_start(s, rr as nat) + cc]) is Some) by {
            assert(grid@[rr]@[cc] == (match cell_value(s[row_start(s, rr as nat) + cc]) {
                Some(v) => v,
                None => 0u8,
            }));
            assert(p.is_clue(key_index(cc, rr)) <==> entry_value(grid@[rr]@[cc]) is Some);
        }
    }
    Ok(p)
}

} // verus!
