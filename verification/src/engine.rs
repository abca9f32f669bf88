//! The constraint encoder/decoder and the solve orchestrator. Each solve
//! builds one fresh bounded integer variable per cell, asserts row, column
//! and box distinctness plus one equality per filled cell, and submits the
//! system once to the Z3 engine. Z3 itself is consumed purely through the
//! trusted declarations below; everything decided on its answer is verified.

use vstd::prelude::*;
use crate::board::Puzzle;
use crate::keys::{key_index, key_of};

verus! {

#[verifier::external_type_specification]
#[verifier::external_body]
pub struct ExSolver(z3::Solver);

#[verifier::external_type_specification]
#[verifier::external_body]
pub struct ExModel(z3::Model);

#[verifier::external_type_specification]
#[verifier::external_body]
pub struct ExInt(z3::ast::Int);

#[verifier::external_type_specification]
#[verifier::external_body]
pub struct ExBool(z3::ast::Bool);

/// The ternary outcome of one satisfiability check.
#[derive(Clone, Copy, Debug, PartialEq, Eq, Structural)]
pub enum SatOutcome {
    Satisfiable,
    Unsatisfiable,
    Unknown,
}

/// Relies on z3::Solver::new: a fresh solver holding no assertions.
#[verifier::external_body]
fn solver_new() -> z3::Solver {
    z3::Solver::new()
}

/// Relies on z3::ast::Int::fresh_const: a fresh integer variable. The
/// prefix is turned into a C string, so it must hold no NUL character.
#[verifier::external_body]
fn int_fresh(prefix: &str) -> z3::ast::Int
    requires
        forall|i: int| 0 <= i < prefix@.len() ==> prefix@[i] != '\0',
{
    z3::ast::Int::fresh_const(prefix)
}

/// Relies on z3::ast::Int::from_u64: the integer constant `u` as a term.
#[verifier::external_body]
fn int_literal(u: u64) -> z3::ast::Int {
    z3::ast::Int::from_u64(u)
}

/// Relies on z3::ast::Int::ge: the predicate `a >= b`.
#[verifier::external_body]
fn int_ge(a: &z3::ast::Int, b: &z3::ast::Int) -> z3::ast::Bool {
    a.ge(b)
}

/// Relies on z3::ast::Int::le: the predicate `a <= b`.
#[verifier::external_body]
fn int_le(a: &z3::ast::Int, b: &z3::ast::Int) -> z3::ast::Bool {
    a.le(b)
}

/// Relies on z3::ast::Ast::eq: the predicate `a == b`.
#[verifier::external_body]
fn int_eq(a: &z3::ast::Int, b: &z3::ast::Int) -> z3::ast::Bool {
    z3::ast::Ast::eq(a, b)
}

/// Relies on z3::ast::Ast::distinct: the predicate that all the given
/// terms are pairwise distinct. The underlying engine call demands more
/// than one term.
#[verifier::external_body]
fn int_distinct(xs: &Vec<&z3::ast::Int>) -> z3::ast::Bool
    requires
        xs@.len() >= 2,
{
    <z3::ast::Int as z3::ast::Ast>::distinct(xs.as_slice())
}

/// Relies on z3::Solver::assert: adds one assertion to the solver.
#[verifier::external_body]
fn solver_assert(s: &z3::Solver, b: z3::ast::Bool) {
    s.assert(b)
}

/// Relies on z3::Solver::check: one satisfiability check over everything
/// asserted so far, reported as its ternary outcome.
#[verifier::external_body]
fn solver_check(s: &z3::Solver) -> SatOutcome {
    match s.check() {
        z3::SatResult::Sat => SatOutcome::Satisfiable,
        z3::SatResult::Unsat => SatOutcome::Unsatisfiable,
        z3::SatResult::Unknown => SatOutcome::Unknown,
    }
}

/// Relies on z3::Solver::get_model: the model of the last check, where one
/// is available.
#[verifier::external_body]
fn solver_model(s: &z3::Solver) -> Option<z3::Model> {
    s.get_model()
}

/// Relies on z3::Model::eval with model completion: the term's value in
/// the model, where it can be evaluated.
#[verifier::external_body]
fn model_eval(m: &z3::Model, v: &z3::ast::Int) -> Option<z3::ast::Int> {
    m.eval(v, true)
}

/// Relies on z3::ast::Int::as_i64: the concrete value of a numeral term,
/// where it fits.
#[verifier::external_body]
fn int_to_i64(v: &z3::ast::Int) -> Option<i64> {
    v.as_i64()
}

/// The key of the `i`-th cell of group `g`: groups 0..9 are the rows,
/// 9..18 the columns, 18..27 the 3x3 boxes.
pub open spec fn group_cell(g: int, i: int) -> int {
    if g < 9 {
        key_index(i, g)
    } else if g < 18 {
        key_index(g - 9, i)
    } else {
        key_index(((g - 18) % 3) * 3 + i % 3, ((g - 18) / 3) * 3 + i / 3)
    }
}

fn group_cell_key(g: usize, i: usize) -> (key: u8)
    requires
        g < 27,
        i < 9,
    ensures
        key == group_cell(g as int, i as int),
        key < 81,
{
    if g < 9 {
        key_of(i as u8, g as u8)
    } else if g < 18 {
        key_of((g - 9) as u8, i as u8)
    } else {
        let b = g - 18;
        key_of(((b % 3) * 3 + i % 3) as u8, ((b / 3) * 3 + i / 3) as u8)
    }
}

/// Law: within any one group, distinct positions address distinct cells,
/// so each of the 27 groups holds exactly 9 different cells.
pub proof fn lemma_group_cells_distinct(g: int, i: int, j: int)
    requires
        0 <= g < 27,
        0 <= i < 9,
        0 <= j < 9,
        i != j,
    ensures
        0 <= group_cell(g, i) < 81,
        group_cell(g, i) != group_cell(g, j),
{
    crate::keys::lemma_key_bijection();
    if g >= 18 {
        let b = g - 18;
        assert(i == (i / 3) * 3 + i % 3 && j == (j / 3) * 3 + j % 3) by (nonlinear_arith)
            requires
                0 <= i < 9,
                0 <= j < 9,
        ;
        assert(0 <= b % 3 < 3 && 0 <= b / 3 < 3) by (nonlinear_arith)
            requires
                0 <= b < 9,
        ;
        assert(0 <= i % 3 < 3 && 0 <= i / 3 < 3 && 0 <= j % 3 < 3 && 0 <= j / 3 < 3)
            by (nonlinear_arith)
            requires
                0 <= i < 9,
                0 <= j < 9,
        ;
    }
}

/// Law: the cell with key `k` (column `k / 9`, row `k % 9`) belongs to
/// exactly one row group, one column group and one box group: the three
/// named here, and no other group of the same kind contains it.
pub proof fn lemma_cell_group_membership(k: int)
    requires
        0 <= k < 81,
    ensures
        group_cell(k % 9, k / 9) == k,
        group_cell(9 + k / 9, k % 9) == k,
        group_cell(18 + ((k % 9) / 3) * 3 + (k / 9) / 3, ((k % 9) % 3) * 3 + (k / 9) % 3) == k,
        forall|g: int, i: int|
            0 <= g < 9 && 0 <= i < 9 && #[trigger] group_cell(g, i) == k ==> g == k % 9 && i == k
                / 9,
        forall|g: int, i: int|
            9 <= g < 18 && 0 <= i < 9 && #[trigger] group_cell(g, i) == k ==> g == 9 + k / 9 && i
                == k % 9,
        forall|g: int, i: int|
            18 <= g < 27 && 0 <= i < 9 && #[trigger] group_cell(g, i) == k ==> g == 18 + ((k % 9)
                / 3) * 3 + (k / 9) / 3 && i == ((k % 9) % 3) * 3 + (k / 9) % 3,
{
    crate::keys::lemma_key_bijection();
    let col = k / 9;
    let row = k % 9;
    assert(0 <= col < 9 && 0 <= row < 9 && key_index(col, row) == k) by (nonlinear_arith)
        requires
            0 <= k < 81 && col == k / 9 && row == k % 9,
    ;
    assert((row / 3) * 3 + row % 3 == row && (col / 3) * 3 + col % 3 == col && 0 <= row / 3 < 3
        && 0 <= row % 3 < 3 && 0 <= col / 3 < 3 && 0 <= col % 3 < 3) by (nonlinear_arith)
        requires
            0 <= col < 9 && 0 <= row < 9,
    ;
    let b = (row / 3) * 3 + col / 3;
    let i = (row % 3) * 3 + col % 3;
    assert(b % 3 == col / 3 && b / 3 == row / 3 && i % 3 == col % 3 && i / 3 == row % 3)
        by (nonlinear_arith)
        requires
            b == (row / 3) * 3 + col / 3 && i == (row % 3) * 3 + col % 3 && 0 <= row / 3 < 3 && 0
                <= col / 3 < 3 && 0 <= row % 3 < 3 && 0 <= col % 3 < 3,
    ;
    assert forall|g: int, j: int|
        18 <= g < 27 && 0 <= j < 9 && #[trigger] group_cell(g, j) == k implies g == 18 + ((k % 9)
        / 3) * 3 + (k / 9) / 3 && j == ((k % 9) % 3) * 3 + (k / 9) % 3 by {
        let bb = g - 18;
        assert(0 <= bb % 3 < 3 && 0 <= bb / 3 < 3 && (bb / 3) * 3 + bb % 3 == bb && 0 <= j % 3 < 3
            && 0 <= j / 3 < 3 && (j / 3) * 3 + j % 3 == j) by (nonlinear_arith)
            requires
                0 <= bb < 9 && 0 <= j < 9,
        ;
        assert((bb % 3) * 3 + j % 3 == col && (bb / 3) * 3 + j / 3 == row);
        assert(bb % 3 == col / 3 && j % 3 == col % 3 && bb / 3 == row / 3 && j / 3 == row % 3)
            by (nonlinear_arith)
            requires
                (bb % 3) * 3 + j % 3 == col && (bb / 3) * 3 + j / 3 == row && 0 <= bb % 3 < 3 && 0
                    <= j % 3 < 3 && 0 <= bb / 3 < 3 && 0 <= j / 3 < 3 && col == k / 9 && row == k
                    % 9,
        ;
    }
}

/// The assignment agrees with every non-empty board entry, clue or not:
/// exactly the equalities the encoder asserts.
pub open spec fn matches_board(p: Puzzle, a: Seq<u8>) -> bool {
    forall|k: int| 0 <= k < 81 ==> ((#[trigger] p.cell(k)) matches Some(v) ==> a[k] == v)
}

/// The assignment holds pairwise-distinct values within every row, column
/// and box group: exactly the distinctness the encoder asserts.
pub open spec fn rules_satisfied(a: Seq<u8>) -> bool {
    forall|g: int, i: int, j: int|
        #![trigger a[group_cell(g, i)], a[group_cell(g, j)]]
        0 <= g < 27 && 0 <= i < j < 9 ==> a[group_cell(g, i)] != a[group_cell(g, j)]
}

/// The board's values are pairwise distinct within every row, column and
/// box group, as a solved board's must be.
pub open spec fn board_obeys_rules(p: Puzzle) -> bool {
    forall|g: int, i: int, j: int|
        #![trigger p.cell(group_cell(g, i)), p.cell(group_cell(g, j))]
        0 <= g < 27 && 0 <= i < j < 9 ==> p.cell(group_cell(g, i)) != p.cell(group_cell(g, j))
}

fn group_ok(vals: &Vec<u8>, g: usize) -> (ok: bool)
    requires
        vals@.len() == 81,
        g < 27,
    ensures
        ok == (forall|i: int, j: int|
            #![trigger vals@[group_cell(g as int, i)], vals@[group_cell(g as int, j)]]
            0 <= i < j < 9 ==> vals@[group_cell(g as int, i)] != vals@[group_cell(g as int, j)]),
{
    let mut i: usize = 0;
    while i < 9
        invariant
            vals@.len() == 81,
            g < 27,
            i <= 9,
            forall|a: int, b: int|
                #![trigger vals@[group_cell(g as int, a)], vals@[group_cell(g as int, b)]]
                0 <= a < b < 9 && a < i ==> vals@[group_cell(g as int, a)] != vals@[group_cell(
                    g as int,
                    b,
                )],
        decreases 9 - i,
    {
        let vi = vals[group_cell_key(g, i) as usize];
        let mut j: usize = i + 1;
        while j < 9
            invariant
                vals@.len() == 81,
                g < 27,
                i < 9,
                i < j <= 9,
                vi == vals@[group_cell(g as int, i as int)],
                forall|b: int|
                    i < b < j ==> vals@[group_cell(g as int, i as int)] != #[trigger] vals@[group_cell(
                        g as int,
                        b,
                    )],
            decreases 9 - j,
        {
            if vi == vals[group_cell_key(g, j) as usize] {
                return false;
            }
            j = j + 1;
        }
        i = i + 1;
    }
    true
}

/// Checks a decoded assignment against everything the encoder asserted of
/// its variables: agreement with every filled cell, and distinctness
/// within every group. What the engine only promises, this establishes.
fn check_assignment(p: &Puzzle, vals: &Vec<u8>) -> (ok: bool)
    requires
        vals@.len() == 81,
    ensures
        ok == (matches_board(*p, vals@) && rules_satisfied(vals@)),
{
    let mut k: usize = 0;
    while k < 81
        invariant
            vals@.len() == 81,
            k <= 81,
            forall|j: int|
                0 <= j < k ==> ((#[trigger] p.cell(j)) matches Some(v) ==> vals@[j] == v),
        decreases 81 - k,
    {
        if let Some(v) = p.get(k as u8) {
            if vals[k] != v {
                return false;
            }
        }
        k = k + 1;
    }
    let mut g: usize = 0;
    while g < 27
        invariant
            vals@.len() == 81,
            g <= 27,
            matches_board(*p, vals@),
            forall|gg: int, i: int, j: int|
                #![trigger vals@[group_cell(gg, i)], vals@[group_cell(gg, j)]]
                0 <= gg < g && 0 <= i < j < 9 ==> vals@[group_cell(gg, i)] != vals@[group_cell(
                    gg,
                    j,
                )],
        decreases 27 - g,
    {
        if !group_ok(vals, g) {
            return false;
        }
        g = g + 1;
    }
    true
}

impl Puzzle {
    /// Encode: one fresh variable per cell constrained to 1..=9, pairwise
    /// distinctness over each of the 27 groups, and one equality per
    /// non-empty board entry, clue or not. The constraint system lives in
    /// the opaque solver, so the contract here is the absence of panics;
    /// what is decided on the solver's answer is pinned down in `solve`.
    fn encode(&self, solver: &z3::Solver, vars: &Vec<z3::ast::Int>)
        requires
            self.wf(),
            vars@.len() == 81,
    {
        let one = int_literal(1);
        let nine = int_literal(9);
        let mut k: usize = 0;
        while k < 81
            invariant
                vars@.len() == 81,
                k <= 81,
            decreases 81 - k,
        {
            solver_assert(solver, int_ge(&vars[k], &one));
            solver_assert(solver, int_le(&vars[k], &nine));
            k = k + 1;
        }
        let mut g: usize = 0;
        while g < 27
            invariant
                vars@.len() == 81,
                g <= 27,
            decreases 27 - g,
        {
            let mut members: Vec<&z3::ast::Int> = Vec::new();
            let mut i: usize = 0;
            while i < 9
                invariant
                    vars@.len() == 81,
                    g < 27,
                    i <= 9,
                    members@.len() == i,
                decreases 9 - i,
            {
                let key = group_cell_key(g, i);
                members.push(&vars[key as usize]);
                i = i + 1;
            }
            solver_assert(solver, int_distinct(&members));
            g = g + 1;
        }
        let mut k: usize = 0;
        while k < 81
            invariant
                self.wf(),
                vars@.len() == 81,
                k <= 81,
            decreases 81 - k,
        {
            if let Some(v) = self.get(k as u8) {
                solver_assert(solver, int_eq(&vars[k], &int_literal(v as u64)));
            }
            k = k + 1;
        }
    }

    /// Solve: encodes the current board, submits one satisfiability check,
    /// and on a satisfiable answer decodes the witnessing assignment back
    /// into the board, after checking the witness against everything that
    /// was asserted. On any other answer the board is left exactly as it
    /// was. A satisfiable answer whose witness cannot be read back as 81
    /// digits agreeing with the filled cells and distinct within every
    /// group is reported as `Unknown`, the board again untouched; so a
    /// `Satisfiable` outcome always means the board now holds a valid
    /// completed Sudoku extending what was submitted.
    pub fn solve(&mut self) -> (outcome: SatOutcome)
        requires
            old(self).wf(),
        ensures
            final(self).wf(),
            !(outcome is Satisfiable) ==> *final(self) == *old(self),
            outcome is Satisfiable ==> final(self).all_filled(),
            outcome is Satisfiable ==> board_obeys_rules(*final(self)),
            outcome is Satisfiable ==> forall|k: int|
                0 <= k < 81 ==> ((#[trigger] old(self).cell(k)) matches Some(v)
                    ==> final(self).cell(k) == Some(v)),
            outcome is Satisfiable ==> forall|k: int|
                0 <= k < 81 ==> #[trigger] final(self).is_clue(k) == old(self).is_clue(k),
            outcome is Satisfiable && old(self).all_filled() ==> *final(self) == *old(self),
    {
        let solver = solver_new();
        let mut vars: Vec<z3::ast::Int> = Vec::new();
        let mut k: usize = 0;
        while k < 81
            invariant
                vars@.len() == k,
                k <= 81,
            decreases 81 - k,
        {
            proof {
                reveal_strlit("cell");
            }
            vars.push(int_fresh("cell"));
            k = k + 1;
        }
        self.encode(&solver, &vars);
        match solver_check(&solver) {
            SatOutcome::Satisfiable => {
                match solver_model(&solver) {
                    Some(model) => {
                        match read_assignment(&model, &vars) {
                            Some(vals) => {
                                if check_assignment(self, &vals) {
                                    self.decode_assignment(&vals);
                                    proof {
                                        assert forall|g: int, i: int, j: int|
                                            0 <= g < 27 && 0 <= i < j < 9 implies #[trigger] self.cell(
                                            group_cell(g, i),
                                        ) != #[trigger] self.cell(group_cell(g, j)) by {
                                            lemma_group_cells_distinct(g, i, j);
                                        }
                                        if old(self).all_filled() {
                                            assert forall|k: int| 0 <= k < 81 implies #[trigger] old(
                                                self,
                                            ).cell(k) == Some(vals@[k]) by {
                                                assert(old(self).cell(k) is Some);
                                            }
                                            crate::board::lemma_decode_identity_round_trip(
                                                *old(self),
                                                *self,
                                                vals@,
                                            );
                                        }
                                    }
                                    SatOutcome::Satisfiable
                                } else {
                                    SatOutcome::Unknown
                                }
                            },
                            None => SatOutcome::Unknown,
                        }
                    },
                    None => SatOutcome::Unknown,
                }
            },
            SatOutcome::Unsatisfiable => SatOutcome::Unsatisfiable,
            SatOutcome::Unknown => SatOutcome::Unknown,
        }
    }
}

/// Reads one digit per cell variable out of the model. `None` where any
/// variable cannot be evaluated or its value is not a digit 1..=9.
fn read_assignment(model: &z3::Model, vars: &Vec<z3::ast::Int>) -> (res: Option<Vec<u8>>)
    requires
        vars@.len() == 81,
    ensures
        res matches Some(vals) ==> vals@.len() == 81 && forall|k: int|
            0 <= k < 81 ==> 1 <= #[trigger] vals@[k] <= 9,
{
    let mut vals: Vec<u8> = Vec::new();
    let mut k: usize = 0;
    while k < 81
        invariant
            vars@.len() == 81,
            k <= 81,
            vals@.len() == k,
            forall|j: int| 0 <= j < k ==> 1 <= #[trigger] vals@[j] <= 9,
        decreases 81 - k,
    {
        let value = match model_eval(model, &vars[k]) {
            Some(term) => match int_to_i64(&term) {
                Some(x) => x,
                None => {
                    return None;
                },
            },
            None => {
                return None;
            },
        };
        if value < 1 || value > 9 {
            return None;
        }
        vals.push(value as u8);
        k = k + 1;
    }
    Some(vals)
}

} // verus!
