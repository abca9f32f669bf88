//! Cell addressing: a bijection between (column, row) pairs in 0..9 x 0..9
//! and a stable key in 0..81, the foundation every other component indexes by.

use vstd::prelude::*;

verus! {

/// The key that addresses the cell at the given column and row.
pub open spec fn key_index(col: int, row: int) -> int {
    col * 9 + row
}

/// Maps a (column, row) pair to its cell key. Total and injective over the
/// 9x9 domain; inputs outside 0..9 are a caller error, excluded up front.
pub fn key_of(col: u8, row: u8) -> (key: u8)
    requires
        col < 9,
        row < 9,
    ensures
        key == key_index(col as int, row as int),
        key < 81,
{
    col * 9 + row
}

/// The exact inverse of `key_of`: recovers the (column, row) pair a key
/// addresses.
pub fn decode(key: u8) -> (cr: (u8, u8))
    requires
        key < 81,
    ensures
        cr.0 < 9,
        cr.1 < 9,
        cr.0 == key as int / 9,
        cr.1 == key as int % 9,
        key_index(cr.0 as int, cr.1 as int) == key,
{
    (key / 9, key % 9)
}

/// Law: the addressing scheme is a total bijection over the 81 cells.
/// `decode` inverts `key_of` on every in-range pair, and no two distinct
/// pairs share a key.
pub proof fn lemma_key_bijection()
    ensures
        forall|c: int, r: int|
            0 <= c < 9 && 0 <= r < 9 ==> 0 <= #[trigger] key_index(c, r) < 81,
        forall|c: int, r: int|
            0 <= c < 9 && 0 <= r < 9 ==> #[trigger] key_index(c, r) / 9 == c
                && key_index(c, r) % 9 == r,
        forall|c1: int, r1: int, c2: int, r2: int|
            0 <= c1 < 9 && 0 <= r1 < 9 && 0 <= c2 < 9 && 0 <= r2 < 9
                && #[trigger] key_index(c1, r1) == #[trigger] key_index(c2, r2)
                ==> c1 == c2 && r1 == r2,
{
    assert forall|c: int, r: int| 0 <= c < 9 && 0 <= r < 9
        implies #[trigger] key_index(c, r) / 9 == c && key_index(c, r) % 9 == r by {
        assert((c * 9 + r) / 9 == c && (c * 9 + r) % 9 == r) by (nonlinear_arith)
            requires 0 <= c < 9 && 0 <= r < 9;
    }
}

} // verus!
