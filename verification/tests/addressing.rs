use sudoku::keys::{decode, key_of};

#[test]
fn key_decode_round_trip() {
    for col in 0..9u8 {
        for row in 0..9u8 {
            let key = key_of(col, row);
            assert!(key < 81);
            let (c, r) = decode(key);
            assert_eq!((c, r), (col, row));
        }
    }
}

#[test]
fn keys_pairwise_distinct() {
    let mut seen = [false; 81];
    for col in 0..9u8 {
        for row in 0..9u8 {
            let key = key_of(col, row) as usize;
            assert!(!seen[key], "two cells share key {}", key);
            seen[key] = true;
        }
    }
    assert!(seen.iter().all(|&s| s));
}
