use sudoku::keys::key_of;
use sudoku::parse::parse;

const GOOD: &str = "53..7....\n\
                    6..195...\n\
                    .98....6.\n\
                    8...6...3\n\
                    4..8.3..1\n\
                    7...2...6\n\
                    .6....28.\n\
                    ...419..5\n\
                    ....8..79\n";

#[test]
fn well_shaped_input_parses() {
    let p = parse(GOOD).expect("nine lines of nine characters should parse");
    assert_eq!(p.get(key_of(0, 0)), Some(5));
    assert_eq!(p.get(key_of(1, 0)), Some(3));
    assert_eq!(p.get(key_of(2, 0)), None);
    assert_eq!(p.get(key_of(4, 0)), Some(7));
    assert_eq!(p.get(key_of(8, 3)), Some(3));
    assert!(p.clue(key_of(0, 0)));
    assert!(!p.clue(key_of(2, 0)));
}

#[test]
fn input_without_trailing_newline_parses() {
    let trimmed = GOOD.trim_end_matches('\n');
    assert!(parse(trimmed).is_ok());
}

#[test]
fn crlf_separated_input_parses() {
    let crlf = GOOD.replace('\n', "\r\n");
    let p = parse(&crlf).expect("CRLF line endings should parse");
    assert_eq!(p.get(key_of(0, 0)), Some(5));
}

#[test]
fn eight_lines_are_rejected() {
    let mut lines: Vec<&str> = GOOD.lines().collect();
    lines.pop();
    let text = lines.join("\n");
    assert!(parse(&text).is_err());
}

#[test]
fn ten_lines_are_rejected() {
    let text = format!("{}.........\n", GOOD);
    assert!(parse(&text).is_err());
}

#[test]
fn short_line_is_rejected() {
    let text = GOOD.replacen("53..7....", "53..7...", 1);
    assert!(parse(&text).is_err());
}

#[test]
fn long_line_is_rejected() {
    let text = GOOD.replacen("53..7....", "53..7.....", 1);
    assert!(parse(&text).is_err());
}

#[test]
fn empty_input_is_rejected() {
    assert!(parse("").is_err());
}

#[test]
fn doubled_trailing_newline_is_rejected() {
    let text = format!("{}\n", GOOD);
    assert!(parse(&text).is_err());
}

#[test]
fn non_digit_characters_mean_empty() {
    let text = GOOD.replacen("53..7....", "53xy7 .?.", 1);
    let p = parse(&text).expect("any non-digit character is an empty cell");
    assert_eq!(p.get(key_of(0, 0)), Some(5));
    assert_eq!(p.get(key_of(2, 0)), None);
    assert_eq!(p.get(key_of(5, 0)), None);
    assert_eq!(p.get(key_of(4, 0)), Some(7));
}
