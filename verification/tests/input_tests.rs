use battleships::input::{parse_coordinate_pair, parse_grid_size, parse_ship_count, parse_usize, split_tokens};

#[test]
fn parse_usize_accepts_plain_numerals() {
    assert_eq!(parse_usize(b"0"), Some(0));
    assert_eq!(parse_usize(b"7"), Some(7));
    assert_eq!(parse_usize(b"12"), Some(12));
    assert_eq!(parse_usize(b"0010"), Some(10));
}

#[test]
fn parse_usize_rejects_malformed_input() {
    assert_eq!(parse_usize(b""), None);
    assert_eq!(parse_usize(b"abc"), None);
    assert_eq!(parse_usize(b"1a"), None);
    assert_eq!(parse_usize(b"-3"), None);
    assert_eq!(parse_usize(b"2 3"), None);
    // far beyond any machine word
    assert_eq!(parse_usize(b"99999999999999999999999999999999999999"), None);
}

#[test]
fn split_tokens_finds_blank_separated_words() {
    let parts = split_tokens(b"2 3");
    assert_eq!(parts.len(), 2);
    assert_eq!(parts[0], b"2".to_vec());
    assert_eq!(parts[1], b"3".to_vec());
    let parts = split_tokens(b"  12 \t 34  ");
    assert_eq!(parts.len(), 2);
    assert_eq!(parts[0], b"12".to_vec());
    assert_eq!(parts[1], b"34".to_vec());
    assert_eq!(split_tokens(b"   ").len(), 0);
    assert_eq!(split_tokens(b"").len(), 0);
    assert_eq!(split_tokens(b"a b c").len(), 3);
}

#[test]
fn parse_coordinate_pair_accepts_two_in_bounds_numbers() {
    assert_eq!(parse_coordinate_pair(b"2 3", 4), Some((2, 3)));
    assert_eq!(parse_coordinate_pair(b"0 0", 1), Some((0, 0)));
    assert_eq!(parse_coordinate_pair(b"  1  2 ", 3), Some((1, 2)));
    assert_eq!(parse_coordinate_pair(b"1\t2", 3), Some((1, 2)));
}

#[test]
fn parse_coordinate_pair_rejects_bad_lines() {
    // wrong token count
    assert_eq!(parse_coordinate_pair(b"2", 4), None);
    assert_eq!(parse_coordinate_pair(b"2 3 4", 4), None);
    assert_eq!(parse_coordinate_pair(b"", 4), None);
    // non-numeric tokens
    assert_eq!(parse_coordinate_pair(b"a b", 4), None);
    assert_eq!(parse_coordinate_pair(b"2 b", 4), None);
    // out of bounds
    assert_eq!(parse_coordinate_pair(b"4 0", 4), None);
    assert_eq!(parse_coordinate_pair(b"0 4", 4), None);
}

#[test]
fn parse_grid_size_enforces_the_permitted_range() {
    assert_eq!(parse_grid_size(b"1"), Some(1));
    assert_eq!(parse_grid_size(b"5"), Some(5));
    assert_eq!(parse_grid_size(b"10"), Some(10));
    assert_eq!(parse_grid_size(b"0"), None);
    assert_eq!(parse_grid_size(b"11"), None);
    assert_eq!(parse_grid_size(b"five"), None);
    assert_eq!(parse_grid_size(b""), None);
}

#[test]
fn parse_ship_count_enforces_the_cell_count() {
    assert_eq!(parse_ship_count(b"1", 3), Some(1));
    assert_eq!(parse_ship_count(b"9", 3), Some(9));
    assert_eq!(parse_ship_count(b"10", 3), None);
    assert_eq!(parse_ship_count(b"0", 3), None);
    assert_eq!(parse_ship_count(b"1", 1), Some(1));
    assert_eq!(parse_ship_count(b"2", 1), None);
    assert_eq!(parse_ship_count(b"x", 3), None);
}
