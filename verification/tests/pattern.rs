use game_of_life::pattern::{
    is_blank_byte, parse_line, parse_pattern, parse_token, split_bytes, trim_blank,
};
use game_of_life::{Grid, GridPos, PatternError, State};

use State::{Dead, Live};

#[test]
fn pattern_builds_rows_top_to_bottom() {
    let grid = Grid::from_pattern(b"0,1,0\n1,1,0").unwrap();
    assert_eq!(grid.dim(), GridPos { x: 3, y: 2 });
    assert_eq!(grid.cells(), &vec![Dead, Live, Dead, Live, Live, Dead]);
}

#[test]
fn pattern_of_one_cell() {
    let grid = Grid::from_pattern(b"1").unwrap();
    assert_eq!(grid.dim(), GridPos { x: 1, y: 1 });
    assert_eq!(grid.cells(), &vec![Live]);
}

#[test]
fn pattern_lines_are_trimmed() {
    let grid = Grid::from_pattern(b"  0,1\r\n1,0\t").unwrap();
    assert_eq!(grid.dim(), GridPos { x: 2, y: 2 });
    assert_eq!(grid.cells(), &vec![Dead, Live, Live, Dead]);
}

#[test]
fn unequal_rows_are_rejected() {
    assert_eq!(Grid::from_pattern(b"0,1,0\n1,1").err(), Some(PatternError::RaggedRows));
    assert_eq!(Grid::from_pattern(b"0,1\n1,1,0").err(), Some(PatternError::RaggedRows));
}

#[test]
fn unequal_rows_with_a_matching_total_are_rejected() {
    // Three rows of 2, 1 and 3 cells hold as many cells as three rows of 2.
    assert_eq!(Grid::from_pattern(b"0,1\n1\n1,0,1").err(), Some(PatternError::RaggedRows));
    let rows = vec![vec![Dead, Live], vec![Live], vec![Live, Dead, Live]];
    assert_eq!(Grid::from_rows(&rows).err(), Some(PatternError::RaggedRows));
}

#[test]
fn empty_text_is_rejected() {
    assert_eq!(Grid::from_pattern(b"").err(), Some(PatternError::Empty));
    assert_eq!(parse_pattern(b""), Err(PatternError::Empty));
}

#[test]
fn invalid_tokens_are_rejected() {
    for text in [
        &b"0,2"[..],
        b"0,x\n1,1",
        b"0,,1",
        b"0,1,",
        b",0",
        b"01,1",
        b"0, 1",
        b"0,1\n",
        b"\n0,1",
        b"0,1\n\n1,0",
        b" ",
        b"\n",
        b"0;1",
        b"0,\xc2\xa01",
    ] {
        assert_eq!(Grid::from_pattern(text).err(), Some(PatternError::InvalidToken));
    }
}

#[test]
fn invalid_token_comes_before_unequal_rows() {
    assert_eq!(Grid::from_pattern(b"0,1\n1,x,0").err(), Some(PatternError::InvalidToken));
}

#[test]
fn too_wide_pattern_is_rejected() {
    let mut text = Vec::new();
    for i in 0..65536 {
        if i > 0 {
            text.push(b',');
        }
        text.push(b'0');
    }
    assert_eq!(Grid::from_pattern(&text).err(), Some(PatternError::TooLarge));
}

#[test]
fn too_tall_pattern_is_rejected() {
    let mut text = Vec::new();
    for i in 0..65536 {
        if i > 0 {
            text.push(b'\n');
        }
        text.push(b'1');
    }
    assert_eq!(Grid::from_pattern(&text).err(), Some(PatternError::TooLarge));
}

#[test]
fn widest_pattern_is_accepted() {
    let mut text = Vec::new();
    for i in 0..65535 {
        if i > 0 {
            text.push(b',');
        }
        text.push(if i % 2 == 0 { b'1' } else { b'0' });
    }
    let grid = Grid::from_pattern(&text).unwrap();
    assert_eq!(grid.dim(), GridPos { x: 65535, y: 1 });
    assert_eq!(grid.cells()[0], Live);
    assert_eq!(grid.cells()[1], Dead);
    assert_eq!(grid.cells()[65534], Live);
}

#[test]
fn rows_build_a_grid() {
    let rows = vec![vec![Live, Dead], vec![Dead, Dead], vec![Dead, Live]];
    let grid = Grid::from_rows(&rows).unwrap();
    assert_eq!(grid.dim(), GridPos { x: 2, y: 3 });
    assert_eq!(grid.cells(), &vec![Live, Dead, Dead, Dead, Dead, Live]);
    assert_eq!(grid.cells()[grid.pos2idx(GridPos { x: 1, y: 2 })], Live);
}

#[test]
fn no_rows_or_no_columns_are_rejected() {
    assert_eq!(Grid::from_rows(&Vec::new()).err(), Some(PatternError::Empty));
    assert_eq!(Grid::from_rows(&vec![Vec::new()]).err(), Some(PatternError::Empty));
    assert_eq!(Grid::from_rows(&vec![Vec::new(), vec![Live]]).err(), Some(PatternError::Empty));
    assert_eq!(
        Grid::from_rows(&vec![vec![Live], Vec::new()]).err(),
        Some(PatternError::RaggedRows)
    );
}

#[test]
fn too_many_rows_are_rejected() {
    let rows = vec![vec![Dead]; 65536];
    assert_eq!(Grid::from_rows(&rows).err(), Some(PatternError::TooLarge));
    let widest = vec![vec![Dead; 65536]];
    assert_eq!(Grid::from_rows(&widest).err(), Some(PatternError::TooLarge));
}

#[test]
fn parse_pattern_gives_the_rows() {
    assert_eq!(
        parse_pattern(b"0,1\n1\n1,0,1"),
        Ok(vec![vec![Dead, Live], vec![Live], vec![Live, Dead, Live]])
    );
    assert_eq!(parse_pattern(b"0,1\n1,7"), Err(PatternError::InvalidToken));
}

#[test]
fn split_cuts_at_every_separator() {
    assert_eq!(split_bytes(b"", b','), vec![Vec::<u8>::new()]);
    assert_eq!(split_bytes(b"abc", b','), vec![b"abc".to_vec()]);
    assert_eq!(split_bytes(b"a,b", b','), vec![b"a".to_vec(), b"b".to_vec()]);
    assert_eq!(
        split_bytes(b",a,,b,", b','),
        vec![Vec::new(), b"a".to_vec(), Vec::new(), b"b".to_vec(), Vec::new()]
    );
    assert_eq!(split_bytes(b"1,0\n0,1", b'\n'), vec![b"1,0".to_vec(), b"0,1".to_vec()]);
}

#[test]
fn trim_takes_blanks_from_both_ends_only() {
    assert_eq!(trim_blank(b""), b"");
    assert_eq!(trim_blank(b" \t\r\n"), b"");
    assert_eq!(trim_blank(b"0,1"), b"0,1");
    assert_eq!(trim_blank(b"  0, 1\r"), b"0, 1");
    assert_eq!(trim_blank(b"\x0b\x0c0\x0b"), b"0");
    assert_eq!(trim_blank(b"\x080\x0e"), b"\x080\x0e");
}

#[test]
fn blank_bytes_are_ascii_white_space() {
    for byte in 0..=255u8 {
        let expected = matches!(byte, b' ' | b'\t' | b'\n' | 0x0b | 0x0c | b'\r');
        assert_eq!(is_blank_byte(byte), expected);
    }
}

#[test]
fn tokens_are_single_digits() {
    assert_eq!(parse_token(b"0"), Some(Dead));
    assert_eq!(parse_token(b"1"), Some(Live));
    assert_eq!(parse_token(b""), None);
    assert_eq!(parse_token(b"2"), None);
    assert_eq!(parse_token(b"00"), None);
    assert_eq!(parse_token(b"10"), None);
    assert_eq!(parse_token(b" 1"), None);
}

#[test]
fn lines_are_rows_of_tokens() {
    assert_eq!(parse_line(b"1,0,0,1"), Some(vec![Live, Dead, Dead, Live]));
    assert_eq!(parse_line(b" 1,0 "), Some(vec![Live, Dead]));
    assert_eq!(parse_line(b"1"), Some(vec![Live]));
    assert_eq!(parse_line(b""), None);
    assert_eq!(parse_line(b"1,"), None);
    assert_eq!(parse_line(b"1 ,0"), None);
}
