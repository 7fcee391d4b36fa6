use nil::line_map::LineCol;
use nil::line_map::LineMap;
use nil::text::TextSize;

fn lc(line: u32, col: u32) -> LineCol {
    LineCol { line, col }
}

#[test]
fn lines_and_columns_of_a_text() {
    let map = LineMap::new("ab\n\ncde\n").unwrap();
    assert_eq!(map.line_count(), 4);
    let expected = [
        (0, lc(0, 0)),
        (1, lc(0, 1)),
        (2, lc(0, 2)),
        (3, lc(1, 0)),
        (4, lc(2, 0)),
        (5, lc(2, 1)),
        (6, lc(2, 2)),
        (7, lc(2, 3)),
        (8, lc(3, 0)),
    ];
    for (pos, at) in expected {
        assert_eq!(map.line_col_for_pos(TextSize::new(pos)), at, "{}", pos);
        assert_eq!(map.pos_for_line_col(at), Some(TextSize::new(pos)), "{:?}", at);
    }
}

#[test]
fn offset_to_line_col_and_back_is_the_offset() {
    for text in ["", "\n", "a", "let x = 1; in x + x", "a\nb\r\nc\n\n\nd", "é\nüü\n"] {
        let map = LineMap::new(text).unwrap();
        for pos in 0..=text.len() as u32 {
            let at = map.line_col_for_pos(TextSize::new(pos));
            assert_eq!(map.pos_for_line_col(at), Some(TextSize::new(pos)), "{:?} at {}", text, pos);
        }
    }
}

#[test]
fn lines_and_columns_that_the_text_does_not_have() {
    let map = LineMap::new("ab\ncd").unwrap();
    assert_eq!(map.pos_for_line_col(lc(0, 3)), None);
    assert_eq!(map.pos_for_line_col(lc(1, 2)), Some(TextSize::new(5)));
    assert_eq!(map.pos_for_line_col(lc(1, 3)), None);
    assert_eq!(map.pos_for_line_col(lc(2, 0)), None);
    assert_eq!(map.pos_for_line_col(lc(u32::MAX, u32::MAX)), None);
}

#[test]
fn offset_behind_the_text_counts_in_the_last_line() {
    let map = LineMap::new("ab\ncd").unwrap();
    assert_eq!(map.line_col_for_pos(TextSize::new(9)), lc(1, 6));
    assert_eq!(map.pos_for_line_col(lc(1, 6)), None);
}

#[test]
fn empty_text_has_one_line() {
    let map = LineMap::new("").unwrap();
    assert_eq!(map.line_count(), 1);
    assert_eq!(map.line_col_for_pos(TextSize::new(0)), lc(0, 0));
    assert_eq!(map.pos_for_line_col(lc(0, 0)), Some(TextSize::new(0)));
    assert_eq!(map.pos_for_line_col(lc(0, 1)), None);
}

#[test]
fn columns_count_bytes() {
    let map = LineMap::new("é=1\nx").unwrap();
    assert_eq!(map.line_col_for_pos(TextSize::new(2)), lc(0, 2));
    assert_eq!(map.line_col_for_pos(TextSize::new(5)), lc(1, 0));
}
