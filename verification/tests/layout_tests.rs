use textedit::layout::{layout, Lines};

fn uniform(text: &str, wrap: Option<u64>) -> Lines {
    let chars: Vec<char> = text.chars().collect();
    let widths: Vec<u64> = chars.iter().map(|_| 1u64).collect();
    layout(&chars, &widths, wrap, 1)
}

#[test]
fn wrap_boundary_scenario() {
    // A wrap width fitting 9 characters breaks "aaaa bbbb cccc"
    // after "bbbb", never inside a word.
    let l = uniform("aaaa bbbb cccc", Some(9));
    assert_eq!(l.lines.len(), 1);
    let line = &l.lines[0];
    assert_eq!(line.row_starts, vec![0, 9]);
    // Every offset inside "aaaa bbbb" maps to the boundary right
    // after "bbbb"; offsets beyond it map to the line's end.
    for idx in 0..9 {
        assert_eq!(l.wrapped_line_end_idx(0, idx), Some(9));
    }
    for idx in 9..14 {
        assert_eq!(l.wrapped_line_end_idx(0, idx), Some(14));
    }
}

#[test]
fn layout_partitions_bytes() {
    let text = "ab\ncdé\n\nf";
    let l = uniform(text, None);
    assert_eq!(l.lines.len(), 4);
    // Each line starts where the previous one ended; the last ends
    // at the document's byte length.
    let mut expected_start = 0;
    for line in &l.lines {
        assert_eq!(line.start_byte, expected_start);
        expected_start = line.start_byte
            + line.len_bytes
            + if line.has_newline { 1 } else { 0 };
    }
    assert_eq!(expected_start, text.len());
}

#[test]
fn unconstrained_layout_has_one_row_per_line() {
    let l = uniform("one two\nthree", None);
    for line in &l.lines {
        assert_eq!(line.row_starts.len(), 1);
    }
}

#[test]
fn heights_accumulate_monotonically() {
    let l = uniform("aaaa bbbb cccc\nd", Some(9));
    // First logical line wraps into two rows, second has one.
    assert_eq!(l.height_till_line_idx(0), 0);
    assert_eq!(l.height_till_line_idx(1), 2);
    assert_eq!(l.height(), 3);
}

#[test]
fn width_is_the_widest_row() {
    let l = uniform("aaaa bbbb cccc", Some(9));
    assert_eq!(l.width(), 9);
    let m = uniform("ab\nabcd", None);
    assert_eq!(m.width(), 4);
}

#[test]
fn position_queries_invert_each_other() {
    let l = uniform("abcd\nef", None);
    let (x, y) = l.position_for_byte_idx_in_line(2, 0);
    assert_eq!((x, y), (2, 0));
    let hit = l.byte_index_for_position(x as i64, y as i64);
    assert_eq!(hit, Some((0, 2)));
    let (x1, y1) = l.position_for_byte_idx_in_line(1, 1);
    assert_eq!((x1, y1), (1, 1));
    assert_eq!(l.byte_index_for_position(1, 1), Some((1, 1)));
}

#[test]
fn position_after_wrap_starts_at_column_zero() {
    let l = uniform("aaaa bbbb cccc", Some(9));
    // Byte 9 is the first character of the second visual row.
    let (x, y) = l.position_for_byte_idx_in_line(9, 0);
    assert_eq!((x, y), (0, 1));
}

#[test]
fn misses_are_distinguished() {
    let l = uniform("ab", None);
    // Above all lines.
    assert_eq!(l.byte_index_for_position(0, -1), None);
    // Below all lines.
    assert_eq!(l.byte_index_for_position(0, 5), None);
    // Past the row's end.
    assert_eq!(l.byte_index_for_position(10, 0), None);
}

#[test]
fn line_idx_for_y_bands_are_inclusive() {
    let l = uniform("a\nb", None);
    assert_eq!(l.line_idx_for_y(0), Some(0));
    assert_eq!(l.line_idx_for_y(1), Some(0));
    assert_eq!(l.line_idx_for_y(2), Some(1));
    assert_eq!(l.line_idx_for_y(3), None);
    assert_eq!(l.line_idx_for_y(-1), None);
}

#[test]
fn multibyte_chars_get_wide_byte_offsets() {
    let l = uniform("éa", None);
    let line = &l.lines[0];
    assert_eq!(line.char_bytes, vec![0, 2]);
    assert_eq!(line.len_bytes, 3);
}

#[test]
fn forced_break_inside_long_word() {
    // No whitespace at all: the row breaks right where it overflows.
    let l = uniform("abcdef", Some(3));
    let line = &l.lines[0];
    assert_eq!(line.row_starts, vec![0, 3]);
}

#[test]
fn wrapped_line_end_point_is_row_local() {
    let l = uniform("aaaa bbbb cccc", Some(9));
    // The boundary character at byte 9 begins the second row, so
    // the first segment's end point sits at that row's origin.
    let p = l.wrapped_line_end_point(0, 0);
    assert_eq!(p, Some((0, 1)));
    let q = l.wrapped_line_end_point(0, 10);
    assert_eq!(q, Some((5, 1)));
    assert_eq!(l.wrapped_line_end_point(9, 0), None);
}

#[test]
fn empty_document_still_has_one_line() {
    let l = uniform("", None);
    assert_eq!(l.lines.len(), 1);
    assert_eq!(l.lines[0].len_bytes, 0);
    assert_eq!(l.height(), 1);
}
