use textedit::command::CharRange;
use textedit::editor::{TextInput, TextInputMode};

fn buffer_text(t: &TextInput) -> String {
    let n = t.content.len_chars();
    t.content.slice_string(0, n)
}

#[test]
fn starts_empty_and_clean() {
    let t = TextInput::new(TextInputMode::Full);
    assert_eq!(buffer_text(&t), "");
    assert!(!t.is_dirty());
    assert_eq!(t.selected_range, CharRange { start: 0, end: 0 });
}

#[test]
fn insert_places_cursor_after_text() {
    let mut t = TextInput::new(TextInputMode::Full);
    t.insert("hello");
    assert_eq!(buffer_text(&t), "hello");
    assert_eq!(t.selected_range, CharRange { start: 5, end: 5 });
    assert!(t.is_dirty());
}

#[test]
fn undo_redo_interleave() {
    let mut t = TextInput::new(TextInputMode::Full);
    t.insert("hello");
    t.insert(" world");
    assert_eq!(buffer_text(&t), "hello world");
    t.undo();
    assert_eq!(buffer_text(&t), "hello");
    t.undo();
    assert_eq!(buffer_text(&t), "");
    t.redo();
    t.redo();
    assert_eq!(buffer_text(&t), "hello world");
}

#[test]
fn undo_restores_prior_selection() {
    let mut t = TextInput::new(TextInputMode::Full);
    t.insert("abcdef");
    t.move_to(2);
    t.select_to(4);
    t.replace_text_in_range(None, "XY");
    assert_eq!(buffer_text(&t), "abXYef");
    // Undo the insert, then the delete: content and the selection
    // before the replacement come back.
    t.undo();
    t.undo();
    assert_eq!(buffer_text(&t), "abcdef");
    assert_eq!(t.selected_range, CharRange { start: 2, end: 4 });
}

#[test]
fn undo_on_empty_stack_is_noop() {
    let mut t = TextInput::new(TextInputMode::Full);
    t.undo();
    t.redo();
    assert_eq!(buffer_text(&t), "");
}

#[test]
fn new_edit_clears_redo() {
    let mut t = TextInput::new(TextInputMode::Full);
    t.insert("one");
    t.undo();
    t.insert("two");
    t.redo();
    assert_eq!(buffer_text(&t), "two");
}

#[test]
fn selection_inversion() {
    let mut t = TextInput::new(TextInputMode::Full);
    t.insert("0123456789");
    t.move_to(5);
    t.select_to(2);
    assert_eq!(t.selected_range, CharRange { start: 2, end: 5 });
    assert!(t.selection_reversed);
    t.select_to(8);
    assert_eq!(t.selected_range, CharRange { start: 5, end: 8 });
    assert!(!t.selection_reversed);
}

#[test]
fn selection_stays_in_bounds() {
    let mut t = TextInput::new(TextInputMode::Full);
    t.insert("abc");
    t.select_all();
    let len = t.content.len_chars();
    assert!(t.selected_range.start <= t.selected_range.end);
    assert!(t.selected_range.end <= len);
    t.replace_text_in_range(None, "");
    assert!(t.selected_range.end <= t.content.len_chars());
    assert_eq!(buffer_text(&t), "");
}

#[test]
fn backspace_and_delete() {
    let mut t = TextInput::new(TextInputMode::Full);
    t.insert("abc");
    t.backspace();
    assert_eq!(buffer_text(&t), "ab");
    t.move_to(0);
    t.delete();
    assert_eq!(buffer_text(&t), "b");
    t.move_to(0);
    t.backspace();
    assert_eq!(buffer_text(&t), "b");
}

#[test]
fn left_right_clamp_at_ends() {
    let mut t = TextInput::new(TextInputMode::Full);
    t.insert("ab");
    t.move_to(0);
    t.left();
    assert_eq!(t.selected_range.start, 0);
    t.right();
    assert_eq!(t.selected_range.start, 1);
    t.right();
    t.right();
    assert_eq!(t.selected_range.start, 2);
}

#[test]
fn word_boundaries() {
    let mut t = TextInput::new(TextInputMode::Full);
    t.insert("foo bar_baz  qux");
    // End of word from the start runs to the end of "foo".
    assert_eq!(t.end_of_word(0), 3);
    // From inside the gap it crosses the space and stops after
    // "bar_baz".
    assert_eq!(t.end_of_word(3), 11);
    // Start of word from the end of "foo" goes back to 0.
    assert_eq!(t.start_of_word(3), 0);
    // From inside "qux" it goes back across the double space.
    assert_eq!(t.start_of_word(16), 13);
}

#[test]
fn punctuation_runs_are_word_like() {
    let mut t = TextInput::new(TextInputMode::Full);
    t.insert("a+++b c");
    // The punctuation run after "a" and the word that follows it
    // are consumed as one unit; the scan stops at the space.
    assert_eq!(t.end_of_word(1), 5);
}

#[test]
fn selection_stats_reports_line_and_column() {
    let mut t = TextInput::new(TextInputMode::Full);
    t.insert("ab\ncde\nf");
    t.move_to(5);
    let (line, col, sel_chars, sel_lines) = t.selection_stats();
    assert_eq!(line, 1);
    assert_eq!(col, 2);
    assert_eq!(sel_chars, 0);
    assert_eq!(sel_lines, 0);
    t.select_to(8);
    let (_, _, sel_chars, sel_lines) = t.selection_stats();
    assert_eq!(sel_chars, 3);
    assert_eq!(sel_lines, 1);
}

#[test]
fn copy_and_cut() {
    let mut t = TextInput::new(TextInputMode::Full);
    t.insert("hello world");
    t.move_to(0);
    t.select_to(5);
    assert_eq!(t.copy_text(), "hello");
    let cut = t.cut();
    assert_eq!(cut, "hello");
    assert_eq!(buffer_text(&t), " world");
}

#[test]
fn replace_with_explicit_range() {
    let mut t = TextInput::new(TextInputMode::Full);
    t.insert("hello world");
    t.replace_text_in_range(Some(CharRange { start: 0, end: 5 }), "goodbye");
    assert_eq!(buffer_text(&t), "goodbye world");
    assert_eq!(t.selected_range, CharRange { start: 7, end: 7 });
}

#[test]
fn update_selected_range_bytes_converts() {
    let mut t = TextInput::new(TextInputMode::Full);
    t.insert("ab cd");
    t.update_selected_range_bytes(3, 5);
    assert_eq!(t.selected_range, CharRange { start: 3, end: 5 });
}

#[test]
fn single_line_mode_refuses_newline() {
    let mut t = TextInput::new(TextInputMode::SingleLine);
    t.insert("ab");
    t.new_line();
    assert_eq!(buffer_text(&t), "ab");
    let mut f = TextInput::new(TextInputMode::Full);
    f.insert("ab");
    f.new_line();
    assert_eq!(buffer_text(&f), "ab\n");
}

#[test]
fn multibyte_round_trip() {
    let mut t = TextInput::new(TextInputMode::Full);
    t.insert("héllo");
    assert_eq!(t.content.len_chars(), 5);
    assert_eq!(t.content.len_bytes(), 6);
    t.undo();
    assert_eq!(buffer_text(&t), "");
    t.redo();
    assert_eq!(buffer_text(&t), "héllo");
}

#[test]
fn soft_wrap_toggle() {
    let mut t = TextInput::new(TextInputMode::Full);
    assert!(!t.soft_wrap_enabled());
    t.set_soft_wrap(true);
    assert!(t.soft_wrap_enabled());
}

#[test]
fn mark_dirty_is_observable() {
    let mut t = TextInput::new(TextInputMode::Full);
    t.insert("x");
    assert!(t.is_dirty());
    t.mark_dirty(false);
    assert!(!t.is_dirty());
}

#[test]
fn mixed_edit_sequence_round_trips() {
    let mut t = TextInput::new(TextInputMode::Full);
    t.insert("the quick fox");
    t.move_to(4);
    t.select_to(9);
    t.replace_text_in_range(None, "slow");
    assert_eq!(buffer_text(&t), "the slow fox");
    t.move_to(0);
    t.delete();
    t.delete();
    assert_eq!(buffer_text(&t), "e slow fox");
    // Fully undoing the whole session restores the empty buffer.
    for _ in 0..16 {
        t.undo();
    }
    assert_eq!(buffer_text(&t), "");
    assert_eq!(t.selected_range, CharRange { start: 0, end: 0 });
    // And replaying it restores the final state.
    for _ in 0..16 {
        t.redo();
    }
    assert_eq!(buffer_text(&t), "e slow fox");
}

#[test]
fn utf16_offsets() {
    // The supplementary char between 'a' and 'b' takes two code
    // units.
    let d = textedit::doc::Document::from_text("a\u{1D11E}b");
    assert_eq!(d.char_to_utf16_cu(0), 0);
    assert_eq!(d.char_to_utf16_cu(1), 1);
    assert_eq!(d.char_to_utf16_cu(2), 3);
    assert_eq!(d.char_to_utf16_cu(3), 4);
    assert_eq!(d.utf16_cu_to_char(0), 0);
    assert_eq!(d.utf16_cu_to_char(1), 1);
    // A unit inside the surrogate pair maps to the owning char.
    assert_eq!(d.utf16_cu_to_char(2), 1);
    assert_eq!(d.utf16_cu_to_char(3), 2);
    assert_eq!(d.utf16_cu_to_char(4), 3);
}

#[test]
fn new_line_without_split_breaks_after_the_line() {
    let mut t = TextInput::new(TextInputMode::Full);
    t.insert("ab\ncd");
    t.move_to(1);
    // The cursor jumps past "ab" before the break, so the line is
    // never split.
    t.new_line_without_split();
    assert_eq!(buffer_text(&t), "ab\n\ncd");
    assert_eq!(t.selected_range, CharRange { start: 3, end: 3 });
    // Single-line mode refuses it.
    let mut s = TextInput::new(TextInputMode::SingleLine);
    s.insert("ab");
    s.new_line_without_split();
    assert_eq!(buffer_text(&s), "ab");
}

#[test]
fn copy_and_cut_take_the_cursor_line_when_nothing_is_selected() {
    let mut t = TextInput::new(TextInputMode::Full);
    t.insert("ab\ncd\nef");
    t.move_to(4);
    // Without a layout the visual line is the logical one; the copy
    // takes it together with its line feed.
    assert_eq!(t.copy_text(), "cd\n");
    let cut = t.cut();
    assert_eq!(cut, "cd\n");
    assert_eq!(buffer_text(&t), "ab\nef");
}

#[test]
fn content_epoch_tracks_edits() {
    let mut t = TextInput::new(TextInputMode::Full);
    let e0 = t.content_epoch;
    t.insert("ab");
    assert!(t.content_epoch > e0);
    let e1 = t.content_epoch;
    // A pure cursor move is not a content change.
    t.move_to(0);
    assert_eq!(t.content_epoch, e1);
}
