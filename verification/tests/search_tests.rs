use textedit::command::CharRange;
use textedit::editor::{TextInput, TextInputMode};
use textedit::search::SearchView;

fn editor_with(text: &str) -> TextInput {
    let mut t = TextInput::new(TextInputMode::Full);
    t.insert(text);
    t
}

#[test]
fn search_cycles_through_matches() {
    let mut t = editor_with("ab ab ab");
    let mut s = SearchView::new();
    let term = b"ab".to_vec();

    s.search(&term, &mut t);
    assert_eq!(t.selected_range, CharRange { start: 0, end: 2 });

    s.search(&term, &mut t);
    assert_eq!(t.selected_range, CharRange { start: 3, end: 5 });

    s.search(&term, &mut t);
    assert_eq!(t.selected_range, CharRange { start: 6, end: 8 });

    // The fourth search wraps back to the first match.
    s.search(&term, &mut t);
    assert_eq!(t.selected_range, CharRange { start: 0, end: 2 });
}

#[test]
fn repeating_keeps_the_match_set() {
    let mut t = editor_with("xx yy xx");
    let mut s = SearchView::new();
    let term = b"xx".to_vec();
    s.search(&term, &mut t);
    let first = s.last_matches.clone().unwrap();
    assert_eq!(first, vec![(0, 2), (6, 8)]);
    s.search(&term, &mut t);
    assert_eq!(s.last_matches.clone().unwrap(), first);
    assert_eq!(s.last_highlight_idx, Some(1));
}

#[test]
fn matches_are_highlighted() {
    let mut t = editor_with("ab ab ab");
    let mut s = SearchView::new();
    s.search(&b"ab".to_vec(), &mut t);
    assert_eq!(t.highlights.len(), 3);
    assert_eq!(t.highlights[1], CharRange { start: 3, end: 5 });
}

#[test]
fn case_insensitive_by_default() {
    let mut t = editor_with("Ab aB ab");
    let mut s = SearchView::new();
    s.search(&b"AB".to_vec(), &mut t);
    assert_eq!(s.last_matches.clone().unwrap().len(), 3);
}

#[test]
fn toggle_case_rescans() {
    let mut t = editor_with("Ab aB ab");
    let mut s = SearchView::new();
    let term = b"ab".to_vec();
    s.search(&term, &mut t);
    assert_eq!(s.last_matches.clone().unwrap().len(), 3);
    s.toggle_case(&term, &mut t);
    assert!(!s.case_insensitive);
    assert_eq!(s.last_matches.clone().unwrap(), vec![(6, 8)]);
    assert_eq!(s.last_highlight_idx, Some(0));
}

#[test]
fn empty_term_is_a_noop() {
    let mut t = editor_with("abc");
    let mut s = SearchView::new();
    s.search(&Vec::new(), &mut t);
    assert!(s.last_matches.is_none());
    assert_eq!(t.highlights.len(), 0);
}

#[test]
fn no_match_selects_nothing() {
    let mut t = editor_with("abc");
    t.move_to(1);
    let mut s = SearchView::new();
    s.search(&b"zz".to_vec(), &mut t);
    assert_eq!(s.last_matches.clone().unwrap().len(), 0);
    assert_eq!(t.selected_range, CharRange { start: 1, end: 1 });
}

#[test]
fn matches_do_not_overlap() {
    let mut t = editor_with("aaa");
    let mut s = SearchView::new();
    s.search(&b"aa".to_vec(), &mut t);
    // The scan resumes after each match's end: one match only.
    assert_eq!(s.last_matches.clone().unwrap(), vec![(0, 2)]);
}

#[test]
fn changing_term_rescans_from_start() {
    let mut t = editor_with("ab cd ab");
    let mut s = SearchView::new();
    s.search(&b"ab".to_vec(), &mut t);
    s.search(&b"ab".to_vec(), &mut t);
    assert_eq!(s.last_highlight_idx, Some(1));
    s.search(&b"cd".to_vec(), &mut t);
    assert_eq!(s.last_highlight_idx, Some(0));
    assert_eq!(s.last_matches.clone().unwrap(), vec![(3, 5)]);
}

#[test]
fn dismiss_clears_highlights() {
    let mut t = editor_with("ab ab");
    let mut s = SearchView::new();
    s.show();
    assert!(s.show);
    s.search(&b"ab".to_vec(), &mut t);
    assert!(t.highlights.len() > 0);
    s.dismiss(&mut t);
    assert!(!s.show);
    assert_eq!(t.highlights.len(), 0);
}
