use aeropdf::search::{goto_target_row, QueryChange, SearchMatch, SearchState};

fn state_with(pages: &[usize]) -> SearchState<u8> {
    let mut s: SearchState<u8> = SearchState::new();
    s.query = "abc".to_string();
    assert_eq!(s.query_changed(), QueryChange::Started);
    for &p in pages {
        s.push_match(SearchMatch { page_idx: p, rects: vec![1] });
    }
    s.finish();
    s
}

#[test]
fn navigation_wraps() {
    let mut s = state_with(&[3, 5, 9]);
    assert_eq!(s.counter(), "1 / 3");
    assert_eq!(s.next(), Some(5));
    assert_eq!(s.next(), Some(9));
    assert_eq!(s.next(), Some(3));
    assert_eq!(s.previous(), Some(9));
    assert_eq!(s.counter(), "3 / 3");
    let mut e: SearchState<u8> = SearchState::new();
    assert_eq!(e.next(), None);
    assert_eq!(e.previous(), None);
}

#[test]
fn counter_states() {
    let mut s: SearchState<u8> = SearchState::new();
    assert_eq!(s.counter(), "");
    s.query = "  ".to_string();
    assert_eq!(s.query_changed(), QueryChange::Cleared);
    assert!(!s.searching);
    s.query = "x".to_string();
    assert_eq!(s.query_changed(), QueryChange::Started);
    assert_eq!(s.query_changed(), QueryChange::Unchanged);
    assert!(s.push_match(SearchMatch { page_idx: 0, rects: vec![] }));
    assert!(!s.push_match(SearchMatch { page_idx: 1, rects: vec![] }));
    assert_eq!(s.counter(), "2/... ");
    s.finish();
    assert_eq!(s.counter(), "1 / 2");
    s.clear_matches();
    assert_eq!(s.counter(), "0 / 0");
}

#[test]
fn goto_box() {
    assert_eq!(goto_target_row(" 7 ", 10, false), Some(6));
    assert_eq!(goto_target_row("7", 10, true), Some(3));
    assert_eq!(goto_target_row("0", 10, false), None);
    assert_eq!(goto_target_row("11", 10, false), None);
    assert_eq!(goto_target_row("abc", 10, false), None);
    assert_eq!(goto_target_row("+2", 10, false), Some(1));
}
