use aeropdf::search::{SearchMatch, SearchState};
use aeropdf::view::{resume_page, ViewState};

#[test]
fn escape_closes_whatever_is_open() {
    let mut v = ViewState::new(false, false);
    v.search_open = true;
    v.outline_open = true;
    v.fullscreen = true;
    assert!(v.quit_requested(true, false, false));
    assert!(v.quit_requested(true, false, true));
    assert!(!v.quit_requested(false, false, false));
}

#[test]
fn q_quits_only_when_not_typing() {
    let mut v = ViewState::new(false, false);
    assert!(v.quit_requested(false, true, false));
    assert!(!v.quit_requested(false, true, true));
    v.search_open = true;
    assert!(!v.quit_requested(false, true, false));
    v.search_open = false;
    v.goto_open = true;
    assert!(!v.quit_requested(false, true, false));
    v.goto_open = false;
    v.outline_open = true;
    assert!(!v.quit_requested(false, true, false));
}

#[test]
fn closing_overlays() {
    let mut v = ViewState::new(true, true);
    let mut s: SearchState<u8> = SearchState::new();
    s.query = "q".to_string();
    s.push_match(SearchMatch { page_idx: 1, rects: vec![] });
    v.toggle_goto();
    v.toggle_outline();
    v.search_open = true;
    v.close_goto();
    assert!(!v.goto_open && v.outline_open && v.search_open);
    v.close_outline();
    assert!(!v.outline_open && v.search_open);
    v.close_search(&mut s);
    assert!(!v.search_open);
    assert!(s.matches.is_empty());
    assert_eq!(s.query, "q");
    assert!(v.dark_mode && v.dual_page);
}

#[test]
fn toggles_and_messages() {
    let mut v = ViewState::new(false, true);
    assert_eq!(v.toggle_dark_mode(), "Mode Nuit activé");
    assert_eq!(v.toggle_dark_mode(), "Mode Clair activé");
    assert_eq!(v.toggle_dual_page(), "Mode Page Simple : Activé");
    assert_eq!(v.toggle_fullscreen(), "Plein écran activé");
    assert_eq!(v.cycle_rotation(), "Rotation : 90°");
    assert_eq!(v.cycle_rotation(), "Rotation : 180°");
    assert_eq!(v.cycle_rotation(), "Rotation : 270°");
    assert_eq!(v.cycle_rotation(), "Rotation : 0°");
    assert!(v.toggle_outline());
    assert!(!v.toggle_outline());
    assert!(v.toggle_goto());
    assert!(v.is_typing(false));
}

#[test]
fn resume_rules() {
    assert_eq!(resume_page(Some(4), 10), Some((4, "Reprise à la page 5 / 10".to_string())));
    assert_eq!(resume_page(Some(0), 10), None);
    assert_eq!(resume_page(Some(10), 10), None);
    assert_eq!(resume_page(None, 10), None);
}

#[test]
fn reset_for_new_document() {
    let mut v = ViewState::new(true, true);
    let mut s: SearchState<u8> = SearchState::new();
    s.query = "q".to_string();
    v.cycle_rotation();
    v.toggle_search(&mut s);
    v.reset_for_document(&mut s);
    assert_eq!(v.rotation, 0);
    assert!(v.dual_page && !v.search_open && v.dark_mode);
    assert!(s.query.is_empty());
}

#[test]
fn resume_last_page_and_first_page() {
    assert_eq!(resume_page(Some(9), 10), Some((9, "Reprise à la page 10 / 10".to_string())));
    assert_eq!(resume_page(Some(1), 2), Some((1, "Reprise à la page 2 / 2".to_string())));
    assert_eq!(resume_page(Some(3), 0), None);
}
