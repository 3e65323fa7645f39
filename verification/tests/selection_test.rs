use aeropdf::selection::{word_bounds, PointerEvent, Selection};

fn chars(s: &str) -> Vec<char> {
    s.chars().collect()
}

#[test]
fn double_click_selects_word() {
    let c = chars("hello big world");
    assert_eq!(word_bounds(&c, 7), (6, 8));
    assert_eq!(word_bounds(&c, 0), (0, 4));
    assert_eq!(word_bounds(&c, 5), (0, 8));
    let mut s = Selection::none();
    assert!(!s.apply(2, PointerEvent::DoubleClicked { char_idx: Some(12) }, &c));
    assert_eq!(s, Selection { page: Some(2), start: Some(10), end: Some(14) });
    assert_eq!(s.selected_text(&c), Some("world".to_string()));
}

#[test]
fn drag_then_copy_then_click() {
    let c = chars("abcdef");
    let mut s = Selection::none();
    s.apply(1, PointerEvent::DragStarted { char_idx: Some(4), in_resize_margin: false }, &c);
    s.apply(1, PointerEvent::Dragged { char_idx: Some(1) }, &c);
    s.apply(2, PointerEvent::Dragged { char_idx: Some(5) }, &c);
    assert_eq!(s.selected_text(&c), Some("bcde".to_string()));
    assert_eq!(s.highlight_range(1, 6), Some((1, 5)));
    assert_eq!(s.highlight_range(2, 6), None);
    assert!(s.apply(1, PointerEvent::SecondaryClicked, &c));
    assert!(!s.apply(2, PointerEvent::SecondaryClicked, &c));
    s.apply(1, PointerEvent::Clicked { drag_stopped: true }, &c);
    assert_eq!(s.page, Some(1));
    s.apply(1, PointerEvent::Clicked { drag_stopped: false }, &c);
    assert_eq!(s, Selection::none());
    assert_eq!(s.selected_text(&c), None);
}

#[test]
fn margin_press_and_past_end() {
    let c = chars("abc");
    let mut s = Selection::none();
    s.apply(0, PointerEvent::DragStarted { char_idx: Some(1), in_resize_margin: true }, &c);
    assert_eq!(s, Selection::none());
    let t = Selection { page: Some(0), start: Some(1), end: Some(9) };
    assert_eq!(t.selected_text(&c), Some("bc".to_string()));
    let u = Selection { page: Some(0), start: Some(5), end: Some(9) };
    assert_eq!(u.selected_text(&c), None);
}

#[test]
fn right_click_copies_one_character_selection() {
    let c = chars("abc");
    let mut s = Selection::none();
    s.apply(0, PointerEvent::DragStarted { char_idx: Some(1), in_resize_margin: false }, &c);
    assert_eq!(s, Selection { page: Some(0), start: Some(1), end: Some(1) });
    assert!(s.apply(0, PointerEvent::SecondaryClicked, &c));
    assert_eq!(s, Selection { page: Some(0), start: Some(1), end: Some(1) });
    let mut none = Selection::none();
    assert!(!none.apply(0, PointerEvent::SecondaryClicked, &c));
}
