use aeropdf::layout::{
    page_indicator, pages_in_row, pages_to_evict, precache_ranges, row_count, row_of_page,
    shows_separator, visible_pages,
};

#[test]
fn test_layout_zoom_scales_width() {
    let available_w = 800.0f32;
    let zoom = 2.0f32;
    let pw = (available_w * zoom).round();
    assert!((pw - 1600.0).abs() < 1.0);
}

#[test]
fn rows_and_pages() {
    assert_eq!(row_count(10, false), 10);
    assert_eq!(row_count(10, true), 5);
    assert_eq!(row_count(11, true), 6);
    assert_eq!(row_count(0, true), 0);
    assert_eq!(pages_in_row(2, 11, true), vec![4, 5]);
    assert_eq!(pages_in_row(5, 11, true), vec![10]);
    assert_eq!(pages_in_row(7, 11, false), vec![7]);
    assert_eq!(row_of_page(9, true), 4);
    assert_eq!(row_of_page(9, false), 9);
}

#[test]
fn every_page_in_exactly_one_row() {
    for &dual in &[false, true] {
        for pages in 0..9usize {
            let mut seen = vec![0usize; pages];
            for r in 0..row_count(pages, dual) {
                for p in pages_in_row(r, pages, dual) {
                    assert!(p < pages);
                    assert_eq!(row_of_page(p, dual), r);
                    seen[p] += 1;
                }
            }
            assert!(seen.iter().all(|&c| c == 1));
        }
    }
}

#[test]
fn visible_and_precache() {
    assert_eq!(visible_pages(1, 3, 5, true), (2, 5));
    assert_eq!(visible_pages(1, 3, 5, false), (1, 3));
    assert_eq!(precache_ranges(2, 5, 6, true), ((5, 6), (0, 2)));
    assert_eq!(precache_ranges(6, 8, 100, false), ((8, 10), (4, 6)));
    assert!(shows_separator(3, 5, false));
    assert!(!shows_separator(4, 5, false));
    assert!(!shows_separator(0, 5, true));
}

#[test]
fn indicator_text() {
    assert_eq!(page_indicator(2, 42, false), (2, "Page 3 / 42".to_string()));
    assert_eq!(page_indicator(100, 42, false), (41, "Page 42 / 42".to_string()));
    assert_eq!(page_indicator(1, 5, true), (2, "Pages 3 - 4 / 5".to_string()));
    assert_eq!(page_indicator(2, 5, true), (4, "Page 5 / 5".to_string()));
}

#[test]
fn eviction_keeps_nearest() {
    let few: Vec<usize> = (0..30).collect();
    assert!(pages_to_evict(&few, 0, 2).is_empty());
    let many: Vec<usize> = (0..40).rev().collect();
    let mut out = pages_to_evict(&many, 10, 12);
    out.sort();
    assert_eq!(out.len(), 18);
    let expected: Vec<usize> = (22..40).collect();
    assert_eq!(out, expected);
}
