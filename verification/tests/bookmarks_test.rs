use aeropdf::bookmarks::{filter_outline, flatten_bookmarks, BookmarkTree};

fn leaf(title: Option<&str>, page: Option<usize>) -> BookmarkTree {
    BookmarkTree { title: title.map(|s| s.to_string()), page_index: page, children: vec![] }
}

#[test]
fn outline_flattens_in_reading_order() {
    let roots = vec![
        BookmarkTree {
            title: Some("Chapitre Un".to_string()),
            page_index: Some(1),
            children: vec![leaf(Some("Section"), Some(2)), leaf(None, None)],
        },
        leaf(Some("ÉPILOGUE"), Some(9)),
    ];
    let list = flatten_bookmarks(&roots);
    let got: Vec<(String, usize, usize)> =
        list.iter().map(|n| (n.title.clone(), n.page_index, n.level)).collect();
    assert_eq!(
        got,
        vec![
            ("Chapitre Un".to_string(), 1, 0),
            ("Section".to_string(), 2, 1),
            ("Sans titre".to_string(), 0, 1),
            ("ÉPILOGUE".to_string(), 9, 0),
        ]
    );
    assert_eq!(filter_outline(&list, "  "), vec![0, 1, 2, 3]);
    assert_eq!(filter_outline(&list, " CHAP "), vec![0]);
    assert_eq!(filter_outline(&list, "épi"), vec![3]);
    assert_eq!(filter_outline(&list, "tion"), vec![1]);
    assert_eq!(filter_outline(&list, "zzz"), Vec::<usize>::new());
}
