use aeropdf::history::History;

#[test]
fn test_history_round_trip() {
    let content = "5|C:\\docs\\test.pdf\n12|C:\\docs\\other.pdf\n";
    let history = History::from_text(content);
    assert_eq!(history.len(), 2);
    assert_eq!(history.get(&r"C:\docs\test.pdf".to_string()), Some(5));
    assert_eq!(history.get(&r"C:\docs\other.pdf".to_string()), Some(12));
}

#[test]
fn test_history_malformed_lines() {
    let content = "notanumber|path.pdf\n|empty\n5|valid.pdf\n";
    let history = History::from_text(content);
    assert_eq!(history.len(), 1);
    assert_eq!(history.get(&"valid.pdf".to_string()), Some(5));
}

#[test]
fn history_written_text_reads_back() {
    let mut h = History::new();
    h.insert("a.pdf".to_string(), 3);
    h.insert("/tmp/b c.pdf".to_string(), 120);
    h.insert("a.pdf".to_string(), 7);
    let text = h.to_text();
    assert_eq!(text, "7|a.pdf\n120|/tmp/b c.pdf\n");
    let back = History::from_text(&text);
    assert_eq!(back.len(), 2);
    assert_eq!(back.get(&"a.pdf".to_string()), Some(7));
    assert_eq!(back.get(&"/tmp/b c.pdf".to_string()), Some(120));
}

#[test]
fn history_lines_trimmed_crlf_and_later_wins() {
    let content = "  4 |  spaced.pdf  \r\n+9|x.pdf\r\n2|x.pdf\n-1|neg.pdf\n3|pipe|in|name.pdf";
    let h = History::from_text(content);
    assert_eq!(h.get(&"spaced.pdf".to_string()), Some(4));
    assert_eq!(h.get(&"x.pdf".to_string()), Some(2));
    assert_eq!(h.get(&"neg.pdf".to_string()), None);
    assert_eq!(h.get(&"pipe|in|name.pdf".to_string()), Some(3));
    assert_eq!(h.len(), 3);
}

#[test]
fn history_overflowing_page_is_skipped() {
    let h = History::from_text("99999999999999999999999|big.pdf\n");
    assert_eq!(h.len(), 0);
    assert_eq!(History::from_text("").len(), 0);
}

#[test]
fn history_record_reports_change() {
    let mut h = History::new();
    assert!(h.record("doc.pdf".to_string(), 4));
    assert!(!h.record("doc.pdf".to_string(), 4));
    assert!(h.record("doc.pdf".to_string(), 5));
    assert_eq!(h.get(&"doc.pdf".to_string()), Some(5));
    assert_eq!(h.len(), 1);
}
