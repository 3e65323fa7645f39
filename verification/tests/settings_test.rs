use aeropdf::settings::{preferences_text, Settings};

#[test]
fn test_config_round_trip() {
    let content = "dark_mode=true\nzoom=1.50\ndual_page_mode=true\n";
    let map = Settings::from_text(content);
    assert_eq!(map.get("dark_mode").as_deref(), Some("true"));
    assert_eq!(map.get("zoom").as_deref(), Some("1.50"));
    assert_eq!(map.get("dual_page_mode").as_deref(), Some("true"));
}

#[test]
fn settings_flags_and_trimming() {
    let s = Settings::from_text(" dark_mode = false \nno equals here\ndual_page_mode=TRUE\nk=a=b\n");
    assert!(!s.flag("dark_mode", true));
    assert!(!s.flag("dual_page_mode", true));
    assert!(s.flag("missing", true));
    assert!(!s.flag("missing", false));
    assert_eq!(s.get("k").as_deref(), Some("a=b"));
    assert_eq!(s.get("no equals here"), None);
}

#[test]
fn preferences_written_then_read() {
    let text = preferences_text(true, "1.25", false);
    assert_eq!(text, "dark_mode=true\nzoom=1.25\ndual_page_mode=false\n");
    let s = Settings::from_text(&text);
    assert!(s.flag("dark_mode", false));
    assert!(!s.flag("dual_page_mode", true));
    assert_eq!(s.get("zoom").as_deref(), Some("1.25"));
}
