use klippy::entry::{ClipboardEntry, Timestamp};

fn entry(content: &str) -> ClipboardEntry {
    ClipboardEntry::new_at(content.to_string(), Timestamp { secs: 0, offset_secs: 0 })
}

#[test]
fn long_text_preview_is_cut_to_fifty() {
    let text = "a".repeat(60);
    let p = entry(&text).preview();
    assert_eq!(p.chars().count(), 50);
    assert_eq!(p, format!("{}...", "a".repeat(47)));
}

#[test]
fn short_text_preview_is_unchanged() {
    let text = "b".repeat(50);
    assert_eq!(entry(&text).preview(), text);
    assert_eq!(entry("hi").preview(), "hi");
    assert_eq!(entry("").preview(), "");
}

#[test]
fn preview_never_splits_a_character() {
    let text = "\u{e9}".repeat(60);
    let p = entry(&text).preview();
    assert_eq!(p, format!("{}...", "\u{e9}".repeat(47)));
    let short = "\u{e9}".repeat(50);
    assert_eq!(entry(&short).preview(), short);
}

#[test]
fn time_of_day_is_two_digit_fields() {
    let e = ClipboardEntry::new_at("x".to_string(), Timestamp { secs: 3661, offset_secs: 0 });
    assert_eq!(e.formatted_time(), "01:01:01");
    let e = ClipboardEntry::new_at("x".to_string(), Timestamp { secs: 3661, offset_secs: 3600 });
    assert_eq!(e.formatted_time(), "02:01:01");
    let e = ClipboardEntry::new_at("x".to_string(), Timestamp { secs: -1, offset_secs: 0 });
    assert_eq!(e.formatted_time(), "23:59:59");
    let e = ClipboardEntry::new_at("x".to_string(), Timestamp { secs: 1_700_000_000, offset_secs: -18000 });
    assert_eq!(e.formatted_time(), "17:13:20");
}

#[test]
fn new_entry_is_unpinned() {
    let e = ClipboardEntry::new("x".to_string());
    assert_eq!(e.content, "x");
    assert!(!e.pinned);
}
