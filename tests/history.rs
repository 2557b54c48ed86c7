use klippy::entry::{ClipboardEntry, Timestamp};
use klippy::history::History;

fn contents(h: &History) -> Vec<String> {
    h.entries().iter().map(|e| e.content.clone()).collect()
}

fn at(secs: i64) -> Timestamp {
    Timestamp { secs, offset_secs: 0 }
}

#[test]
fn adding_same_text_twice_keeps_one_entry() {
    let mut h = History::new(50);
    assert!(h.add_entry("x".to_string()));
    assert!(!h.add_entry("x".to_string()));
    assert_eq!(h.len(), 1);
}

#[test]
fn blank_texts_are_refused() {
    let mut h = History::new(50);
    assert!(!h.add_entry(String::new()));
    assert!(!h.add_entry("   ".to_string()));
    assert!(!h.add_entry("\t\n".to_string()));
    assert_eq!(h.len(), 0);
    assert!(h.add_entry(" a ".to_string()));
    assert_eq!(h.len(), 1);
}

#[test]
fn oldest_unpinned_entry_is_evicted_first() {
    let mut h = History::new(2);
    h.add_entry("a".to_string());
    h.add_entry("b".to_string());
    h.add_entry("c".to_string());
    assert_eq!(contents(&h), vec!["c", "b"]);
}

#[test]
fn eviction_skips_pinned_entries() {
    let mut h = History::new(2);
    h.add_entry("a".to_string());
    h.add_entry("b".to_string());
    assert_eq!(h.toggle_pin(1), Some(true));
    h.add_entry("c".to_string());
    assert_eq!(contents(&h), vec!["c", "a"]);
    assert!(h.entries()[1].pinned);
}

#[test]
fn pinned_sole_entry_survives_addition() {
    let mut h = History::new(1);
    h.add_entry("old".to_string());
    assert_eq!(h.toggle_pin(0), Some(true));
    assert!(h.add_entry("new".to_string()));
    assert_eq!(h.len(), 2);
    assert_eq!(contents(&h), vec!["new", "old"]);
    assert!(!h.entries()[0].pinned);
    assert!(h.entries()[1].pinned);
}

#[test]
fn all_pinned_history_may_exceed_capacity() {
    let mut h = History::new(2);
    h.add_entry("a".to_string());
    h.add_entry("b".to_string());
    h.toggle_pin(0);
    h.toggle_pin(1);
    h.set_capacity(1);
    assert_eq!(h.len(), 2);
    h.add_entry("c".to_string());
    assert_eq!(contents(&h), vec!["c", "b", "a"]);
    h.add_entry("d".to_string());
    assert_eq!(contents(&h), vec!["d", "b", "a"]);
}

#[test]
fn search_is_case_insensitive() {
    let mut h = History::new(50);
    h.add_entry("HELLO".to_string());
    h.add_entry("foo".to_string());
    h.add_entry("Hello World".to_string());
    assert_eq!(contents(&h), vec!["Hello World", "foo", "HELLO"]);
    assert_eq!(h.filtered_entries("hello"), vec![0, 2]);
    assert_eq!(h.filtered_entries("WORLD"), vec![0]);
    assert_eq!(h.filtered_entries("bar"), Vec::<usize>::new());
}

#[test]
fn empty_query_matches_every_entry() {
    let mut h = History::new(50);
    h.add_entry("a".to_string());
    h.add_entry("b".to_string());
    assert_eq!(h.filtered_entries(""), vec![0, 1]);
}

#[test]
fn clear_unpinned_keeps_pinned_in_order() {
    let mut h = History::new(50);
    h.add_entry("D".to_string());
    h.add_entry("C".to_string());
    h.add_entry("B".to_string());
    h.add_entry("A".to_string());
    h.toggle_pin(0);
    h.toggle_pin(2);
    h.clear_unpinned();
    assert_eq!(contents(&h), vec!["A", "C"]);
    assert!(h.entries().iter().all(|e| e.pinned));
}

#[test]
fn stale_indices_change_nothing() {
    let mut h = History::new(50);
    h.add_entry("a".to_string());
    assert!(!h.remove_entry(1));
    assert_eq!(h.toggle_pin(5), None);
    assert_eq!(contents(&h), vec!["a"]);
    assert!(!h.entries()[0].pinned);
    assert!(h.remove_entry(0));
    assert_eq!(h.len(), 0);
}

#[test]
fn toggle_pin_flips_back() {
    let mut h = History::new(50);
    h.add_entry("a".to_string());
    assert_eq!(h.toggle_pin(0), Some(true));
    assert_eq!(h.toggle_pin(0), Some(false));
    assert!(!h.entries()[0].pinned);
}

#[test]
fn add_entry_at_keeps_timestamp() {
    let mut h = History::new(50);
    assert!(h.add_entry_at(ClipboardEntry::new_at("a".to_string(), at(42))));
    assert_eq!(h.entries()[0].timestamp, at(42));
    assert!(!h.add_entry_at(ClipboardEntry::new_at("a".to_string(), at(43))));
    assert_eq!(h.entries()[0].timestamp, at(42));
}

#[test]
fn loaded_entries_keep_order_and_pins() {
    let mut pinned = ClipboardEntry::new_at("one".to_string(), at(1));
    pinned.pinned = true;
    let entries = vec![pinned, ClipboardEntry::new_at("two".to_string(), at(2))];
    let h = History::from_entries(entries, 10).unwrap();
    assert_eq!(contents(&h), vec!["one", "two"]);
    assert!(h.entries()[0].pinned);
    assert!(!h.entries()[1].pinned);
    assert_eq!(h.max_entries(), 10);
}

#[test]
fn loaded_duplicates_keep_the_first() {
    let entries = vec![
        ClipboardEntry::new_at("one".to_string(), at(1)),
        ClipboardEntry::new_at("two".to_string(), at(2)),
        ClipboardEntry::new_at("one".to_string(), at(3)),
    ];
    let h = History::from_entries(entries, 10).unwrap();
    assert_eq!(contents(&h), vec!["one", "two"]);
    assert_eq!(h.entries()[0].timestamp, at(1));
    assert!(History::from_entries(Vec::new(), 0).is_none());
    assert!(History::from_entries(Vec::new(), 1).is_some());
}
