use klippy::manager::{ClipboardManager, ERROR_STATUS_MS, STATUS_MS};

fn contents(m: &ClipboardManager) -> Vec<String> {
    m.history().entries().iter().map(|e| e.content.clone()).collect()
}

#[test]
fn unchanged_clipboard_is_added_once() {
    let mut m = ClipboardManager::new();
    assert!(m.check_clipboard(Some("x".to_string())));
    assert!(!m.check_clipboard(Some("x".to_string())));
    assert!(!m.check_clipboard(Some("x".to_string())));
    assert_eq!(contents(&m), vec!["x"]);
    assert_eq!(m.current_clipboard(), "x");
}

#[test]
fn failed_or_empty_reads_change_nothing() {
    let mut m = ClipboardManager::new();
    assert!(!m.check_clipboard(None));
    assert!(!m.check_clipboard(Some(String::new())));
    assert_eq!(m.current_clipboard(), "");
    assert_eq!(m.history().len(), 0);
}

#[test]
fn older_text_copied_again_is_not_duplicated() {
    let mut m = ClipboardManager::new();
    m.check_clipboard(Some("a".to_string()));
    m.check_clipboard(Some("b".to_string()));
    assert!(!m.check_clipboard(Some("a".to_string())));
    assert_eq!(m.current_clipboard(), "a");
    assert_eq!(contents(&m), vec!["b", "a"]);
}

#[test]
fn copied_text_is_not_added_back() {
    let mut m = ClipboardManager::new();
    m.record_copy("y", true);
    assert_eq!(m.status_text(), "Copied to clipboard");
    assert!(!m.check_clipboard(Some("y".to_string())));
    assert_eq!(m.history().len(), 0);
    m.record_copy("z", false);
    assert_eq!(m.status_text(), "Failed to copy to clipboard");
    assert_eq!(m.current_clipboard(), "y");
}

#[test]
fn status_counts_down_and_expires() {
    let mut m = ClipboardManager::new();
    assert_eq!(m.status_text(), "Ready");
    assert!(!m.update_status(100));
    m.set_status("hi", STATUS_MS);
    assert!(m.update_status(1500));
    assert_eq!(m.status_text(), "hi");
    assert!(m.update_status(500));
    assert_eq!(m.status_text(), "Ready");
}

#[test]
fn open_outcomes_are_reported() {
    let mut m = ClipboardManager::new();
    m.record_open(None);
    assert_eq!(m.status_text(), "Storage path not available");
    m.record_open(Some(Ok(())));
    assert_eq!(m.status_text(), "Opened storage directory");
    m.record_open(Some(Err("denied".to_string())));
    assert_eq!(m.status_text(), "Failed to open directory: denied");
    assert!(m.update_status(ERROR_STATUS_MS - 1));
    assert_eq!(m.status_text(), "Failed to open directory: denied");
}

#[test]
fn manager_operations_set_status() {
    let mut m = ClipboardManager::new();
    m.check_clipboard(Some("a".to_string()));
    m.check_clipboard(Some("b".to_string()));
    assert!(m.toggle_pin(1));
    assert_eq!(m.status_text(), "Entry pinned");
    assert!(m.toggle_pin(1));
    assert_eq!(m.status_text(), "Entry unpinned");
    assert!(m.toggle_pin(1));
    m.clear_unpinned();
    assert_eq!(m.status_text(), "Cleared unpinned");
    assert_eq!(contents(&m), vec!["a"]);
    assert!(!m.remove_entry(3));
    assert!(m.remove_entry(0));
    assert_eq!(m.status_text(), "Entry removed");
    m.set_capacity(10);
    assert_eq!(m.status_text(), "Settings saved");
    assert_eq!(m.history().max_entries(), 10);
}

#[test]
fn search_term_filters_positions() {
    let mut m = ClipboardManager::new();
    m.check_clipboard(Some("HELLO".to_string()));
    m.check_clipboard(Some("foo".to_string()));
    m.check_clipboard(Some("Hello World".to_string()));
    m.set_search_term("hello".to_string());
    assert_eq!(m.search_term(), "hello");
    assert_eq!(m.filtered_entries(), vec![0, 2]);
}
