use grafted::clipboard::{initial_history, trim_text, ClipboardEntry, ClipboardHistory};

#[test]
fn time_ago_units() {
    let e = ClipboardEntry { text: "x".to_string(), timestamp: 1000, pinned: false };
    assert_eq!(e.time_ago(1003), "now");
    assert_eq!(e.time_ago(1042), "42s");
    assert_eq!(e.time_ago(1000 + 125), "2m");
    assert_eq!(e.time_ago(1000 + 7200), "2h");
    assert_eq!(e.time_ago(1000 + 3 * 86400 + 5), "3d");
    assert_eq!(e.time_ago(10), "now");
    assert_eq!(e.time_ago(1000 + 10307 * 86400), "10307d");
}

#[test]
fn trimming() {
    assert_eq!(trim_text("  hello \n"), "hello");
    assert_eq!(trim_text("\u{3000}a b\u{2028}"), "a b");
    assert_eq!(trim_text("   "), "");
}

#[test]
fn poll_adds_new_text_first_and_skips_repeats() {
    let mut h = ClipboardHistory::new();
    h.poll(Some("  first ".to_string()), 1);
    h.poll(Some("second".to_string()), 2);
    h.poll(Some("second".to_string()), 3);
    h.poll(Some("   ".to_string()), 4);
    h.poll(None, 5);
    h.poll(Some("first".to_string()), 6);
    let texts: Vec<&str> = h.entries.iter().map(|e| e.text.as_str()).collect();
    assert_eq!(texts, vec!["second", "first"]);
    assert_eq!(h.entries[0].timestamp, 2);
}

#[test]
fn oldest_unpinned_entry_is_evicted() {
    let mut h = ClipboardHistory::new();
    for i in 0..200u64 {
        h.poll(Some(format!("item {i}")), i);
    }
    assert_eq!(h.entries.len(), 200);
    let last = h.entries.len() - 1;
    h.entries[last].pinned = true;
    h.poll(Some("newest".to_string()), 500);
    assert_eq!(h.entries.len(), 200);
    assert_eq!(h.entries[0].text, "newest");
    // the pinned oldest entry stays; the next oldest went
    assert_eq!(h.entries[199].text, "item 0");
    assert_eq!(h.entries[198].text, "item 2");
}

#[test]
fn initial_history_reads_once() {
    let h = initial_history(Some("hello".to_string()), 7);
    assert_eq!(h.entries.len(), 1);
    assert_eq!(h.entries[0].text, "hello");
    assert!(initial_history(None, 7).entries.is_empty());
}
