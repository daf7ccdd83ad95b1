use mini_wallpaper::backup::{
    entry_action, is_suspicious_entry, total_bytes, unpacked_total, EntryAction, DATABASE_FILE,
    THUMBNAILS_DIR, WALLPAPERS_DIR,
};

#[test]
fn packed_names() {
    assert_eq!(WALLPAPERS_DIR, "wallpapers");
    assert_eq!(THUMBNAILS_DIR, "thumbnails");
    assert_eq!(DATABASE_FILE, "app.db");
}

#[test]
fn sizes_add_up() {
    assert_eq!(total_bytes(&vec![10, 20, 30]), 60);
    assert_eq!(total_bytes(&vec![]), 0);
    assert_eq!(unpacked_total(&vec![(true, 0), (false, 100), (true, 7), (false, 5)]), 105);
}

#[test]
fn entries_with_parent_references_are_skipped() {
    assert!(is_suspicious_entry("../etc/passwd"));
    assert!(is_suspicious_entry("wallpapers/..\\x"));
    assert!(is_suspicious_entry("a..b"));
    assert!(!is_suspicious_entry("wallpapers/a.b.c"));
    assert!(!is_suspicious_entry("."));
    assert!(!is_suspicious_entry(""));
    assert!(is_suspicious_entry("/tmp/x"));
    assert!(is_suspicious_entry("\\\\server\\share"));
    assert!(is_suspicious_entry("C:\\Windows\\x"));
    assert!(is_suspicious_entry("c:x"));
    assert!(!is_suspicious_entry("wallpapers/a:b.png"));
    assert_eq!(entry_action("/tmp/x", false), EntryAction::Skip);
    assert_eq!(entry_action("/etc/", true), EntryAction::Skip);
    assert_eq!(entry_action("../x", false), EntryAction::Skip);
    assert_eq!(entry_action("thumbnails/", true), EntryAction::CreateDir);
    assert_eq!(entry_action("app.db", false), EntryAction::WriteFile);
}
