use mini_wallpaper::wallpaper::{
    detect_file_type, file_type_of_lowercase, label_char_given, get_supported_extensions, import_concurrency, makes_thumbnail,
    sanitize_label, stored_extension, stored_file_name, thumbnail_file_name, video_thumbnail_args,
    window_label, window_url, WallpaperWindowManager,
};

#[test]
fn file_types_ignore_case() {
    assert_eq!(detect_file_type("jpg"), Some("image"));
    assert_eq!(detect_file_type("JPG"), Some("image"));
    assert_eq!(detect_file_type("WebP"), Some("image"));
    assert_eq!(detect_file_type("mkv"), Some("video"));
    assert_eq!(detect_file_type("MOV"), Some("video"));
    assert_eq!(detect_file_type("gif"), Some("gif"));
    assert_eq!(detect_file_type("GIF"), Some("gif"));
    assert_eq!(detect_file_type("txt"), None);
    assert_eq!(detect_file_type(""), None);
}

#[test]
fn supported_extensions_list() {
    assert_eq!(
        get_supported_extensions(),
        vec!["jpg", "jpeg", "png", "bmp", "webp", "mp4", "webm", "mkv", "avi", "mov", "gif"]
    );
}

#[test]
fn thumbnails_for_images_and_gifs() {
    assert!(makes_thumbnail("image"));
    assert!(makes_thumbnail("gif"));
    assert!(!makes_thumbnail("video"));
}

#[test]
fn window_labels_and_urls() {
    assert_eq!(sanitize_label(r"\\.\DISPLAY1"), "----DISPLAY1");
    assert_eq!(sanitize_label("a_b-c 9"), "a_b-c-9");
    assert_eq!(window_label(r"\\.\DISPLAY2"), "wallpaper-----DISPLAY2");
    assert_eq!(window_url("M1", None), "/wallpaper?monitorId=M1");
    assert_eq!(window_url("M1", Some("")), "/wallpaper?monitorId=M1");
    assert_eq!(window_url("M1", Some("x=1")), "/wallpaper?monitorId=M1&x=1");
}

#[test]
fn window_manager_tracks_one_window_per_monitor() {
    let mut wm = WallpaperWindowManager::new();
    assert_eq!(wm.window_count(), 0);
    wm.insert("A".to_string(), "wallpaper-A".to_string());
    wm.insert("B".to_string(), "wallpaper-B".to_string());
    wm.insert("A".to_string(), "wallpaper-A2".to_string());
    assert_eq!(wm.window_count(), 2);
    assert!(wm.has_window("A"));
    assert_eq!(wm.label_of("A").map(|s| s.as_str()), Some("wallpaper-A2"));
    let mut ids = wm.monitor_ids();
    ids.sort();
    assert_eq!(ids, vec!["A", "B"]);
    assert_eq!(wm.labels().len(), 2);
    assert_eq!(wm.remove("A"), Some("wallpaper-A2".to_string()));
    assert_eq!(wm.remove("A"), None);
    assert!(!wm.has_window("A"));
    assert_eq!(wm.window_count(), 1);
}

#[test]
fn import_workers() {
    assert_eq!(import_concurrency(None), 3);
    assert_eq!(import_concurrency(Some(1)), 2);
    assert_eq!(import_concurrency(Some(8)), 6);
    assert_eq!(import_concurrency(Some(64)), 8);
}

#[test]
fn stored_names() {
    assert_eq!(stored_extension(Some("png")), "png");
    assert_eq!(stored_extension(None), "bin");
    assert_eq!(stored_file_name("0f8e", "png"), "0f8e.png");
    assert_eq!(thumbnail_file_name("0f8e"), "0f8e.webp");
}

#[test]
fn encoder_arguments() {
    assert_eq!(
        video_thumbnail_args("in.mp4", "out.webp", true),
        vec!["-i", "in.mp4", "-ss", "00:00:01", "-frames:v", "1", "-vf", "scale=400:-1", "-q:v", "2", "-y", "out.webp"]
    );
    assert_eq!(
        video_thumbnail_args("in.mp4", "out.webp", false),
        vec!["-i", "in.mp4", "-frames:v", "1", "-vf", "scale=400:-1", "-q:v", "2", "-y", "out.webp"]
    );
}

#[test]
fn lowercase_lookup_and_label_characters() {
    assert_eq!(file_type_of_lowercase("jpg"), Some("image"));
    assert_eq!(file_type_of_lowercase("JPG"), None);
    assert_eq!(file_type_of_lowercase("webm"), Some("video"));
    assert_eq!(label_char_given('x', true), 'x');
    assert_eq!(label_char_given('x', false), '-');
    assert_eq!(label_char_given('_', false), '_');
    assert_eq!(label_char_given('.', false), '-');
    assert_eq!(label_char_given('.', true), '.');
}

#[test]
fn window_history() {
    let mut wm = WallpaperWindowManager::new();
    wm.insert("A".to_string(), "wallpaper-A".to_string());
    wm.insert("B".to_string(), "wallpaper-B".to_string());
    assert_eq!(wm.remove("A"), Some("wallpaper-A".to_string()));
    wm.insert("A".to_string(), "wallpaper-A".to_string());
    assert_eq!(wm.window_count(), 2);
    wm.clear();
    assert_eq!(wm.window_count(), 0);
    assert!(!wm.has_window("B"));
    wm.insert("C".to_string(), "wallpaper-C".to_string());
    assert!(wm.has_window("C") && !wm.has_window("A"));
    assert_eq!(wm.window_count(), 1);
}
