use rimg::names::{is_supported_image, scan_action, ScanAction};

#[test]
fn test_supported_extensions_include_new_formats() {
    assert!(is_supported_image("test.avif"));
    assert!(is_supported_image("test.heic"));
    assert!(is_supported_image("test.heif"));
    assert!(is_supported_image("test.jxl"));
    assert!(is_supported_image("test.AVIF"));
    assert!(is_supported_image("test.HEIC"));
    assert!(is_supported_image("test.JXL"));
}

#[test]
fn extension_filter_edge_cases() {
    assert!(is_supported_image("/photos/a.b/IMG_01.JpEg"));
    assert!(!is_supported_image("/photos/a.jpg/readme"));
    assert!(!is_supported_image(".png"));
    assert!(!is_supported_image("notes.txt"));
    assert!(!is_supported_image("png"));
    assert!(!is_supported_image("photo.jpg.bak"));
}

#[test]
fn scan_never_follows_links_and_stops_at_depth() {
    assert_eq!(scan_action(0, true, true, "/a/loop"), ScanAction::Skip);
    assert_eq!(scan_action(0, true, false, "/a/pic.png"), ScanAction::Skip);
    assert_eq!(scan_action(5, false, true, "/a/sub"), ScanAction::Descend(6));
    assert_eq!(scan_action(63, false, true, "/a/deep"), ScanAction::Skip);
    assert_eq!(scan_action(62, false, true, "/a/deep"), ScanAction::Descend(63));
    assert_eq!(scan_action(3, false, false, "/a/pic.PNG"), ScanAction::Collect);
    assert_eq!(scan_action(3, false, false, "/a/notes.txt"), ScanAction::Skip);
}
