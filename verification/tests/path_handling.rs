use markdown_rendering::html_counterpart;
use markdown_rendering::is_markdown_file;
use markdown_rendering::mime_for_path;
use markdown_rendering::select_markdown_files;

#[test]
fn markdown_extension_recognized() {
    assert!(is_markdown_file("a.md"));
    assert!(is_markdown_file("notes/deep/dir/a.md"));
    assert!(!is_markdown_file("a.html"));
    assert!(!is_markdown_file("md"));
    assert!(!is_markdown_file(".md"));
    assert!(!is_markdown_file("dir/.md"));
    assert!(!is_markdown_file("a.Md"));
    assert!(!is_markdown_file("a.md.bak"));
}

#[test]
fn html_counterpart_derived() {
    assert_eq!(html_counterpart("a.md"), "a.html");
    assert_eq!(html_counterpart("notes/chapter.md"), "notes/chapter.html");
}

#[test]
fn selection_keeps_markdown_regular_files() {
    let entries = vec![
        ("a.md".to_string(), true),
        ("b.txt".to_string(), true),
        ("c.md".to_string(), false),
        ("sub/d.md".to_string(), true),
        ("sub".to_string(), false),
    ];
    let selected = select_markdown_files(&entries);
    assert_eq!(selected, vec!["a.md".to_string(), "sub/d.md".to_string()]);
}

#[test]
fn known_image_extensions_mapped() {
    assert_eq!(mime_for_path("logo.png"), "image/png");
    assert_eq!(mime_for_path("photo.jpg"), "image/jpeg");
    assert_eq!(mime_for_path("photo.jpeg"), "image/jpeg");
    assert_eq!(mime_for_path("anim.gif"), "image/gif");
}

#[test]
fn unknown_extension_falls_back() {
    assert_eq!(mime_for_path("image.bmp"), "application/octet-stream");
    assert_eq!(mime_for_path("image"), "application/octet-stream");
    assert_eq!(mime_for_path(".png"), "application/octet-stream");
    assert_eq!(mime_for_path("dir.d/image"), "application/octet-stream");
}
