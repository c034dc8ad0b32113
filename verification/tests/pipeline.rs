use markdown_rendering::inline_images;
use markdown_rendering::render_markdown;
use markdown_rendering::MarkdownRenderingPlugin;

#[test]
fn heading_renders_nonempty() {
    let (html, tags) = render_markdown("# Title");
    assert!(!html.is_empty());
    assert!(html.contains("<h1>Title</h1>"));
    assert_eq!(tags.len(), 0);
}

#[test]
fn missing_image_leaves_element_unchanged() {
    let (html, tags) = render_markdown("# Title\n![x](missing.png)");
    assert_eq!(tags.len(), 1);
    assert_eq!(tags[0].src, "missing.png");
    let data: Vec<Option<Vec<u8>>> = vec![None];
    let out = inline_images(&html, &tags, &data);
    assert_eq!(out, html);
    assert!(out.contains("<h1>Title</h1>"));
    assert!(out.contains("<img src=\"missing.png\" alt=\"x\" />"));
}

#[test]
fn one_byte_png_inlined() {
    let (html, tags) = render_markdown("![logo](logo.png)");
    assert_eq!(tags.len(), 1);
    assert_eq!(tags[0].src, "logo.png");
    let data: Vec<Option<Vec<u8>>> = vec![Some(vec![0x89])];
    let out = inline_images(&html, &tags, &data);
    assert!(out.contains("data:image/png;base64,iQ=="));
    assert!(!out.contains("<img src=\"logo.png\""));
}

#[test]
fn inlined_payload_round_trips() {
    let bytes: Vec<u8> = vec![0x89, 0x50, 0x4e, 0x47, 0x0d, 0x0a, 0x1a, 0x0a];
    let (html, tags) = render_markdown("![p](img.png)");
    let data: Vec<Option<Vec<u8>>> = vec![Some(bytes.clone())];
    let out = inline_images(&html, &tags, &data);
    let start = out.find("base64,").expect("payload missing") + "base64,".len();
    let end = out[start..].find('"').expect("payload unterminated") + start;
    let decoded = base64::decode(&out[start..end]).expect("payload not base64");
    assert_eq!(decoded, bytes);
}

#[test]
fn rendering_twice_is_identical() {
    let source = "# Title\n\nSome *text* with ![an image](pic.png) inside.";
    let data: Vec<Option<Vec<u8>>> = vec![Some(vec![1, 2, 3])];
    let (html1, tags1) = render_markdown(source);
    let first = inline_images(&html1, &tags1, &data);
    let (html2, tags2) = render_markdown(source);
    let second = inline_images(&html2, &tags2, &data);
    assert_eq!(first, second);
}

#[test]
fn unknown_extension_inlined_as_octet_stream() {
    let (html, tags) = render_markdown("![b](img.bmp)");
    let data: Vec<Option<Vec<u8>>> = vec![Some(vec![1, 2, 3])];
    let out = inline_images(&html, &tags, &data);
    assert!(out.contains("data:application/octet-stream;base64,"));
}

#[test]
fn duplicate_references_all_replaced() {
    let (html, tags) = render_markdown("![a](x.png)\n\n![a](x.png)");
    assert_eq!(tags.len(), 2);
    let data: Vec<Option<Vec<u8>>> = vec![Some(vec![7]), Some(vec![7])];
    let out = inline_images(&html, &tags, &data);
    assert!(!out.contains("<img src=\"x.png\""));
    assert_eq!(out.matches("data:image/png;base64,").count(), 2);
}

#[test]
fn raw_html_images_not_inlined() {
    let (_, tags) = render_markdown("text <img src=\"raw.png\" alt=\"r\" /> more");
    assert_eq!(tags.len(), 0);
}

#[test]
fn plugin_identity() {
    let plugin = MarkdownRenderingPlugin;
    assert_eq!(plugin.get_name(), "Markdown rendering");
    assert_eq!(plugin.get_version(), "0.1.0");
}
