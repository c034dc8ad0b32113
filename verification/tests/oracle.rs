use markdown_rendering::needs_regeneration;

#[test]
fn missing_artifact_regenerates() {
    assert!(needs_regeneration(Some(5), None));
    assert!(needs_regeneration(None, Some(5)));
    assert!(needs_regeneration(None, None));
}

#[test]
fn newer_artifact_skips() {
    assert!(!needs_regeneration(Some(5), Some(9)));
    assert!(!needs_regeneration(Some(0), Some(1)));
}

#[test]
fn source_newer_regenerates() {
    assert!(needs_regeneration(Some(9), Some(5)));
    assert!(needs_regeneration(Some(1), Some(0)));
}

#[test]
fn equal_timestamps_regenerate() {
    assert!(needs_regeneration(Some(5), Some(5)));
    assert!(needs_regeneration(Some(0), Some(0)));
}
