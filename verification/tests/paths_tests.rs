use cpi_sync::paths::{normalize_path, sanitize_entry_path};

fn segments(name: &str) -> Option<Vec<String>> {
    sanitize_entry_path(name)
}

#[test]
fn sanitize_rejects_parent_traversal() {
    assert_eq!(segments("../../escape.txt"), None);
}

#[test]
fn sanitize_rejects_interior_parent() {
    assert_eq!(segments("a/../b"), None);
}

#[test]
fn sanitize_drops_current_dir_and_empty_components() {
    assert_eq!(
        segments("dir/./sub//file.txt"),
        Some(vec!["dir".to_string(), "sub".to_string(), "file.txt".to_string()])
    );
}

#[test]
fn sanitize_clamps_absolute_paths() {
    assert_eq!(
        segments("/abs/file"),
        Some(vec!["abs".to_string(), "file".to_string()])
    );
}

#[test]
fn sanitize_rejects_paths_with_nothing_left() {
    assert_eq!(segments(""), None);
    assert_eq!(segments("."), None);
    assert_eq!(segments("//"), None);
}

#[test]
fn sanitize_ignores_trailing_separator() {
    assert_eq!(segments("dir/"), Some(vec!["dir".to_string()]));
}

#[test]
fn normalize_resolves_parent_components() {
    assert_eq!(normalize_path("a/b/../c"), "a/c");
}

#[test]
fn normalize_drops_current_dir() {
    assert_eq!(normalize_path("./x"), "x");
}

#[test]
fn normalize_keeps_absolute_root() {
    assert_eq!(normalize_path("/a/../../b"), "/b");
}

#[test]
fn normalize_collapses_doubled_separators() {
    assert_eq!(normalize_path("a//b/."), "a/b");
}

#[test]
fn normalize_of_empty_path_is_empty() {
    assert_eq!(normalize_path(""), "");
}

#[test]
fn normalize_parent_of_relative_root_is_dropped() {
    assert_eq!(normalize_path("../x"), "x");
}
