use symlinkarr::paths::{
    distinct_paths, file_name_of, is_below, join, parent_of, path_under_roots,
    resolve_link_target, same_path,
};
use symlinkarr::text::{parse_number, replace_text, split_text, trimmed};

#[test]
fn paths_are_compared_by_components() {
    assert!(same_path("/a//b/", "/a/b"));
    assert!(same_path("/a/./b", "/a/b"));
    assert!(!same_path("/a/../b", "/b"));
    assert!(is_below("/a/b/c", "/a/b"));
    assert!(!is_below("/a/bc", "/a/b"));
    assert!(path_under_roots("/a/b/c", &vec!["/x".to_string(), "/a".to_string()]));
}

#[test]
fn paths_are_joined_and_taken_apart() {
    assert_eq!(join("/a", "b"), "/a/b");
    assert_eq!(join("/a", "/b"), "/b");
    assert_eq!(parent_of("/a/b"), Some("/a".to_string()));
    assert_eq!(parent_of("/"), None);
    assert_eq!(file_name_of("/a/b.mkv"), Some("b.mkv".to_string()));
    assert_eq!(file_name_of("/a/.."), None);
    assert_eq!(resolve_link_target("/lib/x.mkv", "../rd/x.mkv"), "/lib/../rd/x.mkv");
    assert_eq!(resolve_link_target("/lib/x.mkv", "/rd/x.mkv"), "/rd/x.mkv");
}

#[test]
fn paths_are_sorted_and_kept_once() {
    let list = vec!["/b".to_string(), "/a/c".to_string(), "/a".to_string(), "/b/".to_string()];
    assert_eq!(distinct_paths(list), vec!["/a", "/a/c", "/b"]);
}

#[test]
fn texts_are_taken_apart() {
    assert_eq!(trimmed("\u{3000} a b \n"), "a b");
    assert_eq!(split_text("a,,b", ','), vec!["a", "", "b"]);
    assert_eq!(replace_text("aXbX", "X", "--"), "a--b--");
    assert_eq!(parse_number("007"), Some(7));
    assert_eq!(parse_number("18446744073709551616"), None);
    assert_eq!(parse_number("x"), None);
}
