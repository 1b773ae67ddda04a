use common_http_server_rs::path_utils::{normalize_path, path_has_prefix_segment};

#[test]
fn normalize_path_handles_empty_whitespace_and_missing_slash() {
    assert_eq!(normalize_path(""), "/");
    assert_eq!(normalize_path("   "), "/");
    assert_eq!(normalize_path("api"), "/api");
}

#[test]
fn normalize_path_removes_trailing_slash_except_root() {
    assert_eq!(normalize_path("/api/"), "/api");
    assert_eq!(normalize_path("/"), "/");
}

#[test]
fn prefix_matching_is_segment_aware() {
    assert!(path_has_prefix_segment("/panel", "/panel"));
    assert!(path_has_prefix_segment("/panel/api", "/panel"));
    assert!(!path_has_prefix_segment("/panelized", "/panel"));
    assert!(path_has_prefix_segment("/anything", "/"));
}

#[test]
fn normalize_path_trims_surrounding_white_space() {
    assert_eq!(normalize_path("  /api/users/  "), "/api/users");
    assert_eq!(normalize_path("\tapi\n"), "/api");
    assert_eq!(normalize_path("\u{3000}api\u{a0}"), "/api");
}

#[test]
fn normalize_path_strips_every_trailing_slash() {
    assert_eq!(normalize_path("/api///"), "/api");
    assert_eq!(normalize_path("api//"), "/api");
}

#[test]
fn normalize_path_of_only_slashes_is_empty() {
    // Every slash is trailing, so nothing is left.
    assert_eq!(normalize_path("//"), "");
    assert_eq!(normalize_path(""), "/");
}

#[test]
fn normalize_path_is_idempotent_on_its_results() {
    for input in ["", " x ", "/a/b/", "api", "/"] {
        let once = normalize_path(input);
        assert_eq!(normalize_path(&once), once);
    }
}

#[test]
fn normalize_path_keeps_inner_characters() {
    assert_eq!(normalize_path("/über/straße"), "/über/straße");
    assert_eq!(normalize_path("a b"), "/a b");
}

#[test]
fn prefix_longer_than_path_is_not_a_prefix() {
    assert!(!path_has_prefix_segment("/pan", "/panel"));
    assert!(!path_has_prefix_segment("", "/panel"));
    assert!(path_has_prefix_segment("", "/"));
}
