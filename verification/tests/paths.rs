use hoverstare::paths::{contained, normalize_components, resolve_output, PathError};

#[test]
fn paths_are_normalized_lexically() {
    assert_eq!(normalize_components("/a/./b//c/../d/"), "/a/b/d");
    assert_eq!(normalize_components("/../x"), "/x");
    assert_eq!(normalize_components("../x"), "x");
    assert_eq!(normalize_components("/"), "/");
    assert_eq!(normalize_components("."), "");
    assert_eq!(normalize_components("a/..b/...c"), "a/..b/...c");
}

#[test]
fn output_paths_stay_in_the_workspace() {
    assert_eq!(resolve_output("/ws", "out/result.json"), Ok("/ws/out/result.json".to_string()));
    assert_eq!(resolve_output("/ws/", "a/../b.json"), Ok("/ws/b.json".to_string()));
    assert_eq!(resolve_output("/ws", "/ws/x"), Err(PathError::Absolute));
    assert_eq!(resolve_output("/ws", "../ws2/x"), Err(PathError::Escapes));
    assert_eq!(resolve_output("/ws", "../ws/x"), Ok("/ws/x".to_string()));
    assert_eq!(PathError::Absolute.message(), "--output must be a workspace-relative path");
    assert_eq!(PathError::Escapes.message(), "--output escapes the workspace");
}

#[test]
fn files_outside_the_workspace_are_not_read() {
    assert_eq!(contained("/ws", "src/f.m"), Some("/ws/src/f.m".to_string()));
    assert_eq!(contained("/ws", "/ws/src/f.m"), Some("/ws/src/f.m".to_string()));
    assert_eq!(contained("/ws", "/etc/passwd"), None);
    assert_eq!(contained("/ws", "src/../../x"), None);
    assert_eq!(contained("/ws", "/wsx/y"), None);
}

#[test]
fn normalizing_twice_is_normalizing_once() {
    for path in ["/a/./b//c/../d/", "../x", "a/b/../../..", "", "/", "./x/."] {
        let once = normalize_components(path);
        assert_eq!(normalize_components(&once), once, "{path}");
        assert!(!once.split('/').any(|part| part == ".." || part == "."), "{path}");
    }
}
