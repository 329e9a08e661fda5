use std::path::{Component, Path, PathBuf};

use mimo_tui::workspace_paths::{
    ensure_within_workspace, normalize_path, path_within, tool_path_candidate, PathError,
};

fn std_normalize(path: &str) -> String {
    let mut normalized = PathBuf::new();
    for component in Path::new(path).components() {
        match component {
            Component::CurDir => {}
            Component::ParentDir => {
                normalized.pop();
            }
            other => normalized.push(other.as_os_str()),
        }
    }
    normalized.display().to_string()
}

#[test]
fn normal_forms_match_component_normalization() {
    for sample in [
        "/w/src/../lib.rs",
        "/w/./a//b/",
        "/..",
        "/a/b/../../..",
        "a/../..",
        "a/b/./c",
        "",
        "/",
        "./x",
        "x/..",
        "/w/new/dir/file.txt",
    ] {
        assert_eq!(normalize_path(sample), std_normalize(sample), "{sample}");
    }
}

#[test]
fn containment_matches_path_prefixes() {
    for (path, root) in [
        ("/w/src/main.rs", "/w"),
        ("/w", "/w"),
        ("/wx/a", "/w"),
        ("/etc/passwd", "/w"),
        ("/w//src", "/w/"),
        ("w/a", "/w"),
        ("/w/a", "/w/a/b"),
    ] {
        assert_eq!(
            path_within(path, root),
            Path::new(path).starts_with(Path::new(root)),
            "{path} in {root}"
        );
    }
}

#[test]
fn rejects_paths_that_escape_workspace() {
    let candidate = tool_path_candidate("/w", "../outside.txt").expect("candidate");
    assert_eq!(candidate, "/w/../outside.txt");
    let normalized = normalize_path(&candidate);
    assert_eq!(normalized, "/outside.txt");
    assert_eq!(
        ensure_within_workspace(&normalized, "/w"),
        Err(PathError::EscapesWorkspace("/outside.txt".to_string()))
    );
    assert_eq!(
        PathError::EscapesWorkspace("/outside.txt".to_string()).message(),
        "path escapes workspace: /outside.txt"
    );
    assert_eq!(tool_path_candidate("/w", "   "), Err(PathError::Empty));
    assert_eq!(PathError::Empty.message(), "path cannot be empty");
    assert_eq!(tool_path_candidate("/w/", " src/a.rs "), Ok("/w/src/a.rs".to_string()));
    assert_eq!(tool_path_candidate("/w", "/abs/x"), Ok("/abs/x".to_string()));
    assert_eq!(ensure_within_workspace("/w/src/a.rs", "/w"), Ok(()));
}

use mimo_tui::workspace_paths::relative_display;

#[test]
fn paths_show_relative_to_the_workspace() {
    for (root, path) in [("/w", "/w/src/main.rs"), ("/w", "/w"), ("/w", "/x/y"), ("/w/", "/w/a")] {
        let expected = Path::new(path)
            .strip_prefix(Path::new(root))
            .map(|relative| relative.display().to_string())
            .unwrap_or_else(|_| Path::new(path).display().to_string());
        assert_eq!(relative_display(root, path), expected, "{path} from {root}");
    }
}

use mimo_tui::attachment_paths::resolve_attachment_search_root;

fn std_search_root(base_dir: &Path, raw: &str, home: Option<&str>) -> (PathBuf, String) {
    let raw = raw.trim();
    if raw.is_empty() {
        return (base_dir.to_path_buf(), String::new());
    }
    let home_dir = || home.map(PathBuf::from).unwrap_or_else(|| PathBuf::from("~"));
    if raw == "~" {
        return (home_dir(), String::new());
    }
    if let Some(rest) = raw.strip_prefix("~/") {
        let home = home_dir();
        return std_from_base(home.as_path(), rest);
    }
    std_from_base(base_dir, raw)
}

fn std_from_base(base_dir: &Path, raw: &str) -> (PathBuf, String) {
    if raw.is_empty() {
        return (base_dir.to_path_buf(), String::new());
    }
    if raw.ends_with(['/', '\\']) {
        let trimmed = raw.trim_end_matches(['/', '\\']);
        if trimmed.is_empty() {
            return (PathBuf::from("/"), String::new());
        }
        let path = Path::new(trimmed);
        let search_root = if path.is_absolute() {
            path.to_path_buf()
        } else {
            base_dir.join(path)
        };
        return (search_root, String::new());
    }
    let path = Path::new(raw);
    if path.file_name().is_none() {
        let search_root = if path.is_absolute() {
            path.to_path_buf()
        } else {
            base_dir.join(path)
        };
        return (search_root, String::new());
    }
    let fragment = path
        .file_name()
        .and_then(|value| value.to_str())
        .unwrap_or_default()
        .to_string();
    let parent = path.parent().filter(|parent| !parent.as_os_str().is_empty());
    let search_root = match parent {
        Some(parent) if parent.is_absolute() => parent.to_path_buf(),
        Some(parent) => base_dir.join(parent),
        None => base_dir.to_path_buf(),
    };
    (search_root, fragment)
}

#[test]
fn attachment_search_roots_follow_path_rules() {
    for raw in [
        "", "  ", "src", "src/li", "src/", "/etc/pa", "/", "///", "~", "~/docs/re", "~/",
        "./x", "../up/fi", "a/b/c", "/abs/dir/", "..", "a/..", "x\\", ".",
    ] {
        for home in [Some("/home/me"), None] {
            let (root, fragment) = resolve_attachment_search_root("/w", raw, home);
            let (expected_root, expected_fragment) = std_search_root(Path::new("/w"), raw, home);
            assert_eq!(
                Path::new(&root),
                expected_root.as_path(),
                "root for {raw:?} with home {home:?}"
            );
            assert_eq!(fragment, expected_fragment, "fragment for {raw:?}");
        }
    }
}
