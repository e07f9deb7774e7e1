//! Paths below a workspace.

use pactrail::workspace::path::{PathError, SafeRelativePath};

fn accepted(path: &str) -> SafeRelativePath {
    SafeRelativePath::new(path).unwrap_or_else(|error| unreachable!("{}", error.message()))
}

#[test]
fn normalizes_current_directory_segments() {
    let path = SafeRelativePath::new("src/./lib.rs")
        .unwrap_or_else(|error| unreachable!("safe path: {}", error.message()));
    assert_eq!(path.portable(), "src/lib.rs");
}

#[test]
fn rejects_parent_traversal() {
    assert!(matches!(
        SafeRelativePath::new("src/../../secret"),
        Err(PathError::Traversal(_))
    ));
}

#[test]
fn rejects_empty_and_absolute_paths() {
    assert!(matches!(SafeRelativePath::new(""), Err(PathError::Empty)));
    assert!(matches!(SafeRelativePath::new("./."), Err(PathError::Empty)));
    match SafeRelativePath::new("/etc/passwd") {
        Err(error) => assert_eq!(
            error.message(),
            "absolute or prefixed path is forbidden: /etc/passwd"
        ),
        Ok(_) => unreachable!("absolute path"),
    }
}

#[test]
fn portable_paths_are_accepted_again() {
    for path in ["a", "a/b", "./a//b/", "a/./b/c.txt"] {
        let portable = accepted(path).portable();
        assert!(!portable.is_empty());
        assert!(!portable.starts_with('/'));
        assert!(!portable.split('/').any(|part| part == ".."));
        assert_eq!(accepted(&portable).portable(), portable);
        assert_eq!(accepted(&portable).as_path(), portable);
    }
}

#[test]
fn scopes_hold_what_lies_below_them() {
    assert!(accepted("src/lib.rs").starts_with(&accepted("src")));
    assert!(accepted("src").starts_with(&accepted("src")));
    assert!(!accepted("srcs/lib.rs").starts_with(&accepted("src")));
}
