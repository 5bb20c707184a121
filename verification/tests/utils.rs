use obsidian_zola::utils::{
    is_markdown_file, names_markdown, normalize_path, validate_directory, DirectoryError,
    DirectoryProblem, PathStatus,
};
use std::path::Path;

fn status_of(path: &Path) -> PathStatus {
    PathStatus { exists: path.exists(), is_dir: path.is_dir() }
}

#[test]
fn test_validate_directory_exists() {
    let temp_dir = tempfile::TempDir::new().unwrap();
    let path = temp_dir.path();
    let result = validate_directory(path.to_str().unwrap(), "Test directory", status_of(path));
    assert!(result.is_ok());
}

#[test]
fn test_validate_directory_not_exists() {
    let path = Path::new("/nonexistent/path");
    let result = validate_directory("/nonexistent/path", "Test directory", status_of(path));
    assert!(result.is_err());
    assert!(result.unwrap_err().message().contains("does not exist"));
}

#[test]
fn test_validate_directory_is_file() {
    let temp_file = tempfile::NamedTempFile::new().unwrap();
    let path = temp_file.path();
    let result = validate_directory(path.to_str().unwrap(), "Test directory", status_of(path));
    assert!(result.is_err());
    assert!(result.unwrap_err().message().contains("is not a directory"));
}

#[test]
fn test_is_markdown_file() {
    assert!(is_markdown_file("test.md"));
    assert!(is_markdown_file("test.markdown"));
    assert!(is_markdown_file("TEST.MD"));
    assert!(is_markdown_file("path/to/file.md"));

    assert!(!is_markdown_file("test.txt"));
    assert!(!is_markdown_file("test.html"));
    assert!(!is_markdown_file("test"));
    assert!(!is_markdown_file("test.md.backup"));
}

#[test]
fn test_normalize_path() {
    assert_eq!(normalize_path("folder/file.md"), "folder/file.md");
    assert_eq!(normalize_path("folder\\file.md"), "folder\\file.md");
    assert_eq!(normalize_path("./folder/../other/file.md"), "./folder/../other/file.md");
}

#[test]
fn validate_directory_tells_the_two_problems_apart() {
    let missing = PathStatus { exists: false, is_dir: false };
    let file = PathStatus { exists: true, is_dir: false };
    let dir = PathStatus { exists: true, is_dir: true };
    assert_eq!(validate_directory("/a", "Source vault", dir), Ok(()));
    assert_eq!(
        validate_directory("/a", "Source vault", missing),
        Err(DirectoryError {
            problem: DirectoryProblem::DoesNotExist,
            description: "Source vault".to_string(),
            path: "/a".to_string(),
        })
    );
    assert_eq!(
        validate_directory("/a", "Source vault", file),
        Err(DirectoryError {
            problem: DirectoryProblem::NotADirectory,
            description: "Source vault".to_string(),
            path: "/a".to_string(),
        })
    );
}

#[test]
fn validate_directory_asks_for_existence_first() {
    let odd = PathStatus { exists: false, is_dir: true };
    let error = validate_directory("/a", "Source vault", odd).unwrap_err();
    assert_eq!(error.problem, DirectoryProblem::DoesNotExist);
}

#[test]
fn directory_error_messages_are_exact() {
    let missing = PathStatus { exists: false, is_dir: false };
    let file = PathStatus { exists: true, is_dir: false };
    assert_eq!(
        validate_directory("/nonexistent/path", "Test directory", missing).unwrap_err().message(),
        "Test directory does not exist: /nonexistent/path"
    );
    assert_eq!(
        validate_directory("/etc/hosts", "Destination directory", file).unwrap_err().message(),
        "Destination directory is not a directory: /etc/hosts"
    );
}

#[test]
fn markdown_extension_is_found_in_the_last_component_only() {
    assert!(is_markdown_file("a.b/c.md"));
    assert!(!is_markdown_file("a.md/c"));
    assert!(is_markdown_file("a/b.md/"));
    assert!(is_markdown_file("a/b.md/."));
    assert!(!is_markdown_file("a/b.md/.."));
    assert!(!is_markdown_file(".md"));
    assert!(!is_markdown_file("dir/.md"));
    assert!(is_markdown_file("..md"));
    assert!(!is_markdown_file("md"));
    assert!(!is_markdown_file(""));
    assert!(!is_markdown_file("/"));
    assert!(!is_markdown_file("a.md."));
}

#[test]
fn markdown_extension_is_compared_in_lower_case() {
    assert!(is_markdown_file("a.Md"));
    assert!(is_markdown_file("a.MARKDOWN"));
    assert!(is_markdown_file("a.MarkDown"));
    assert!(!is_markdown_file("a.mdx"));
    assert!(!is_markdown_file("a.mkd"));
}

#[test]
fn names_markdown_takes_the_lowered_extension_as_it_is() {
    assert!(names_markdown("md"));
    assert!(names_markdown("markdown"));
    assert!(!names_markdown("MD"));
    assert!(!names_markdown(""));
    assert!(!names_markdown("markdown "));
}

#[test]
fn normalize_path_drops_what_names_nothing() {
    assert_eq!(normalize_path("a//b"), "a/b");
    assert_eq!(normalize_path("a/b/"), "a/b");
    assert_eq!(normalize_path("a/./b"), "a/b");
    assert_eq!(normalize_path("a/b/."), "a/b");
    assert_eq!(normalize_path("."), ".");
    assert_eq!(normalize_path("./"), ".");
    assert_eq!(normalize_path("./."), ".");
    assert_eq!(normalize_path(""), "");
    assert_eq!(normalize_path("../a"), "../a");
    assert_eq!(normalize_path("a/.."), "a/..");
}

#[test]
fn normalize_path_writes_the_root_as_a_component() {
    assert_eq!(normalize_path("/"), "/");
    assert_eq!(normalize_path("/a"), "//a");
    assert_eq!(normalize_path("//a/b"), "//a/b");
    assert_eq!(normalize_path("/./a"), "//a");
}
