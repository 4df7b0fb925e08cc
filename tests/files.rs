use file_shover::files::{open_result, FileTree, OpenOutcome, PathError};
use std::path::PathBuf;

#[test]
fn test_illegal_path_dot() {
    let tree = FileTree::new(PathBuf::from("."));
    let result = tree.check_path(".");
    assert!(result.is_err());
}

#[test]
fn test_illegal_path_dotdot() {
    let tree = FileTree::new(PathBuf::from("."));
    let result = tree.check_path("..");
    assert!(result.is_err());
}

#[test]
fn traversal_attempts_are_invalid() {
    let tree = FileTree::new(PathBuf::from("site"));
    for p in ["", "/", ".", "/.", "..", "/..", "/../secret.txt", "a/../b", "x..y", "/a/b/..", "...", "//etc/passwd", "//"] {
        assert_eq!(tree.check_path(p), Err(PathError::InvalidPath), "{}", p);
    }
}

#[test]
fn allowed_paths_lose_one_leading_slash() {
    let tree = FileTree::new(PathBuf::from("site"));
    assert_eq!(tree.check_path("/index.html"), Ok("index.html".to_string()));
    assert_eq!(tree.check_path("one-file/index.html"), Ok("one-file/index.html".to_string()));
    assert_eq!(tree.check_path("/./a"), Ok("./a".to_string()));
    assert_eq!(tree.check_path("/.hidden"), Ok(".hidden".to_string()));
}

#[test]
fn root_is_kept() {
    let tree = FileTree::new(PathBuf::from("test-sites"));
    assert_eq!(tree.root(), &PathBuf::from("test-sites"));
}

#[test]
fn open_outcomes() {
    assert_eq!(open_result(OpenOutcome::Opened(20)), Ok(20));
    assert_eq!(open_result(OpenOutcome::Missing), Err(PathError::NotFound));
    assert_eq!(open_result(OpenOutcome::Failed), Err(PathError::Io));
}
