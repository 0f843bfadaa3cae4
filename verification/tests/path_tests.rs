//! Path canonicalization and splitting.

use kernel::path::{canon_path, split_parent, split_slash};
use kernel::tempfs::TempFs;

#[test]
fn canonicalization_examples() {
    assert_eq!(canon_path(""), "/");
    assert_eq!(canon_path("/"), "/");
    assert_eq!(canon_path("a"), "/a");
    assert_eq!(canon_path("/a"), "/a");
    assert_eq!(canon_path("/a/"), "/a");
    assert_eq!(canon_path("//a//b///c"), "/a/b/c");
    assert_eq!(canon_path("a/b/"), "/a/b");
    assert_eq!(canon_path("////"), "/");
}

#[test]
fn canonicalization_is_idempotent() {
    let inputs = ["", "/", "a", "/a/", "//a//b///", "x//y", "///x", "a/b/c"];
    for p in inputs.iter() {
        let once = canon_path(p);
        let twice = canon_path(once.as_str());
        assert_eq!(once, twice, "canon(canon({:?})) must equal canon({:?})", p, p);
    }
}

#[test]
fn tempfs_normalization_matches_canon() {
    let fs = TempFs::new("t");
    assert_eq!(fs.normalize_path_canonical("foo//bar/"), "/foo/bar");
    assert_eq!(fs.normalize_path_canonical(""), "/");
}

#[test]
fn split_parent_examples() {
    let (parent, name) = split_parent("/a/b/c");
    assert_eq!(parent, "/a/b");
    assert_eq!(name, "c");
    let (parent, name) = split_parent("/top");
    assert_eq!(parent, "/");
    assert_eq!(name, "top");
}

#[test]
fn split_slash_keeps_empty_pieces() {
    let parts = split_slash("a//b");
    let views: Vec<&str> = parts.iter().map(|s| s.as_str()).collect();
    assert_eq!(views, vec!["a", "", "b"]);
    let parts = split_slash("");
    assert_eq!(parts.len(), 1);
    assert_eq!(parts[0], "");
    let parts = split_slash("x/y/z");
    let views: Vec<&str> = parts.iter().map(|s| s.as_str()).collect();
    assert_eq!(views, vec!["x", "y", "z"]);
}
