use packager::paths::FilePath;

fn parts_of(p: &FilePath) -> Vec<&str> {
    p.parts.iter().map(|s| s.as_str()).collect()
}

#[test]
fn parse_splits_on_separators() {
    let p = FilePath::parse("src/bin/main.rs");
    assert!(!p.absolute);
    assert_eq!(parts_of(&p), vec!["src", "bin", "main.rs"]);
}

#[test]
fn parse_drops_empty_and_dot_components() {
    let p = FilePath::parse("/a//b/./c/");
    assert!(p.absolute);
    assert_eq!(parts_of(&p), vec!["a", "b", "c"]);
    let q = FilePath::parse("./x");
    assert!(!q.absolute);
    assert_eq!(parts_of(&q), vec!["x"]);
    let e = FilePath::parse("");
    assert!(!e.absolute);
    assert!(e.parts.is_empty());
}

#[test]
fn parse_keeps_parent_components() {
    let p = FilePath::parse("../LICENSE");
    assert_eq!(parts_of(&p), vec!["..", "LICENSE"]);
}

#[test]
fn display_joins_components() {
    assert_eq!(FilePath::parse("a/b/c").display(), "a/b/c");
    assert_eq!(FilePath::parse("/a/b").display(), "/a/b");
    assert_eq!(FilePath::parse("").display(), "");
    assert_eq!(FilePath::parse("/").display(), "/");
    assert_eq!(FilePath::single("x").display(), "x");
}

#[test]
fn file_name_is_last_component() {
    assert_eq!(FilePath::parse("a/b.rs").file_name().map(|s| s.as_str()), Some("b.rs"));
    assert_eq!(FilePath::parse("").file_name(), None);
    assert_eq!(FilePath::parse("a/..").file_name(), None);
}

#[test]
fn strip_prefix_gives_the_rest() {
    let root = FilePath::parse("/pkg");
    let file = FilePath::parse("/pkg/src/lib.rs");
    let rel = file.strip_prefix(&root).unwrap();
    assert!(!rel.absolute);
    assert_eq!(rel.display(), "src/lib.rs");
    assert!(file.starts_with(&root));
    let other = FilePath::parse("/other/src/lib.rs");
    assert!(other.strip_prefix(&root).is_none());
    assert!(!other.starts_with(&root));
    let relative = FilePath::parse("pkg/src/lib.rs");
    assert!(relative.strip_prefix(&root).is_none());
    assert_eq!(root.strip_prefix(&root).unwrap().display(), "");
}

#[test]
fn join_resolves_against_base() {
    let root = FilePath::parse("/pkg");
    assert_eq!(root.join(&FilePath::parse("a/b")).display(), "/pkg/a/b");
    assert_eq!(root.join(&FilePath::parse("/etc/x")).display(), "/etc/x");
}

#[test]
fn normalize_resolves_parents() {
    assert_eq!(FilePath::parse("/pkg/../LICENSE").normalize().display(), "/LICENSE");
    assert_eq!(FilePath::parse("/pkg/a/../b").normalize().display(), "/pkg/b");
    assert_eq!(FilePath::parse("/..").normalize().display(), "/");
    assert_eq!(FilePath::parse("a/b/../../..").normalize().display(), "");
}

#[test]
fn with_suffix_extends_last_component() {
    assert_eq!(FilePath::parse("sub/Cargo.toml").with_suffix(".orig").display(), "sub/Cargo.toml.orig");
    assert_eq!(FilePath::parse("").with_suffix(".orig").display(), ".orig");
}

#[test]
fn same_compares_components() {
    assert!(FilePath::parse("a/b").same(&FilePath::parse("a//b")));
    assert!(!FilePath::parse("a/b").same(&FilePath::parse("/a/b")));
    assert!(!FilePath::parse("a/b").same(&FilePath::parse("a/c")));
    assert!(!FilePath::parse("a/b").same(&FilePath::parse("a")));
}

#[test]
fn order_is_by_component_not_by_text() {
    // as texts "a.b" sorts before "a/b"; as paths the shorter first component wins
    let dir = FilePath::parse("a/b");
    let file = FilePath::parse("a.b");
    assert!(dir.is_before(&file));
    assert!(!file.is_before(&dir));
    assert!(FilePath::parse("a").is_before(&FilePath::parse("a/b")));
    assert!(!FilePath::parse("a/b").is_before(&FilePath::parse("a/b")));
    assert!(FilePath::parse("/z").is_before(&FilePath::parse("a")));
    assert!(FilePath::parse("Cargo.toml").is_before(&FilePath::parse("src/lib.rs")));
}

#[test]
fn copy_is_the_same_path() {
    let p = FilePath::parse("/a/b/c");
    assert!(p.copy().same(&p));
}
