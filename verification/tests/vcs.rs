use packager::descriptor::{Metadata, PackageDescriptor};
use packager::paths::FilePath;
use packager::report::{ErrorKind, Level};
use packager::vcs::{
    check_repo_state, dirty_files, inspects_files, is_dirty, manifest_query, order_sub_repos,
    asks_nested, sub_repo_queries, vcs_info, Discovery, FileProbe, SubRepo, SubmoduleWalk,
    STATUS_CURRENT, STATUS_IGNORED, STATUS_UNTRACKED,
};

const INDEX_MODIFIED: u32 = 1 << 1;
const WT_MODIFIED: u32 = 1 << 8;
const WT_DELETED: u32 = 1 << 9;

fn crate_at(root: &str) -> PackageDescriptor {
    PackageDescriptor {
        name: "foo".to_string(),
        version: "0.1.0".to_string(),
        root: FilePath::parse(root),
        manifest_path: FilePath::parse(root).join(&FilePath::single("Cargo.toml")),
        dependencies: Vec::new(),
        metadata: Metadata {
            description: None,
            license: None,
            license_file: None,
            documentation: None,
            homepage: None,
            repository: None,
        },
        include_patterns: Vec::new(),
        exclude_patterns: Vec::new(),
        include_lockfile: false,
    }
}

fn known(path: &str, status: u32) -> FileProbe {
    FileProbe { path: FilePath::parse(path), status: Some(status), nested: Vec::new() }
}

fn unknown(path: &str, nested: Vec<Option<u32>>) -> FileProbe {
    FileProbe { path: FilePath::parse(path), status: None, nested }
}

fn found(manifest_status: Option<u32>) -> Discovery {
    Discovery::Found { workdir: FilePath::parse("/repo"), manifest_status }
}

#[test]
fn clean_repository_gives_head_revision() {
    let p = crate_at("/repo/foo");
    let files = vec![known("/repo/foo/Cargo.toml", STATUS_CURRENT), known("/repo/foo/src/lib.rs", STATUS_CURRENT)];
    let state = check_repo_state(&p, &found(Some(STATUS_CURRENT)), &files, Ok("abc123".to_string()));
    assert!(state.notices.is_empty());
    assert_eq!(state.result.unwrap(), Some("abc123".to_string()));
}

#[test]
fn record_has_the_fixed_json_shape() {
    assert_eq!(
        vcs_info("0123abcd"),
        "{\n  \"git\": {\n    \"sha1\": \"0123abcd\"\n  }\n}\n"
    );
}

#[test]
fn edited_file_is_the_only_one_listed() {
    let p = crate_at("/repo/foo");
    let files = vec![
        known("/repo/foo/Cargo.toml", STATUS_CURRENT),
        known("/repo/foo/src/lib.rs", WT_MODIFIED),
        known("/repo/foo/src/main.rs", STATUS_CURRENT),
    ];
    let state = check_repo_state(&p, &found(Some(STATUS_CURRENT)), &files, Ok("abc".to_string()));
    let e = state.result.err().unwrap();
    assert_eq!(e.kind, ErrorKind::Dirty);
    assert_eq!(
        e.message,
        "1 files in the working directory contain changes that were not yet committed into git:\n\nsrc/lib.rs\n\nto proceed despite this and include the uncommitted changes, pass the `--allow-dirty` flag"
    );
}

#[test]
fn dirty_files_are_listed_in_order() {
    let p = crate_at("/repo/foo");
    let files = vec![
        known("/repo/foo/z.rs", WT_DELETED),
        known("/repo/foo/a.rs", WT_MODIFIED),
        known("/repo/foo/m.rs", STATUS_CURRENT),
        known("/repo/foo/b.rs", INDEX_MODIFIED),
        known("/repo/foo/u.rs", STATUS_UNTRACKED),
        known("/repo/foo/i.rs", STATUS_IGNORED),
    ];
    assert_eq!(
        dirty_files(&p.root, &FilePath::parse("/repo"), &files),
        vec!["a.rs", "b.rs", "z.rs"]
    );
    let state = check_repo_state(&p, &found(Some(STATUS_CURRENT)), &files, Ok("abc".to_string()));
    assert_eq!(
        state.result.err().unwrap().message,
        "3 files in the working directory contain changes that were not yet committed into git:\n\na.rs\nb.rs\nz.rs\n\nto proceed despite this and include the uncommitted changes, pass the `--allow-dirty` flag"
    );
}

#[test]
fn ignored_lock_document_is_clean() {
    let workdir = FilePath::parse("/repo");
    assert!(!is_dirty(&workdir, &known("/repo/foo/Cargo.lock", STATUS_IGNORED)));
    assert!(!is_dirty(&workdir, &known("/repo/foo/Cargo.lock", STATUS_CURRENT)));
    assert!(is_dirty(&workdir, &known("/repo/foo/Cargo.lock", WT_MODIFIED)));
    assert!(is_dirty(&workdir, &known("/repo/foo/Cargo.lock", STATUS_IGNORED | WT_MODIFIED)));
    assert!(is_dirty(&workdir, &known("/repo/foo/Cargo.lock", STATUS_UNTRACKED)));
}

#[test]
fn foreign_file_goes_by_nested_answers() {
    let workdir = FilePath::parse("/repo");
    for status in [STATUS_UNTRACKED, STATUS_IGNORED, STATUS_IGNORED | STATUS_UNTRACKED] {
        assert!(asks_nested(Some(status)));
        let mut probe = known("/repo/sub/x.rs", status);
        assert!(!is_dirty(&workdir, &probe));
        probe.nested = vec![Some(STATUS_CURRENT)];
        assert!(!is_dirty(&workdir, &probe));
        probe.nested = vec![None, Some(WT_MODIFIED)];
        assert!(is_dirty(&workdir, &probe));
    }
    assert!(asks_nested(None));
    assert!(!asks_nested(Some(STATUS_CURRENT)));
    assert!(!asks_nested(Some(WT_MODIFIED)));
    let mut edited = known("/repo/sub/x.rs", WT_MODIFIED);
    edited.nested = vec![Some(STATUS_CURRENT)];
    assert!(is_dirty(&workdir, &edited));
}

#[test]
fn file_unknown_to_primary_goes_by_nested_answers() {
    let workdir = FilePath::parse("/repo");
    assert!(!is_dirty(&workdir, &unknown("/repo/sub/x", Vec::new())));
    assert!(!is_dirty(&workdir, &unknown("/repo/sub/x", vec![None, Some(STATUS_CURRENT)])));
    assert!(is_dirty(&workdir, &unknown("/repo/sub/x", vec![Some(STATUS_CURRENT), Some(WT_MODIFIED)])));
}

#[test]
fn no_repository_counts_as_clean() {
    let p = crate_at("/repo/foo");
    let state = check_repo_state(&p, &Discovery::NoRepository, &Vec::new(), Err("unused".to_string()));
    assert_eq!(state.result.unwrap(), None);
    assert_eq!(state.notices.len(), 1);
    assert_eq!(state.notices[0].level, Level::VerboseWarning);
    assert_eq!(state.notices[0].message, "No (git) VCS found for `/repo/foo`");
    let state = check_repo_state(&p, &Discovery::NoWorkdir, &Vec::new(), Err("unused".to_string()));
    assert_eq!(state.result.unwrap(), None);
    assert!(state.notices.is_empty());
}

#[test]
fn untracked_manifest_counts_as_clean() {
    let p = crate_at("/repo/foo");
    let files = vec![known("/repo/foo/src/lib.rs", WT_MODIFIED)];
    for status in [None, Some(STATUS_IGNORED), Some(STATUS_UNTRACKED), Some(STATUS_IGNORED | STATUS_UNTRACKED)] {
        assert!(!inspects_files(&found(status)));
        let state = check_repo_state(&p, &found(status), &files, Ok("abc".to_string()));
        assert_eq!(state.result.unwrap(), None);
        assert_eq!(state.notices.len(), 1);
        assert_eq!(
            state.notices[0].message,
            "No (git) Cargo.toml found at `foo/Cargo.toml` in workdir `/repo`"
        );
    }
    assert!(inspects_files(&found(Some(WT_MODIFIED))));
    assert!(!inspects_files(&Discovery::NoRepository));
}

#[test]
fn unknown_head_fails_a_clean_tree() {
    let p = crate_at("/repo/foo");
    let state = check_repo_state(&p, &found(Some(STATUS_CURRENT)), &Vec::new(), Err("no HEAD".to_string()));
    let e = state.result.err().unwrap();
    assert_eq!(e.kind, ErrorKind::Collaborator);
    assert_eq!(e.message, "no HEAD");
}

#[test]
fn manifest_is_asked_by_its_path_from_the_workdir() {
    let p = crate_at("/repo/foo");
    assert_eq!(manifest_query(&p, &FilePath::parse("/repo")).display(), "foo/Cargo.toml");
    assert_eq!(manifest_query(&p, &FilePath::parse("/else")).display(), "/repo/foo/Cargo.toml");
}

#[test]
fn deeper_sub_repositories_come_first() {
    let subs = vec![
        SubRepo { prefix: FilePath::parse("/repo/a"), id: 1 },
        SubRepo { prefix: FilePath::parse("/repo/a/deep/er"), id: 2 },
        SubRepo { prefix: FilePath::parse("/repo/bcd"), id: 3 },
    ];
    let ordered = order_sub_repos(subs);
    let ids: Vec<usize> = ordered.iter().map(|s| s.id).collect();
    assert_eq!(ids, vec![2, 3, 1]);
}

#[test]
fn queries_go_to_covering_sub_repositories() {
    let subs = vec![
        SubRepo { prefix: FilePath::parse("/repo/a/b"), id: 2 },
        SubRepo { prefix: FilePath::parse("/repo/c"), id: 3 },
        SubRepo { prefix: FilePath::parse("/repo/a"), id: 1 },
    ];
    let queries = sub_repo_queries(&FilePath::parse("/repo/a/b/x.rs"), &subs);
    let got: Vec<(usize, String)> = queries.iter().map(|q| (q.repo, q.path.display())).collect();
    assert_eq!(got, vec![(2, "x.rs".to_string()), (1, "b/x.rs".to_string())]);
    assert!(sub_repo_queries(&FilePath::parse("/repo/z"), &subs).is_empty());
}

#[test]
fn walk_visits_every_nested_repository() {
    let mut walk = SubmoduleWalk::new();
    assert_eq!(walk.next(), Some(0));
    assert!(walk.opened(vec![FilePath::parse("/repo/a"), FilePath::parse("/repo/b")]));
    assert_eq!(walk.next(), Some(2));
    assert!(walk.opened(Vec::new()));
    assert_eq!(walk.next(), Some(1));
    assert!(walk.opened(vec![FilePath::parse("/repo/a/inner")]));
    assert_eq!(walk.next(), Some(3));
    assert!(walk.opened(Vec::new()));
    assert_eq!(walk.next(), None);
    let found = walk.finish();
    let got: Vec<(usize, String)> = found.iter().map(|s| (s.id, s.prefix.display())).collect();
    assert_eq!(got[0], (3, "/repo/a/inner".to_string()));
    assert_eq!(got.len(), 3);
    assert!(got.contains(&(1, "/repo/a".to_string())));
    assert!(got.contains(&(2, "/repo/b".to_string())));
}
