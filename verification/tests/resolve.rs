use packager::descriptor::{Metadata, PackageDescriptor};
use packager::paths::FilePath;
use packager::report::{ErrorKind, Level};
use packager::resolve::{build_lock, check_yanked, compare_resolve, PackageId, ResolveGraph, Withdrawal};

fn id(name: &str, version: &str, source: &str) -> PackageId {
    PackageId { name: name.to_string(), version: version.to_string(), source: source.to_string() }
}

fn graph(ids: Vec<PackageId>) -> ResolveGraph {
    let mut g = ResolveGraph::new();
    for i in ids {
        g.insert(i);
    }
    g
}

fn current() -> PackageDescriptor {
    PackageDescriptor {
        name: "foo".to_string(),
        version: "0.1.0".to_string(),
        root: FilePath::parse("/ws/foo"),
        manifest_path: FilePath::parse("/ws/foo/Cargo.toml"),
        dependencies: Vec::new(),
        metadata: Metadata {
            description: None,
            license: None,
            license_file: None,
            documentation: None,
            homepage: None,
            repository: None,
        },
        include_patterns: Vec::new(),
        exclude_patterns: Vec::new(),
        include_lockfile: true,
    }
}

fn messages(notices: &[packager::report::Notice]) -> Vec<String> {
    notices.iter().map(|n| n.message.clone()).collect()
}

#[test]
fn graph_is_a_set_in_rank_order() {
    let g = graph(vec![
        id("b", "1.0.0", "reg"),
        id("a", "2.0.0", "reg"),
        id("a", "1.0.0", "reg"),
        id("b", "1.0.0", "reg"),
        id("a", "1.0.0", "path"),
    ]);
    let got: Vec<(String, String, String)> =
        g.items.iter().map(|i| (i.name.clone(), i.version.clone(), i.source.clone())).collect();
    assert_eq!(
        got,
        vec![
            ("a".to_string(), "1.0.0".to_string(), "path".to_string()),
            ("a".to_string(), "1.0.0".to_string(), "reg".to_string()),
            ("a".to_string(), "2.0.0".to_string(), "reg".to_string()),
            ("b".to_string(), "1.0.0".to_string(), "reg".to_string()),
        ]
    );
    assert_eq!(g.len(), 4);
    assert_eq!(g.find(&id("a", "2.0.0", "reg")), Some(2));
    assert_eq!(g.find(&id("a", "3.0.0", "reg")), None);
}

#[test]
fn quiet_mode_says_nothing() {
    let orig = graph(vec![id("a", "1.0.0", "reg")]);
    let new = graph(vec![id("a", "1.0.0", "reg"), id("b", "1.0.0", "reg")]);
    assert!(compare_resolve(false, &current(), &orig, &new).is_empty());
}

#[test]
fn added_package_without_history() {
    let orig = graph(vec![id("a", "1.0.0", "reg")]);
    let new = graph(vec![id("a", "1.0.0", "reg"), id("b", "1.0.0", "reg")]);
    let notes = compare_resolve(true, &current(), &orig, &new);
    assert_eq!(notes.len(), 1);
    assert_eq!(notes[0].level, Level::Note);
    assert_eq!(notes[0].message, "package `b v1.0.0 (reg)` added to the packaged Cargo.lock file");
}

#[test]
fn published_package_itself_is_not_reported() {
    let orig = graph(vec![id("foo", "0.1.0", "path+/ws/foo")]);
    let new = graph(vec![id("foo", "0.1.0", "path+/tmp/foo-0.1.0")]);
    assert!(compare_resolve(true, &current(), &orig, &new).is_empty());
}

#[test]
fn changed_source_is_explained() {
    let orig = graph(vec![id("a", "1.0.0", "path+/ws/a")]);
    let new = graph(vec![id("a", "1.0.0", "reg")]);
    assert_eq!(
        messages(&compare_resolve(true, &current(), &orig, &new)),
        vec!["package `a v1.0.0 (reg)` added to the packaged Cargo.lock file, was originally sourced from `path+/ws/a`"]
    );
    let orig = graph(vec![id("a", "1.0.0", "git+x"), id("a", "1.0.0", "path+/ws/a")]);
    assert_eq!(
        messages(&compare_resolve(true, &current(), &orig, &new)),
        vec!["package `a v1.0.0 (reg)` added to the packaged Cargo.lock file, was originally sourced from one of these sources: `git+x`, `path+/ws/a`"]
    );
}

#[test]
fn previous_versions_are_hinted() {
    let new = graph(vec![id("a", "1.2.0", "reg")]);
    let orig = graph(vec![id("a", "1.1.0", "reg")]);
    assert_eq!(
        messages(&compare_resolve(true, &current(), &orig, &new)),
        vec!["package `a v1.2.0 (reg)` added to the packaged Cargo.lock file, previous version was `1.1.0`"]
    );
    let orig = graph(vec![id("a", "1.1.0", "reg"), id("a", "1.0.0", "reg"), id("z", "1.0.0", "reg")]);
    assert_eq!(
        messages(&compare_resolve(true, &current(), &orig, &new)),
        vec!["package `a v1.2.0 (reg)` added to the packaged Cargo.lock file, previous versions were: `1.0.0`, `1.1.0`"]
    );
}

#[test]
fn kept_versions_are_no_hint() {
    // a 1.0.0 stays in the new resolution, so it was not removed
    let orig = graph(vec![id("a", "1.0.0", "reg")]);
    let new = graph(vec![id("a", "1.0.0", "reg"), id("a", "2.0.0", "reg")]);
    assert_eq!(
        messages(&compare_resolve(true, &current(), &orig, &new)),
        vec!["package `a v2.0.0 (reg)` added to the packaged Cargo.lock file"]
    );
}

#[test]
fn notes_come_in_rank_order() {
    let orig = graph(Vec::new());
    let new = graph(vec![id("c", "1.0.0", "reg"), id("a", "1.0.0", "reg"), id("b", "1.0.0", "reg")]);
    assert_eq!(
        messages(&compare_resolve(true, &current(), &orig, &new)),
        vec![
            "package `a v1.0.0 (reg)` added to the packaged Cargo.lock file",
            "package `b v1.0.0 (reg)` added to the packaged Cargo.lock file",
            "package `c v1.0.0 (reg)` added to the packaged Cargo.lock file",
        ]
    );
}

#[test]
fn withdrawn_version_warns_and_succeeds() {
    let g = graph(vec![id("a", "1.0.0", "reg"), id("b", "1.0.0", "reg"), id("c", "1.0.0", "reg")]);
    let answers = vec![Withdrawal::Kept, Withdrawal::Withdrawn("crates-io".to_string()), Withdrawal::NoSource];
    let checked = check_yanked(&g, &answers);
    assert!(checked.failure.is_none());
    assert_eq!(checked.notices.len(), 1);
    assert_eq!(checked.notices[0].level, Level::Warning);
    assert_eq!(
        checked.notices[0].message,
        "package `b v1.0.0 (reg)` in Cargo.lock is yanked in registry `crates-io`, consider updating to a version that is not yanked"
    );
}

#[test]
fn registry_failure_ends_the_check() {
    let g = graph(vec![id("a", "1.0.0", "reg"), id("b", "1.0.0", "reg"), id("c", "1.0.0", "reg")]);
    let answers = vec![
        Withdrawal::Withdrawn("r".to_string()),
        Withdrawal::Failed("offline".to_string()),
        Withdrawal::Withdrawn("r".to_string()),
    ];
    let checked = check_yanked(&g, &answers);
    let e = checked.failure.unwrap();
    assert_eq!(e.kind, ErrorKind::Collaborator);
    assert_eq!(e.message, "offline");
    assert_eq!(checked.notices.len(), 1);
}

#[test]
fn missing_answers_count_as_no_source() {
    let g = graph(vec![id("a", "1.0.0", "reg"), id("b", "1.0.0", "reg")]);
    let checked = check_yanked(&g, &vec![Withdrawal::Withdrawn("r".to_string())]);
    assert!(checked.failure.is_none());
    assert_eq!(checked.notices.len(), 1);
}

#[test]
fn lock_document_is_returned_with_all_notices() {
    let orig = Some(graph(vec![id("a", "1.0.0", "reg")]));
    let new = graph(vec![id("a", "1.0.0", "reg"), id("b", "1.0.0", "reg")]);
    let answers = vec![Withdrawal::Kept, Withdrawal::Withdrawn("crates-io".to_string())];
    let out = build_lock(true, &current(), &orig, &new, &answers, "LOCK".to_string());
    assert_eq!(out.result.unwrap(), "LOCK");
    assert_eq!(
        messages(&out.notices),
        vec![
            "package `b v1.0.0 (reg)` added to the packaged Cargo.lock file",
            "package `b v1.0.0 (reg)` in Cargo.lock is yanked in registry `crates-io`, consider updating to a version that is not yanked",
        ]
    );
    let out = build_lock(true, &current(), &None, &new, &answers, "LOCK".to_string());
    assert_eq!(out.notices.len(), 1);
    assert_eq!(out.result.unwrap(), "LOCK");
}

#[test]
fn lock_document_fails_with_the_registry() {
    let new = graph(vec![id("a", "1.0.0", "reg")]);
    let out = build_lock(false, &current(), &None, &new, &vec![Withdrawal::Failed("down".to_string())], "LOCK".to_string());
    let e = out.result.err().unwrap();
    assert_eq!(e.kind, ErrorKind::Collaborator);
    assert_eq!(e.message, "down");
}
