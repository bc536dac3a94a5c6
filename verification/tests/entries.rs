use packager::descriptor::{Metadata, PackageDescriptor};
use packager::entries::{
    build_ar_list, license_path, ArchiveFile, FileContents, GeneratedFile, ManifestProbe, SourceFile,
};
use packager::paths::FilePath;
use packager::report::{ErrorKind, Level};

fn descriptor(license_file: Option<&str>, include_lockfile: bool) -> PackageDescriptor {
    PackageDescriptor {
        name: "foo".to_string(),
        version: "0.1.0".to_string(),
        root: FilePath::parse("/ws/foo"),
        manifest_path: FilePath::parse("/ws/foo/Cargo.toml"),
        dependencies: Vec::new(),
        metadata: Metadata {
            description: None,
            license: None,
            license_file: license_file.map(|s| s.to_string()),
            documentation: None,
            homepage: None,
            repository: None,
        },
        include_patterns: Vec::new(),
        exclude_patterns: Vec::new(),
        include_lockfile,
    }
}

fn plain(path: &str) -> SourceFile {
    SourceFile { path: FilePath::parse(path), manifest: None }
}

fn manifest(path: &str, probe: ManifestProbe) -> SourceFile {
    SourceFile { path: FilePath::parse(path), manifest: Some(probe) }
}

fn shown(list: &[ArchiveFile]) -> Vec<String> {
    list.iter().map(|e| e.rel_str()).collect()
}

fn disk_source(e: &ArchiveFile) -> Option<String> {
    match &e.contents {
        FileContents::OnDisk(p) => Some(p.display()),
        FileContents::Generated(_) => None,
    }
}

#[test]
fn entries_are_sorted_by_path() {
    let files = vec![
        plain("/ws/foo/src/main.rs"),
        plain("/ws/foo/src/lib.rs"),
        plain("/ws/foo/README.md"),
        manifest("/ws/foo/Cargo.toml", ManifestProbe::Published),
        plain("/ws/foo/a.b"),
        plain("/ws/foo/a/b"),
    ];
    let listing = build_ar_list(&descriptor(None, false), files, None, false);
    assert!(listing.notices.is_empty());
    let list = listing.result.unwrap();
    assert_eq!(
        shown(&list),
        vec!["Cargo.toml", "Cargo.toml.orig", "README.md", "a/b", "a.b", "src/lib.rs", "src/main.rs"]
    );
}

#[test]
fn order_does_not_depend_on_enumeration() {
    let forward = vec![plain("/ws/foo/a"), plain("/ws/foo/b"), plain("/ws/foo/c/d")];
    let backward = vec![plain("/ws/foo/c/d"), plain("/ws/foo/b"), plain("/ws/foo/a")];
    let one = build_ar_list(&descriptor(None, false), forward, None, false).result.unwrap();
    let two = build_ar_list(&descriptor(None, false), backward, None, false).result.unwrap();
    assert_eq!(shown(&one), vec!["a", "b", "c/d"]);
    assert_eq!(shown(&one), shown(&two));
}

#[test]
fn no_two_entries_share_a_path() {
    let files = vec![
        plain("/ws/foo/src/lib.rs"),
        manifest("/ws/foo/Cargo.toml", ManifestProbe::Published),
        plain("/ws/foo/Cargo.lock"),
        plain("/ws/foo/LICENSE"),
    ];
    let list = build_ar_list(
        &descriptor(Some("LICENSE"), true),
        files,
        Some("{}".to_string()),
        true,
    )
    .result
    .unwrap();
    let names = shown(&list);
    for i in 0..names.len() {
        for j in (i + 1)..names.len() {
            assert_ne!(names[i], names[j]);
        }
    }
    assert_eq!(
        names,
        vec![".cargo_vcs_info.json", "Cargo.lock", "Cargo.toml", "Cargo.toml.orig", "LICENSE", "src/lib.rs"]
    );
}

#[test]
fn published_manifest_gives_original_and_rewritten() {
    let files = vec![manifest("/ws/foo/Cargo.toml", ManifestProbe::Published)];
    let list = build_ar_list(&descriptor(None, false), files, None, false).result.unwrap();
    assert_eq!(list.len(), 2);
    assert_eq!(list[0].rel_str(), "Cargo.toml");
    assert!(matches!(list[0].contents, FileContents::Generated(GeneratedFile::Manifest)));
    assert_eq!(list[1].rel_str(), "Cargo.toml.orig");
    assert_eq!(disk_source(&list[1]), Some("/ws/foo/Cargo.toml".to_string()));
}

#[test]
fn nested_manifest_is_paired_under_its_own_path() {
    let mut nested = descriptor(None, false);
    nested.name = "inner".to_string();
    let files = vec![manifest("/ws/foo/sub/Cargo.toml", ManifestProbe::Nested(nested))];
    let list = build_ar_list(&descriptor(None, false), files, None, false).result.unwrap();
    assert_eq!(shown(&list), vec!["sub/Cargo.toml", "sub/Cargo.toml.orig"]);
    match &list[0].contents {
        FileContents::Generated(GeneratedFile::NestedManifest(p)) => assert_eq!(p.name, "inner"),
        _ => panic!("expected the rewritten nested manifest"),
    }
    assert_eq!(disk_source(&list[1]), Some("/ws/foo/sub/Cargo.toml".to_string()));
}

#[test]
fn virtual_manifest_gives_no_entry() {
    let files = vec![manifest("/ws/foo/sub/Cargo.toml", ManifestProbe::Virtual), plain("/ws/foo/x")];
    let list = build_ar_list(&descriptor(None, false), files, None, false).result.unwrap();
    assert_eq!(shown(&list), vec!["x"]);
}

#[test]
fn unreadable_manifest_fails() {
    let files = vec![manifest("/ws/foo/sub/Cargo.toml", ManifestProbe::Failed("bad toml".to_string()))];
    let e = build_ar_list(&descriptor(None, false), files, None, false).result.err().unwrap();
    assert_eq!(e.kind, ErrorKind::ManifestUnreadable);
    assert_eq!(e.message, "bad toml");
}

#[test]
fn manifest_without_probe_fails() {
    let files = vec![plain("/ws/foo/Cargo.toml")];
    let e = build_ar_list(&descriptor(None, false), files, None, false).result.err().unwrap();
    assert_eq!(e.kind, ErrorKind::ManifestNotProbed);
    assert_eq!(e.message, "manifest `/ws/foo/Cargo.toml` was not read");
}

#[test]
fn raw_lock_document_is_skipped_and_generated_one_added() {
    let files = vec![plain("/ws/foo/Cargo.lock"), plain("/ws/foo/sub/Cargo.lock"), plain("/ws/foo/x")];
    let without = build_ar_list(&descriptor(None, false), files, None, false).result.unwrap();
    assert_eq!(shown(&without), vec!["x"]);
    let files = vec![plain("/ws/foo/Cargo.lock"), plain("/ws/foo/x")];
    let with = build_ar_list(&descriptor(None, true), files, None, false).result.unwrap();
    assert_eq!(shown(&with), vec!["Cargo.lock", "x"]);
    assert!(matches!(with[0].contents, FileContents::Generated(GeneratedFile::Lockfile)));
}

#[test]
fn reserved_record_name_is_rejected() {
    let files = vec![plain("/ws/foo/a"), plain("/ws/foo/sub/.cargo_vcs_info.json"), plain("/ws/foo/b:c")];
    let listing = build_ar_list(&descriptor(None, false), files, None, false);
    let e = listing.result.err().unwrap();
    assert_eq!(e.kind, ErrorKind::ReservedFileName);
    assert_eq!(
        e.message,
        "invalid inclusion of reserved file name .cargo_vcs_info.json in package source"
    );
}

#[test]
fn record_entry_carries_its_text() {
    let list = build_ar_list(&descriptor(None, false), vec![plain("/ws/foo/x")], Some("info".to_string()), false)
        .result
        .unwrap();
    assert_eq!(shown(&list), vec![".cargo_vcs_info.json", "x"]);
    match &list[0].contents {
        FileContents::Generated(GeneratedFile::VcsInfo(text)) => assert_eq!(text, "info"),
        _ => panic!("expected the version-control record"),
    }
}

#[test]
fn colon_in_a_name_fails_the_listing() {
    let files = vec![plain("/ws/foo/ok.rs"), plain("/ws/foo/src/a:b.rs"), plain("/ws/foo/later.rs")];
    let e = build_ar_list(&descriptor(None, false), files, None, false).result.err().unwrap();
    assert_eq!(e.kind, ErrorKind::SpecialCharacter);
    assert_eq!(
        e.message,
        "cannot package a filename with a special character `:`: src/a:b.rs"
    );
}

#[test]
fn first_failing_candidate_decides() {
    let files = vec![plain("/elsewhere/x"), plain("/ws/foo/a:b")];
    let e = build_ar_list(&descriptor(None, false), files, None, false).result.err().unwrap();
    assert_eq!(e.kind, ErrorKind::OutsideRoot);
    assert_eq!(e.message, "source file `/elsewhere/x` is not under the package root `/ws/foo`");
}

#[test]
fn the_root_itself_has_no_file_name() {
    let e = build_ar_list(&descriptor(None, false), vec![plain("/ws/foo")], None, false)
        .result
        .err()
        .unwrap();
    assert_eq!(e.kind, ErrorKind::NoFileName);
    assert_eq!(e.message, "source file `/ws/foo` has no file name");
}

#[test]
fn reserved_name_warns_and_is_kept() {
    let files = vec![plain("/ws/foo/src/con.rs"), plain("/ws/foo/bad?")];
    let listing = build_ar_list(&descriptor(None, false), files, None, false);
    assert_eq!(listing.notices.len(), 1);
    assert_eq!(listing.notices[0].level, Level::Warning);
    assert_eq!(
        listing.notices[0].message,
        "file src/con.rs is a reserved Windows filename, it will not work on Windows platforms"
    );
    assert!(listing.result.is_err());
    let listing = build_ar_list(&descriptor(None, false), vec![plain("/ws/foo/src/con.rs")], None, false);
    assert_eq!(listing.notices.len(), 1);
    assert_eq!(shown(&listing.result.unwrap()), vec!["src/con.rs"]);
}

#[test]
fn license_inside_root_is_added_once() {
    let p = descriptor(Some("docs/../LICENSE"), false);
    assert_eq!(license_path(&p).unwrap().display(), "/ws/foo/LICENSE");
    let added = build_ar_list(&p, vec![plain("/ws/foo/x")], None, true).result.unwrap();
    assert_eq!(shown(&added), vec!["LICENSE", "x"]);
    assert_eq!(disk_source(&added[0]), Some("/ws/foo/LICENSE".to_string()));
    let listing = build_ar_list(&p, vec![plain("/ws/foo/LICENSE"), plain("/ws/foo/x")], None, true);
    assert!(listing.notices.is_empty());
    assert_eq!(shown(&listing.result.unwrap()), vec!["LICENSE", "x"]);
}

#[test]
fn license_outside_root_is_copied_under_its_name() {
    let p = descriptor(Some("../LICENSE"), false);
    assert_eq!(license_path(&p).unwrap().display(), "/ws/LICENSE");
    let listing = build_ar_list(&p, vec![plain("/ws/foo/x")], None, true);
    assert!(listing.notices.is_empty());
    let list = listing.result.unwrap();
    assert_eq!(shown(&list), vec!["LICENSE", "x"]);
    assert_eq!(disk_source(&list[0]), Some("/ws/LICENSE".to_string()));
}

#[test]
fn license_outside_root_yields_to_file_of_same_name() {
    let p = descriptor(Some("../LICENSE"), false);
    let listing = build_ar_list(&p, vec![plain("/ws/foo/LICENSE"), plain("/ws/foo/x")], None, true);
    assert_eq!(listing.notices.len(), 1);
    assert_eq!(listing.notices[0].level, Level::Warning);
    assert_eq!(
        listing.notices[0].message,
        "license-file `../LICENSE` appears to be a path outside of the package, but there is already a file named `LICENSE` in the root of the package. The archived crate will contain the copy in the root of the package. Update the license-file to point to the path relative to the root of the package to remove this warning."
    );
    let list = listing.result.unwrap();
    assert_eq!(shown(&list), vec!["LICENSE", "x"]);
    assert_eq!(disk_source(&list[0]), Some("/ws/foo/LICENSE".to_string()));
}

#[test]
fn missing_license_warns() {
    let p = descriptor(Some("LICENSE"), false);
    let listing = build_ar_list(&p, vec![plain("/ws/foo/x")], None, false);
    assert_eq!(listing.notices.len(), 1);
    assert_eq!(
        listing.notices[0].message,
        "license-file `LICENSE` does not appear to exist (relative to `/ws/foo`).\nPlease update the license-file setting in the manifest at `/ws/foo/Cargo.toml`\nThis may become a hard error in the future."
    );
    assert_eq!(shown(&listing.result.unwrap()), vec!["x"]);
    let p = descriptor(Some("/abs/LICENSE"), false);
    let listing = build_ar_list(&p, Vec::new(), None, false);
    assert_eq!(
        listing.notices[0].message,
        "license-file `/abs/LICENSE` does not appear to exist.\nPlease update the license-file setting in the manifest at `/ws/foo/Cargo.toml`\nThis may become a hard error in the future."
    );
}

#[test]
fn no_license_named_adds_nothing() {
    assert!(license_path(&descriptor(None, false)).is_none());
    let listing = build_ar_list(&descriptor(None, false), Vec::new(), None, true);
    assert!(listing.notices.is_empty());
    assert!(listing.result.unwrap().is_empty());
}
