use packager::descriptor::{Dependency, Metadata, PackageDescriptor, SourceKind};
use packager::entries::{FileContents, GeneratedFile, ManifestProbe, SourceFile};
use packager::options::PackageOpts;
use packager::paths::FilePath;
use packager::pipeline::{
    package, PackageAction, PackageEvent, PackageRun, PackageStage, RepoFacts, Step,
};
use packager::report::{ErrorKind, Level, PackageError};
use packager::vcs::{Discovery, FileProbe, STATUS_CURRENT};

fn thing() -> PackageDescriptor {
    PackageDescriptor {
        name: "foo".to_string(),
        version: "0.1.0".to_string(),
        root: FilePath::parse("/repo/foo"),
        manifest_path: FilePath::parse("/repo/foo/Cargo.toml"),
        dependencies: Vec::new(),
        metadata: Metadata {
            description: Some("d".to_string()),
            license: Some("MIT".to_string()),
            license_file: None,
            documentation: None,
            homepage: None,
            repository: Some("r".to_string()),
        },
        include_patterns: Vec::new(),
        exclude_patterns: Vec::new(),
        include_lockfile: false,
    }
}

fn options() -> PackageOpts {
    PackageOpts {
        verbose: false,
        list: false,
        check_metadata: true,
        allow_dirty: false,
        verify: true,
        jobs: None,
        targets: Vec::new(),
        features: Vec::new(),
        all_features: false,
        no_default_features: false,
    }
}

fn sources(paths: &[&str]) -> Vec<SourceFile> {
    paths
        .iter()
        .map(|p| SourceFile {
            path: FilePath::parse(p),
            manifest: if p.ends_with("/Cargo.toml") { Some(ManifestProbe::Published) } else { None },
        })
        .collect()
}

fn clean_repo(paths: &[&str], head: &str) -> RepoFacts {
    RepoFacts {
        discovery: Discovery::Found {
            workdir: FilePath::parse("/repo"),
            manifest_status: Some(STATUS_CURRENT),
        },
        files: paths
            .iter()
            .map(|p| FileProbe { path: FilePath::parse(p), status: Some(STATUS_CURRENT), nested: Vec::new() })
            .collect(),
        head: Ok(head.to_string()),
    }
}

fn gathered(paths: &[&str], repository: Option<RepoFacts>) -> PackageEvent {
    PackageEvent::Gathered { files: sources(paths), license_on_disk: false, repository }
}

fn to_gathering(run: &mut PackageRun, p: &PackageDescriptor, o: &PackageOpts) -> Step {
    package(run, p, o, PackageEvent::Begun { lock_present: false })
}

const FILES: [&str; 2] = ["/repo/foo/src/lib.rs", "/repo/foo/Cargo.toml"];

#[test]
fn clean_repository_packages_with_record() {
    let (p, o) = (thing(), options());
    let mut run = PackageRun::new();
    let step = package(&mut run, &p, &o, PackageEvent::Begun { lock_present: true });
    assert!(matches!(step.action, PackageAction::ValidateLock));
    assert!(step.notices.is_empty());
    let step = package(&mut run, &p, &o, PackageEvent::LockValidated);
    assert!(matches!(step.action, PackageAction::Gather));
    assert!(step.notices.is_empty());
    let step = package(&mut run, &p, &o, gathered(&FILES, Some(clean_repo(&FILES, "abc123"))));
    assert!(matches!(step.action, PackageAction::WriteArchive));
    assert_eq!(step.notices.len(), 1);
    assert_eq!(step.notices[0].level, Level::Status);
    assert_eq!(step.notices[0].message, "Packaging foo v0.1.0");
    let names: Vec<String> = run.entries.iter().map(|e| e.rel_str()).collect();
    assert_eq!(names, vec![".cargo_vcs_info.json", "Cargo.toml", "Cargo.toml.orig", "src/lib.rs"]);
    match &run.entries[0].contents {
        FileContents::Generated(GeneratedFile::VcsInfo(text)) => {
            assert_eq!(text, "{\n  \"git\": {\n    \"sha1\": \"abc123\"\n  }\n}\n")
        }
        _ => panic!("expected the version-control record"),
    }
    assert!(matches!(package(&mut run, &p, &o, PackageEvent::Written).action, PackageAction::Verify));
    assert!(matches!(package(&mut run, &p, &o, PackageEvent::Verified).action, PackageAction::Publish));
    assert!(matches!(package(&mut run, &p, &o, PackageEvent::Published).action, PackageAction::Finish));
    assert_eq!(run.stage, PackageStage::Done);
}

#[test]
fn verification_can_be_left_out() {
    let (p, mut o) = (thing(), options());
    o.verify = false;
    o.allow_dirty = true;
    let mut run = PackageRun::new();
    let step = to_gathering(&mut run, &p, &o);
    assert!(matches!(step.action, PackageAction::Gather));
    let step = package(&mut run, &p, &o, gathered(&FILES, None));
    assert!(matches!(step.action, PackageAction::WriteArchive));
    let names: Vec<String> = run.entries.iter().map(|e| e.rel_str()).collect();
    assert_eq!(names, vec!["Cargo.toml", "Cargo.toml.orig", "src/lib.rs"]);
    assert!(matches!(package(&mut run, &p, &o, PackageEvent::Written).action, PackageAction::Publish));
}

#[test]
fn list_mode_prints_and_stops() {
    let (p, mut o) = (thing(), options());
    o.list = true;
    let mut run = PackageRun::new();
    to_gathering(&mut run, &p, &o);
    let step = package(&mut run, &p, &o, gathered(&FILES, Some(clean_repo(&FILES, "abc"))));
    match step.action {
        PackageAction::PrintList(lines) => {
            assert_eq!(lines, vec![".cargo_vcs_info.json", "Cargo.toml", "Cargo.toml.orig", "src/lib.rs"])
        }
        other => panic!("expected a listing, got {:?}", other),
    }
    assert!(step.notices.is_empty());
    assert_eq!(run.stage, PackageStage::Done);
}

#[test]
fn opening_notices_come_before_the_listing() {
    let (mut p, o) = (thing(), options());
    p.metadata.description = None;
    p.include_patterns = vec!["src/**".to_string()];
    p.exclude_patterns = vec!["tests/**".to_string()];
    let mut run = PackageRun::new();
    let step = to_gathering(&mut run, &p, &o);
    let messages: Vec<&str> = step.notices.iter().map(|n| n.message.as_str()).collect();
    assert_eq!(
        messages,
        vec![
            "manifest has no description.\nSee https://doc.rust-lang.org/cargo/reference/manifest.html#package-metadata for more info.",
            "both package.include and package.exclude are specified; the exclude list will be ignored",
        ]
    );
    let mut quiet = options();
    quiet.check_metadata = false;
    p.exclude_patterns = Vec::new();
    let mut run = PackageRun::new();
    assert!(to_gathering(&mut run, &p, &quiet).notices.is_empty());
}

#[test]
fn dirty_tree_fails_before_listing() {
    let (p, o) = (thing(), options());
    let mut repo = clean_repo(&FILES, "abc");
    repo.files[0].status = Some(1 << 8);
    let mut run = PackageRun::new();
    to_gathering(&mut run, &p, &o);
    let step = package(&mut run, &p, &o, gathered(&FILES, Some(repo)));
    match step.action {
        PackageAction::Fail(e) => {
            assert_eq!(e.kind, ErrorKind::Dirty);
            assert!(e.message.contains("\n\nsrc/lib.rs\n\n"));
        }
        other => panic!("expected a failure, got {:?}", other),
    }
    assert!(run.entries.is_empty());
    assert_eq!(run.stage, PackageStage::Done);
}

#[test]
fn dirty_tree_is_tolerated_on_request() {
    let (p, mut o) = (thing(), options());
    o.allow_dirty = true;
    let mut repo = clean_repo(&FILES, "abc");
    repo.files[0].status = Some(1 << 8);
    let mut run = PackageRun::new();
    to_gathering(&mut run, &p, &o);
    let step = package(&mut run, &p, &o, gathered(&FILES, Some(repo)));
    assert!(matches!(step.action, PackageAction::WriteArchive));
    let names: Vec<String> = run.entries.iter().map(|e| e.rel_str()).collect();
    assert_eq!(names, vec!["Cargo.toml", "Cargo.toml.orig", "src/lib.rs"]);
}

#[test]
fn clean_tree_keeps_its_record_when_dirt_is_allowed() {
    let (p, mut o) = (thing(), options());
    o.allow_dirty = true;
    let mut run = PackageRun::new();
    to_gathering(&mut run, &p, &o);
    let step = package(&mut run, &p, &o, gathered(&FILES, Some(clean_repo(&FILES, "abc123"))));
    assert!(matches!(step.action, PackageAction::WriteArchive));
    let names: Vec<String> = run.entries.iter().map(|e| e.rel_str()).collect();
    assert_eq!(names, vec![".cargo_vcs_info.json", "Cargo.toml", "Cargo.toml.orig", "src/lib.rs"]);
    match &run.entries[0].contents {
        FileContents::Generated(GeneratedFile::VcsInfo(text)) => {
            assert_eq!(text, "{\n  \"git\": {\n    \"sha1\": \"abc123\"\n  }\n}\n")
        }
        _ => panic!("expected the version-control record"),
    }
}

#[test]
fn unknown_head_fails_even_when_dirt_is_allowed() {
    let (p, mut o) = (thing(), options());
    o.allow_dirty = true;
    let mut repo = clean_repo(&FILES, "abc");
    repo.head = Err("no HEAD".to_string());
    let mut run = PackageRun::new();
    to_gathering(&mut run, &p, &o);
    match package(&mut run, &p, &o, gathered(&FILES, Some(repo))).action {
        PackageAction::Fail(e) => {
            assert_eq!(e.kind, ErrorKind::Collaborator);
            assert_eq!(e.message, "no HEAD");
        }
        other => panic!("expected a failure, got {:?}", other),
    }
}

#[test]
fn colon_in_a_name_is_rejected_even_when_dirt_is_allowed() {
    let (p, mut o) = (thing(), options());
    o.allow_dirty = true;
    let files = ["/repo/foo/src/lib.rs", "/repo/foo/a:b", "/repo/foo/Cargo.toml"];
    let mut run = PackageRun::new();
    to_gathering(&mut run, &p, &o);
    let step = package(&mut run, &p, &o, gathered(&files, None));
    match step.action {
        PackageAction::Fail(e) => {
            assert_eq!(e.kind, ErrorKind::SpecialCharacter);
            assert_eq!(e.message, "cannot package a filename with a special character `:`: a:b");
        }
        other => panic!("expected a failure, got {:?}", other),
    }
    assert!(run.entries.is_empty());
    assert_eq!(run.stage, PackageStage::Done);
    assert!(matches!(package(&mut run, &p, &o, PackageEvent::Written).action, PackageAction::Fail(_)));
}

#[test]
fn unpinned_dependency_fails_after_listing() {
    let (mut p, o) = (thing(), options());
    p.dependencies = vec![Dependency {
        name: "local".to_string(),
        kind: SourceKind::Path,
        requirement: None,
        transitive: true,
    }];
    let mut run = PackageRun::new();
    to_gathering(&mut run, &p, &o);
    let step = package(&mut run, &p, &o, gathered(&FILES, Some(clean_repo(&FILES, "abc"))));
    match step.action {
        PackageAction::Fail(e) => assert_eq!(e.kind, ErrorKind::UnpinnedPathDependency),
        other => panic!("expected a failure, got {:?}", other),
    }
    let mut listing = options();
    listing.list = true;
    let mut run = PackageRun::new();
    to_gathering(&mut run, &p, &listing);
    let step = package(&mut run, &p, &listing, gathered(&FILES, Some(clean_repo(&FILES, "abc"))));
    assert!(matches!(step.action, PackageAction::PrintList(_)));
}

#[test]
fn no_repository_means_no_record() {
    let (p, mut o) = (thing(), options());
    o.verbose = true;
    let mut run = PackageRun::new();
    to_gathering(&mut run, &p, &o);
    let step = package(&mut run, &p, &o, gathered(&FILES, None));
    assert!(matches!(step.action, PackageAction::WriteArchive));
    assert_eq!(step.notices.len(), 2);
    assert_eq!(step.notices[0].level, Level::VerboseWarning);
    assert_eq!(step.notices[0].message, "No (git) VCS found for `/repo/foo`");
    let names: Vec<String> = run.entries.iter().map(|e| e.rel_str()).collect();
    assert_eq!(names, vec!["Cargo.toml", "Cargo.toml.orig", "src/lib.rs"]);
}

#[test]
fn failures_are_put_in_context() {
    let (p, mut o) = (thing(), options());
    o.allow_dirty = true;
    let stages: [(usize, &str); 3] = [
        (0, "failed to prepare local package for uploading: boom"),
        (1, "failed to verify package tarball: boom"),
        (2, "failed to move temporary tarball into final location: boom"),
    ];
    for (advance, expected) in stages {
        let mut run = PackageRun::new();
        to_gathering(&mut run, &p, &o);
        package(&mut run, &p, &o, gathered(&FILES, None));
        if advance >= 1 {
            package(&mut run, &p, &o, PackageEvent::Written);
        }
        if advance >= 2 {
            package(&mut run, &p, &o, PackageEvent::Verified);
        }
        let cause = PackageError { kind: ErrorKind::Io, message: "boom".to_string() };
        match package(&mut run, &p, &o, PackageEvent::Failed(cause)).action {
            PackageAction::Fail(e) => {
                assert_eq!(e.kind, ErrorKind::Io);
                assert_eq!(e.message, expected);
            }
            other => panic!("expected a failure, got {:?}", other),
        }
        assert_eq!(run.stage, PackageStage::Done);
    }
    let mut run = PackageRun::new();
    let cause = PackageError { kind: ErrorKind::Collaborator, message: "resolve failed".to_string() };
    package(&mut run, &p, &o, PackageEvent::Begun { lock_present: true });
    match package(&mut run, &p, &o, PackageEvent::Failed(cause)).action {
        PackageAction::Fail(e) => assert_eq!(e.message, "resolve failed"),
        other => panic!("expected a failure, got {:?}", other),
    }
}

#[test]
fn step_out_of_turn_ends_the_packaging() {
    let (p, o) = (thing(), options());
    let mut run = PackageRun::new();
    match package(&mut run, &p, &o, PackageEvent::Written).action {
        PackageAction::Fail(e) => {
            assert_eq!(e.kind, ErrorKind::Protocol);
            assert_eq!(e.message, "a step was reported out of turn");
        }
        other => panic!("expected a failure, got {:?}", other),
    }
    assert_eq!(run.stage, PackageStage::Done);
}
