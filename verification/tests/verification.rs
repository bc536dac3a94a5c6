use packager::descriptor::{Metadata, PackageDescriptor};
use packager::fingerprint::{Fingerprint, PathHash};
use packager::options::PackageOpts;
use packager::paths::FilePath;
use packager::report::{ErrorKind, Level};
use packager::verification::{
    build_request, judge, run_verify, VerifyAction, VerifyEvent, VerifyRun, VerifyStage,
};

fn subject() -> PackageDescriptor {
    PackageDescriptor {
        name: "foo".to_string(),
        version: "0.1.0".to_string(),
        root: FilePath::parse("/ws/foo"),
        manifest_path: FilePath::parse("/ws/foo/Cargo.toml"),
        dependencies: Vec::new(),
        metadata: Metadata {
            description: None,
            license: None,
            license_file: None,
            documentation: None,
            homepage: None,
            repository: None,
        },
        include_patterns: Vec::new(),
        exclude_patterns: Vec::new(),
        include_lockfile: false,
    }
}

fn hashes(entries: &[(&str, u64)]) -> Fingerprint {
    let mut f = Fingerprint::new();
    for (path, hash) in entries {
        f.insert(PathHash { path: path.to_string(), hash: *hash });
    }
    f
}

fn begin() -> VerifyRun {
    let (run, notice) = VerifyRun::new(&subject(), &FilePath::parse("/ws/target/package"));
    assert_eq!(notice.level, Level::Status);
    assert_eq!(notice.message, "Verifying foo v0.1.0");
    assert_eq!(run.destination.display(), "/ws/target/package/foo-0.1.0");
    assert_eq!(run.stage, VerifyStage::Start);
    run
}

#[test]
fn clean_build_verifies() {
    let mut run = begin();
    assert!(matches!(run_verify(&mut run, VerifyEvent::Begun { stale: false }), VerifyAction::Unpack));
    assert!(matches!(run_verify(&mut run, VerifyEvent::Unpacked), VerifyAction::Hash));
    assert!(matches!(
        run_verify(&mut run, VerifyEvent::Hashed(hashes(&[("a", 1), ("b", 2)]))),
        VerifyAction::Build
    ));
    assert!(matches!(run_verify(&mut run, VerifyEvent::Built), VerifyAction::Hash));
    assert!(matches!(
        run_verify(&mut run, VerifyEvent::Hashed(hashes(&[("a", 1), ("b", 2)]))),
        VerifyAction::Succeed
    ));
    assert_eq!(run.stage, VerifyStage::Done);
}

#[test]
fn stale_directory_is_cleared_first() {
    let mut run = begin();
    assert!(matches!(run_verify(&mut run, VerifyEvent::Begun { stale: true }), VerifyAction::Clear));
    assert_eq!(run.stage, VerifyStage::Clearing);
    assert!(matches!(run_verify(&mut run, VerifyEvent::Cleared), VerifyAction::Unpack));
    assert_eq!(run.stage, VerifyStage::Unpacking);
}

#[test]
fn build_that_touches_sources_fails() {
    let mut run = begin();
    run_verify(&mut run, VerifyEvent::Begun { stale: false });
    run_verify(&mut run, VerifyEvent::Unpacked);
    run_verify(&mut run, VerifyEvent::Hashed(hashes(&[("a", 1), ("b", 2)])));
    run_verify(&mut run, VerifyEvent::Built);
    match run_verify(&mut run, VerifyEvent::Hashed(hashes(&[("a", 1), ("b", 3), ("c", 4)]))) {
        VerifyAction::Fail(e) => {
            assert_eq!(e.kind, ErrorKind::SourceModified);
            assert_eq!(
                e.message,
                "Source directory was modified by build.rs during cargo publish. Build scripts should not modify anything outside of OUT_DIR.\nChanged: b\nAdded: c\n\nTo proceed despite this, pass the `--no-verify` flag."
            );
        }
        other => panic!("expected a failure, got {:?}", other),
    }
    assert_eq!(run.stage, VerifyStage::Done);
}

#[test]
fn failed_action_ends_the_verification() {
    let mut run = begin();
    run_verify(&mut run, VerifyEvent::Begun { stale: false });
    run_verify(&mut run, VerifyEvent::Unpacked);
    run_verify(&mut run, VerifyEvent::Hashed(hashes(&[])));
    match run_verify(&mut run, VerifyEvent::Failed("could not compile `foo`".to_string())) {
        VerifyAction::Fail(e) => {
            assert_eq!(e.kind, ErrorKind::Collaborator);
            assert_eq!(e.message, "could not compile `foo`");
        }
        other => panic!("expected a failure, got {:?}", other),
    }
    assert_eq!(run.stage, VerifyStage::Done);
}

#[test]
fn event_out_of_turn_ends_the_verification() {
    let mut run = begin();
    match run_verify(&mut run, VerifyEvent::Built) {
        VerifyAction::Fail(e) => {
            assert_eq!(e.kind, ErrorKind::Protocol);
            assert_eq!(e.message, "a step was reported out of turn");
        }
        other => panic!("expected a failure, got {:?}", other),
    }
    assert_eq!(run.stage, VerifyStage::Done);
    assert!(matches!(run_verify(&mut run, VerifyEvent::Begun { stale: false }), VerifyAction::Fail(_)));
}

#[test]
fn judge_compares_fingerprints() {
    assert!(matches!(judge(&hashes(&[("a", 1)]), &hashes(&[("a", 1)])), VerifyAction::Succeed));
    assert!(matches!(judge(&hashes(&[("a", 1)]), &hashes(&[])), VerifyAction::Fail(_)));
}

#[test]
fn build_request_passes_options_through() {
    let opts = PackageOpts {
        verbose: false,
        list: false,
        check_metadata: true,
        allow_dirty: false,
        verify: true,
        jobs: Some(4),
        targets: vec!["x86_64-unknown-linux-gnu".to_string()],
        features: vec!["a".to_string(), "b".to_string()],
        all_features: true,
        no_default_features: false,
    };
    let request = build_request(&opts, true);
    assert_eq!(request.jobs, Some(4));
    assert_eq!(request.targets, opts.targets);
    assert_eq!(request.features, opts.features);
    assert!(request.all_features);
    assert!(!request.no_default_features);
    assert_eq!(request.compiler_args, Some(Vec::new()));
    assert_eq!(build_request(&opts, false).compiler_args, None);
}
