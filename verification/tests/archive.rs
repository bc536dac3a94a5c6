use std::io::Read;

use packager::archive::{plan_members, seal, tar, write_members, Material, Member, GENERATED_MODE};
use packager::descriptor::{Metadata, PackageDescriptor};
use packager::entries::{ArchiveFile, FileContents, GeneratedFile};
use packager::paths::FilePath;
use packager::report::{ErrorKind, Level};

fn named(name: &str, version: &str) -> PackageDescriptor {
    PackageDescriptor {
        name: name.to_string(),
        version: version.to_string(),
        root: FilePath::parse("/ws/foo"),
        manifest_path: FilePath::parse("/ws/foo/Cargo.toml"),
        dependencies: Vec::new(),
        metadata: Metadata {
            description: None,
            license: None,
            license_file: None,
            documentation: None,
            homepage: None,
            repository: None,
        },
        include_patterns: Vec::new(),
        exclude_patterns: Vec::new(),
        include_lockfile: false,
    }
}

fn on_disk(rel: &str) -> ArchiveFile {
    ArchiveFile {
        rel_path: FilePath::parse(rel),
        contents: FileContents::OnDisk(FilePath::parse("/ws/foo").join(&FilePath::parse(rel))),
    }
}

fn generated(rel: &str, file: GeneratedFile) -> ArchiveFile {
    ArchiveFile { rel_path: FilePath::parse(rel), contents: FileContents::Generated(file) }
}

fn file(mode: u32, mtime: u64, data: &[u8]) -> Material {
    Material::File { mode, mtime, data: data.to_vec() }
}

struct Unpacked {
    path: String,
    mode: u32,
    mtime: u64,
    data: Vec<u8>,
}

fn unpack(bytes: &[u8]) -> (Option<Vec<u8>>, Vec<Unpacked>) {
    let decoder = flate2::read::GzDecoder::new(bytes);
    let name = decoder.header().and_then(|h| h.filename()).map(|n| n.to_vec());
    let mut archive = tar::Archive::new(decoder);
    let mut out = Vec::new();
    for entry in archive.entries().unwrap() {
        let mut entry = entry.unwrap();
        let path = String::from_utf8(entry.path_bytes().to_vec()).unwrap();
        let mode = entry.header().mode().unwrap();
        let mtime = entry.header().mtime().unwrap();
        let mut data = Vec::new();
        entry.read_to_end(&mut data).unwrap();
        out.push(Unpacked { path, mode, mtime, data });
    }
    (name, out)
}

fn sample_entries() -> Vec<ArchiveFile> {
    vec![
        generated(".cargo_vcs_info.json", GeneratedFile::VcsInfo("{\"git\"}\n".to_string())),
        generated("Cargo.lock", GeneratedFile::Lockfile),
        generated("Cargo.toml", GeneratedFile::Manifest),
        on_disk("Cargo.toml.orig"),
        on_disk("src/lib.rs"),
    ]
}

fn sample_materials() -> Vec<Material> {
    vec![
        Material::Unavailable("not needed".to_string()),
        Material::Text("# lock\n".to_string()),
        Material::Text("[package]\n".to_string()),
        file(0o644, 1_500_000_000, b"[package]\nname = \"foo\"\n"),
        file(0o755, 1_600_000_000, b"pub fn f() {}\n\x00\xff"),
    ]
}

#[test]
fn archive_round_trips_source_files() {
    let out = tar(&named("foo", "0.1.0"), &sample_entries(), sample_materials(), 1_700_000_000);
    let bytes = out.result.unwrap();
    assert_eq!(&bytes[..2], &[0x1f, 0x8b]);
    let (name, members) = unpack(&bytes);
    assert_eq!(name, Some(b"foo-0.1.0.crate".to_vec()));
    let paths: Vec<&str> = members.iter().map(|m| m.path.as_str()).collect();
    assert_eq!(
        paths,
        vec![
            "foo-0.1.0/.cargo_vcs_info.json",
            "foo-0.1.0/Cargo.lock",
            "foo-0.1.0/Cargo.toml",
            "foo-0.1.0/Cargo.toml.orig",
            "foo-0.1.0/src/lib.rs",
        ]
    );
    assert_eq!(members[3].data, b"[package]\nname = \"foo\"\n");
    assert_eq!(members[3].mode, 0o644);
    assert_eq!(members[3].mtime, 1_500_000_000);
    assert_eq!(members[4].data, b"pub fn f() {}\n\x00\xff");
    assert_eq!(members[4].mode, 0o755);
    assert_eq!(members[4].mtime, 1_600_000_000);
    assert_eq!(members[4].path.strip_prefix("foo-0.1.0/"), Some("src/lib.rs"));
}

#[test]
fn generated_entries_have_fixed_mode_and_current_time() {
    let out = tar(&named("foo", "0.1.0"), &sample_entries(), sample_materials(), 1_700_000_000);
    let (_, members) = unpack(&out.result.unwrap());
    assert_eq!(GENERATED_MODE, 0o644);
    for m in &members[..3] {
        assert_eq!(m.mode, 0o644);
        assert_eq!(m.mtime, 1_700_000_000);
    }
    assert_eq!(members[0].data, b"{\"git\"}\n");
    assert_eq!(members[1].data, b"# lock\n");
    assert_eq!(members[2].data, b"[package]\n");
}

#[test]
fn same_inputs_give_the_same_archive() {
    let one = tar(&named("foo", "0.1.0"), &sample_entries(), sample_materials(), 42).result.unwrap();
    let two = tar(&named("foo", "0.1.0"), &sample_entries(), sample_materials(), 42).result.unwrap();
    assert_eq!(one, two);
    let later = tar(&named("foo", "0.1.0"), &sample_entries(), sample_materials(), 43).result.unwrap();
    let (_, a) = unpack(&one);
    let (_, b) = unpack(&later);
    assert_eq!(a.len(), b.len());
    for (x, y) in a.iter().zip(b.iter()) {
        assert_eq!(x.path, y.path);
        assert_eq!(x.mode, y.mode);
        assert_eq!(x.data, y.data);
    }
    assert_eq!(a[0].mtime, 42);
    assert_eq!(b[0].mtime, 43);
    assert_eq!(a[4].mtime, b[4].mtime);
}

#[test]
fn archiving_is_announced_entry_by_entry() {
    let out = tar(&named("foo", "0.1.0"), &sample_entries(), sample_materials(), 1);
    let messages: Vec<&str> = out.notices.iter().map(|n| n.message.as_str()).collect();
    assert_eq!(
        messages,
        vec![
            "Archiving .cargo_vcs_info.json",
            "Archiving Cargo.lock",
            "Archiving Cargo.toml",
            "Archiving Cargo.toml.orig",
            "Archiving src/lib.rs",
        ]
    );
    assert!(out.notices.iter().all(|n| n.level == Level::VerboseStatus));
}

#[test]
fn entry_without_material_fails() {
    let entries = vec![on_disk("a"), on_disk("b"), on_disk("c")];
    let out = tar(&named("foo", "0.1.0"), &entries, vec![file(0o644, 0, b"a")], 1);
    let e = out.result.err().unwrap();
    assert_eq!(e.kind, ErrorKind::ArchiveEntry);
    assert_eq!(e.message, "nothing was made ready for `b`");
    assert_eq!(out.notices.len(), 2);
}

#[test]
fn material_of_the_wrong_kind_fails() {
    let out = tar(&named("foo", "0.1.0"), &vec![on_disk("a")], vec![Material::Text("x".to_string())], 1);
    assert_eq!(out.result.err().unwrap().message, "nothing was made ready for `a`");
    let out = tar(
        &named("foo", "0.1.0"),
        &vec![generated("Cargo.toml", GeneratedFile::Manifest)],
        vec![file(0o644, 0, b"x")],
        1,
    );
    assert_eq!(out.result.err().unwrap().message, "nothing was made ready for `Cargo.toml`");
}

#[test]
fn unavailable_material_fails_with_its_reason() {
    let out = tar(
        &named("foo", "0.1.0"),
        &vec![on_disk("a")],
        vec![Material::Unavailable("failed to open for archiving: `/ws/foo/a`".to_string())],
        1,
    );
    let e = out.result.err().unwrap();
    assert_eq!(e.kind, ErrorKind::ArchiveEntry);
    assert_eq!(e.message, "failed to open for archiving: `/ws/foo/a`");
}

#[test]
fn archive_name_with_zero_byte_fails() {
    let out = tar(&named("fo\0o", "0.1.0"), &Vec::new(), Vec::new(), 1);
    let e = out.result.err().unwrap();
    assert_eq!(e.kind, ErrorKind::ArchiveName);
    assert_eq!(e.message, "the archive name `fo\0o-0.1.0.crate` holds a zero byte");
    let e = seal("a\0b", &Vec::new()).err().unwrap();
    assert_eq!(e.kind, ErrorKind::ArchiveName);
}

#[test]
fn path_that_the_archive_refuses_fails() {
    let entries = vec![on_disk("../escape")];
    let out = tar(&named("foo", "0.1.0"), &entries, vec![file(0o644, 0, b"x")], 1);
    let e = out.result.err().unwrap();
    assert_eq!(e.kind, ErrorKind::ArchiveEntry);
    assert!(e.message.starts_with("could not archive source file `foo-0.1.0/../escape`: "));
}

#[test]
fn paths_outside_normal_form_are_taken_or_refused_by_the_archive() {
    let member = |path: &str| Member { path: path.to_string(), mode: 0o644, mtime: 0, data: Vec::new() };
    assert!(write_members(&vec![member("a//b"), member("./c")]).is_ok());
    for refused in ["", "/abs", "a/../b", ".."] {
        let e = write_members(&vec![member("fine"), member(refused)]).err().unwrap();
        assert_eq!(e.kind, ErrorKind::ArchiveEntry);
        assert!(e.message.starts_with(&format!("could not archive source file `{}`: ", refused)));
    }
}

#[test]
fn plan_gives_one_member_per_entry() {
    let planned = plan_members(&named("foo", "0.1.0"), &sample_entries(), sample_materials(), 9);
    let members = planned.result.unwrap();
    assert_eq!(members.len(), 5);
    assert_eq!(members[0].path, "foo-0.1.0/.cargo_vcs_info.json");
    assert_eq!(members[0].mode, 0o644);
    assert_eq!(members[0].mtime, 9);
    assert_eq!(members[0].data, b"{\"git\"}\n");
    assert_eq!(members[4].path, "foo-0.1.0/src/lib.rs");
    assert_eq!(members[4].mode, 0o755);
    assert_eq!(members[4].mtime, 1_600_000_000);
}

#[test]
fn long_paths_survive_the_archive() {
    let long = format!("{}/{}.rs", "d".repeat(90), "f".repeat(90));
    let members = vec![Member { path: long.clone(), mode: 0o600, mtime: 5, data: b"long".to_vec() }];
    let tape = write_members(&members).unwrap();
    let sealed = seal("x.crate", &tape).unwrap();
    let (name, got) = unpack(&sealed);
    assert_eq!(name, Some(b"x.crate".to_vec()));
    assert_eq!(got.len(), 1);
    assert_eq!(got[0].path, long);
    assert_eq!(got[0].data, b"long");
    assert_eq!(got[0].mode, 0o600);
}

#[test]
fn names_follow_name_and_version() {
    let p = named("foo", "0.1.0");
    assert_eq!(p.base_name_text(), "foo-0.1.0");
    assert_eq!(p.archive_name_text(), "foo-0.1.0.crate");
    assert_eq!(p.temporary_name_text(), ".foo-0.1.0.crate");
}

#[test]
fn empty_archive_is_still_an_archive() {
    let out = tar(&named("foo", "0.1.0"), &Vec::new(), Vec::new(), 1);
    assert!(out.notices.is_empty());
    let (name, members) = unpack(&out.result.unwrap());
    assert_eq!(name, Some(b"foo-0.1.0.crate".to_vec()));
    assert!(members.is_empty());
    assert_eq!(write_members(&Vec::new()).unwrap().len(), 1024);
}
