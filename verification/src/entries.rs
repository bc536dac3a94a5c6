//! The list of what goes into the archive: the source files, the rewritten
//! manifests beside their originals, and the generated records.

use crate::descriptor::{lock_name, manifest_name, vcs_info_name, PackageDescriptor};
use crate::filename::{
    check_filename, filename_verdict, first_forbidden, forbidden, lemma_first_forbidden,
};
use crate::order::{ranked, sort_ranked, views, Ranked};
use crate::ranked_set::{lemma_ranked_sets_equal, strictly_ranked};
use crate::paths::{lemma_path_order, parsed, path_lt, FilePath, PathModel};
use crate::report::{
    lemma_remarks_push, remarks, ErrorKind, Failure, Level, Notice, PackageError, Remark,
};
use crate::text::same_text;
use vstd::prelude::*;

verus! {

/// A file that packaging writes itself.
#[derive(Debug)]
pub enum GeneratedFile {
    /// The manifest of the package being published, rewritten for
    /// distribution.
    Manifest,
    /// The manifest of a package nested in the sources, rewritten likewise.
    NestedManifest(PackageDescriptor),
    /// The lock document, resolved anew.
    Lockfile,
    /// The version-control record, with its text.
    VcsInfo(String),
}

/// Where the bytes of an archive entry come from.
#[derive(Debug)]
pub enum FileContents {
    /// The file at this path is copied as it is.
    OnDisk(FilePath),
    /// The file is generated.
    Generated(GeneratedFile),
}

/// One entry of the archive.
#[derive(Debug)]
pub struct ArchiveFile {
    /// The path inside the archive, below the archive's top-level directory.
    pub rel_path: FilePath,
    pub contents: FileContents,
}

/// What a [`GeneratedFile`] stands for.
pub enum GeneratedModel {
    Manifest,
    NestedManifest(PackageDescriptor),
    Lockfile,
    VcsInfo(Seq<char>),
}

/// What a [`FileContents`] stands for.
pub enum ContentsModel {
    OnDisk(PathModel),
    Generated(GeneratedModel),
}

/// What an [`ArchiveFile`] stands for.
pub struct EntryModel {
    pub rel_path: PathModel,
    pub contents: ContentsModel,
}

impl View for GeneratedFile {
    type V = GeneratedModel;

    open spec fn view(&self) -> GeneratedModel {
        match self {
            GeneratedFile::Manifest => GeneratedModel::Manifest,
            GeneratedFile::NestedManifest(p) => GeneratedModel::NestedManifest(*p),
            GeneratedFile::Lockfile => GeneratedModel::Lockfile,
            GeneratedFile::VcsInfo(s) => GeneratedModel::VcsInfo(s@),
        }
    }
}

impl View for FileContents {
    type V = ContentsModel;

    open spec fn view(&self) -> ContentsModel {
        match self {
            FileContents::OnDisk(p) => ContentsModel::OnDisk(p@),
            FileContents::Generated(g) => ContentsModel::Generated(g@),
        }
    }
}

impl View for ArchiveFile {
    type V = EntryModel;

    open spec fn view(&self) -> EntryModel {
        EntryModel { rel_path: self.rel_path@, contents: self.contents@ }
    }
}

impl Ranked for ArchiveFile {
    /// Entries are ranked by their paths inside the archive.
    open spec fn before(a: EntryModel, b: EntryModel) -> bool {
        path_lt(a.rel_path, b.rel_path)
    }

    fn precedes(&self, other: &Self) -> (r: bool) {
        self.rel_path.is_before(&other.rel_path)
    }

    proof fn lemma_weak_order(a: EntryModel, b: EntryModel, c: EntryModel) {
        lemma_path_order(a.rel_path, b.rel_path, c.rel_path);
    }
}

impl ArchiveFile {
    /// The text of the entry's path inside the archive.
    pub fn rel_str(&self) -> (r: String)
        ensures
            r@ == self@.rel_path.shown(),
    {
        self.rel_path.display()
    }
}

/// What reading a manifest found among the source files has given.
#[derive(Debug)]
pub enum ManifestProbe {
    /// It is the manifest of the package being published.
    Published,
    /// It is the manifest of another package, described here.
    Nested(PackageDescriptor),
    /// It describes no package of its own.
    Virtual,
    /// It could not be read, for the reason given.
    Failed(String),
}

/// A candidate for the archive: a file of the source tree.
#[derive(Debug)]
pub struct SourceFile {
    /// Where the file lies.
    pub path: FilePath,
    /// For a file named as manifests are: what reading it has given.
    pub manifest: Option<ManifestProbe>,
}

/// The relative path of the components `parts`.
pub open spec fn relative(parts: Seq<Seq<char>>) -> PathModel {
    PathModel { absolute: false, parts }
}

/// The entry that copies the file at `source` to `rel`.
pub open spec fn disk_entry(rel: PathModel, source: PathModel) -> EntryModel {
    EntryModel { rel_path: rel, contents: ContentsModel::OnDisk(source) }
}

/// The entry that writes the generated `file` to `rel`.
pub open spec fn generated_entry(rel: PathModel, file: GeneratedModel) -> EntryModel {
    EntryModel { rel_path: rel, contents: ContentsModel::Generated(file) }
}

/// The text of the failure for a candidate outside the package root.
pub open spec fn outside_root_text(path: PathModel, root: PathModel) -> Seq<char> {
    "source file `"@ + path.shown() + "` is not under the package root `"@ + root.shown() + "`"@
}

/// The text of the failure for a candidate without a file name.
pub open spec fn no_file_name_text(path: PathModel) -> Seq<char> {
    "source file `"@ + path.shown() + "` has no file name"@
}

/// The text of the failure for a manifest that was not read.
pub open spec fn not_probed_text(path: PathModel) -> Seq<char> {
    "manifest `"@ + path.shown() + "` was not read"@
}

/// The text of the failure for a candidate that bears the name of the
/// version-control record.
pub open spec fn reserved_file_text() -> Seq<char> {
    "invalid inclusion of reserved file name .cargo_vcs_info.json in package source"@
}

/// What one candidate adds to the list.
pub struct Contribution {
    /// The notices given while the candidate was looked at.
    pub notes: Seq<Remark>,
    /// The entries it adds, or the failure that it ends the listing with.
    pub result: Result<Seq<EntryModel>, Failure>,
}

/// The list of a notice that may be absent.
pub open spec fn notes_of(note: Option<Remark>) -> Seq<Remark> {
    match note {
        Some(n) => seq![n],
        None => Seq::empty(),
    }
}

/// The entries for a file named as manifests are.
pub open spec fn manifest_contribution(file: SourceFile, rel: PathModel) -> Result<
    Seq<EntryModel>,
    Failure,
> {
    match file.manifest {
        Some(ManifestProbe::Published) => Ok(
            seq![
                disk_entry(relative(seq!["Cargo.toml.orig"@]), file.path@),
                generated_entry(rel, GeneratedModel::Manifest),
            ],
        ),
        Some(ManifestProbe::Nested(package)) => Ok(
            seq![
                disk_entry(rel.with_suffix(".orig"@), file.path@),
                generated_entry(rel, GeneratedModel::NestedManifest(package)),
            ],
        ),
        Some(ManifestProbe::Virtual) => Ok(Seq::empty()),
        Some(ManifestProbe::Failed(reason)) => Err(
            Failure { kind: ErrorKind::ManifestUnreadable, message: reason@ },
        ),
        None => Err(
            Failure { kind: ErrorKind::ManifestNotProbed, message: not_probed_text(file.path@) },
        ),
    }
}

/// What the candidate `file` of a package rooted at `root` adds to the list.
///
/// Its path is taken relative to the root and its file name is checked. A
/// manifest gives two entries, its original bytes under a name with the
/// suffix `.orig` and the rewritten manifest under its own name; a manifest
/// that describes no package gives none. A lock document is passed over. A
/// file that bears the name of the version-control record ends the listing.
/// Any other file is copied as it is.
pub open spec fn contribution(root: PathModel, file: SourceFile) -> Contribution {
    match file.path@.stripped(root) {
        None => Contribution {
            notes: Seq::empty(),
            result: Err(
                Failure {
                    kind: ErrorKind::OutsideRoot,
                    message: outside_root_text(file.path@, root),
                },
            ),
        },
        Some(rel) => match filename_verdict(rel) {
            Err(failure) => Contribution { notes: Seq::empty(), result: Err(failure) },
            Ok(note) => Contribution {
                notes: notes_of(note),
                result: match rel.file_name() {
                    None => Err(
                        Failure {
                            kind: ErrorKind::NoFileName,
                            message: no_file_name_text(file.path@),
                        },
                    ),
                    Some(name) => if name == manifest_name() {
                        manifest_contribution(file, rel)
                    } else if name == lock_name() {
                        Ok(Seq::empty())
                    } else if name == vcs_info_name() {
                        Err(
                            Failure {
                                kind: ErrorKind::ReservedFileName,
                                message: reserved_file_text(),
                            },
                        )
                    } else {
                        Ok(seq![disk_entry(rel, file.path@)])
                    },
                },
            },
        },
    }
}

fn text_around(before: &str, path: &FilePath, after: &str) -> (r: String)
    ensures
        r@ == before@ + path@.shown() + after@,
{
    let mut out: String = String::from_str(before);
    out.append(path.display().as_str());
    out.append(after);
    out
}

/// Looks at one candidate: adds its entries to `out` and its notices to
/// `notices`, or returns the failure that ends the listing.
pub fn contribute(
    root: &FilePath,
    file: SourceFile,
    out: &mut Vec<ArchiveFile>,
    notices: &mut Vec<Notice>,
) -> (r: Option<PackageError>)
    ensures
        remarks(final(notices)@) == remarks(old(notices)@) + contribution(root@, file).notes,
        match r {
            Some(e) => contribution(root@, file).result == Err::<Seq<EntryModel>, Failure>(e@)
                && views(final(out)@) == views(old(out)@),
            None => contribution(root@, file).result is Ok && views(final(out)@) == views(
                old(out)@,
            ) + contribution(root@, file).result->Ok_0,
        },
{
    let ghost spec_file = file;
    let ghost notes0 = remarks(notices@);
    let ghost out0 = views(out@);
    proof {
        assert(notes0 + Seq::<Remark>::empty() =~= notes0);
        assert(out0 + Seq::<EntryModel>::empty() =~= out0);
    }
    let SourceFile { path, manifest } = file;
    let rel: FilePath = match path.strip_prefix(root) {
        Some(rel) => rel,
        None => {
            let mut message: String = text_around("source file `", &path, "` is not under the package root `");
            message.append(root.display().as_str());
            message.append("`");
            proof {
                assert(message@ =~= outside_root_text(path@, root@));
            }
            return Some(PackageError::new(ErrorKind::OutsideRoot, message));
        },
    };
    match check_filename(&rel) {
        Err(e) => {
            return Some(e);
        },
        Ok(Some(notice)) => {
            let ghost before = notices@;
            notices.push(notice);
            proof {
                lemma_remarks_push(before, notice);
                assert(remarks(notices@) =~= notes0 + seq![notice@]);
            }
        },
        Ok(None) => {},
    }
    let name: &String = match rel.file_name() {
        Some(name) => name,
        None => {
            let message: String = text_around("source file `", &path, "` has no file name");
            return Some(PackageError::new(ErrorKind::NoFileName, message));
        },
    };
    if same_text(name.as_str(), "Cargo.toml") {
        match manifest {
            Some(ManifestProbe::Published) => {
                let orig = ArchiveFile {
                    rel_path: FilePath::single("Cargo.toml.orig"),
                    contents: FileContents::OnDisk(path),
                };
                let rewritten = ArchiveFile {
                    rel_path: rel,
                    contents: FileContents::Generated(GeneratedFile::Manifest),
                };
                out.push(orig);
                out.push(rewritten);
                proof {
                    assert(views(out@) =~= out0 + seq![orig@, rewritten@]);
                }
                None
            },
            Some(ManifestProbe::Nested(package)) => {
                let orig = ArchiveFile {
                    rel_path: rel.with_suffix(".orig"),
                    contents: FileContents::OnDisk(path),
                };
                let rewritten = ArchiveFile {
                    rel_path: rel,
                    contents: FileContents::Generated(GeneratedFile::NestedManifest(package)),
                };
                out.push(orig);
                out.push(rewritten);
                proof {
                    assert(views(out@) =~= out0 + seq![orig@, rewritten@]);
                }
                None
            },
            Some(ManifestProbe::Virtual) => None,
            Some(ManifestProbe::Failed(reason)) => Some(
                PackageError::new(ErrorKind::ManifestUnreadable, reason),
            ),
            None => {
                let message: String = text_around("manifest `", &path, "` was not read");
                Some(PackageError::new(ErrorKind::ManifestNotProbed, message))
            },
        }
    } else if same_text(name.as_str(), "Cargo.lock") {
        None
    } else if same_text(name.as_str(), ".cargo_vcs_info.json") {
        Some(
            PackageError::new(
                ErrorKind::ReservedFileName,
                String::from_str(
                    "invalid inclusion of reserved file name .cargo_vcs_info.json in package source",
                ),
            ),
        )
    } else {
        let entry = ArchiveFile { rel_path: rel, contents: FileContents::OnDisk(path) };
        out.push(entry);
        proof {
            assert(views(out@) =~= out0 + seq![entry@]);
        }
        None
    }
}

/// What the candidates give together, taken in order.
pub struct Gathered {
    /// The entries of the candidates looked at.
    pub entries: Seq<EntryModel>,
    /// The notices given on the way.
    pub notes: Seq<Remark>,
    /// The failure of the first candidate that has one. No candidate after
    /// it is looked at.
    pub failure: Option<Failure>,
}

/// What the candidates `files` give, looked at in order up to the first that
/// fails.
pub open spec fn gathered(root: PathModel, files: Seq<SourceFile>) -> Gathered
    decreases files.len(),
{
    if files.len() == 0 {
        Gathered { entries: Seq::empty(), notes: Seq::empty(), failure: None }
    } else {
        let before = gathered(root, files.drop_last());
        if before.failure is Some {
            before
        } else {
            let c = contribution(root, files.last());
            match c.result {
                Ok(entries) => Gathered {
                    entries: before.entries + entries,
                    notes: before.notes + c.notes,
                    failure: None,
                },
                Err(failure) => Gathered {
                    entries: before.entries,
                    notes: before.notes + c.notes,
                    failure: Some(failure),
                },
            }
        }
    }
}

/// Some entry of `entries` has the path `path`.
pub open spec fn has_path(entries: Seq<EntryModel>, path: PathModel) -> bool {
    exists|i: int| 0 <= i < entries.len() && (#[trigger] entries[i]).rel_path == path
}

/// Some entry of `entries` has the file name `name`.
pub open spec fn has_name(entries: Seq<EntryModel>, name: Seq<char>) -> bool {
    exists|i: int|
        0 <= i < entries.len() && (#[trigger] entries[i]).rel_path.file_name() == Some(name)
}

/// The path of the license file that the manifest names, resolved against
/// the package root.
pub open spec fn license_target(package: &PackageDescriptor) -> Option<PathModel> {
    match package.metadata.license_file {
        Some(file) => Some(package.root@.joined_with(parsed(file@)).normalized()),
        None => None,
    }
}

/// The text of the warning for a license file outside the package that an
/// entry of the same name keeps out.
pub open spec fn license_shadowed_text(file: Seq<char>, name: Seq<char>) -> Seq<char> {
    "license-file `"@ + file
        + "` appears to be a path outside of the package, but there is already a file named `"@
        + name
        + "` in the root of the package. The archived crate will contain the copy in the root of the package. Update the license-file to point to the path relative to the root of the package to remove this warning."@
}

/// The text of the warning for a license file that is not on disk.
pub open spec fn license_missing_text(package: &PackageDescriptor, file: Seq<char>) -> Seq<char> {
    "license-file `"@ + file + "` does not appear to exist"@ + (if parsed(file).absolute {
        Seq::<char>::empty()
    } else {
        " (relative to `"@ + package.root@.shown() + "`)"@
    }) + ".\nPlease update the license-file setting in the manifest at `"@
        + package.manifest_path@.shown() + "`\nThis may become a hard error in the future."@
}

/// What the license file named by the manifest adds to `entries`.
///
/// A file under the package root is added under its path from the root,
/// unless an entry has that path already. A file outside the root is added
/// under its bare file name, unless an entry has that file name already: then
/// the entry stays and a warning says so. A path without a file name adds
/// nothing. A file that is not on disk gives a warning.
pub open spec fn license_contribution(
    package: &PackageDescriptor,
    entries: Seq<EntryModel>,
    on_disk: bool,
) -> (Seq<EntryModel>, Seq<Remark>) {
    match package.metadata.license_file {
        None => (Seq::empty(), Seq::empty()),
        Some(file) => {
            let target = license_target(package)->Some_0;
            if !on_disk {
                (
                    Seq::empty(),
                    seq![
                        Remark {
                            level: Level::Warning,
                            message: license_missing_text(package, file@),
                        },
                    ],
                )
            } else {
                match target.stripped(package.root@) {
                    Some(rel) => if has_path(entries, rel) {
                        (Seq::empty(), Seq::empty())
                    } else {
                        (seq![disk_entry(rel, target)], Seq::empty())
                    },
                    None => match parsed(file@).file_name() {
                        None => (Seq::empty(), Seq::empty()),
                        Some(name) => if has_name(entries, name) {
                            (
                                Seq::empty(),
                                seq![
                                    Remark {
                                        level: Level::Warning,
                                        message: license_shadowed_text(file@, name),
                                    },
                                ],
                            )
                        } else {
                            (seq![disk_entry(relative(seq![name]), target)], Seq::empty())
                        },
                    },
                }
            }
        },
    }
}

/// The generated records that follow the candidates' entries: the lock
/// document where the package bundles one, then the version-control record
/// where its text is given.
pub open spec fn records(package: &PackageDescriptor, vcs_info: Option<Seq<char>>) -> Seq<
    EntryModel,
> {
    (if package.include_lockfile {
        seq![generated_entry(relative(seq![lock_name()]), GeneratedModel::Lockfile)]
    } else {
        Seq::empty()
    }) + (match vcs_info {
        Some(text) => seq![
            generated_entry(relative(seq![vcs_info_name()]), GeneratedModel::VcsInfo(text)),
        ],
        None => Seq::empty(),
    })
}

/// The entries of the archive before they are put in order.
pub open spec fn unsorted_entries(
    package: &PackageDescriptor,
    files: Seq<SourceFile>,
    vcs_info: Option<Seq<char>>,
    license_on_disk: bool,
) -> Seq<EntryModel> {
    let listed = gathered(package.root@, files).entries + records(package, vcs_info);
    listed + license_contribution(package, listed, license_on_disk).0
}

/// The notices of a listing that does not fail.
pub open spec fn listing_notes(
    package: &PackageDescriptor,
    files: Seq<SourceFile>,
    vcs_info: Option<Seq<char>>,
    license_on_disk: bool,
) -> Seq<Remark> {
    let listed = gathered(package.root@, files).entries + records(package, vcs_info);
    gathered(package.root@, files).notes + license_contribution(
        package,
        listed,
        license_on_disk,
    ).1
}

/// Where the license file named by the manifest should lie, if one is named.
pub fn license_path(package: &PackageDescriptor) -> (r: Option<FilePath>)
    ensures
        match r {
            Some(p) => license_target(package) == Some(p@),
            None => license_target(package) is None,
        },
{
    match &package.metadata.license_file {
        Some(file) => {
            let named: FilePath = FilePath::parse(file.as_str());
            Some(package.root.join(&named).normalize())
        },
        None => None,
    }
}

fn find_path(entries: &Vec<ArchiveFile>, path: &FilePath) -> (r: bool)
    ensures
        r == has_path(views(entries@), path@),
{
    let mut i: usize = 0;
    while i < entries.len()
        invariant
            i <= entries.len(),
            forall|j: int| 0 <= j < i ==> (#[trigger] views(entries@)[j]).rel_path != path@,
        decreases entries.len() - i,
    {
        if entries[i].rel_path.same(path) {
            proof {
                assert(views(entries@)[i as int].rel_path == path@);
            }
            return true;
        }
        i = i + 1;
    }
    false
}

fn find_name(entries: &Vec<ArchiveFile>, name: &str) -> (r: bool)
    ensures
        r == has_name(views(entries@), name@),
{
    let mut i: usize = 0;
    while i < entries.len()
        invariant
            i <= entries.len(),
            forall|j: int|
                0 <= j < i ==> (#[trigger] views(entries@)[j]).rel_path.file_name() != Some(
                    name@,
                ),
        decreases entries.len() - i,
    {
        let found: bool = match entries[i].rel_path.file_name() {
            Some(other) => same_text(other.as_str(), name),
            None => false,
        };
        if found {
            proof {
                assert(views(entries@)[i as int].rel_path.file_name() == Some(name@));
            }
            return true;
        }
        i = i + 1;
    }
    false
}

fn license_missing(package: &PackageDescriptor, file: &str) -> (r: Notice)
    ensures
        r@ == (Remark { level: Level::Warning, message: license_missing_text(package, file@) }),
{
    let mut message: String = String::from_str("license-file `");
    message.append(file);
    message.append("` does not appear to exist");
    let named: FilePath = FilePath::parse(file);
    if !named.absolute {
        message.append(" (relative to `");
        message.append(package.root.display().as_str());
        message.append("`)");
    }
    message.append(".\nPlease update the license-file setting in the manifest at `");
    message.append(package.manifest_path.display().as_str());
    message.append("`\nThis may become a hard error in the future.");
    proof {
        assert(message@ =~= license_missing_text(package, file@));
    }
    Notice::new(Level::Warning, message)
}

fn license_shadowed(file: &str, name: &str) -> (r: Notice)
    ensures
        r@ == (Remark { level: Level::Warning, message: license_shadowed_text(file@, name@) }),
{
    let mut message: String = String::from_str("license-file `");
    message.append(file);
    message.append(
        "` appears to be a path outside of the package, but there is already a file named `",
    );
    message.append(name);
    message.append(
        "` in the root of the package. The archived crate will contain the copy in the root of the package. Update the license-file to point to the path relative to the root of the package to remove this warning.",
    );
    proof {
        assert(message@ =~= license_shadowed_text(file@, name@));
    }
    Notice::new(Level::Warning, message)
}

/// Adds what the license file named by the manifest gives.
fn add_license(
    package: &PackageDescriptor,
    on_disk: bool,
    out: &mut Vec<ArchiveFile>,
    notices: &mut Vec<Notice>,
)
    ensures
        views(final(out)@) == views(old(out)@) + license_contribution(
            package,
            views(old(out)@),
            on_disk,
        ).0,
        remarks(final(notices)@) == remarks(old(notices)@) + license_contribution(
            package,
            views(old(out)@),
            on_disk,
        ).1,
{
    let ghost notes0 = remarks(notices@);
    let ghost out0 = views(out@);
    let ghost begun = notices@;
    proof {
        assert(notes0 + Seq::<Remark>::empty() =~= notes0);
        assert(out0 + Seq::<EntryModel>::empty() =~= out0);
    }
    let file: &String = match &package.metadata.license_file {
        Some(file) => file,
        None => {
            return ;
        },
    };
    let target: FilePath = package.root.join(&FilePath::parse(file.as_str())).normalize();
    if !on_disk {
        let notice: Notice = license_missing(package, file.as_str());
        notices.push(notice);
        proof {
            lemma_remarks_push(begun, notice);
            assert(remarks(notices@) =~= notes0 + seq![notice@]);
        }
        return ;
    }
    match target.strip_prefix(&package.root) {
        Some(rel) => {
            if !find_path(out, &rel) {
                let entry = ArchiveFile { rel_path: rel, contents: FileContents::OnDisk(target) };
                out.push(entry);
                proof {
                    assert(views(out@) =~= out0 + seq![entry@]);
                }
            }
        },
        None => {
            let named: FilePath = FilePath::parse(file.as_str());
            match named.file_name() {
                None => {},
                Some(name) => {
                    if find_name(out, name.as_str()) {
                        let notice: Notice = license_shadowed(file.as_str(), name.as_str());
                        notices.push(notice);
                        proof {
                            lemma_remarks_push(begun, notice);
                            assert(remarks(notices@) =~= notes0 + seq![notice@]);
                        }
                    } else {
                        let entry = ArchiveFile {
                            rel_path: FilePath::single(name.as_str()),
                            contents: FileContents::OnDisk(target),
                        };
                        out.push(entry);
                        proof {
                            assert(views(out@) =~= out0 + seq![entry@]);
                        }
                    }
                },
            }
        },
    }
}

/// The text of a string that may be absent.
pub open spec fn text_of(s: Option<String>) -> Option<Seq<char>> {
    match s {
        Some(s) => Some(s@),
        None => None,
    }
}

/// How a listing ends: the notices given, and the entries or the failure.
#[derive(Debug)]
pub struct Listing {
    pub notices: Vec<Notice>,
    pub result: Result<Vec<ArchiveFile>, PackageError>,
}

/// Builds the list of the archive's entries.
///
/// The candidates are looked at in order; the first failure ends the listing,
/// with the notices given up to it. Else the generated records and the
/// license file are added, and the entries are put in the order of their
/// paths.
pub fn build_ar_list(
    package: &PackageDescriptor,
    src_files: Vec<SourceFile>,
    vcs_info: Option<String>,
    license_on_disk: bool,
) -> (r: Listing)
    ensures
        match gathered(package.root@, src_files@).failure {
            Some(failure) => {
                &&& r.result matches Err(e)
                &&& e@ == failure
                &&& remarks(r.notices@) == gathered(package.root@, src_files@).notes
            },
            None => {
                &&& r.result matches Ok(list)
                &&& ranked::<ArchiveFile>(views(list@))
                &&& views(list@).to_multiset() == unsorted_entries(
                    package,
                    src_files@,
                    text_of(vcs_info),
                    license_on_disk,
                ).to_multiset()
                &&& remarks(r.notices@) == listing_notes(
                    package,
                    src_files@,
                    text_of(vcs_info),
                    license_on_disk,
                )
            },
        },
{
    let ghost files = src_files@;
    let mut rest: Vec<SourceFile> = src_files;
    let mut out: Vec<ArchiveFile> = Vec::new();
    let mut notices: Vec<Notice> = Vec::new();
    let ghost mut done: int = 0;
    proof {
        assert(files.take(0) =~= Seq::<SourceFile>::empty());
        assert(views(out@) =~= Seq::<EntryModel>::empty());
        assert(remarks(notices@) =~= Seq::<Remark>::empty());
        assert(files.skip(0) =~= files);
    }
    while rest.len() > 0
        invariant
            0 <= done <= files.len(),
            files == src_files@,
            rest@ == files.skip(done),
            gathered(package.root@, files.take(done)) == (Gathered {
                entries: views(out@),
                notes: remarks(notices@),
                failure: None,
            }),
        decreases rest.len(),
    {
        let file: SourceFile = rest.remove(0);
        let ghost upto = files.take(done + 1);
        proof {
            assert(file == files[done]);
            assert(rest@ =~= files.skip(done + 1));
            assert(upto.drop_last() =~= files.take(done));
            assert(upto.last() == file);
            assert(gathered(package.root@, upto.drop_last()).failure is None);
        }
        match contribute(&package.root, file, &mut out, &mut notices) {
            Some(e) => {
                proof {
                    assert(contribution(package.root@, upto.last()).result is Err);
                    assert(gathered(package.root@, upto).failure == Some(e@));
                    assert(gathered(package.root@, upto).notes == remarks(notices@));
                    lemma_gathered_failure(package.root@, files, done + 1);
                }
                return Listing { notices, result: Err(e) };
            },
            None => {},
        }
        proof {
            done = done + 1;
        }
    }
    proof {
        assert(files.take(done) =~= files);
    }
    let ghost listed0 = views(out@);
    if package.include_lockfile {
        let entry = ArchiveFile {
            rel_path: FilePath::single("Cargo.lock"),
            contents: FileContents::Generated(GeneratedFile::Lockfile),
        };
        out.push(entry);
        proof {
            assert(views(out@) =~= listed0 + seq![entry@]);
        }
    }
    let ghost listed1 = views(out@);
    match vcs_info {
        Some(text) => {
            let entry = ArchiveFile {
                rel_path: FilePath::single(".cargo_vcs_info.json"),
                contents: FileContents::Generated(GeneratedFile::VcsInfo(text)),
            };
            out.push(entry);
            proof {
                assert(views(out@) =~= listed1 + seq![entry@]);
            }
        },
        None => {},
    }
    proof {
        assert(views(out@) =~= listed0 + records(package, text_of(vcs_info)));
    }
    add_license(package, license_on_disk, &mut out, &mut notices);
    let list: Vec<ArchiveFile> = sort_ranked(out);
    Listing { notices, result: Ok(list) }
}

/// Once a candidate has failed, the candidates after it change nothing.
pub proof fn lemma_gathered_failure(root: PathModel, files: Seq<SourceFile>, k: int)
    requires
        0 <= k <= files.len(),
        gathered(root, files.take(k)).failure is Some,
    ensures
        gathered(root, files) == gathered(root, files.take(k)),
    decreases files.len() - k,
{
    if k == files.len() {
        assert(files.take(k) =~= files);
    } else {
        assert(files.take(k + 1).drop_last() =~= files.take(k));
        lemma_gathered_failure(root, files, k + 1);
    }
}

/// No two entries of `entries` have one path.
pub open spec fn distinct_paths(entries: Seq<EntryModel>) -> bool {
    forall|i: int, j: int|
        0 <= i < j < entries.len() ==> (#[trigger] entries[i]).rel_path != (
        #[trigger] entries[j]).rel_path
}

/// No entry of `entries` lies where a generated record goes.
pub open spec fn clear_of_records(entries: Seq<EntryModel>) -> bool {
    forall|i: int|
        0 <= i < entries.len() ==> (#[trigger] entries[i]).rel_path != relative(
            seq![lock_name()],
        ) && entries[i].rel_path != relative(seq![vcs_info_name()])
}

proof fn lemma_names_differ()
    ensures
        manifest_name() != lock_name(),
        manifest_name() != vcs_info_name(),
        lock_name() != vcs_info_name(),
        manifest_name().len() == 10,
        lock_name().len() == 10,
        vcs_info_name().len() == 20,
        "Cargo.toml.orig"@.len() == 15,
        ".orig"@.len() == 5,
{
    reveal_strlit("Cargo.toml");
    reveal_strlit("Cargo.lock");
    reveal_strlit(".cargo_vcs_info.json");
    reveal_strlit("Cargo.toml.orig");
    reveal_strlit(".orig");
    assert("Cargo.toml"@[6] != "Cargo.lock"@[6]);
}

proof fn lemma_contribution_clear(root: PathModel, file: SourceFile)
    requires
        contribution(root, file).result is Ok,
    ensures
        clear_of_records(contribution(root, file).result->Ok_0),
{
    lemma_names_differ();
    let entries = contribution(root, file).result->Ok_0;
    let rel = file.path@.stripped(root)->Some_0;
    let name = rel.file_name()->Some_0;
    assert(rel.parts.last() == name);
    assert forall|i: int| 0 <= i < entries.len() implies (#[trigger] entries[i]).rel_path
        != relative(seq![lock_name()]) && entries[i].rel_path != relative(
        seq![vcs_info_name()],
    ) by {
        let p = entries[i].rel_path;
        if p == rel {
            assert(p.parts.last() == name);
            assert(relative(seq![lock_name()]).parts.last() == lock_name());
            assert(relative(seq![vcs_info_name()]).parts.last() == vcs_info_name());
        } else {
            // the untouched manifest, under its name with the suffix
            assert(name == manifest_name());
            assert(p.parts.last().len() == 15);
            assert(relative(seq![lock_name()]).parts.last() == lock_name());
            assert(relative(seq![vcs_info_name()]).parts.last() == vcs_info_name());
        }
    }
}

/// The candidates' entries never lie where a generated record goes.
pub proof fn lemma_gathered_clear(root: PathModel, files: Seq<SourceFile>)
    ensures
        clear_of_records(gathered(root, files).entries),
    decreases files.len(),
{
    if files.len() > 0 {
        lemma_gathered_clear(root, files.drop_last());
        let before = gathered(root, files.drop_last());
        if before.failure is None {
            let c = contribution(root, files.last());
            if c.result is Ok {
                lemma_contribution_clear(root, files.last());
            }
        }
    }
}

/// Two lists that hold the same entries have distinct paths together.
pub proof fn lemma_distinct_paths_permuted(a: Seq<EntryModel>, b: Seq<EntryModel>)
    requires
        a.to_multiset() == b.to_multiset(),
        distinct_paths(b),
    ensures
        distinct_paths(a),
{
    assert(b.no_duplicates());
    b.lemma_multiset_has_no_duplicates();
    a.lemma_multiset_has_no_duplicates_conv();
    assert forall|i: int, j: int| 0 <= i < j < a.len() implies (#[trigger] a[i]).rel_path != (
    #[trigger] a[j]).rel_path by {
        assert(a.contains(a[i]));
        assert(a.contains(a[j]));
        vstd::seq_lib::to_multiset_contains(a, a[i]);
        vstd::seq_lib::to_multiset_contains(a, a[j]);
        vstd::seq_lib::to_multiset_contains(b, a[i]);
        vstd::seq_lib::to_multiset_contains(b, a[j]);
        assert(b.contains(a[i]));
        assert(b.contains(a[j]));
        let p = choose|p: int| 0 <= p < b.len() && b[p] == a[i];
        let q = choose|q: int| 0 <= q < b.len() && b[q] == a[j];
        if p != q {
            if p < q {
                assert(b[p].rel_path != b[q].rel_path);
            } else {
                assert(b[q].rel_path != b[p].rel_path);
            }
        }
    }
}

/// No two entries of the archive have one path, where the candidates give
/// each of their paths once: the generated records and the license file
/// never take a path that is taken.
pub proof fn lemma_entry_paths_distinct(
    package: &PackageDescriptor,
    files: Seq<SourceFile>,
    vcs_info: Option<Seq<char>>,
    license_on_disk: bool,
    list: Seq<EntryModel>,
)
    requires
        distinct_paths(gathered(package.root@, files).entries),
        list.to_multiset() == unsorted_entries(
            package,
            files,
            vcs_info,
            license_on_disk,
        ).to_multiset(),
    ensures
        distinct_paths(list),
{
    lemma_names_differ();
    lemma_gathered_clear(package.root@, files);
    let own = gathered(package.root@, files).entries;
    let listed = own + records(package, vcs_info);
    assert(distinct_paths(listed)) by {
        assert forall|i: int, j: int| 0 <= i < j < listed.len() implies (
        #[trigger] listed[i]).rel_path != (#[trigger] listed[j]).rel_path by {
            if j < own.len() {
                assert(listed[i] == own[i] && listed[j] == own[j]);
            } else if i < own.len() {
                assert(listed[i] == own[i]);
                assert(listed[j].rel_path == relative(seq![lock_name()]) || listed[j].rel_path
                    == relative(seq![vcs_info_name()]));
            } else {
                assert(listed[i].rel_path == relative(seq![lock_name()]));
                assert(listed[j].rel_path == relative(seq![vcs_info_name()]));
                assert(relative(seq![lock_name()]).parts[0] == lock_name());
                assert(relative(seq![vcs_info_name()]).parts[0] == vcs_info_name());
            }
        }
    }
    let added = license_contribution(package, listed, license_on_disk).0;
    let all = listed + added;
    assert(distinct_paths(all)) by {
        assert forall|i: int, j: int| 0 <= i < j < all.len() implies (#[trigger] all[i]).rel_path
            != (#[trigger] all[j]).rel_path by {
            if j < listed.len() {
                assert(all[i] == listed[i] && all[j] == listed[j]);
            } else {
                assert(added.len() == 1);
                assert(all[i] == listed[i]);
                assert(all[j] == added[0]);
                let file = package.metadata.license_file->Some_0;
                let target = license_target(package)->Some_0;
                match target.stripped(package.root@) {
                    Some(rel) => {
                        assert(!has_path(listed, rel));
                    },
                    None => {
                        let name = parsed(file@).file_name()->Some_0;
                        assert(!has_name(listed, name));
                        if listed[i].rel_path == relative(seq![name]) {
                            assert(relative(seq![name]).parts.last() == name);
                            assert(listed[i].rel_path.file_name() == Some(name));
                        }
                    },
                }
            }
        }
    }
    lemma_distinct_paths_permuted(list, all);
}

/// A candidate that fails ends the listing with a failure, wherever it
/// stands.
pub proof fn lemma_failing_candidate(root: PathModel, files: Seq<SourceFile>, k: int)
    requires
        0 <= k < files.len(),
        contribution(root, files[k]).result is Err,
    ensures
        gathered(root, files).failure is Some,
{
    let upto = files.take(k + 1);
    assert(upto.last() == files[k]);
    assert(gathered(root, upto).failure is Some);
    lemma_gathered_failure(root, files, k + 1);
}

/// A candidate whose file name holds a forbidden character makes the
/// listing fail: no entry is listed, so nothing is written.
pub proof fn lemma_forbidden_name_fails(root: PathModel, files: Seq<SourceFile>, k: int, c: char)
    requires
        0 <= k < files.len(),
        forbidden().contains(c),
        files[k].path@.stripped(root) matches Some(rel) && rel.file_name() matches Some(name)
            && name.contains(c),
    ensures
        gathered(root, files).failure is Some,
{
    let rel = files[k].path@.stripped(root)->Some_0;
    let name = rel.file_name()->Some_0;
    lemma_first_forbidden(name, 0);
    let j = choose|j: int| 0 <= j < forbidden().len() && forbidden()[j] == c;
    assert(name.contains(forbidden()[j]));
    assert(first_forbidden(name, 0) is Some);
    lemma_failing_candidate(root, files, k);
}

/// A license file outside the package root whose file name an entry bears
/// already is not added: the entry stays, and a warning is given.
pub proof fn lemma_license_collision(
    package: &PackageDescriptor,
    entries: Seq<EntryModel>,
    file: String,
    name: Seq<char>,
)
    requires
        package.metadata.license_file == Some(file),
        license_target(package)->Some_0.stripped(package.root@) is None,
        parsed(file@).file_name() == Some(name),
        has_name(entries, name),
    ensures
        license_contribution(package, entries, true) == (
            Seq::<EntryModel>::empty(),
            seq![Remark { level: Level::Warning, message: license_shadowed_text(file@, name) }],
        ),
{
}

/// The listing goes through exactly when every candidate does, and its
/// entries are then the entries of the candidates.
pub proof fn lemma_gathered_entries(root: PathModel, files: Seq<SourceFile>)
    ensures
        gathered(root, files).failure is None <==> forall|k: int|
            0 <= k < files.len() ==> (#[trigger] contribution(root, files[k])).result is Ok,
        gathered(root, files).failure is None ==> forall|e: EntryModel| #[trigger]
            gathered(root, files).entries.contains(e) <==> exists|k: int|
                0 <= k < files.len() && (#[trigger] contribution(root, files[k])).result is Ok
                    && contribution(root, files[k]).result->Ok_0.contains(e),
    decreases files.len(),
{
    if files.len() > 0 {
        let front = files.drop_last();
        let last = files[files.len() - 1];
        lemma_gathered_entries(root, front);
        let before = gathered(root, front);
        let now = gathered(root, files);
        assert forall|k: int| 0 <= k < front.len() implies contribution(root, front[k])
            == contribution(root, files[k]) by {
            assert(front[k] == files[k]);
        }
        if now.failure is None {
            assert(before.failure is None);
            assert forall|k: int| 0 <= k < files.len() implies (#[trigger] contribution(
                root,
                files[k],
            )).result is Ok by {
                if k < front.len() {
                    assert(contribution(root, front[k]).result is Ok);
                }
            }
            let added = contribution(root, last).result->Ok_0;
            assert forall|e: EntryModel| #[trigger]
                now.entries.contains(e) <==> exists|k: int|
                    0 <= k < files.len() && (#[trigger] contribution(root, files[k])).result is Ok
                        && contribution(root, files[k]).result->Ok_0.contains(e) by {
                if now.entries.contains(e) {
                    let i = choose|i: int| 0 <= i < now.entries.len() && now.entries[i] == e;
                    if i < before.entries.len() {
                        assert(before.entries[i] == e);
                        assert(before.entries.contains(e));
                        let k = choose|k: int|
                            0 <= k < front.len() && (#[trigger] contribution(
                                root,
                                front[k],
                            )).result is Ok && contribution(root, front[k]).result->Ok_0.contains(e);
                        assert(contribution(root, files[k]).result->Ok_0.contains(e));
                    } else {
                        assert(added[i - before.entries.len()] == e);
                        assert(contribution(root, files[files.len() - 1]).result->Ok_0.contains(e));
                    }
                }
                if exists|k: int|
                    0 <= k < files.len() && (#[trigger] contribution(root, files[k])).result is Ok
                        && contribution(root, files[k]).result->Ok_0.contains(e) {
                    let k = choose|k: int|
                        0 <= k < files.len() && (#[trigger] contribution(root, files[k])).result is Ok
                            && contribution(root, files[k]).result->Ok_0.contains(e);
                    if k < front.len() {
                        assert(contribution(root, front[k]).result->Ok_0.contains(e));
                        assert(before.entries.contains(e));
                        let i = choose|i: int|
                            0 <= i < before.entries.len() && before.entries[i] == e;
                        assert(now.entries[i] == e);
                    } else {
                        let j = choose|j: int| 0 <= j < added.len() && added[j] == e;
                        assert(now.entries[before.entries.len() + j] == e);
                    }
                }
            }
        } else {
            if before.failure is None {
                assert(contribution(root, files[files.len() - 1]).result is Err);
            } else {
                let k = choose|k: int|
                    0 <= k < front.len() && !((#[trigger] contribution(root, front[k])).result is Ok);
                assert(!(contribution(root, files[k]).result is Ok));
            }
        }
    }
}

/// A list in the order of paths whose paths are distinct is in strict order.
pub proof fn lemma_ranked_distinct(list: Seq<EntryModel>)
    requires
        ranked::<ArchiveFile>(list),
        distinct_paths(list),
    ensures
        strictly_ranked::<ArchiveFile>(list),
{
    assert forall|i: int, j: int| 0 <= i < j < list.len() implies ArchiveFile::before(
        #[trigger] list[i],
        #[trigger] list[j],
    ) by {
        lemma_path_order(list[i].rel_path, list[j].rel_path, list[i].rel_path);
        assert(!ArchiveFile::before(list[j], list[i]));
        assert(list[i].rel_path != list[j].rel_path);
    }
}

/// The entries of the archive do not depend on the order in which the
/// candidates are given: two lists of the same candidates, of which none
/// fails and each gives paths of its own, come to one list of entries.
pub proof fn lemma_listing_order_free(
    package: &PackageDescriptor,
    first: Seq<SourceFile>,
    second: Seq<SourceFile>,
    vcs_info: Option<Seq<char>>,
    license_on_disk: bool,
    one: Seq<EntryModel>,
    other: Seq<EntryModel>,
)
    requires
        first.to_multiset() == second.to_multiset(),
        gathered(package.root@, first).failure is None,
        distinct_paths(gathered(package.root@, first).entries),
        distinct_paths(gathered(package.root@, second).entries),
        ranked::<ArchiveFile>(one),
        one.to_multiset() == unsorted_entries(
            package,
            first,
            vcs_info,
            license_on_disk,
        ).to_multiset(),
        ranked::<ArchiveFile>(other),
        other.to_multiset() == unsorted_entries(
            package,
            second,
            vcs_info,
            license_on_disk,
        ).to_multiset(),
    ensures
        gathered(package.root@, second).failure is None,
        one == other,
{
    let root = package.root@;
    lemma_gathered_entries(root, first);
    lemma_gathered_entries(root, second);
    assert forall|f: SourceFile| first.contains(f) <==> second.contains(f) by {
        vstd::seq_lib::to_multiset_contains(first, f);
        vstd::seq_lib::to_multiset_contains(second, f);
    }
    assert forall|k: int| 0 <= k < second.len() implies (#[trigger] contribution(
        root,
        second[k],
    )).result is Ok by {
        assert(second.contains(second[k]));
        assert(first.contains(second[k]));
        let j = choose|j: int| 0 <= j < first.len() && first[j] == second[k];
        assert(contribution(root, first[j]).result is Ok);
    }
    let ga = gathered(root, first).entries;
    let gb = gathered(root, second).entries;
    assert forall|e: EntryModel| ga.contains(e) <==> gb.contains(e) by {
        if ga.contains(e) {
            let k = choose|k: int|
                0 <= k < first.len() && (#[trigger] contribution(root, first[k])).result is Ok
                    && contribution(root, first[k]).result->Ok_0.contains(e);
            assert(first.contains(first[k]));
            let j = choose|j: int| 0 <= j < second.len() && second[j] == first[k];
            assert(contribution(root, second[j]).result->Ok_0.contains(e));
        }
        if gb.contains(e) {
            let k = choose|k: int|
                0 <= k < second.len() && (#[trigger] contribution(root, second[k])).result is Ok
                    && contribution(root, second[k]).result->Ok_0.contains(e);
            assert(second.contains(second[k]));
            let j = choose|j: int| 0 <= j < first.len() && first[j] == second[k];
            assert(contribution(root, first[j]).result->Ok_0.contains(e));
        }
    }
    let extra = records(package, vcs_info);
    let la = ga + extra;
    let lb = gb + extra;
    assert forall|e: EntryModel| la.contains(e) <==> lb.contains(e) by {
        lemma_contains_add(ga, extra, e);
        lemma_contains_add(gb, extra, e);
    }
    assert(forall|p: PathModel| has_path(la, p) <==> has_path(lb, p)) by {
        assert forall|p: PathModel| has_path(la, p) <==> has_path(lb, p) by {
            if has_path(la, p) {
                let i = choose|i: int| 0 <= i < la.len() && (#[trigger] la[i]).rel_path == p;
                assert(la.contains(la[i]));
                let j = choose|j: int| 0 <= j < lb.len() && lb[j] == la[i];
                assert(lb[j].rel_path == p);
            }
            if has_path(lb, p) {
                let i = choose|i: int| 0 <= i < lb.len() && (#[trigger] lb[i]).rel_path == p;
                assert(lb.contains(lb[i]));
                let j = choose|j: int| 0 <= j < la.len() && la[j] == lb[i];
                assert(la[j].rel_path == p);
            }
        }
    }
    assert(forall|n: Seq<char>| has_name(la, n) <==> has_name(lb, n)) by {
        assert forall|n: Seq<char>| has_name(la, n) <==> has_name(lb, n) by {
            if has_name(la, n) {
                let i = choose|i: int|
                    0 <= i < la.len() && (#[trigger] la[i]).rel_path.file_name() == Some(n);
                assert(la.contains(la[i]));
                let j = choose|j: int| 0 <= j < lb.len() && lb[j] == la[i];
                assert(lb[j].rel_path.file_name() == Some(n));
            }
            if has_name(lb, n) {
                let i = choose|i: int|
                    0 <= i < lb.len() && (#[trigger] lb[i]).rel_path.file_name() == Some(n);
                assert(lb.contains(lb[i]));
                let j = choose|j: int| 0 <= j < la.len() && la[j] == lb[i];
                assert(la[j].rel_path.file_name() == Some(n));
            }
        }
    }
    let license = license_contribution(package, la, license_on_disk).0;
    assert(license == license_contribution(package, lb, license_on_disk).0);
    let ua = unsorted_entries(package, first, vcs_info, license_on_disk);
    let ub = unsorted_entries(package, second, vcs_info, license_on_disk);
    assert forall|e: EntryModel| one.contains(e) <==> other.contains(e) by {
        vstd::seq_lib::to_multiset_contains(one, e);
        vstd::seq_lib::to_multiset_contains(ua, e);
        vstd::seq_lib::to_multiset_contains(other, e);
        vstd::seq_lib::to_multiset_contains(ub, e);
        lemma_contains_add(la, license, e);
        lemma_contains_add(lb, license, e);
    }
    lemma_entry_paths_distinct(package, first, vcs_info, license_on_disk, one);
    lemma_entry_paths_distinct(package, second, vcs_info, license_on_disk, other);
    lemma_ranked_distinct(one);
    lemma_ranked_distinct(other);
    lemma_ranked_sets_equal::<ArchiveFile>(one, other);
}

/// What two lists put together hold is what either holds.
pub proof fn lemma_contains_add(a: Seq<EntryModel>, b: Seq<EntryModel>, e: EntryModel)
    ensures
        (a + b).contains(e) <==> a.contains(e) || b.contains(e),
{
    if (a + b).contains(e) {
        let i = choose|i: int| 0 <= i < (a + b).len() && (a + b)[i] == e;
        if i < a.len() {
            assert(a[i] == e);
        } else {
            assert(b[i - a.len()] == e);
        }
    }
    if a.contains(e) {
        let i = choose|i: int| 0 <= i < a.len() && a[i] == e;
        assert((a + b)[i] == e);
    }
    if b.contains(e) {
        let i = choose|i: int| 0 <= i < b.len() && b[i] == e;
        assert((a + b)[a.len() + i] == e);
    }
}

} // verus!
