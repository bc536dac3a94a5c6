//! Writing the archive: the entries under one top-level directory, as a tape
//! archive inside a gzip stream.

use crate::descriptor::PackageDescriptor;
use crate::entries::{ArchiveFile, ContentsModel, EntryModel, FileContents, GeneratedFile, GeneratedModel};
use crate::order::views;
use crate::paths::{lemma_parse_shown, parsed, plain_part, plain_parts, PathModel};
use crate::text::{joined, lemma_joined_chars, lemma_joined_prepend};
use crate::report::{
    lemma_remarks_push, remarks, ErrorKind, Failure, Level, Notice, PackageError, Remark,
};
use vstd::prelude::*;
use vstd::utf8::encode_utf8;

verus! {

/// A tape archive in the making, in memory: a `tar::Builder` over a buffer
/// of bytes.
#[verifier::external_body]
pub struct TarBuilder {
    inner: tar::Builder<Vec<u8>>,
}

/// The members that the builder has taken so far, each by its path, mode,
/// modification time and bytes.
pub uninterp spec fn archived(b: TarBuilder) -> Seq<(Seq<char>, u32, u64, Seq<u8>)>;

/// Whether `tar::Builder::append_data` takes a member under `path`: it
/// refuses a path that it cannot store.
pub uninterp spec fn tar_accepts(path: Seq<char>) -> bool;

/// The bytes of the finished tape archive that holds `members`, as
/// `tar::Builder::into_inner` hands them out.
pub uninterp spec fn tar_stream(members: Seq<(Seq<char>, u32, u64, Seq<u8>)>) -> Seq<u8>;

/// The gzip stream that `flate2::GzBuilder` writes for `data` at the best
/// compression level, with `filename` in its header; nothing where the
/// encoder fails.
pub uninterp spec fn gzip_stream(filename: Seq<u8>, data: Seq<u8>) -> Option<Seq<u8>>;

/// A path that every platform reads alike: it holds neither a backslash nor
/// a colon.
pub open spec fn portable(path: Seq<char>) -> bool {
    !path.contains('\\') && !path.contains(':')
}

/// The largest mode that the header of a member holds in full.
pub const MODE_LIMIT: u32 = 0o7777777;

/// A member that the archive stores as it is given: its path is portable and
/// is its own normal form, without empty, `.` or `..` components and without
/// a separator at either end, and its mode fits the header.
pub open spec fn stored_as_given(path: Seq<char>, mode: u32) -> bool {
    &&& portable(path)
    &&& parsed(path).shown() == path
    &&& !parsed(path).parts.contains(".."@)
    &&& mode <= MODE_LIMIT
}

/// `tar::Builder::new` over an empty buffer: a builder that has taken no
/// member yet.
#[verifier::external_body]
fn tar_new() -> (b: TarBuilder)
    ensures
        archived(b) == Seq::<(Seq<char>, u32, u64, Seq<u8>)>::empty(),
{
    TarBuilder { inner: tar::Builder::new(Vec::new()) }
}

/// `tar::Builder::append_data` with a fresh GNU header for a regular file of
/// the given mode, modification time and size. Writing into a buffer, the
/// call fails only where it refuses the path; on a portable path that is a
/// matter of the path alone. Where it takes a member that is stored as
/// given, the builder holds that member after those it had. A path in
/// another form is stored in its normal form, and a larger mode loses its
/// high digits: of those nothing is said.
#[verifier::external_body]
fn tar_append(b: &mut TarBuilder, path: &str, mode: u32, mtime: u64, data: &[u8]) -> (r: Result<
    (),
    String,
>)
    ensures
        portable(path@) ==> (r is Ok <==> tar_accepts(path@)),
        r is Ok && stored_as_given(path@, mode) ==> archived(*final(b)) == archived(
            *old(b),
        ).push((path@, mode, mtime, data@)),
{
    let mut header = tar::Header::new_gnu();
    header.set_entry_type(tar::EntryType::file());
    header.set_mode(mode);
    header.set_mtime(mtime);
    header.set_size(data.len() as u64);
    header.set_cksum();
    b.inner.append_data(&mut header, path, data).map_err(|e| e.to_string())
}

/// `tar::Builder::into_inner`: the archive is closed and its bytes are handed
/// out. Closing writes into the buffer, which cannot fail.
#[verifier::external_body]
fn tar_finish(b: TarBuilder) -> (r: Result<Vec<u8>, String>)
    ensures
        r is Ok,
        r matches Ok(bytes) ==> bytes@ == tar_stream(archived(b)),
{
    b.inner.into_inner().map_err(|e| e.to_string())
}

/// `flate2::GzBuilder` with a file name, written to at the best compression
/// level and finished: the stream, or a failure where the encoder gives
/// none. The builder panics on a file name that holds a zero byte.
#[verifier::external_body]
fn gzip(filename: &[u8], data: &[u8]) -> (r: Result<Vec<u8>, String>)
    requires
        !filename@.contains(0u8),
    ensures
        match r {
            Ok(bytes) => gzip_stream(filename@, data@) == Some(bytes@),
            Err(_) => gzip_stream(filename@, data@) is None,
        },
{
    let mut encoder = flate2::GzBuilder::new().filename(filename).write(
        Vec::new(),
        flate2::Compression::best(),
    );
    match std::io::Write::write_all(&mut encoder, data) {
        Ok(()) => encoder.finish().map_err(|e| e.to_string()),
        Err(e) => Err(e.to_string()),
    }
}

/// The mode of a generated file: its owner may write it, everyone may read
/// it.
pub const GENERATED_MODE: u32 = 0o644;

/// What was made ready for an entry before the archive is written.
#[derive(Debug)]
pub enum Material {
    /// The file on disk: its permission bits, its modification time in
    /// seconds, and its bytes.
    File { mode: u32, mtime: u64, data: Vec<u8> },
    /// The text of a generated file.
    Text(String),
    /// Nothing, for the reason given.
    Unavailable(String),
}

/// A member of the archive.
#[derive(Debug)]
pub struct Member {
    pub path: String,
    pub mode: u32,
    pub mtime: u64,
    pub data: Vec<u8>,
}

impl View for Member {
    type V = (Seq<char>, u32, u64, Seq<u8>);

    open spec fn view(&self) -> (Seq<char>, u32, u64, Seq<u8>) {
        (self.path@, self.mode, self.mtime, self.data@)
    }
}

/// The path of an entry inside the archive, below the top-level directory
/// `base`.
pub open spec fn member_path(base: Seq<char>, rel: PathModel) -> Seq<char> {
    base + "/"@ + rel.shown()
}

/// The text of the failure for an entry that nothing fitting was made ready for.
pub open spec fn unprepared_text(rel: PathModel) -> Seq<char> {
    "nothing was made ready for `"@ + rel.shown() + "`"@
}

/// The material for the entry at `i`, where one was given.
pub open spec fn material_at(materials: Seq<Material>, i: int) -> Option<Material> {
    if 0 <= i < materials.len() {
        Some(materials[i])
    } else {
        None
    }
}

/// The member that an entry becomes.
///
/// A file on disk keeps its mode and modification time. A generated file has
/// the fixed mode and the time `now`; the version-control record brings its
/// own text. An entry for which nothing fitting was made ready fails.
pub open spec fn member_for(
    base: Seq<char>,
    entry: EntryModel,
    material: Option<Material>,
    now: u64,
) -> Result<(Seq<char>, u32, u64, Seq<u8>), Failure> {
    let path = member_path(base, entry.rel_path);
    let unprepared = Failure {
        kind: ErrorKind::ArchiveEntry,
        message: unprepared_text(entry.rel_path),
    };
    match entry.contents {
        ContentsModel::Generated(GeneratedModel::VcsInfo(text)) => Ok(
            (path, GENERATED_MODE, now, encode_utf8(text)),
        ),
        ContentsModel::Generated(_) => match material {
            Some(Material::Text(text)) => Ok((path, GENERATED_MODE, now, encode_utf8(text@))),
            Some(Material::Unavailable(reason)) => Err(
                Failure { kind: ErrorKind::ArchiveEntry, message: reason@ },
            ),
            _ => Err(unprepared),
        },
        ContentsModel::OnDisk(_) => match material {
            Some(Material::File { mode, mtime, data }) => Ok((path, mode, mtime, data@)),
            Some(Material::Unavailable(reason)) => Err(
                Failure { kind: ErrorKind::ArchiveEntry, message: reason@ },
            ),
            _ => Err(unprepared),
        },
    }
}

/// How far the planning of the archive's members has come.
pub struct Plan {
    pub members: Seq<(Seq<char>, u32, u64, Seq<u8>)>,
    /// One notice for each entry taken up.
    pub notes: Seq<Remark>,
    pub failure: Option<Failure>,
}

/// The notice that an entry is taken up.
pub open spec fn archiving_note(rel: PathModel) -> Remark {
    Remark { level: Level::VerboseStatus, message: "Archiving "@ + rel.shown() }
}

/// The members for the first `n` entries, in order, up to the first entry
/// that fails.
pub open spec fn planned(
    base: Seq<char>,
    entries: Seq<EntryModel>,
    materials: Seq<Material>,
    now: u64,
    n: int,
) -> Plan
    decreases n,
{
    if n <= 0 || n > entries.len() {
        Plan { members: Seq::empty(), notes: Seq::empty(), failure: None }
    } else {
        let before = planned(base, entries, materials, now, n - 1);
        if before.failure is Some {
            before
        } else {
            let notes = before.notes.push(archiving_note(entries[n - 1].rel_path));
            match member_for(base, entries[n - 1], material_at(materials, n - 1), now) {
                Ok(member) => Plan { members: before.members.push(member), notes, failure: None },
                Err(failure) => Plan { members: before.members, notes, failure: Some(failure) },
            }
        }
    }
}

/// Once an entry has failed, the entries after it change nothing.
pub proof fn lemma_plan_failure(
    base: Seq<char>,
    entries: Seq<EntryModel>,
    materials: Seq<Material>,
    now: u64,
    k: int,
    n: int,
)
    requires
        0 <= k <= n <= entries.len(),
        planned(base, entries, materials, now, k).failure is Some,
    ensures
        planned(base, entries, materials, now, n) == planned(base, entries, materials, now, k),
    decreases n - k,
{
    if k < n {
        lemma_plan_failure(base, entries, materials, now, k, n - 1);
    }
}

/// The whole plan.
pub open spec fn plan_of(
    package: &PackageDescriptor,
    entries: Seq<EntryModel>,
    materials: Seq<Material>,
    now: u64,
) -> Plan {
    planned(package.base_name(), entries, materials, now, entries.len() as int)
}

fn plan_member(base: &str, entry: &ArchiveFile, material: Option<Material>, now: u64) -> (r: Result<
    Member,
    PackageError,
>)
    ensures
        match r {
            Ok(m) => member_for(base@, entry@, material, now) == Ok::<
                (Seq<char>, u32, u64, Seq<u8>),
                Failure,
            >(m@),
            Err(e) => member_for(base@, entry@, material, now) == Err::<
                (Seq<char>, u32, u64, Seq<u8>),
                Failure,
            >(e@),
        },
{
    let mut path: String = String::from_str(base);
    path.append("/");
    path.append(entry.rel_path.display().as_str());
    match &entry.contents {
        FileContents::Generated(GeneratedFile::VcsInfo(text)) => {
            return Ok(
                Member {
                    path,
                    mode: GENERATED_MODE,
                    mtime: now,
                    data: text.as_str().as_bytes_vec(),
                },
            );
        },
        FileContents::Generated(_) => match material {
            Some(Material::Text(text)) => {
                return Ok(
                    Member {
                        path,
                        mode: GENERATED_MODE,
                        mtime: now,
                        data: text.as_str().as_bytes_vec(),
                    },
                );
            },
            Some(Material::Unavailable(reason)) => {
                return Err(PackageError::new(ErrorKind::ArchiveEntry, reason));
            },
            _ => {},
        },
        FileContents::OnDisk(_) => match material {
            Some(Material::File { mode, mtime, data }) => {
                return Ok(Member { path, mode, mtime, data });
            },
            Some(Material::Unavailable(reason)) => {
                return Err(PackageError::new(ErrorKind::ArchiveEntry, reason));
            },
            _ => {},
        },
    }
    let mut message: String = String::from_str("nothing was made ready for `");
    message.append(entry.rel_path.display().as_str());
    message.append("`");
    Err(PackageError::new(ErrorKind::ArchiveEntry, message))
}

/// How the planning ends.
#[derive(Debug)]
pub struct Planned {
    pub notices: Vec<Notice>,
    pub result: Result<Vec<Member>, PackageError>,
}

/// Plans the members of the archive: one for each entry, from what was made
/// ready for it.
pub fn plan_members(
    package: &PackageDescriptor,
    entries: &Vec<ArchiveFile>,
    materials: Vec<Material>,
    now: u64,
) -> (r: Planned)
    ensures
        remarks(r.notices@) == plan_of(package, views(entries@), materials@, now).notes,
        match plan_of(package, views(entries@), materials@, now).failure {
            Some(failure) => r.result matches Err(e) && e@ == failure,
            None => r.result matches Ok(members) && views(members@) == plan_of(
                package,
                views(entries@),
                materials@,
                now,
            ).members,
        },
{
    let base: String = package.base_name_text();
    let ghost all = materials@;
    let ghost items = views(entries@);
    let mut rest: Vec<Material> = materials;
    let mut members: Vec<Member> = Vec::new();
    let mut notices: Vec<Notice> = Vec::new();
    let mut i: usize = 0;
    proof {
        assert(views(members@) =~= Seq::<(Seq<char>, u32, u64, Seq<u8>)>::empty());
        assert(remarks(notices@) =~= Seq::<Remark>::empty());
        assert(all.skip(0) =~= all);
    }
    while i < entries.len()
        invariant
            i <= entries.len(),
            items == views(entries@),
            all == materials@,
            base@ == package.base_name(),
            i <= all.len() ==> rest@ == all.skip(i as int),
            i > all.len() ==> rest@.len() == 0,
            planned(base@, items, all, now, i as int) == (Plan {
                members: views(members@),
                notes: remarks(notices@),
                failure: None,
            }),
        decreases entries.len() - i,
    {
        let material: Option<Material> = if rest.len() > 0 {
            Some(rest.remove(0))
        } else {
            None
        };
        proof {
            assert(material == material_at(all, i as int));
            if i < all.len() {
                assert(rest@ =~= all.skip(i + 1));
            }
            assert(items[i as int] == entries@[i as int]@);
        }
        let ghost notes_before = notices@;
        let mut message: String = String::from_str("Archiving ");
        message.append(entries[i].rel_path.display().as_str());
        let notice: Notice = Notice::new(Level::VerboseStatus, message);
        notices.push(notice);
        proof {
            lemma_remarks_push(notes_before, notice);
        }
        match plan_member(base.as_str(), &entries[i], material, now) {
            Ok(member) => {
                let ghost before = views(members@);
                members.push(member);
                proof {
                    assert(views(members@) =~= before.push(member@));
                }
            },
            Err(e) => {
                proof {
                    assert(planned(base@, items, all, now, i + 1).failure == Some(e@));
                    lemma_plan_failure(base@, items, all, now, i + 1, items.len() as int);
                }
                return Planned { notices, result: Err(e) };
            },
        }
        i = i + 1;
    }
    Planned { notices, result: Ok(members) }
}

/// Every member of `members` is stored as it is given.
pub open spec fn all_stored_as_given(members: Seq<(Seq<char>, u32, u64, Seq<u8>)>) -> bool {
    forall|i: int|
        0 <= i < members.len() ==> stored_as_given((#[trigger] members[i]).0, members[i].1)
}

/// Every path of `members` is portable.
pub open spec fn all_portable(members: Seq<(Seq<char>, u32, u64, Seq<u8>)>) -> bool {
    forall|i: int| 0 <= i < members.len() ==> portable((#[trigger] members[i]).0)
}

/// The tape archive takes every path of `members`.
pub open spec fn all_accepted(members: Seq<(Seq<char>, u32, u64, Seq<u8>)>) -> bool {
    forall|i: int| 0 <= i < members.len() ==> tar_accepts((#[trigger] members[i]).0)
}

/// Members that are stored as given have portable paths.
pub proof fn lemma_stored_is_portable(members: Seq<(Seq<char>, u32, u64, Seq<u8>)>)
    requires
        all_stored_as_given(members),
    ensures
        all_portable(members),
{
    assert forall|i: int| 0 <= i < members.len() implies portable((#[trigger] members[i]).0) by {
        assert(stored_as_given(members[i].0, members[i].1));
    }
}

/// The text of the failure for a member that the tape archive refuses.
pub open spec fn refusal_text(path: Seq<char>, cause: Seq<char>) -> Seq<char> {
    "could not archive source file `"@ + path + "`: "@ + cause
}

/// Whether `r` is what the writing of `members` into a tape archive gives.
///
/// Members with portable paths are written exactly when the tape archive
/// takes every path; else the writing fails for the first member that is
/// refused. What is written of members that are stored as given are the
/// bytes of the archive that holds them.
pub open spec fn tape_of(
    members: Seq<(Seq<char>, u32, u64, Seq<u8>)>,
    r: Result<Vec<u8>, PackageError>,
) -> bool {
    &&& all_portable(members) ==> (r is Ok <==> all_accepted(members))
    &&& match r {
        Ok(bytes) => all_stored_as_given(members) ==> bytes@ == tar_stream(members),
        Err(e) => e@.kind == ErrorKind::ArchiveEntry && exists|k: int, cause: Seq<char>|
            0 <= k < members.len() && e@.message == #[trigger] refusal_text(members[k].0, cause)
                && (portable(members[k].0) ==> !tar_accepts(members[k].0)),
    }
}

fn refusal(path: &str, cause: &str) -> (r: String)
    ensures
        r@ == refusal_text(path@, cause@),
{
    let mut message: String = String::from_str("could not archive source file `");
    message.append(path);
    message.append("`: ");
    message.append(cause);
    proof {
        assert(message@ =~= refusal_text(path@, cause@));
    }
    message
}

/// Writes `members` into a tape archive, in order.
pub fn write_members(members: &Vec<Member>) -> (r: Result<Vec<u8>, PackageError>)
    ensures
        tape_of(views(members@), r),
{
    let mut builder: TarBuilder = tar_new();
    let mut i: usize = 0;
    let ghost all = views(members@);
    proof {
        assert(all.take(0) =~= Seq::<(Seq<char>, u32, u64, Seq<u8>)>::empty());
    }
    while i < members.len()
        invariant
            i <= members.len(),
            all == views(members@),
            forall|j: int| 0 <= j < i && portable((#[trigger] all[j]).0) ==> tar_accepts(all[j].0),
            all_stored_as_given(all.take(i as int)) ==> archived(builder) == all.take(i as int),
        decreases members.len() - i,
    {
        let member: &Member = &members[i];
        let ghost upto = all.take(i + 1);
        proof {
            assert(all[i as int] == member@);
            assert(upto =~= all.take(i as int).push(member@));
            if all_stored_as_given(upto) {
                assert(stored_as_given(upto[i as int].0, upto[i as int].1));
                assert forall|j: int| 0 <= j < i implies stored_as_given(
                    (#[trigger] all.take(i as int)[j]).0,
                    all.take(i as int)[j].1,
                ) by {
                    assert(all.take(i as int)[j] == upto[j]);
                }
            }
        }
        match tar_append(
            &mut builder,
            member.path.as_str(),
            member.mode,
            member.mtime,
            member.data.as_slice(),
        ) {
            Ok(()) => {},
            Err(cause) => {
                let message: String = refusal(member.path.as_str(), cause.as_str());
                let e = PackageError::new(ErrorKind::ArchiveEntry, message);
                proof {
                    assert(e@.message == refusal_text(all[i as int].0, cause@));
                    if all_portable(all) {
                        assert(portable(all[i as int].0));
                        assert(!tar_accepts(all[i as int].0));
                    }
                }
                return Err(e);
            },
        }
        i = i + 1;
    }
    proof {
        assert(all.take(members.len() as int) =~= all);
    }
    match tar_finish(builder) {
        Ok(bytes) => Ok(bytes),
        // closing an archive in memory does not fail
        Err(_) => vstd::pervasive::unreached(),
    }
}

fn has_zero(bytes: &Vec<u8>) -> (r: bool)
    ensures
        r == bytes@.contains(0u8),
{
    let mut i: usize = 0;
    while i < bytes.len()
        invariant
            i <= bytes.len(),
            forall|j: int| 0 <= j < i ==> bytes@[j] != 0u8,
        decreases bytes.len() - i,
    {
        if bytes[i] == 0 {
            return true;
        }
        i = i + 1;
    }
    false
}

/// The text of the failure for an archive name that holds a zero byte.
pub open spec fn bad_name_text(name: Seq<char>) -> Seq<char> {
    "the archive name `"@ + name + "` holds a zero byte"@
}

/// Whether `r` is what compressing the tape archive `tape` under the file
/// name `name` gives: a failure for a name that holds a zero byte; else the
/// gzip stream of the tape under that name, or a failure where the encoder
/// gives none.
pub open spec fn sealed(name: Seq<char>, tape: Seq<u8>, r: Result<Vec<u8>, PackageError>) -> bool {
    if encode_utf8(name).contains(0u8) {
        r matches Err(e) && e@ == (Failure {
            kind: ErrorKind::ArchiveName,
            message: bad_name_text(name),
        })
    } else {
        match gzip_stream(encode_utf8(name), tape) {
            Some(stream) => r matches Ok(bytes) && bytes@ == stream,
            None => r matches Err(e) && e@.kind == ErrorKind::ArchiveStream,
        }
    }
}

/// Compresses the tape archive `tape` into a gzip stream that bears the
/// file name `name`.
pub fn seal(name: &str, tape: &Vec<u8>) -> (r: Result<Vec<u8>, PackageError>)
    ensures
        sealed(name@, tape@, r),
{
    let name_bytes: Vec<u8> = name.as_bytes_vec();
    if has_zero(&name_bytes) {
        let mut message: String = String::from_str("the archive name `");
        message.append(name);
        message.append("` holds a zero byte");
        return Err(PackageError::new(ErrorKind::ArchiveName, message));
    }
    match gzip(name_bytes.as_slice(), tape.as_slice()) {
        Ok(bytes) => Ok(bytes),
        Err(cause) => {
            let mut message: String = String::from_str("could not compress the archive: ");
            message.append(cause.as_str());
            Err(PackageError::new(ErrorKind::ArchiveStream, message))
        },
    }
}

/// How the writing of the archive ends.
#[derive(Debug)]
pub struct Archived {
    pub notices: Vec<Notice>,
    /// The bytes of the compressed archive.
    pub result: Result<Vec<u8>, PackageError>,
}

/// Whether `r` is what the writing of the archive of `package` gives.
///
/// Where an entry has nothing fitting made ready, the writing fails with that
/// entry's failure. Else, where the name of the archive holds a zero byte, it
/// fails for that. Else the planned members are written into a tape archive
/// and the tape is compressed under the archive's name; the writing fails
/// where either fails.
pub open spec fn archive_of(
    package: &PackageDescriptor,
    entries: Seq<EntryModel>,
    materials: Seq<Material>,
    now: u64,
    r: Result<Vec<u8>, PackageError>,
) -> bool {
    let plan = plan_of(package, entries, materials, now);
    let name = package.archive_name();
    match plan.failure {
        Some(failure) => r matches Err(e) && e@ == failure,
        None => if encode_utf8(name).contains(0u8) {
            r matches Err(e) && e@ == (Failure {
                kind: ErrorKind::ArchiveName,
                message: bad_name_text(name),
            })
        } else {
            &&& all_portable(plan.members) && !all_accepted(plan.members) ==> (r matches Err(e)
                && e@.kind == ErrorKind::ArchiveEntry)
            &&& all_stored_as_given(plan.members) && all_accepted(plan.members) ==> match gzip_stream(
                encode_utf8(name),
                tar_stream(plan.members),
            ) {
                Some(stream) => r matches Ok(bytes) && bytes@ == stream,
                None => r matches Err(e) && e@.kind == ErrorKind::ArchiveStream,
            }
            &&& (r matches Err(e) ==> e@.kind == ErrorKind::ArchiveEntry || e@.kind
                == ErrorKind::ArchiveStream)
        },
    }
}

/// Writes the archive of `package`: every entry under the top-level
/// directory named by the package's name and version, the whole compressed
/// under the archive's file name. `materials` holds what was made ready for
/// each entry, in the order of `entries`; `now` is the time, in seconds, that
/// generated files are stamped with.
pub fn tar(
    package: &PackageDescriptor,
    entries: &Vec<ArchiveFile>,
    materials: Vec<Material>,
    now: u64,
) -> (r: Archived)
    ensures
        remarks(r.notices@) == plan_of(package, views(entries@), materials@, now).notes,
        archive_of(package, views(entries@), materials@, now, r.result),
{
    let Planned { notices, result } = plan_members(package, entries, materials, now);
    let members: Vec<Member> = match result {
        Ok(members) => members,
        Err(e) => {
            return Archived { notices, result: Err(e) };
        },
    };
    let name: String = package.archive_name_text();
    if has_zero(&name.as_str().as_bytes_vec()) {
        let mut message: String = String::from_str("the archive name `");
        message.append(name.as_str());
        message.append("` holds a zero byte");
        return Archived {
            notices,
            result: Err(PackageError::new(ErrorKind::ArchiveName, message)),
        };
    }
    proof {
        if all_stored_as_given(views(members@)) {
            lemma_stored_is_portable(views(members@));
        }
    }
    let tape: Vec<u8> = match write_members(&members) {
        Ok(tape) => tape,
        Err(e) => {
            return Archived { notices, result: Err(e) };
        },
    };
    Archived { notices, result: seal(name.as_str(), &tape) }
}

/// A plan that does not fail has one member for each entry, the member that
/// the entry becomes.
pub proof fn lemma_plan_members(
    base: Seq<char>,
    entries: Seq<EntryModel>,
    materials: Seq<Material>,
    now: u64,
    n: int,
)
    requires
        0 <= n <= entries.len(),
        planned(base, entries, materials, now, n).failure is None,
    ensures
        planned(base, entries, materials, now, n).members.len() == n,
        forall|i: int|
            0 <= i < n ==> member_for(base, entries[i], material_at(materials, i), now) == Ok::<
                (Seq<char>, u32, u64, Seq<u8>),
                Failure,
            >(#[trigger] planned(base, entries, materials, now, n).members[i]),
    decreases n,
{
    if n > 0 {
        let before = planned(base, entries, materials, now, n - 1);
        assert(before.failure is None);
        lemma_plan_members(base, entries, materials, now, n - 1);
    }
}

/// The archive holds every file on disk byte for byte, with the mode and
/// modification time it has on disk, under the top-level directory: the
/// member's path, without the name of that directory and the separator, is
/// the path of the entry.
pub proof fn lemma_member_carries_file(
    base: Seq<char>,
    entries: Seq<EntryModel>,
    materials: Seq<Material>,
    now: u64,
    i: int,
)
    requires
        0 <= i < entries.len(),
        entries[i].contents is OnDisk,
        planned(base, entries, materials, now, entries.len() as int).failure is None,
    ensures
        material_at(materials, i) matches Some(Material::File { mode, mtime, data }) && planned(
            base,
            entries,
            materials,
            now,
            entries.len() as int,
        ).members[i] == (member_path(base, entries[i].rel_path), mode, mtime, data@),
        member_path(base, entries[i].rel_path).skip(base.len() as int + 1) == entries[i].rel_path.shown(),
{
    lemma_plan_members(base, entries, materials, now, entries.len() as int);
    let member = planned(base, entries, materials, now, entries.len() as int).members[i];
    assert(member_for(base, entries[i], material_at(materials, i), now) == Ok::<
        (Seq<char>, u32, u64, Seq<u8>),
        Failure,
    >(member));
    reveal_strlit("/");
    assert(member_path(base, entries[i].rel_path).skip(base.len() as int + 1)
        =~= entries[i].rel_path.shown());
}

/// Two plans of the same entries at different times fail alike, and their
/// members differ in nothing but the time stamped on generated files.
pub proof fn lemma_only_times_differ(
    base: Seq<char>,
    entries: Seq<EntryModel>,
    materials: Seq<Material>,
    first: u64,
    second: u64,
    n: int,
)
    requires
        0 <= n <= entries.len(),
    ensures
        planned(base, entries, materials, first, n).failure == planned(
            base,
            entries,
            materials,
            second,
            n,
        ).failure,
        planned(base, entries, materials, first, n).notes == planned(
            base,
            entries,
            materials,
            second,
            n,
        ).notes,
        planned(base, entries, materials, first, n).members.len() == planned(
            base,
            entries,
            materials,
            second,
            n,
        ).members.len(),
        planned(base, entries, materials, first, n).members.len() <= n,
        planned(base, entries, materials, first, n).failure is None ==> planned(
            base,
            entries,
            materials,
            first,
            n,
        ).members.len() == n,
        forall|i: int|
            0 <= i < planned(base, entries, materials, first, n).members.len() ==> {
                let a = #[trigger] planned(base, entries, materials, first, n).members[i];
                let b = planned(base, entries, materials, second, n).members[i];
                &&& a.0 == b.0
                &&& a.1 == b.1
                &&& a.3 == b.3
                &&& (entries[i].contents is OnDisk ==> a.2 == b.2)
            },
    decreases n,
{
    if n > 0 {
        lemma_only_times_differ(base, entries, materials, first, second, n - 1);
        let a0 = planned(base, entries, materials, first, n - 1);
        let b0 = planned(base, entries, materials, second, n - 1);
        let a1 = planned(base, entries, materials, first, n);
        let b1 = planned(base, entries, materials, second, n);
        if a0.failure is None {
            assert forall|i: int| 0 <= i < a1.members.len() implies {
                let a = #[trigger] a1.members[i];
                let b = b1.members[i];
                &&& a.0 == b.0
                &&& a.1 == b.1
                &&& a.3 == b.3
                &&& (entries[i].contents is OnDisk ==> a.2 == b.2)
            } by {
                if i < a0.members.len() {
                    assert(a1.members[i] == a0.members[i]);
                    assert(b1.members[i] == b0.members[i]);
                }
            }
        }
    }
}

/// Writing the archive of the same entries twice, at the same time, gives
/// the same bytes.
pub proof fn lemma_archive_determined(
    package: &PackageDescriptor,
    entries: Seq<EntryModel>,
    materials: Seq<Material>,
    now: u64,
    first: Vec<u8>,
    second: Vec<u8>,
)
    requires
        archive_of(package, entries, materials, now, Ok(first)),
        archive_of(package, entries, materials, now, Ok(second)),
        all_stored_as_given(plan_of(package, entries, materials, now).members),
    ensures
        first@ == second@,
{
    lemma_stored_is_portable(plan_of(package, entries, materials, now).members);
}

/// A component that every platform reads alike and that names an entry.
pub open spec fn plain_name(part: Seq<char>) -> bool {
    plain_part(part) && portable(part)
}

/// A relative path of at least one component, each a plain name.
pub open spec fn plain_path(rel: PathModel) -> bool {
    &&& !rel.absolute
    &&& rel.parts.len() > 0
    &&& forall|i: int| 0 <= i < rel.parts.len() ==> plain_name(#[trigger] rel.parts[i])
}

/// A member under a plain top-level directory, at a plain path and with a
/// mode that fits the header, is stored as it is given.
pub proof fn lemma_plain_member_stored(base: Seq<char>, rel: PathModel, mode: u32)
    requires
        plain_name(base),
        plain_path(rel),
        mode <= MODE_LIMIT,
    ensures
        stored_as_given(member_path(base, rel), mode),
{
    let all = seq![base] + rel.parts;
    let path = member_path(base, rel);
    lemma_joined_prepend(base, rel.parts, "/"@);
    assert(path == joined(all, "/"@));
    assert(plain_parts(all)) by {
        assert forall|i: int| 0 <= i < all.len() implies plain_part(#[trigger] all[i]) by {
            if i > 0 {
                assert(all[i] == rel.parts[i - 1]);
                assert(plain_name(rel.parts[i - 1]));
            }
        }
    }
    let model = PathModel { absolute: false, parts: all };
    lemma_parse_shown(model);
    assert(!all.contains(".."@)) by {
        if all.contains(".."@) {
            let i = choose|i: int| 0 <= i < all.len() && all[i] == ".."@;
            assert(plain_part(all[i]));
        }
    }
    reveal_strlit("/");
    assert forall|c: char| c == '\\' || c == ':' implies !path.contains(c) by {
        if path.contains(c) {
            lemma_joined_chars(all, "/"@, c);
            assert(!"/"@.contains(c));
            let i = choose|i: int| 0 <= i < all.len() && (#[trigger] all[i]).contains(c);
            if i > 0 {
                assert(all[i] == rel.parts[i - 1]);
                assert(plain_name(rel.parts[i - 1]));
            }
        }
    }
}

/// Where the package's name and version make a plain name, every entry lies
/// at a plain path and the mode of every file on disk fits the header, every
/// member of a plan that does not fail is stored as it is given: the archive
/// is then owed, and it is the archive of exactly these members.
pub proof fn lemma_plan_stored(
    base: Seq<char>,
    entries: Seq<EntryModel>,
    materials: Seq<Material>,
    now: u64,
)
    requires
        plain_name(base),
        forall|i: int| 0 <= i < entries.len() ==> plain_path((#[trigger] entries[i]).rel_path),
        forall|i: int|
            0 <= i < materials.len() ==> ((#[trigger] materials[i]) matches Material::File {
                mode,
                ..
            } ==> mode <= MODE_LIMIT),
        planned(base, entries, materials, now, entries.len() as int).failure is None,
    ensures
        all_stored_as_given(planned(base, entries, materials, now, entries.len() as int).members),
{
    let members = planned(base, entries, materials, now, entries.len() as int).members;
    lemma_plan_members(base, entries, materials, now, entries.len() as int);
    assert forall|i: int| 0 <= i < members.len() implies stored_as_given(
        (#[trigger] members[i]).0,
        members[i].1,
    ) by {
        assert(member_for(base, entries[i], material_at(materials, i), now) == Ok::<
            (Seq<char>, u32, u64, Seq<u8>),
            Failure,
        >(members[i]));
        assert(plain_path(entries[i].rel_path));
        if material_at(materials, i) is Some {
            assert(material_at(materials, i) == Some(materials[i]));
        }
        assert(members[i].1 <= MODE_LIMIT);
        lemma_plain_member_stored(base, entries[i].rel_path, members[i].1);
    }
}

} // verus!
