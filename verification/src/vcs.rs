//! Judging whether the source tree holds changes that version control has
//! not recorded.

use crate::descriptor::{lock_name, PackageDescriptor};
use crate::order::{
    lemma_sorted_single, lemma_sorted_texts_len, ranked, sort_ranked, sort_strings, sorted_texts, views, Ranked,
};
use crate::paths::{FilePath, PathModel};
use crate::report::{ErrorKind, Failure, Level, Notice, PackageError, Remark, remarks};
use crate::text::{decimal, decimal_text, join, joined, lemma_texts_push, same_text, texts};
use vstd::prelude::*;
use vstd::utf8::encode_utf8;

verus! {

/// The status of a file that is as the last commit has it.
pub const STATUS_CURRENT: u32 = 0;

/// The status bit of a file that lies in the working directory and that
/// version control does not track.
pub const STATUS_UNTRACKED: u32 = 0x80;

/// The status bit of a file that version control is told to pass over.
pub const STATUS_IGNORED: u32 = 0x4000;

/// The repository does not hold the file as one of its own: it does not
/// track it, or is told to pass it over.
pub open spec fn is_foreign(status: u32) -> bool {
    status & STATUS_UNTRACKED != 0 || status & STATUS_IGNORED != 0
}

/// Whether the repository does not hold a file of this status as one of its
/// own.
pub fn foreign(status: u32) -> (r: bool)
    ensures
        r == is_foreign(status),
{
    status & STATUS_UNTRACKED != 0 || status & STATUS_IGNORED != 0
}

/// Whether the nested repositories decide about a file of which the primary
/// repository says `status`: it does not know the file, or does not hold it
/// as one of its own.
pub open spec fn falls_through(status: Option<u32>) -> bool {
    match status {
        Some(s) => is_foreign(s),
        None => true,
    }
}

/// Whether the nested repositories are to be asked about a file of which the
/// primary repository says `status`.
pub fn asks_nested(status: Option<u32>) -> (r: bool)
    ensures
        r == falls_through(status),
{
    match status {
        Some(s) => foreign(s),
        None => true,
    }
}

/// What the search for a repository around the package has given.
#[derive(Debug)]
pub enum Discovery {
    /// No repository holds the package.
    NoRepository,
    /// A repository holds it, but has no working directory.
    NoWorkdir,
    /// A repository with this working directory holds it. `manifest_status`
    /// is the status of the package's manifest there, where the repository
    /// could tell it.
    Found { workdir: FilePath, manifest_status: Option<u32> },
}

/// A repository nested in the primary one.
#[derive(Debug)]
pub struct SubRepo {
    /// Its working directory.
    pub prefix: FilePath,
    /// The number under which the caller holds it.
    pub id: usize,
}

/// What a [`SubRepo`] stands for.
pub struct SubRepoModel {
    pub prefix: PathModel,
    pub id: usize,
}

impl View for SubRepo {
    type V = SubRepoModel;

    open spec fn view(&self) -> SubRepoModel {
        SubRepoModel { prefix: self.prefix@, id: self.id }
    }
}

/// The length in bytes of the text of `path`.
pub open spec fn byte_len(path: PathModel) -> nat {
    encode_utf8(path.shown()).len()
}

impl Ranked for SubRepo {
    /// The repository with the longer working directory is asked first.
    open spec fn before(a: SubRepoModel, b: SubRepoModel) -> bool {
        byte_len(a.prefix) > byte_len(b.prefix)
    }

    fn precedes(&self, other: &Self) -> (r: bool) {
        let a: String = self.prefix.display();
        let b: String = other.prefix.display();
        a.as_str().as_bytes().len() > b.as_str().as_bytes().len()
    }

    proof fn lemma_weak_order(a: SubRepoModel, b: SubRepoModel, c: SubRepoModel) {
    }
}

/// Puts the nested repositories in the order in which they are asked about a
/// file: the deeper one, whose working directory has the longer text, first.
pub fn order_sub_repos(found: Vec<SubRepo>) -> (r: Vec<SubRepo>)
    ensures
        ranked::<SubRepo>(views(r@)),
        views(r@).to_multiset() == views(found@).to_multiset(),
{
    sort_ranked(found)
}

/// A question to a repository: the status of the file at `path`, a path from
/// the repository's working directory.
#[derive(Debug)]
pub struct StatusQuery {
    pub repo: usize,
    pub path: FilePath,
}

/// What a [`StatusQuery`] stands for.
pub struct QueryModel {
    pub repo: usize,
    pub path: PathModel,
}

impl View for StatusQuery {
    type V = QueryModel;

    open spec fn view(&self) -> QueryModel {
        QueryModel { repo: self.repo, path: self.path@ }
    }
}

/// The questions to ask about `file` when the primary repository does not
/// know it: one to each nested repository whose working directory holds the
/// file, in the order of `subs`.
pub open spec fn queries(file: PathModel, subs: Seq<SubRepoModel>) -> Seq<QueryModel>
    decreases subs.len(),
{
    if subs.len() == 0 {
        Seq::empty()
    } else {
        let before = queries(file, subs.drop_last());
        match file.stripped(subs.last().prefix) {
            Some(rel) => before.push(QueryModel { repo: subs.last().id, path: rel }),
            None => before,
        }
    }
}

/// Lists the questions to ask the nested repositories about `file`.
pub fn sub_repo_queries(file: &FilePath, subs: &Vec<SubRepo>) -> (r: Vec<StatusQuery>)
    ensures
        views(r@) == queries(file@, views(subs@)),
{
    let mut out: Vec<StatusQuery> = Vec::new();
    let mut i: usize = 0;
    proof {
        assert(views(subs@).take(0) =~= Seq::<SubRepoModel>::empty());
        assert(views(out@) =~= Seq::<QueryModel>::empty());
    }
    while i < subs.len()
        invariant
            i <= subs.len(),
            views(out@) == queries(file@, views(subs@).take(i as int)),
        decreases subs.len() - i,
    {
        proof {
            assert(views(subs@).take(i + 1).drop_last() =~= views(subs@).take(i as int));
            assert(views(subs@).take(i + 1).last() == subs@[i as int]@);
        }
        match file.strip_prefix(&subs[i].prefix) {
            Some(rel) => {
                let ghost before = views(out@);
                let query = StatusQuery { repo: subs[i].id, path: rel };
                out.push(query);
                proof {
                    assert(views(out@) =~= before.push(query@));
                }
            },
            None => {},
        }
        i = i + 1;
    }
    proof {
        assert(views(subs@).take(subs.len() as int) =~= views(subs@));
    }
    out
}

/// The numbers `first`, `first + 1`, ... of `n` repositories.
pub open spec fn numbered(first: int, n: nat) -> Seq<usize> {
    Seq::new(n, |k: int| (first + k) as usize)
}

/// The repositories with the working directories `dirs`, numbered from
/// `first` on.
pub open spec fn newly_found(first: int, dirs: Seq<FilePath>) -> Seq<SubRepoModel> {
    Seq::new(dirs.len(), |k: int| SubRepoModel { prefix: dirs[k]@, id: (first + k) as usize })
}

/// The search for the repositories nested in the primary one, level by
/// level: which repositories are still to be looked into, and which nested
/// ones were found.
#[derive(Debug)]
pub struct SubmoduleWalk {
    pub pending: Vec<usize>,
    pub found: Vec<SubRepo>,
    /// The number that the next repository found will bear.
    pub next_id: usize,
}

impl SubmoduleWalk {
    /// A search that has the primary repository, number 0, to look into.
    pub fn new() -> (r: SubmoduleWalk)
        ensures
            r.pending@ == seq![0usize],
            r.found@.len() == 0,
            r.next_id == 1,
    {
        let mut pending: Vec<usize> = Vec::new();
        pending.push(0);
        SubmoduleWalk { pending, found: Vec::new(), next_id: 1 }
    }

    /// The repository to look into next: the one noted last. `None` when the
    /// search is over.
    pub fn next(&mut self) -> (r: Option<usize>)
        ensures
            final(self).found == old(self).found,
            final(self).next_id == old(self).next_id,
            match r {
                Some(id) => old(self).pending@.len() > 0 && id == old(self).pending@.last()
                    && final(self).pending@ == old(self).pending@.drop_last(),
                None => old(self).pending@.len() == 0 && final(self).pending@.len() == 0,
            },
    {
        self.pending.pop()
    }

    /// Notes the nested repositories that opened in the one looked into, by
    /// their working directories. They are numbered on from `next_id`, in the
    /// order given, and each is to be looked into in its turn. Returns
    /// `false`, and notes nothing, if the numbers run out.
    pub fn opened(&mut self, workdirs: Vec<FilePath>) -> (r: bool)
        ensures
            r == (old(self).next_id + workdirs@.len() <= usize::MAX),
            !r ==> *final(self) == *old(self),
            r ==> {
                &&& final(self).next_id == old(self).next_id + workdirs@.len()
                &&& final(self).pending@ == old(self).pending@ + numbered(
                    old(self).next_id as int,
                    workdirs@.len(),
                )
                &&& views(final(self).found@) == views(old(self).found@) + newly_found(
                    old(self).next_id as int,
                    workdirs@,
                )
            },
    {
        if workdirs.len() > usize::MAX - self.next_id {
            return false;
        }
        let ghost dirs = workdirs@;
        let ghost pending0 = self.pending@;
        let ghost found0 = views(self.found@);
        let first: usize = self.next_id;
        let mut rest: Vec<FilePath> = workdirs;
        let ghost mut done: int = 0;
        proof {
            assert(self.pending@ =~= pending0 + numbered(first as int, 0));
            assert(views(self.found@) =~= found0 + newly_found(first as int, dirs.take(0)));
        }
        while rest.len() > 0
            invariant
                0 <= done <= dirs.len(),
                rest@ == dirs.skip(done),
                first + dirs.len() <= usize::MAX,
                self.next_id == first + done,
                self.pending@ == pending0 + numbered(first as int, done as nat),
                views(self.found@) == found0 + newly_found(first as int, dirs.take(done)),
            decreases rest.len(),
        {
            let prefix: FilePath = rest.remove(0);
            proof {
                assert(prefix == dirs[done]);
                assert(rest@ =~= dirs.skip(done + 1));
            }
            let id: usize = self.next_id;
            let ghost found_before = self.found@;
            let sub = SubRepo { prefix, id };
            self.pending.push(id);
            self.found.push(sub);
            self.next_id = id + 1;
            proof {
                assert(self.pending@ =~= pending0 + numbered(first as int, (done + 1) as nat));
                assert(views(self.found@) =~= views(found_before).push(sub@));
                assert(dirs.take(done + 1)[done] == dirs[done]);
                assert(newly_found(first as int, dirs.take(done + 1)) =~= newly_found(
                    first as int,
                    dirs.take(done),
                ).push(sub@));
                assert(views(self.found@) =~= found0 + newly_found(
                    first as int,
                    dirs.take(done + 1),
                ));
                done = done + 1;
            }
        }
        proof {
            assert(dirs.take(done) =~= dirs);
        }
        true
    }

    /// Ends the search: the nested repositories found, the deeper first.
    pub fn finish(self) -> (r: Vec<SubRepo>)
        ensures
            ranked::<SubRepo>(views(r@)),
            views(r@).to_multiset() == views(self.found@).to_multiset(),
    {
        order_sub_repos(self.found)
    }
}

/// What is known of one source file: its status in the primary repository,
/// where that repository knows the file, and the answers of the nested
/// repositories asked about it.
#[derive(Debug)]
pub struct FileProbe {
    pub path: FilePath,
    pub status: Option<u32>,
    pub nested: Vec<Option<u32>>,
}

/// Some nested repository knows the file and does not have it as committed.
pub open spec fn nested_dirty(answers: Seq<Option<u32>>) -> bool {
    exists|k: int|
        0 <= k < answers.len() && (#[trigger] answers[k]) is Some && answers[k]->Some_0
            != STATUS_CURRENT
}

/// The path `path` as seen from `base`; `path` itself where `base` is not
/// above it.
pub open spec fn seen_from(path: PathModel, base: PathModel) -> PathModel {
    match path.stripped(base) {
        Some(rel) => rel,
        None => path,
    }
}

/// Whether the file counts as changed.
///
/// A file whose status in the primary repository is current is unchanged. A
/// lock document may besides be ignored there, and is changed with any other
/// status. A file that the primary repository does not know, does not track
/// or passes over is changed only where a nested repository that holds it
/// says so. Any other file that is not current is changed.
pub open spec fn file_dirty(workdir: PathModel, probe: FileProbe) -> bool {
    match probe.status {
        Some(status) => if status == STATUS_CURRENT {
            false
        } else if seen_from(probe.path@, workdir).file_name() == Some(lock_name()) {
            status != STATUS_IGNORED
        } else if is_foreign(status) {
            nested_dirty(probe.nested@)
        } else {
            true
        },
        None => nested_dirty(probe.nested@),
    }
}

/// The changed files among `files`, each by its path from the package root,
/// in the order of `files`.
pub open spec fn dirty_listing(root: PathModel, workdir: PathModel, files: Seq<FileProbe>) -> Seq<
    Seq<char>,
>
    decreases files.len(),
{
    if files.len() == 0 {
        Seq::empty()
    } else {
        let before = dirty_listing(root, workdir, files.drop_last());
        if file_dirty(workdir, files.last()) {
            before.push(seen_from(files.last().path@, root).shown())
        } else {
            before
        }
    }
}

fn path_from(path: &FilePath, base: &FilePath) -> (r: FilePath)
    ensures
        r@ == seen_from(path@, base@),
{
    match path.strip_prefix(base) {
        Some(rel) => rel,
        None => path.copy(),
    }
}

fn any_nested_dirty(answers: &Vec<Option<u32>>) -> (r: bool)
    ensures
        r == nested_dirty(answers@),
{
    let mut k: usize = 0;
    while k < answers.len()
        invariant
            k <= answers.len(),
            forall|j: int|
                0 <= j < k ==> !((#[trigger] answers@[j]) is Some && answers@[j]->Some_0
                    != STATUS_CURRENT),
        decreases answers.len() - k,
    {
        match answers[k] {
            Some(status) => {
                if status != STATUS_CURRENT {
                    return true;
                }
            },
            None => {},
        }
        k = k + 1;
    }
    false
}

/// Whether the file counts as changed.
pub fn is_dirty(workdir: &FilePath, probe: &FileProbe) -> (r: bool)
    ensures
        r == file_dirty(workdir@, *probe),
{
    match probe.status {
        Some(status) => {
            if status == STATUS_CURRENT {
                false
            } else {
                let rel: FilePath = path_from(&probe.path, workdir);
                let lock: bool = match rel.file_name() {
                    Some(name) => same_text(name.as_str(), "Cargo.lock"),
                    None => false,
                };
                if lock {
                    status != STATUS_IGNORED
                } else if foreign(status) {
                    any_nested_dirty(&probe.nested)
                } else {
                    true
                }
            }
        },
        None => any_nested_dirty(&probe.nested),
    }
}

/// The changed files among `files`, each by its path from the package root,
/// in the order of strings.
pub fn dirty_files(root: &FilePath, workdir: &FilePath, files: &Vec<FileProbe>) -> (r: Vec<String>)
    ensures
        texts(r@) == sorted_texts(dirty_listing(root@, workdir@, files@)),
{
    let mut out: Vec<String> = Vec::new();
    let mut i: usize = 0;
    proof {
        assert(files@.take(0) =~= Seq::<FileProbe>::empty());
        assert(texts(out@) =~= Seq::<Seq<char>>::empty());
    }
    while i < files.len()
        invariant
            i <= files.len(),
            texts(out@) == dirty_listing(root@, workdir@, files@.take(i as int)),
        decreases files.len() - i,
    {
        proof {
            assert(files@.take(i + 1).drop_last() =~= files@.take(i as int));
            assert(files@.take(i + 1).last() == files@[i as int]);
        }
        if is_dirty(workdir, &files[i]) {
            let ghost before = out@;
            let shown: String = path_from(&files[i].path, root).display();
            out.push(shown);
            proof {
                lemma_texts_push(before, shown);
            }
        }
        i = i + 1;
    }
    proof {
        assert(files@.take(files.len() as int) =~= files@);
    }
    sort_strings(out)
}

/// Whether the repository found has the package's manifest: it knows the
/// file, tracks it and is not told to pass it over.
pub open spec fn has_manifest(status: Option<u32>) -> bool {
    status matches Some(s) && !is_foreign(s)
}

/// The text of the notice that no repository holds the package.
pub open spec fn no_vcs_text(root: PathModel) -> Seq<char> {
    "No (git) VCS found for `"@ + root.shown() + "`"@
}

/// The text of the notice that the repository found does not have the
/// package's manifest.
pub open spec fn no_manifest_text(manifest: PathModel, workdir: PathModel) -> Seq<char> {
    "No (git) Cargo.toml found at `"@ + manifest.shown() + "` in workdir `"@ + workdir.shown()
        + "`"@
}

/// The text of the failure that lists the changed files.
pub open spec fn dirty_text(listing: Seq<Seq<char>>) -> Seq<char> {
    decimal(listing.len())
        + " files in the working directory contain changes that were not yet committed into git:\n\n"@
        + joined(listing, "\n"@)
        + "\n\nto proceed despite this and include the uncommitted changes, pass the `--allow-dirty` flag"@
}

/// The text of the version-control record for the revision `hash`.
pub open spec fn vcs_info_text(hash: Seq<char>) -> Seq<char> {
    "{\n  \"git\": {\n    \"sha1\": \""@ + hash + "\"\n  }\n}\n"@
}

/// Writes the version-control record for the revision `hash`.
pub fn vcs_info(hash: &str) -> (r: String)
    ensures
        r@ == vcs_info_text(hash@),
{
    let mut out: String = String::from_str("{\n  \"git\": {\n    \"sha1\": \"");
    out.append(hash);
    out.append("\"\n  }\n}\n");
    out
}

/// What the state of the repository comes to, once the primary repository
/// has the manifest: the current revision where no file is changed and the
/// revision could be told, else a failure.
pub open spec fn tree_verdict(
    root: PathModel,
    workdir: PathModel,
    files: Seq<FileProbe>,
    head: Result<String, String>,
) -> Result<Option<Seq<char>>, Failure> {
    let dirty = dirty_listing(root, workdir, files);
    if dirty.len() == 0 {
        match head {
            Ok(hash) => Ok(Some(hash@)),
            Err(reason) => Err(Failure { kind: ErrorKind::Collaborator, message: reason@ }),
        }
    } else {
        Err(Failure { kind: ErrorKind::Dirty, message: dirty_text(sorted_texts(dirty)) })
    }
}

/// What the check of the repository comes to.
///
/// Without a repository, or with one that does not have the package's
/// manifest, the tree counts as unchanged and no revision is known; a
/// notice for verbose output says which. Else every changed file makes the
/// check fail, the failure listing them all.
pub open spec fn repo_verdict(
    package: &PackageDescriptor,
    discovery: Discovery,
    files: Seq<FileProbe>,
    head: Result<String, String>,
) -> (Seq<Remark>, Result<Option<Seq<char>>, Failure>) {
    match discovery {
        Discovery::NoRepository => (
            seq![Remark { level: Level::VerboseWarning, message: no_vcs_text(package.root@) }],
            Ok(None),
        ),
        Discovery::NoWorkdir => (Seq::empty(), Ok(None)),
        Discovery::Found { workdir, manifest_status } => if has_manifest(manifest_status) {
            (Seq::empty(), tree_verdict(package.root@, workdir@, files, head))
        } else {
            (
                seq![
                    Remark {
                        level: Level::VerboseWarning,
                        message: no_manifest_text(
                            seen_from(package.manifest_path@, workdir@),
                            workdir@,
                        ),
                    },
                ],
                Ok(None),
            )
        },
    }
}

/// Without a changed file nothing is listed.
pub proof fn lemma_clean_listing(root: PathModel, workdir: PathModel, files: Seq<FileProbe>)
    requires
        forall|j: int| 0 <= j < files.len() ==> !file_dirty(workdir, #[trigger] files[j]),
    ensures
        dirty_listing(root, workdir, files).len() == 0,
    decreases files.len(),
{
    if files.len() > 0 {
        assert forall|j: int| 0 <= j < files.drop_last().len() implies !file_dirty(
            workdir,
            #[trigger] files.drop_last()[j],
        ) by {
            assert(files.drop_last()[j] == files[j]);
        }
        lemma_clean_listing(root, workdir, files.drop_last());
        assert(files.last() == files[files.len() - 1]);
    }
}

/// Where one file alone is changed, the check fails and its failure lists
/// that file's path and no other.
pub proof fn lemma_single_dirty_file(
    root: PathModel,
    workdir: PathModel,
    files: Seq<FileProbe>,
    k: int,
    head: Result<String, String>,
)
    requires
        0 <= k < files.len(),
        file_dirty(workdir, files[k]),
        forall|j: int| 0 <= j < files.len() && j != k ==> !file_dirty(workdir, #[trigger] files[j]),
    ensures
        dirty_listing(root, workdir, files) == seq![seen_from(files[k].path@, root).shown()],
        tree_verdict(root, workdir, files, head) == Err::<Option<Seq<char>>, Failure>(
            Failure {
                kind: ErrorKind::Dirty,
                message: dirty_text(seq![seen_from(files[k].path@, root).shown()]),
            },
        ),
    decreases files.len(),
{
    let front = files.drop_last();
    let shown = seen_from(files[k].path@, root).shown();
    assert(files.last() == files[files.len() - 1]);
    if k == files.len() - 1 {
        assert forall|j: int| 0 <= j < front.len() implies !file_dirty(
            workdir,
            #[trigger] front[j],
        ) by {
            assert(front[j] == files[j]);
        }
        lemma_clean_listing(root, workdir, front);
        assert(dirty_listing(root, workdir, files) =~= seq![shown]);
    } else {
        assert(front[k] == files[k]);
        assert forall|j: int| 0 <= j < front.len() && j != k implies !file_dirty(
            workdir,
            #[trigger] front[j],
        ) by {
            assert(front[j] == files[j]);
        }
        lemma_single_dirty_file(root, workdir, front, k, head);
    }
    lemma_sorted_single(shown);
}

/// The path by which to ask the repository for the package's manifest.
pub fn manifest_query(package: &PackageDescriptor, workdir: &FilePath) -> (r: FilePath)
    ensures
        r@ == seen_from(package.manifest_path@, workdir@),
{
    path_from(&package.manifest_path, workdir)
}

/// Whether the files of the package are to be held against the repository.
pub fn inspects_files(discovery: &Discovery) -> (r: bool)
    ensures
        r == (*discovery matches Discovery::Found { manifest_status, .. } && has_manifest(
            manifest_status,
        )),
{
    match discovery {
        Discovery::Found { workdir, manifest_status } => match manifest_status {
            Some(s) => !foreign(*s),
            None => false,
        },
        _ => false,
    }
}

/// How the check of the repository ends.
#[derive(Debug)]
pub struct RepoState {
    pub notices: Vec<Notice>,
    /// The current revision, where one is known and no file is changed.
    pub result: Result<Option<String>, PackageError>,
}

/// The view of what the check of the repository returns.
pub open spec fn state_view(r: Result<Option<String>, PackageError>) -> Result<
    Option<Seq<char>>,
    Failure,
> {
    match r {
        Ok(Some(hash)) => Ok(Some(hash@)),
        Ok(None) => Ok(None),
        Err(e) => Err(e@),
    }
}

/// Checks the source tree against version control.
///
/// `files` holds what the repositories say of each source file, and `head`
/// the current revision of the primary repository or the reason for which
/// it could not be told.
pub fn check_repo_state(
    package: &PackageDescriptor,
    discovery: &Discovery,
    files: &Vec<FileProbe>,
    head: Result<String, String>,
) -> (r: RepoState)
    ensures
        remarks(r.notices@) == repo_verdict(package, *discovery, files@, head).0,
        state_view(r.result) == repo_verdict(package, *discovery, files@, head).1,
{
    let mut notices: Vec<Notice> = Vec::new();
    proof {
        assert(remarks(notices@) =~= Seq::<Remark>::empty());
    }
    match discovery {
        Discovery::NoRepository => {
            let mut message: String = String::from_str("No (git) VCS found for `");
            message.append(package.root.display().as_str());
            message.append("`");
            let notice: Notice = Notice::new(Level::VerboseWarning, message);
            notices.push(notice);
            proof {
                assert(remarks(notices@) =~= seq![notice@]);
            }
            RepoState { notices, result: Ok(None) }
        },
        Discovery::NoWorkdir => RepoState { notices, result: Ok(None) },
        Discovery::Found { workdir, manifest_status } => {
            if inspects_files(discovery) {
                let dirty: Vec<String> = dirty_files(&package.root, workdir, files);
                proof {
                    lemma_sorted_texts_len(dirty_listing(package.root@, workdir@, files@));
                }
                if dirty.len() == 0 {
                    match head {
                        Ok(hash) => RepoState { notices, result: Ok(Some(hash)) },
                        Err(reason) => RepoState {
                            notices,
                            result: Err(PackageError::new(ErrorKind::Collaborator, reason)),
                        },
                    }
                } else {
                    let mut message: String = decimal_text(dirty.len());
                    message.append(
                        " files in the working directory contain changes that were not yet committed into git:\n\n",
                    );
                    message.append(join(&dirty, "\n").as_str());
                    message.append(
                        "\n\nto proceed despite this and include the uncommitted changes, pass the `--allow-dirty` flag",
                    );
                    proof {
                        assert(message@ =~= dirty_text(texts(dirty@)));
                    }
                    RepoState {
                        notices,
                        result: Err(PackageError::new(ErrorKind::Dirty, message)),
                    }
                }
            } else {
                let mut message: String = String::from_str("No (git) Cargo.toml found at `");
                message.append(manifest_query(package, workdir).display().as_str());
                message.append("` in workdir `");
                message.append(workdir.display().as_str());
                message.append("`");
                proof {
                    assert(message@ =~= no_manifest_text(
                        seen_from(package.manifest_path@, workdir@),
                        workdir@,
                    ));
                }
                let notice: Notice = Notice::new(Level::VerboseWarning, message);
                notices.push(notice);
                proof {
                    assert(remarks(notices@) =~= seq![notice@]);
                }
                RepoState { notices, result: Ok(None) }
            }
        },
    }
}

} // verus!
