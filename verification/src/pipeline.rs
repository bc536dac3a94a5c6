//! Packaging from end to end: the order of its steps, and what each step
//! decides.

use crate::descriptor::PackageDescriptor;
use crate::archive::{
    all_stored_as_given, archive_of, lemma_archive_determined, lemma_only_times_differ, plan_of,
    Material,
};
use crate::descriptor::vcs_info_name;
use crate::entries::{
    build_ar_list, distinct_paths, gathered, generated_entry, lemma_contains_add,
    lemma_listing_order_free, listing_notes, records, relative, unsorted_entries, ArchiveFile,
    EntryModel, GeneratedModel, Listing, SourceFile,
};
use crate::resolve::{
    answer_at, lemma_withdrawn_only_warns, lock_notes, yank_check, yanked_text, ResolveGraph,
    Withdrawal,
};
use crate::metadata::{
    check_metadata, dependencies_verdict, metadata_verdict, verify_dependencies,
};
use crate::options::PackageOpts;
use crate::order::{ranked, views};
use crate::report::{
    lemma_remarks_push, remarks, ErrorKind, Failure, Level, Notice, PackageError, Remark,
};
use crate::text::{lemma_texts_push, texts};
use crate::vcs::{
    check_repo_state, no_vcs_text, repo_verdict, vcs_info, vcs_info_text, Discovery, FileProbe,
    RepoState,
};
use vstd::prelude::*;

verus! {

/// How far a packaging has come.
#[derive(Clone, Copy, Debug, PartialEq, Eq, Structural)]
pub enum PackageStage {
    /// Nothing was done yet.
    Start,
    /// The lock document on disk is being checked.
    Validating,
    /// The source files and what is known of them are being gathered.
    Gathering,
    /// The archive is being written under a temporary name.
    Archiving,
    /// The written archive is being verified.
    Verifying,
    /// The archive is being given its final name.
    Publishing,
    /// The packaging is over.
    Done,
}

/// What the repositories around the package say.
#[derive(Debug)]
pub struct RepoFacts {
    pub discovery: Discovery,
    pub files: Vec<FileProbe>,
    /// The current revision of the primary repository, or the reason for
    /// which it could not be told.
    pub head: Result<String, String>,
}

/// What has happened since the last step.
#[derive(Debug)]
pub enum PackageEvent {
    /// The packaging begins; `lock_present` says whether a lock document
    /// lies at the root of the workspace.
    Begun { lock_present: bool },
    /// The lock document on disk is up to date.
    LockValidated,
    /// The source files are listed, each manifest among them is read, and
    /// it is known whether the license file is on disk. `repository` holds
    /// what the repositories say, where one holds the package.
    Gathered { files: Vec<SourceFile>, license_on_disk: bool, repository: Option<RepoFacts> },
    /// The archive is written under its temporary name.
    Written,
    /// The archive is verified.
    Verified,
    /// The archive has its final name.
    Published,
    /// The last action has failed.
    Failed(PackageError),
}

/// What to do next.
#[derive(Debug)]
pub enum PackageAction {
    /// Resolve the workspace against the lock document on disk.
    ValidateLock,
    /// List the source files and gather what is known of them, and ask the
    /// repositories around the package.
    Gather,
    /// Print these lines, the paths of the archive's entries. Nothing is
    /// written.
    PrintList(Vec<String>),
    /// Write the archive of the entries under its temporary name.
    WriteArchive,
    /// Verify the written archive.
    Verify,
    /// Give the archive its final name.
    Publish,
    /// Nothing: the package is ready under its final name.
    Finish,
    /// Nothing: the packaging has failed.
    Fail(PackageError),
}

/// What a [`PackageAction`] stands for.
pub enum Act {
    ValidateLock,
    Gather,
    PrintList(Seq<Seq<char>>),
    WriteArchive,
    Verify,
    Publish,
    Finish,
    Fail(Failure),
}

impl View for PackageAction {
    type V = Act;

    open spec fn view(&self) -> Act {
        match self {
            PackageAction::ValidateLock => Act::ValidateLock,
            PackageAction::Gather => Act::Gather,
            PackageAction::PrintList(lines) => Act::PrintList(texts(lines@)),
            PackageAction::WriteArchive => Act::WriteArchive,
            PackageAction::Verify => Act::Verify,
            PackageAction::Publish => Act::Publish,
            PackageAction::Finish => Act::Finish,
            PackageAction::Fail(e) => Act::Fail(e@),
        }
    }
}

/// A step of the packaging: the notices to show and the action to take.
#[derive(Debug)]
pub struct Step {
    pub notices: Vec<Notice>,
    pub action: PackageAction,
}

/// A packaging under way.
#[derive(Debug)]
pub struct PackageRun {
    pub stage: PackageStage,
    /// The entries of the archive, once they are listed.
    pub entries: Vec<ArchiveFile>,
}

/// Where a step leads.
pub struct Turn {
    pub stage: PackageStage,
    pub notes: Seq<Remark>,
    pub act: Act,
}

/// The text of the warning for a manifest with patterns of both kinds.
pub open spec fn both_patterns_text() -> Seq<char> {
    "both package.include and package.exclude are specified; the exclude list will be ignored"@
}

/// The text of the notice that the archive is written next.
pub open spec fn packaging_text(package: &PackageDescriptor) -> Seq<char> {
    "Packaging "@ + package.name@ + " v"@ + package.version@
}

/// The notices given before the source files are listed: what the manifest
/// lacks, where that is to be checked, and that the patterns which keep
/// files out do nothing beside patterns that select files.
pub open spec fn opening_notes(package: &PackageDescriptor, opts: &PackageOpts) -> Seq<Remark> {
    (if opts.check_metadata {
        match metadata_verdict(&package.metadata) {
            Some(note) => seq![note],
            None => Seq::empty(),
        }
    } else {
        Seq::empty()
    }) + (if package.exclude_patterns@.len() > 0 && package.include_patterns@.len() > 0 {
        seq![Remark { level: Level::Warning, message: both_patterns_text() }]
    } else {
        Seq::empty()
    })
}

/// The failure for an event that its stage does not expect.
pub open spec fn out_of_turn() -> Failure {
    Failure { kind: ErrorKind::Protocol, message: "a step was reported out of turn"@ }
}

/// What is said before the cause of a failure, by the stage at which it
/// occurs.
pub open spec fn context(stage: PackageStage) -> Seq<char> {
    match stage {
        PackageStage::Archiving => "failed to prepare local package for uploading: "@,
        PackageStage::Verifying => "failed to verify package tarball: "@,
        PackageStage::Publishing => "failed to move temporary tarball into final location: "@,
        _ => Seq::empty(),
    }
}

/// The step to the gathering of the source files.
pub open spec fn gather_turn(package: &PackageDescriptor, opts: &PackageOpts) -> Turn {
    Turn {
        stage: PackageStage::Gathering,
        notes: opening_notes(package, opts),
        act: Act::Gather,
    }
}

/// The step that the packaging takes at `stage` when `event` is reported,
/// for every event but the one that brings the source files.
///
/// The lock document on disk is checked first, where there is one. Once the
/// archive is written it is verified, where that is asked for, and given its
/// final name only then. The failure of an action ends the packaging, and so
/// does an event out of turn.
pub open spec fn plain_turn(
    package: &PackageDescriptor,
    opts: &PackageOpts,
    stage: PackageStage,
    event: PackageEvent,
) -> Turn {
    let stop = Turn { stage: PackageStage::Done, notes: Seq::empty(), act: Act::Fail(out_of_turn()) };
    match (stage, event) {
        (PackageStage::Done, _) => stop,
        (_, PackageEvent::Failed(e)) => Turn {
            stage: PackageStage::Done,
            notes: Seq::empty(),
            act: Act::Fail(Failure { kind: e@.kind, message: context(stage) + e@.message }),
        },
        (PackageStage::Start, PackageEvent::Begun { lock_present }) => if lock_present {
            Turn { stage: PackageStage::Validating, notes: Seq::empty(), act: Act::ValidateLock }
        } else {
            gather_turn(package, opts)
        },
        (PackageStage::Validating, PackageEvent::LockValidated) => gather_turn(package, opts),
        (PackageStage::Archiving, PackageEvent::Written) => if opts.verify {
            Turn { stage: PackageStage::Verifying, notes: Seq::empty(), act: Act::Verify }
        } else {
            Turn { stage: PackageStage::Publishing, notes: Seq::empty(), act: Act::Publish }
        },
        (PackageStage::Verifying, PackageEvent::Verified) => Turn {
            stage: PackageStage::Publishing,
            notes: Seq::empty(),
            act: Act::Publish,
        },
        (PackageStage::Publishing, PackageEvent::Published) => Turn {
            stage: PackageStage::Done,
            notes: Seq::empty(),
            act: Act::Finish,
        },
        _ => stop,
    }
}

/// What the check against version control gives: the verdict on what the
/// repositories say, no repository being known where none holds the
/// package. Where changed files are allowed, they do not make the check
/// fail: the tree then counts as one of which no revision is known.
pub open spec fn repo_part(
    package: &PackageDescriptor,
    opts: &PackageOpts,
    repository: Option<RepoFacts>,
) -> (Seq<Remark>, Result<Option<Seq<char>>, Failure>) {
    let verdict = match repository {
        Some(facts) => repo_verdict(package, facts.discovery, facts.files@, facts.head),
        None => (
            seq![Remark { level: Level::VerboseWarning, message: no_vcs_text(package.root@) }],
            Ok(None),
        ),
    };
    match verdict.1 {
        Err(failure) => if opts.allow_dirty && failure.kind == ErrorKind::Dirty {
            (verdict.0, Ok(None))
        } else {
            verdict
        },
        Ok(_) => verdict,
    }
}

/// The text of the version-control record for the revision found, if one
/// was.
pub open spec fn record_text(hash: Option<Seq<char>>) -> Option<Seq<char>> {
    match hash {
        Some(h) => Some(vcs_info_text(h)),
        None => None,
    }
}

/// The paths of `entries` as texts.
pub open spec fn lines_of(entries: Seq<EntryModel>) -> Seq<Seq<char>> {
    entries.map_values(|e: EntryModel| e.rel_path.shown())
}

/// Whether `turn` is the step taken when the source files are brought, and
/// `entries` the entries held after it.
///
/// Changed files end the packaging, unless they are allowed. A tree
/// without changed files brings the record of its revision, allowed or not.
/// Then the entries are listed, in the order of their paths; a candidate that fails
/// ends the packaging with nothing written. In list mode the entries are
/// printed and nothing more is done. Else the dependencies are checked, and
/// the archive is written next.
pub open spec fn gathered_turn(
    package: &PackageDescriptor,
    opts: &PackageOpts,
    files: Seq<SourceFile>,
    license_on_disk: bool,
    repository: Option<RepoFacts>,
    entries: Seq<EntryModel>,
    turn: Turn,
) -> bool {
    let repo = repo_part(package, opts, repository);
    match repo.1 {
        Err(failure) => turn == (Turn {
            stage: PackageStage::Done,
            notes: repo.0,
            act: Act::Fail(failure),
        }) && entries.len() == 0,
        Ok(hash) => {
            let found = gathered(package.root@, files);
            match found.failure {
                Some(failure) => turn == (Turn {
                    stage: PackageStage::Done,
                    notes: repo.0 + found.notes,
                    act: Act::Fail(failure),
                }) && entries.len() == 0,
                None => {
                    let notes = repo.0 + listing_notes(
                        package,
                        files,
                        record_text(hash),
                        license_on_disk,
                    );
                    &&& ranked::<ArchiveFile>(entries)
                    &&& entries.to_multiset() == unsorted_entries(
                        package,
                        files,
                        record_text(hash),
                        license_on_disk,
                    ).to_multiset()
                    &&& if opts.list {
                        turn == (Turn {
                            stage: PackageStage::Done,
                            notes,
                            act: Act::PrintList(lines_of(entries)),
                        })
                    } else {
                        match dependencies_verdict(package.dependencies@) {
                            Some(failure) => turn == (Turn {
                                stage: PackageStage::Done,
                                notes,
                                act: Act::Fail(failure),
                            }),
                            None => turn == (Turn {
                                stage: PackageStage::Archiving,
                                notes: notes.push(
                                    Remark {
                                        level: Level::Status,
                                        message: packaging_text(package),
                                    },
                                ),
                                act: Act::WriteArchive,
                            }),
                        }
                    }
                },
            }
        },
    }
}

fn stop(run: &mut PackageRun) -> (r: Step)
    ensures
        final(run).stage == PackageStage::Done,
        final(run).entries == old(run).entries,
        remarks(r.notices@) == Seq::<Remark>::empty(),
        r.action@ == Act::Fail(out_of_turn()),
{
    run.stage = PackageStage::Done;
    let notices: Vec<Notice> = Vec::new();
    proof {
        assert(remarks(notices@) =~= Seq::<Remark>::empty());
    }
    Step {
        notices,
        action: PackageAction::Fail(
            PackageError::new(
                ErrorKind::Protocol,
                String::from_str("a step was reported out of turn"),
            ),
        ),
    }
}

fn quiet(action: PackageAction) -> (r: Step)
    ensures
        remarks(r.notices@) == Seq::<Remark>::empty(),
        r.action == action,
{
    let notices: Vec<Notice> = Vec::new();
    proof {
        assert(remarks(notices@) =~= Seq::<Remark>::empty());
    }
    Step { notices, action }
}

fn to_gathering(run: &mut PackageRun, package: &PackageDescriptor, opts: &PackageOpts) -> (r: Step)
    ensures
        final(run).stage == PackageStage::Gathering,
        final(run).entries == old(run).entries,
        remarks(r.notices@) == gather_turn(package, opts).notes,
        r.action@ == gather_turn(package, opts).act,
{
    let mut notices: Vec<Notice> = Vec::new();
    proof {
        assert(remarks(notices@) =~= Seq::<Remark>::empty());
    }
    if opts.check_metadata {
        match check_metadata(package) {
            Some(notice) => {
                let ghost before = notices@;
                notices.push(notice);
                proof {
                    lemma_remarks_push(before, notice);
                }
            },
            None => {},
        }
    }
    let ghost first = remarks(notices@);
    if package.exclude_patterns.len() > 0 && package.include_patterns.len() > 0 {
        let ghost before = notices@;
        let notice: Notice = Notice::new(
            Level::Warning,
            String::from_str(
                "both package.include and package.exclude are specified; the exclude list will be ignored",
            ),
        );
        notices.push(notice);
        proof {
            lemma_remarks_push(before, notice);
        }
    }
    proof {
        assert(remarks(notices@) =~= opening_notes(package, opts));
    }
    run.stage = PackageStage::Gathering;
    Step { notices, action: PackageAction::Gather }
}

fn with_context(stage: PackageStage, e: PackageError) -> (r: PackageError)
    ensures
        r@ == (Failure { kind: e@.kind, message: context(stage) + e@.message }),
{
    let lead: &str = match stage {
        PackageStage::Archiving => "failed to prepare local package for uploading: ",
        PackageStage::Verifying => "failed to verify package tarball: ",
        PackageStage::Publishing => "failed to move temporary tarball into final location: ",
        _ => "",
    };
    proof {
        reveal_strlit("");
        assert(""@ =~= Seq::<char>::empty());
    }
    let mut message: String = String::from_str(lead);
    message.append(e.message.as_str());
    PackageError::new(e.kind, message)
}

fn entry_lines(entries: &Vec<ArchiveFile>) -> (r: Vec<String>)
    ensures
        texts(r@) == lines_of(views(entries@)),
{
    let mut out: Vec<String> = Vec::new();
    let mut i: usize = 0;
    while i < entries.len()
        invariant
            i <= entries.len(),
            texts(out@) == lines_of(views(entries@)).take(i as int),
        decreases entries.len() - i,
    {
        let ghost before = out@;
        let line: String = entries[i].rel_str();
        out.push(line);
        proof {
            lemma_texts_push(before, line);
            assert(texts(out@) =~= lines_of(views(entries@)).take(i + 1));
        }
        i = i + 1;
    }
    proof {
        assert(lines_of(views(entries@)).take(entries.len() as int) =~= lines_of(
            views(entries@),
        ));
    }
    out
}

fn judge_repository(
    package: &PackageDescriptor,
    opts: &PackageOpts,
    repository: Option<RepoFacts>,
) -> (r: RepoState)
    ensures
        remarks(r.notices@) == repo_part(package, opts, repository).0,
        crate::vcs::state_view(r.result) == repo_part(package, opts, repository).1,
{
    let state: RepoState = match repository {
        Some(facts) => {
            let RepoFacts { discovery, files, head } = facts;
            check_repo_state(package, &discovery, &files, head)
        },
        None => check_repo_state(
            package,
            &Discovery::NoRepository,
            &Vec::new(),
            Err(String::new()),
        ),
    };
    let RepoState { notices, result } = state;
    match result {
        Err(e) => {
            let tolerated: bool = match e.kind {
                ErrorKind::Dirty => opts.allow_dirty,
                _ => false,
            };
            if tolerated {
                RepoState { notices, result: Ok(None) }
            } else {
                RepoState { notices, result: Err(e) }
            }
        },
        Ok(hash) => RepoState { notices, result: Ok(hash) },
    }
}

/// Brings the source files into the packaging.
fn take_sources(
    run: &mut PackageRun,
    package: &PackageDescriptor,
    opts: &PackageOpts,
    files: Vec<SourceFile>,
    license_on_disk: bool,
    repository: Option<RepoFacts>,
) -> (r: Step)
    requires
        old(run).entries@.len() == 0,
    ensures
        gathered_turn(
            package,
            opts,
            files@,
            license_on_disk,
            repository,
            views(final(run).entries@),
            Turn { stage: final(run).stage, notes: remarks(r.notices@), act: r.action@ },
        ),
{
    let ghost nothing = views(run.entries@);
    proof {
        assert(nothing.len() == 0);
    }
    let RepoState { notices: mut notices, result } = judge_repository(package, opts, repository);
    let ghost repo_notes = remarks(notices@);
    let record: Option<String> = match result {
        Err(e) => {
            run.stage = PackageStage::Done;
            return Step { notices, action: PackageAction::Fail(e) };
        },
        Ok(Some(hash)) => Some(vcs_info(hash.as_str())),
        Ok(None) => None,
    };
    let Listing { notices: mut more, result: listed } = build_ar_list(
        package,
        files,
        record,
        license_on_disk,
    );
    let ghost list_notes = remarks(more@);
    notices.append(&mut more);
    proof {
        assert(remarks(notices@) =~= repo_notes + list_notes);
    }
    let entries: Vec<ArchiveFile> = match listed {
        Err(e) => {
            run.stage = PackageStage::Done;
            return Step { notices, action: PackageAction::Fail(e) };
        },
        Ok(entries) => entries,
    };
    run.entries = entries;
    if opts.list {
        run.stage = PackageStage::Done;
        let lines: Vec<String> = entry_lines(&run.entries);
        return Step { notices, action: PackageAction::PrintList(lines) };
    }
    match verify_dependencies(package) {
        Err(e) => {
            run.stage = PackageStage::Done;
            Step { notices, action: PackageAction::Fail(e) }
        },
        Ok(()) => {
            let ghost before = notices@;
            let mut message: String = String::from_str("Packaging ");
            message.append(package.name.as_str());
            message.append(" v");
            message.append(package.version.as_str());
            let notice: Notice = Notice::new(Level::Status, message);
            notices.push(notice);
            proof {
                lemma_remarks_push(before, notice);
            }
            run.stage = PackageStage::Archiving;
            Step { notices, action: PackageAction::WriteArchive }
        },
    }
}

impl PackageRun {
    /// A packaging that has not begun.
    pub fn new() -> (r: PackageRun)
        ensures
            r.stage == PackageStage::Start,
            r.entries@.len() == 0,
    {
        PackageRun { stage: PackageStage::Start, entries: Vec::new() }
    }

    /// The entries are listed only once the source files were brought.
    pub open spec fn wf(&self) -> bool {
        (self.stage == PackageStage::Start || self.stage == PackageStage::Validating || self.stage
            == PackageStage::Gathering) ==> self.entries@.len() == 0
    }
}

/// Takes the next step of a packaging: `event` says how the last action
/// went, and the notices to show and the action to take now are returned.
pub fn package(
    run: &mut PackageRun,
    pkg: &PackageDescriptor,
    opts: &PackageOpts,
    event: PackageEvent,
) -> (r: Step)
    requires
        old(run).wf(),
    ensures
        final(run).wf(),
        match event {
            PackageEvent::Gathered { files, license_on_disk, repository } if old(run).stage
                == PackageStage::Gathering => gathered_turn(
                pkg,
                opts,
                files@,
                license_on_disk,
                repository,
                views(final(run).entries@),
                Turn { stage: final(run).stage, notes: remarks(r.notices@), act: r.action@ },
            ),
            _ => plain_turn(pkg, opts, old(run).stage, event) == (Turn {
                stage: final(run).stage,
                notes: remarks(r.notices@),
                act: r.action@,
            }) && final(run).entries == old(run).entries,
        },
{
    let stage: PackageStage = run.stage;
    match stage {
        PackageStage::Done => {
            return stop(run);
        },
        _ => {},
    }
    match event {
        PackageEvent::Failed(e) => {
            run.stage = PackageStage::Done;
            quiet(PackageAction::Fail(with_context(stage, e)))
        },
        PackageEvent::Begun { lock_present } => match stage {
            PackageStage::Start => {
                if lock_present {
                    run.stage = PackageStage::Validating;
                    quiet(PackageAction::ValidateLock)
                } else {
                    to_gathering(run, pkg, opts)
                }
            },
            _ => stop(run),
        },
        PackageEvent::LockValidated => match stage {
            PackageStage::Validating => to_gathering(run, pkg, opts),
            _ => stop(run),
        },
        PackageEvent::Gathered { files, license_on_disk, repository } => match stage {
            PackageStage::Gathering => take_sources(
                run,
                pkg,
                opts,
                files,
                license_on_disk,
                repository,
            ),
            _ => stop(run),
        },
        PackageEvent::Written => match stage {
            PackageStage::Archiving => {
                if opts.verify {
                    run.stage = PackageStage::Verifying;
                    quiet(PackageAction::Verify)
                } else {
                    run.stage = PackageStage::Publishing;
                    quiet(PackageAction::Publish)
                }
            },
            _ => stop(run),
        },
        PackageEvent::Verified => match stage {
            PackageStage::Verifying => {
                run.stage = PackageStage::Publishing;
                quiet(PackageAction::Publish)
            },
            _ => stop(run),
        },
        PackageEvent::Published => match stage {
            PackageStage::Publishing => {
                run.stage = PackageStage::Done;
                quiet(PackageAction::Finish)
            },
            _ => stop(run),
        },
    }
}

/// A file name that holds a forbidden character ends the packaging when the
/// source files are brought, whether changed files are allowed or not: the
/// step taken is a failure, and the archive is never written.
pub proof fn lemma_forbidden_name_ends_packaging(
    package: &PackageDescriptor,
    opts: &PackageOpts,
    files: Seq<SourceFile>,
    license_on_disk: bool,
    repository: Option<RepoFacts>,
    entries: Seq<EntryModel>,
    turn: Turn,
    k: int,
    c: char,
)
    requires
        gathered_turn(package, opts, files, license_on_disk, repository, entries, turn),
        0 <= k < files.len(),
        crate::filename::forbidden().contains(c),
        files[k].path@.stripped(package.root@) matches Some(rel) && rel.file_name() matches Some(
            name,
        ) && name.contains(c),
    ensures
        turn.act is Fail,
        turn.stage == PackageStage::Done,
        entries.len() == 0,
{
    crate::entries::lemma_forbidden_name_fails(package.root@, files, k, c);
}

/// A tree without changed files brings the record of its revision into the
/// archive, whether changed files are allowed or not.
pub proof fn lemma_clean_tree_brings_record(
    package: &PackageDescriptor,
    opts: &PackageOpts,
    files: Seq<SourceFile>,
    license_on_disk: bool,
    facts: RepoFacts,
    entries: Seq<EntryModel>,
    turn: Turn,
    hash: Seq<char>,
)
    requires
        gathered_turn(package, opts, files, license_on_disk, Some(facts), entries, turn),
        repo_verdict(package, facts.discovery, facts.files@, facts.head).1 == Ok::<
            Option<Seq<char>>,
            Failure,
        >(Some(hash)),
        gathered(package.root@, files).failure is None,
    ensures
        entries.contains(
            generated_entry(
                relative(seq![vcs_info_name()]),
                GeneratedModel::VcsInfo(vcs_info_text(hash)),
            ),
        ),
{
    let record = generated_entry(
        relative(seq![vcs_info_name()]),
        GeneratedModel::VcsInfo(vcs_info_text(hash)),
    );
    let text = Some(vcs_info_text(hash));
    let extra = records(package, text);
    assert(extra[extra.len() - 1] == record);
    assert(extra.contains(record));
    let own = gathered(package.root@, files).entries;
    let all = unsorted_entries(package, files, text, license_on_disk);
    lemma_contains_add(own, extra, record);
    lemma_contains_add(
        own + extra,
        crate::entries::license_contribution(package, own + extra, license_on_disk).0,
        record,
    );
    assert(all.contains(record));
    vstd::seq_lib::to_multiset_contains(all, record);
    vstd::seq_lib::to_multiset_contains(entries, record);
}

/// Packaging one tree twice comes to the same step and the same entries,
/// and to archives whose members differ in nothing but the time stamped on
/// generated files: written at one time, the two archives are the same
/// bytes.
pub proof fn lemma_same_tree_same_archive(
    package: &PackageDescriptor,
    opts: &PackageOpts,
    files: Seq<SourceFile>,
    license_on_disk: bool,
    repository: Option<RepoFacts>,
    materials: Seq<Material>,
    first_entries: Seq<EntryModel>,
    first_turn: Turn,
    first_time: u64,
    first: Vec<u8>,
    second_entries: Seq<EntryModel>,
    second_turn: Turn,
    second_time: u64,
    second: Vec<u8>,
)
    requires
        gathered_turn(
            package,
            opts,
            files,
            license_on_disk,
            repository,
            first_entries,
            first_turn,
        ),
        gathered_turn(
            package,
            opts,
            files,
            license_on_disk,
            repository,
            second_entries,
            second_turn,
        ),
        first_turn.act is WriteArchive,
        distinct_paths(gathered(package.root@, files).entries),
        archive_of(package, first_entries, materials, first_time, Ok(first)),
        archive_of(package, second_entries, materials, second_time, Ok(second)),
    ensures
        first_turn == second_turn,
        first_entries == second_entries,
        plan_of(package, first_entries, materials, first_time).members.len() == plan_of(
            package,
            second_entries,
            materials,
            second_time,
        ).members.len(),
        forall|i: int|
            0 <= i < plan_of(package, first_entries, materials, first_time).members.len() ==> {
                let a = #[trigger] plan_of(package, first_entries, materials, first_time).members[i];
                let b = plan_of(package, second_entries, materials, second_time).members[i];
                &&& a.0 == b.0
                &&& a.1 == b.1
                &&& a.3 == b.3
                &&& (first_entries[i].contents is OnDisk ==> a.2 == b.2)
            },
        first_time == second_time && all_stored_as_given(
            plan_of(package, first_entries, materials, first_time).members,
        ) ==> first@ == second@,
{
    let found = gathered(package.root@, files);
    let hash = repo_part(package, opts, repository).1->Ok_0;
    lemma_listing_order_free(
        package,
        files,
        files,
        record_text(hash),
        license_on_disk,
        first_entries,
        second_entries,
    );
    lemma_only_times_differ(
        package.base_name(),
        first_entries,
        materials,
        first_time,
        second_time,
        first_entries.len() as int,
    );
    if first_time == second_time && all_stored_as_given(
        plan_of(package, first_entries, materials, first_time).members,
    ) {
        lemma_archive_determined(package, first_entries, materials, first_time, first, second);
    }
}

/// A withdrawn version does not keep the package from being published: the
/// making of the lock document warns of it and still gives the document, and
/// once the archive is written the packaging goes on to its end.
pub proof fn lemma_withdrawn_dependency_is_packaged(
    package: &PackageDescriptor,
    opts: &PackageOpts,
    orig: Option<ResolveGraph>,
    new: &ResolveGraph,
    answers: Seq<Withdrawal>,
    k: int,
)
    requires
        0 <= k < new@.len(),
        answer_at(answers, k) is Withdrawn,
        forall|i: int| 0 <= i < new@.len() ==> !(#[trigger] answer_at(answers, i) is Failed),
    ensures
        yank_check(new@, answers, new@.len() as int).failure is None,
        lock_notes(opts.verbose, package, orig, new, answers).contains(
            Remark {
                level: Level::Warning,
                message: yanked_text(new@[k], answer_at(answers, k)->Withdrawn_0@),
            },
        ),
        plain_turn(package, opts, PackageStage::Archiving, PackageEvent::Written).act == (
        if opts.verify {
            Act::Verify
        } else {
            Act::Publish
        }),
        plain_turn(package, opts, PackageStage::Verifying, PackageEvent::Verified).act
            == Act::Publish,
        plain_turn(package, opts, PackageStage::Publishing, PackageEvent::Published).act
            == Act::Finish,
{
    lemma_withdrawn_only_warns(new@, answers, new@.len() as int);
    let warning = Remark {
        level: Level::Warning,
        message: yanked_text(new@[k], answer_at(answers, k)->Withdrawn_0@),
    };
    let warnings = yank_check(new@, answers, new@.len() as int).notes;
    assert(warnings.contains(warning));
    let notes = lock_notes(opts.verbose, package, orig, new, answers);
    let i = choose|i: int| 0 <= i < warnings.len() && warnings[i] == warning;
    assert(notes[notes.len() - warnings.len() + i] == warning);
}

} // verus!
