//! What packaging tells its caller: the failures that end it and the notices
//! it gives on the way.

use vstd::prelude::*;

verus! {

/// The reason for which packaging fails.
#[derive(Clone, Copy, Debug, PartialEq, Eq, Structural)]
pub enum ErrorKind {
    /// A file name holds a character that some file systems refuse.
    SpecialCharacter,
    /// A source file bears the name kept for the version-control record.
    ReservedFileName,
    /// A source file does not lie under the package root.
    OutsideRoot,
    /// A source file is a path without a file name.
    NoFileName,
    /// A manifest among the source files was met without a reading of it.
    ManifestNotProbed,
    /// A manifest among the source files could not be read.
    ManifestUnreadable,
    /// Files differ from what version control holds.
    Dirty,
    /// A dependency on a local directory names no version.
    UnpinnedPathDependency,
    /// The verification build changed the unpacked sources.
    SourceModified,
    /// The archive's file name cannot be written into the stream's header.
    ArchiveName,
    /// An entry could not be written to the archive.
    ArchiveEntry,
    /// The archive could not be closed or compressed.
    ArchiveStream,
    /// A file or directory could not be read.
    Io,
    /// A step of the work was reported out of turn.
    Protocol,
    /// A collaborator outside this library failed.
    Collaborator,
}

/// A failure: its reason and the text shown for it.
#[derive(Debug)]
pub struct PackageError {
    pub kind: ErrorKind,
    pub message: String,
}

/// What a [`PackageError`] stands for.
pub struct Failure {
    pub kind: ErrorKind,
    pub message: Seq<char>,
}

impl View for PackageError {
    type V = Failure;

    open spec fn view(&self) -> Failure {
        Failure { kind: self.kind, message: self.message@ }
    }
}

/// How a notice is shown.
#[derive(Clone, Copy, Debug, PartialEq, Eq, Structural)]
pub enum Level {
    /// Always shown, as a warning.
    Warning,
    /// Always shown, as a remark.
    Note,
    /// Always shown, as a step of the work.
    Status,
    /// A warning shown only when verbose output is asked for.
    VerboseWarning,
    /// A step shown only when verbose output is asked for.
    VerboseStatus,
}

/// Something said while packaging goes on. It never ends the work.
#[derive(Debug)]
pub struct Notice {
    pub level: Level,
    pub message: String,
}

/// What a [`Notice`] stands for.
pub struct Remark {
    pub level: Level,
    pub message: Seq<char>,
}

impl View for Notice {
    type V = Remark;

    open spec fn view(&self) -> Remark {
        Remark { level: self.level, message: self.message@ }
    }
}

/// The views of a list of notices.
pub open spec fn remarks(v: Seq<Notice>) -> Seq<Remark> {
    v.map_values(|n: Notice| n@)
}

/// Adding a notice to a list adds its view to the list's views.
pub proof fn lemma_remarks_push(v: Seq<Notice>, n: Notice)
    ensures
        remarks(v.push(n)) == remarks(v).push(n@),
{
    assert(remarks(v.push(n)) =~= remarks(v).push(n@));
}

impl PackageError {
    /// A failure of the kind `kind` with the text `message`.
    pub fn new(kind: ErrorKind, message: String) -> (r: PackageError)
        ensures
            r@ == (Failure { kind, message: message@ }),
    {
        PackageError { kind, message }
    }
}

impl Notice {
    /// A notice at the level `level` with the text `message`.
    pub fn new(level: Level, message: String) -> (r: Notice)
        ensures
            r@ == (Remark { level, message: message@ }),
    {
        Notice { level, message }
    }
}

} // verus!
