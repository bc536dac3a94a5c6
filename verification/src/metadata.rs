//! What the manifest must say before the package is published: who it is
//! for, and which version of each local dependency it needs.

use crate::descriptor::{Dependency, Metadata, PackageDescriptor, SourceKind};
use crate::report::{ErrorKind, Failure, Level, Notice, PackageError, Remark};
use crate::text::{join, joined, lemma_texts_push, texts};
use vstd::prelude::*;

verus! {

/// The field is not set, or set to nothing.
pub open spec fn blank(field: Option<String>) -> bool {
    match field {
        Some(text) => text@.len() == 0,
        None => true,
    }
}

/// The names of the fields that the manifest lacks. Of a group of fields
/// that serve one purpose, one that is set is enough; where none is, all are
/// named.
pub open spec fn lacking(md: &Metadata) -> Seq<Seq<char>> {
    (if blank(md.description) {
        seq!["description"@]
    } else {
        Seq::empty()
    }) + (if blank(md.license) && blank(md.license_file) {
        seq!["license"@, "license-file"@]
    } else {
        Seq::empty()
    }) + (if blank(md.documentation) && blank(md.homepage) && blank(md.repository) {
        seq!["documentation"@, "homepage"@, "repository"@]
    } else {
        Seq::empty()
    })
}

/// The names of `missing` in a row: commas between them, and `or` before the
/// last.
pub open spec fn alternatives(missing: Seq<Seq<char>>) -> Seq<char> {
    let head = joined(missing.drop_last(), ", "@);
    (if head.len() > 0 {
        head + " or "@
    } else {
        head
    }) + missing.last()
}

/// The text of the warning for a manifest that lacks the fields `missing`.
pub open spec fn missing_metadata_text(missing: Seq<Seq<char>>) -> Seq<char> {
    "manifest has no "@ + alternatives(missing)
        + ".\nSee https://doc.rust-lang.org/cargo/reference/manifest.html#package-metadata for more info."@
}

/// The warning for a manifest that lacks fields; none where it lacks none.
pub open spec fn metadata_verdict(md: &Metadata) -> Option<Remark> {
    if lacking(md).len() == 0 {
        None
    } else {
        Some(Remark { level: Level::Warning, message: missing_metadata_text(lacking(md)) })
    }
}

fn is_blank(field: &Option<String>) -> (r: bool)
    ensures
        r == blank(*field),
{
    match field {
        Some(text) => text.as_str().unicode_len() == 0,
        None => true,
    }
}

fn note_missing(missing: &mut Vec<String>, name: &str)
    ensures
        texts(final(missing)@) == texts(old(missing)@).push(name@),
{
    let ghost before = missing@;
    let text: String = String::from_str(name);
    missing.push(text);
    proof {
        lemma_texts_push(before, text);
    }
}

/// The view of a notice that may be absent.
pub open spec fn notice_view(n: Option<Notice>) -> Option<Remark> {
    match n {
        Some(n) => Some(n@),
        None => None,
    }
}

/// Checks that the manifest says what the package is about, under which
/// license it comes and where more can be read.
pub fn check_metadata(package: &PackageDescriptor) -> (r: Option<Notice>)
    ensures
        notice_view(r) == metadata_verdict(&package.metadata),
{
    let md: &Metadata = &package.metadata;
    let mut missing: Vec<String> = Vec::new();
    proof {
        assert(texts(missing@) =~= Seq::<Seq<char>>::empty());
    }
    if is_blank(&md.description) {
        note_missing(&mut missing, "description");
    }
    let ghost first = texts(missing@);
    if is_blank(&md.license) && is_blank(&md.license_file) {
        note_missing(&mut missing, "license");
        note_missing(&mut missing, "license-file");
    }
    let ghost second = texts(missing@);
    if is_blank(&md.documentation) && is_blank(&md.homepage) && is_blank(&md.repository) {
        note_missing(&mut missing, "documentation");
        note_missing(&mut missing, "homepage");
        note_missing(&mut missing, "repository");
    }
    proof {
        assert(texts(missing@) =~= lacking(md));
    }
    if missing.len() == 0 {
        return None;
    }
    let last: String = missing.pop().unwrap();
    proof {
        assert(texts(missing@) =~= lacking(md).drop_last());
        assert(last@ == lacking(md).last());
    }
    let mut things: String = join(&missing, ", ");
    if things.as_str().unicode_len() > 0 {
        things.append(" or ");
    }
    things.append(last.as_str());
    let mut message: String = String::from_str("manifest has no ");
    message.append(things.as_str());
    message.append(
        ".\nSee https://doc.rust-lang.org/cargo/reference/manifest.html#package-metadata for more info.",
    );
    Some(Notice::new(Level::Warning, message))
}

/// The dependency is on a local directory, is needed by those who depend on
/// the package, and names no version: nobody could use the package.
pub open spec fn unpinned(dep: Dependency) -> bool {
    dep.kind == SourceKind::Path && dep.requirement is None && dep.transitive
}

/// The place of the first unpinned dependency among the first `n`.
pub open spec fn first_unpinned(deps: Seq<Dependency>, n: int) -> Option<int>
    decreases n,
{
    if n <= 0 || n > deps.len() {
        None
    } else {
        match first_unpinned(deps, n - 1) {
            Some(k) => Some(k),
            None => if unpinned(deps[n - 1]) {
                Some(n - 1)
            } else {
                None
            },
        }
    }
}

/// The first unpinned dependency stays the first when more are looked at.
pub proof fn lemma_first_unpinned(deps: Seq<Dependency>, k: int, n: int)
    requires
        0 <= k <= n <= deps.len(),
        first_unpinned(deps, k) is Some,
    ensures
        first_unpinned(deps, n) == first_unpinned(deps, k),
    decreases n - k,
{
    if k < n {
        lemma_first_unpinned(deps, k, n - 1);
    }
}

/// The text of the failure for the unpinned dependency `name`.
pub open spec fn unpinned_text(name: Seq<char>) -> Seq<char> {
    "all path dependencies must have a version specified when packaging.\ndependency `"@ + name
        + "` does not specify a version."@
}

/// What the check of the dependencies comes to: a failure that names the
/// first unpinned dependency, where there is one.
pub open spec fn dependencies_verdict(deps: Seq<Dependency>) -> Option<Failure> {
    match first_unpinned(deps, deps.len() as int) {
        Some(k) => Some(
            Failure {
                kind: ErrorKind::UnpinnedPathDependency,
                message: unpinned_text(deps[k].name@),
            },
        ),
        None => None,
    }
}

/// Checks that the dependencies of the package can be met by those who get
/// it from a registry.
pub fn verify_dependencies(package: &PackageDescriptor) -> (r: Result<(), PackageError>)
    ensures
        match dependencies_verdict(package.dependencies@) {
            Some(failure) => r matches Err(e) && e@ == failure,
            None => r is Ok,
        },
{
    let deps: &Vec<Dependency> = &package.dependencies;
    let mut i: usize = 0;
    while i < deps.len()
        invariant
            i <= deps.len(),
            deps@ == package.dependencies@,
            first_unpinned(deps@, i as int) is None,
        decreases deps.len() - i,
    {
        let dep: &Dependency = &deps[i];
        let local: bool = match dep.kind {
            SourceKind::Path => true,
            _ => false,
        };
        if local && dep.requirement.is_none() && dep.transitive {
            let mut message: String = String::from_str(
                "all path dependencies must have a version specified when packaging.\ndependency `",
            );
            message.append(dep.name.as_str());
            message.append("` does not specify a version.");
            proof {
                assert(message@ =~= unpinned_text(dep.name@));
                assert(first_unpinned(deps@, i + 1) == Some(i as int));
                lemma_first_unpinned(deps@, i + 1, deps@.len() as int);
            }
            return Err(PackageError::new(ErrorKind::UnpinnedPathDependency, message));
        }
        i = i + 1;
    }
    Ok(())
}

} // verus!
