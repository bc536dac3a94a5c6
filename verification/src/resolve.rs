//! Resolutions of the package's dependencies: what a new resolution adds to
//! the one on record, and which of its packages their registry has withdrawn.

use crate::descriptor::PackageDescriptor;
use crate::order::{parts_lt, str_before, str_lt, str_order, Ranked};
use crate::paths::lemma_parts_order;
use crate::ranked_set::{lemma_lower, lemma_place_unique, place_of, RankedSet};
use crate::report::{
    lemma_remarks_push, remarks, ErrorKind, Failure, Level, Notice, PackageError, Remark,
};
use crate::text::{join, joined, lemma_texts_push, same_text, texts};
use vstd::prelude::*;

verus! {

/// The identity of a resolved package.
#[derive(Debug)]
pub struct PackageId {
    pub name: String,
    pub version: String,
    /// Where the package comes from.
    pub source: String,
}

/// What a [`PackageId`] stands for.
pub struct IdModel {
    pub name: Seq<char>,
    pub version: Seq<char>,
    pub source: Seq<char>,
}

impl View for PackageId {
    type V = IdModel;

    open spec fn view(&self) -> IdModel {
        IdModel { name: self.name@, version: self.version@, source: self.source@ }
    }
}

/// The fields by which identities are ranked, in order.
pub open spec fn id_key(id: IdModel) -> Seq<Seq<char>> {
    seq![id.name, id.version, id.source]
}

/// The text of an identity.
pub open spec fn id_shown(id: IdModel) -> Seq<char> {
    id.name + " v"@ + id.version + " ("@ + id.source + ")"@
}

impl Ranked for PackageId {
    /// Identities are ranked by name, then version, then source.
    open spec fn before(a: IdModel, b: IdModel) -> bool {
        parts_lt(id_key(a), id_key(b))
    }

    fn precedes(&self, other: &Self) -> (r: bool) {
        proof {
            let a = id_key(self@);
            let b = id_key(other@);
            reveal_with_fuel(crate::order::lex_lt, 4);
            assert(a.skip(1) =~= seq![self@.version, self@.source]);
            assert(b.skip(1) =~= seq![other@.version, other@.source]);
            assert(a.skip(1).skip(1) =~= seq![self@.source]);
            assert(b.skip(1).skip(1) =~= seq![other@.source]);
            assert(a.skip(1).skip(1).skip(1) =~= Seq::<Seq<char>>::empty());
            assert(b.skip(1).skip(1).skip(1) =~= Seq::<Seq<char>>::empty());
            assert(str_order()(self@.name, other@.name) == str_lt(self@.name, other@.name));
            assert(str_order()(other@.name, self@.name) == str_lt(other@.name, self@.name));
            assert(str_order()(self@.version, other@.version) == str_lt(
                self@.version,
                other@.version,
            ));
            assert(str_order()(other@.version, self@.version) == str_lt(
                other@.version,
                self@.version,
            ));
            assert(str_order()(self@.source, other@.source) == str_lt(
                self@.source,
                other@.source,
            ));
            assert(str_order()(other@.source, self@.source) == str_lt(
                other@.source,
                self@.source,
            ));
        }
        if str_before(self.name.as_str(), other.name.as_str()) {
            true
        } else if str_before(other.name.as_str(), self.name.as_str()) {
            false
        } else if str_before(self.version.as_str(), other.version.as_str()) {
            true
        } else if str_before(other.version.as_str(), self.version.as_str()) {
            false
        } else {
            str_before(self.source.as_str(), other.source.as_str())
        }
    }

    proof fn lemma_weak_order(a: IdModel, b: IdModel, c: IdModel) {
        lemma_id_order(a, b, c);
    }
}

/// The rank of identities is a strict total order.
pub proof fn lemma_id_order(a: IdModel, b: IdModel, c: IdModel)
    ensures
        !PackageId::before(a, a),
        PackageId::before(a, b) && PackageId::before(b, c) ==> PackageId::before(a, c),
        !PackageId::before(a, b) && !PackageId::before(b, c) ==> !PackageId::before(a, c),
        a != b ==> PackageId::before(a, b) || PackageId::before(b, a),
{
    lemma_parts_order();
    let lt = |x: Seq<Seq<char>>, y: Seq<Seq<char>>| parts_lt(x, y);
    let ka = id_key(a);
    let kb = id_key(b);
    let kc = id_key(c);
    assert(lt(ka, ka) == parts_lt(ka, ka));
    assert(lt(ka, kb) == parts_lt(ka, kb));
    assert(lt(kb, ka) == parts_lt(kb, ka));
    assert(lt(kb, kc) == parts_lt(kb, kc));
    assert(lt(kc, kb) == parts_lt(kc, kb));
    assert(lt(ka, kc) == parts_lt(ka, kc));
    assert(lt(kc, ka) == parts_lt(kc, ka));
    if a != b {
        if ka == kb {
            assert(ka[0] == kb[0] && ka[1] == kb[1] && ka[2] == kb[2]);
        }
    }
}

/// The resolved packages of a manifest: a set of identities, held in rank
/// order.
pub type ResolveGraph = RankedSet<PackageId>;

/// In a set of identities, an identity has a place exactly when it is in the
/// set.
pub proof fn lemma_place_is_member(s: Seq<IdModel>, x: IdModel)
    requires
        crate::ranked_set::strictly_ranked::<PackageId>(s),
    ensures
        place_of::<PackageId>(s, x) is Some <==> s.contains(x),
{
    lemma_lower::<PackageId>(s, x);
    if s.contains(x) {
        let i = choose|i: int| 0 <= i < s.len() && s[i] == x;
        lemma_id_order(x, x, x);
        lemma_place_unique::<PackageId>(s, x, i);
    }
    if place_of::<PackageId>(s, x) is Some {
        let k = place_of::<PackageId>(s, x)->Some_0;
        lemma_id_order(s[k], x, x);
        assert(s[k] == x);
    }
}

/// A field of each identity that `orig` holds and `new` does not, and that
/// bears the name of `id`: with `exact`, the source of those that bear the
/// version of `id` too; without, the version.
pub open spec fn removed_fields(orig: Seq<IdModel>, new: Seq<IdModel>, id: IdModel, exact: bool) -> Seq<
    Seq<char>,
>
    decreases orig.len(),
{
    if orig.len() == 0 {
        Seq::empty()
    } else {
        let before = removed_fields(orig.drop_last(), new, id, exact);
        let r = orig.last();
        if !new.contains(r) && r.name == id.name && (!exact || r.version == id.version) {
            before.push(
                if exact {
                    r.source
                } else {
                    r.version
                },
            )
        } else {
            before
        }
    }
}

/// Each text of `list` between backquotes.
pub open spec fn quoted(list: Seq<Seq<char>>) -> Seq<Seq<char>> {
    list.map_values(|v: Seq<char>| "`"@ + v + "`"@)
}

/// What is said of why `id` is new: the source it had before, where the
/// resolution on record holds its name and version under another source;
/// else the versions on record under its name; else nothing.
pub open spec fn explanation(orig: Seq<IdModel>, new: Seq<IdModel>, id: IdModel) -> Seq<char> {
    let sources = removed_fields(orig, new, id, true);
    if sources.len() == 0 {
        let versions = removed_fields(orig, new, id, false);
        if versions.len() == 0 {
            Seq::empty()
        } else if versions.len() == 1 {
            ", previous version was `"@ + versions[0] + "`"@
        } else {
            ", previous versions were: "@ + joined(quoted(versions), ", "@)
        }
    } else if sources.len() == 1 {
        ", was originally sourced from `"@ + sources[0] + "`"@
    } else {
        ", was originally sourced from one of these sources: "@ + joined(quoted(sources), ", "@)
    }
}

/// The text of the remark on the new package `id`.
pub open spec fn added_text(orig: Seq<IdModel>, new: Seq<IdModel>, id: IdModel) -> Seq<char> {
    "package `"@ + id_shown(id) + "` added to the packaged Cargo.lock file"@ + explanation(
        orig,
        new,
        id,
    )
}

/// The remarks on the first `n` identities of `new`: one for each that
/// `orig` does not hold, but for the package being published itself.
pub open spec fn added_notes(
    name: Seq<char>,
    version: Seq<char>,
    orig: Seq<IdModel>,
    new: Seq<IdModel>,
    n: int,
) -> Seq<Remark>
    decreases n,
{
    if n <= 0 || n > new.len() {
        Seq::empty()
    } else {
        let before = added_notes(name, version, orig, new, n - 1);
        let id = new[n - 1];
        if !orig.contains(id) && !(id.name == name && id.version == version) {
            before.push(Remark { level: Level::Note, message: added_text(orig, new, id) })
        } else {
            before
        }
    }
}

/// What is remarked when the resolution `new` is held against the one on
/// record: nothing unless verbose output is asked for.
pub open spec fn resolve_notes(
    verbose: bool,
    name: Seq<char>,
    version: Seq<char>,
    orig: Seq<IdModel>,
    new: Seq<IdModel>,
) -> Seq<Remark> {
    if verbose {
        added_notes(name, version, orig, new, new.len() as int)
    } else {
        Seq::empty()
    }
}

fn id_text(id: &PackageId) -> (r: String)
    ensures
        r@ == id_shown(id@),
{
    let mut out: String = id.name.clone();
    out.append(" v");
    out.append(id.version.as_str());
    out.append(" (");
    out.append(id.source.as_str());
    out.append(")");
    proof {
        assert(out@ =~= id_shown(id@));
    }
    out
}

fn holds(set: &ResolveGraph, id: &PackageId) -> (r: bool)
    requires
        set.wf(),
    ensures
        r == set@.contains(id@),
{
    proof {
        lemma_place_is_member(set@, id@);
    }
    set.find(id).is_some()
}

fn collect_removed(orig: &ResolveGraph, new: &ResolveGraph, id: &PackageId, exact: bool) -> (r:
    Vec<String>)
    requires
        orig.wf(),
        new.wf(),
    ensures
        texts(r@) == removed_fields(orig@, new@, id@, exact),
{
    let mut out: Vec<String> = Vec::new();
    let mut i: usize = 0;
    proof {
        assert(orig@.take(0) =~= Seq::<IdModel>::empty());
        assert(texts(out@) =~= Seq::<Seq<char>>::empty());
    }
    while i < orig.len()
        invariant
            i <= orig@.len(),
            orig.wf(),
            new.wf(),
            texts(out@) == removed_fields(orig@.take(i as int), new@, id@, exact),
        decreases orig@.len() - i,
    {
        let r: &PackageId = orig.get(i);
        proof {
            assert(orig@.take(i + 1).drop_last() =~= orig@.take(i as int));
            assert(orig@.take(i + 1).last() == r@);
        }
        if !holds(new, r) && same_text(r.name.as_str(), id.name.as_str()) && (!exact || same_text(
            r.version.as_str(),
            id.version.as_str(),
        )) {
            let ghost before = out@;
            let field: String = if exact {
                r.source.clone()
            } else {
                r.version.clone()
            };
            out.push(field);
            proof {
                lemma_texts_push(before, field);
            }
        }
        i = i + 1;
    }
    proof {
        assert(orig@.take(orig@.len() as int) =~= orig@);
    }
    out
}

fn quote_join(list: &Vec<String>) -> (r: String)
    ensures
        r@ == joined(quoted(texts(list@)), ", "@),
{
    let mut marked: Vec<String> = Vec::new();
    let mut i: usize = 0;
    proof {
        assert(texts(marked@) =~= quoted(texts(list@).take(0)));
    }
    while i < list.len()
        invariant
            i <= list.len(),
            texts(marked@) == quoted(texts(list@).take(i as int)),
        decreases list.len() - i,
    {
        let ghost before = marked@;
        let mut item: String = String::from_str("`");
        item.append(list[i].as_str());
        item.append("`");
        marked.push(item);
        proof {
            lemma_texts_push(before, item);
            assert(texts(marked@) =~= quoted(texts(list@).take(i + 1)));
        }
        i = i + 1;
    }
    proof {
        assert(texts(list@).take(list.len() as int) =~= texts(list@));
    }
    join(&marked, ", ")
}

fn explain(orig: &ResolveGraph, new: &ResolveGraph, id: &PackageId) -> (r: String)
    requires
        orig.wf(),
        new.wf(),
    ensures
        r@ == explanation(orig@, new@, id@),
{
    let sources: Vec<String> = collect_removed(orig, new, id, true);
    if sources.len() == 0 {
        let versions: Vec<String> = collect_removed(orig, new, id, false);
        if versions.len() == 0 {
            String::new()
        } else if versions.len() == 1 {
            let mut out: String = String::from_str(", previous version was `");
            out.append(versions[0].as_str());
            out.append("`");
            out
        } else {
            let mut out: String = String::from_str(", previous versions were: ");
            out.append(quote_join(&versions).as_str());
            out
        }
    } else if sources.len() == 1 {
        let mut out: String = String::from_str(", was originally sourced from `");
        out.append(sources[0].as_str());
        out.append("`");
        out
    } else {
        let mut out: String = String::from_str(
            ", was originally sourced from one of these sources: ",
        );
        out.append(quote_join(&sources).as_str());
        out
    }
}

/// Holds the resolution `new` against `orig`, the one on record, and remarks
/// on each package that is new. Nothing is remarked unless `verbose`.
pub fn compare_resolve(
    verbose: bool,
    current: &PackageDescriptor,
    orig: &ResolveGraph,
    new: &ResolveGraph,
) -> (r: Vec<Notice>)
    requires
        orig.wf(),
        new.wf(),
    ensures
        remarks(r@) == resolve_notes(verbose, current.name@, current.version@, orig@, new@),
{
    let mut notes: Vec<Notice> = Vec::new();
    proof {
        assert(remarks(notes@) =~= Seq::<Remark>::empty());
    }
    if !verbose {
        return notes;
    }
    let mut i: usize = 0;
    while i < new.len()
        invariant
            i <= new@.len(),
            orig.wf(),
            new.wf(),
            remarks(notes@) == added_notes(
                current.name@,
                current.version@,
                orig@,
                new@,
                i as int,
            ),
        decreases new@.len() - i,
    {
        let id: &PackageId = new.get(i);
        let own: bool = same_text(id.name.as_str(), current.name.as_str()) && same_text(
            id.version.as_str(),
            current.version.as_str(),
        );
        if !holds(orig, id) && !own {
            let ghost before = notes@;
            let mut message: String = String::from_str("package `");
            message.append(id_text(id).as_str());
            message.append("` added to the packaged Cargo.lock file");
            message.append(explain(orig, new, id).as_str());
            proof {
                assert(message@ =~= added_text(orig@, new@, id@));
            }
            let note: Notice = Notice::new(Level::Note, message);
            notes.push(note);
            proof {
                lemma_remarks_push(before, note);
            }
        }
        i = i + 1;
    }
    notes
}

/// What the registry says of one resolved package.
#[derive(Debug)]
pub enum Withdrawal {
    /// No registry answers for the package.
    NoSource,
    /// The version stands.
    Kept,
    /// The version was withdrawn from the registry of this name.
    Withdrawn(String),
    /// The registry could not be asked, for the reason given.
    Failed(String),
}

/// The text of the warning for a withdrawn version.
pub open spec fn yanked_text(id: IdModel, registry: Seq<char>) -> Seq<char> {
    "package `"@ + id_shown(id) + "` in Cargo.lock is yanked in registry `"@ + registry
        + "`, consider updating to a version that is not yanked"@
}

/// How the check of withdrawn versions ends.
pub struct YankModel {
    pub notes: Seq<Remark>,
    pub failure: Option<Failure>,
}

/// The answer on the package at `i`: `NoSource` where none was given.
pub open spec fn answer_at(answers: Seq<Withdrawal>, i: int) -> Withdrawal {
    if 0 <= i < answers.len() {
        answers[i]
    } else {
        Withdrawal::NoSource
    }
}

/// The check of the first `n` packages of `ids`: a warning for each
/// withdrawn version, up to the first package whose registry could not be
/// asked, where the check fails.
pub open spec fn yank_check(ids: Seq<IdModel>, answers: Seq<Withdrawal>, n: int) -> YankModel
    decreases n,
{
    if n <= 0 || n > ids.len() {
        YankModel { notes: Seq::empty(), failure: None }
    } else {
        let before = yank_check(ids, answers, n - 1);
        if before.failure is Some {
            before
        } else {
            match answer_at(answers, n - 1) {
                Withdrawal::Withdrawn(registry) => YankModel {
                    notes: before.notes.push(
                        Remark {
                            level: Level::Warning,
                            message: yanked_text(ids[n - 1], registry@),
                        },
                    ),
                    failure: None,
                },
                Withdrawal::Failed(reason) => YankModel {
                    notes: before.notes,
                    failure: Some(Failure { kind: ErrorKind::Collaborator, message: reason@ }),
                },
                _ => before,
            }
        }
    }
}

/// Once the check has failed it goes no further.
pub proof fn lemma_yank_failure(ids: Seq<IdModel>, answers: Seq<Withdrawal>, k: int, n: int)
    requires
        0 <= k <= n <= ids.len(),
        yank_check(ids, answers, k).failure is Some,
    ensures
        yank_check(ids, answers, n) == yank_check(ids, answers, k),
    decreases n - k,
{
    if k < n {
        lemma_yank_failure(ids, answers, k, n - 1);
    }
}

/// A withdrawn version never makes the check fail: unless a registry could
/// not be asked, the check succeeds, and it warns of the withdrawn version.
pub proof fn lemma_withdrawn_only_warns(ids: Seq<IdModel>, answers: Seq<Withdrawal>, n: int)
    requires
        0 <= n <= ids.len(),
        forall|i: int| 0 <= i < n ==> !(#[trigger] answer_at(answers, i) is Failed),
    ensures
        yank_check(ids, answers, n).failure is None,
        forall|k: int|
            0 <= k < n && (#[trigger] answer_at(answers, k)) is Withdrawn ==> yank_check(
                ids,
                answers,
                n,
            ).notes.contains(
                Remark {
                    level: Level::Warning,
                    message: yanked_text(ids[k], answer_at(answers, k)->Withdrawn_0@),
                },
            ),
    decreases n,
{
    if n > 0 {
        lemma_withdrawn_only_warns(ids, answers, n - 1);
        let before = yank_check(ids, answers, n - 1);
        let now = yank_check(ids, answers, n);
        assert(!(answer_at(answers, n - 1) is Failed));
        assert forall|k: int|
            0 <= k < n && (#[trigger] answer_at(answers, k)) is Withdrawn implies now.notes.contains(
            Remark {
                level: Level::Warning,
                message: yanked_text(ids[k], answer_at(answers, k)->Withdrawn_0@),
            },
        ) by {
            let note = Remark {
                level: Level::Warning,
                message: yanked_text(ids[k], answer_at(answers, k)->Withdrawn_0@),
            };
            if k == n - 1 {
                assert(now.notes.last() == note);
            } else {
                assert(before.notes.contains(note));
                let i = choose|i: int| 0 <= i < before.notes.len() && before.notes[i] == note;
                assert(now.notes[i] == note);
            }
        }
    }
}

/// How a check ends that gives notices and may fail.
#[derive(Debug)]
pub struct Checked {
    pub notices: Vec<Notice>,
    pub failure: Option<PackageError>,
}

/// The view of a failure that may be absent.
pub open spec fn failure_view(e: Option<PackageError>) -> Option<Failure> {
    match e {
        Some(e) => Some(e@),
        None => None,
    }
}

/// Warns of each resolved package whose version its registry has withdrawn.
/// `answers` holds what the registries said, one answer for each package of
/// `resolve` in order.
pub fn check_yanked(resolve: &ResolveGraph, answers: &Vec<Withdrawal>) -> (r: Checked)
    ensures
        remarks(r.notices@) == yank_check(resolve@, answers@, resolve@.len() as int).notes,
        failure_view(r.failure) == yank_check(resolve@, answers@, resolve@.len() as int).failure,
{
    let mut notices: Vec<Notice> = Vec::new();
    proof {
        assert(remarks(notices@) =~= Seq::<Remark>::empty());
    }
    let mut i: usize = 0;
    while i < resolve.len()
        invariant
            i <= resolve@.len(),
            yank_check(resolve@, answers@, i as int) == (YankModel {
                notes: remarks(notices@),
                failure: None,
            }),
        decreases resolve@.len() - i,
    {
        if i < answers.len() {
            match &answers[i] {
                Withdrawal::Withdrawn(registry) => {
                    let ghost before = notices@;
                    let mut message: String = String::from_str("package `");
                    message.append(id_text(resolve.get(i)).as_str());
                    message.append("` in Cargo.lock is yanked in registry `");
                    message.append(registry.as_str());
                    message.append("`, consider updating to a version that is not yanked");
                    proof {
                        assert(message@ =~= yanked_text(resolve@[i as int], registry@));
                    }
                    let notice: Notice = Notice::new(Level::Warning, message);
                    notices.push(notice);
                    proof {
                        lemma_remarks_push(before, notice);
                    }
                },
                Withdrawal::Failed(reason) => {
                    let failure = PackageError::new(ErrorKind::Collaborator, reason.clone());
                    proof {
                        assert(yank_check(resolve@, answers@, i + 1).failure == Some(failure@));
                        lemma_yank_failure(resolve@, answers@, i + 1, resolve@.len() as int);
                    }
                    return Checked { notices, failure: Some(failure) };
                },
                _ => {},
            }
        }
        i = i + 1;
    }
    Checked { notices, failure: None }
}

/// How the making of the lock document ends.
#[derive(Debug)]
pub struct LockOutcome {
    pub notices: Vec<Notice>,
    /// The text of the lock document.
    pub result: Result<String, PackageError>,
}

/// The notices given while the lock document is made: what the new
/// resolution adds to the one on record, where there is one, then the
/// withdrawn versions.
pub open spec fn lock_notes(
    verbose: bool,
    package: &PackageDescriptor,
    orig: Option<ResolveGraph>,
    new: &ResolveGraph,
    answers: Seq<Withdrawal>,
) -> Seq<Remark> {
    (match orig {
        Some(orig) => resolve_notes(verbose, package.name@, package.version@, orig@, new@),
        None => Seq::empty(),
    }) + yank_check(new@, answers, new@.len() as int).notes
}

/// Makes the lock document of the package to be published.
///
/// `new` is the resolution of the manifest as it will be published, `orig`
/// the one on record, `answers` what the registries say of the packages of
/// `new`, and `serialized` the text of `new`. The text is returned unless a
/// registry could not be asked.
pub fn build_lock(
    verbose: bool,
    package: &PackageDescriptor,
    orig: &Option<ResolveGraph>,
    new: &ResolveGraph,
    answers: &Vec<Withdrawal>,
    serialized: String,
) -> (r: LockOutcome)
    requires
        new.wf(),
        orig matches Some(o) ==> o.wf(),
    ensures
        remarks(r.notices@) == lock_notes(verbose, package, *orig, new, answers@),
        match yank_check(new@, answers@, new@.len() as int).failure {
            Some(failure) => r.result matches Err(e) && e@ == failure,
            None => r.result == Ok::<String, PackageError>(serialized),
        },
{
    let mut notices: Vec<Notice> = match orig {
        Some(orig) => compare_resolve(verbose, package, orig, new),
        None => Vec::new(),
    };
    let ghost first = remarks(notices@);
    proof {
        if orig is None {
            assert(first =~= Seq::<Remark>::empty());
        }
    }
    let checked: Checked = check_yanked(new, answers);
    let Checked { notices: mut warnings, failure } = checked;
    let ghost second = remarks(warnings@);
    notices.append(&mut warnings);
    proof {
        assert(remarks(notices@) =~= first + second);
    }
    match failure {
        Some(e) => LockOutcome { notices, result: Err(e) },
        None => LockOutcome { notices, result: Ok(serialized) },
    }
}

} // verus!
