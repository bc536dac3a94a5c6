//! Fingerprints of directory trees: a content hash for each path, taken
//! before and after the verification build to see what the build changed.

use crate::order::{lemma_str_order, str_before, str_lt, str_order, Ranked};
use crate::paths::FilePath;
use crate::ranked_set::{
    lemma_lower, lemma_place_unique, lemma_ranked_sets_equal, place_of, strictly_ranked,
    RankedSet,
};
use crate::report::{ErrorKind, Failure, PackageError};
use crate::text::{join, joined, lemma_texts_push, same_text, texts};
use vstd::prelude::*;

verus! {

/// The hash of one path.
#[derive(Debug)]
pub struct PathHash {
    pub path: String,
    pub hash: u64,
}

/// What a [`PathHash`] stands for.
pub struct HashModel {
    pub path: Seq<char>,
    pub hash: u64,
}

impl View for PathHash {
    type V = HashModel;

    open spec fn view(&self) -> HashModel {
        HashModel { path: self.path@, hash: self.hash }
    }
}

impl Ranked for PathHash {
    /// The hashes are ranked by their paths, in the order of strings.
    open spec fn before(a: HashModel, b: HashModel) -> bool {
        str_lt(a.path, b.path)
    }

    fn precedes(&self, other: &Self) -> (r: bool) {
        str_before(self.path.as_str(), other.path.as_str())
    }

    proof fn lemma_weak_order(a: HashModel, b: HashModel, c: HashModel) {
        lemma_path_rank(a, b, c);
    }
}

/// The rank of hashes is a strict order that tells any two paths apart.
pub proof fn lemma_path_rank(a: HashModel, b: HashModel, c: HashModel)
    ensures
        !PathHash::before(a, a),
        PathHash::before(a, b) && PathHash::before(b, c) ==> PathHash::before(a, c),
        !PathHash::before(a, b) && !PathHash::before(b, c) ==> !PathHash::before(a, c),
        a.path != b.path ==> PathHash::before(a, b) || PathHash::before(b, a),
{
    lemma_str_order();
    let lt = str_order();
    assert(lt(a.path, a.path) == str_lt(a.path, a.path));
    assert(lt(a.path, b.path) == str_lt(a.path, b.path));
    assert(lt(b.path, a.path) == str_lt(b.path, a.path));
    assert(lt(b.path, c.path) == str_lt(b.path, c.path));
    assert(lt(c.path, b.path) == str_lt(c.path, b.path));
    assert(lt(a.path, c.path) == str_lt(a.path, c.path));
    assert(lt(c.path, a.path) == str_lt(c.path, a.path));
}

/// A fingerprint: for each path of a directory tree its hash, the paths in
/// the order of strings.
pub type Fingerprint = RankedSet<PathHash>;

/// The hash that `s` holds for `path`, if it holds one.
pub open spec fn hash_of(s: Seq<HashModel>, path: Seq<char>) -> Option<u64> {
    match place_of::<PathHash>(s, HashModel { path, hash: 0 }) {
        Some(k) => Some(s[k].hash),
        None => None,
    }
}

/// The hash that the fingerprint holds for `path`.
pub fn lookup(print: &Fingerprint, path: &str) -> (r: Option<u64>)
    ensures
        r == hash_of(print@, path@),
{
    let probe = PathHash { path: String::from_str(path), hash: 0 };
    match print.find(&probe) {
        Some(k) => Some(print.get(k).hash),
        None => None,
    }
}

/// Which paths of a fingerprint a listing names, seen from another
/// fingerprint.
#[derive(Clone, Copy, Debug, PartialEq, Eq, Structural)]
pub enum Change {
    /// The paths that the other holds too, with another hash.
    Differing,
    /// The paths that the other does not hold.
    Missing,
}

/// Whether the entry `e` of one fingerprint is of the kind `what`, seen from
/// the fingerprint `other`.
pub open spec fn is_change(e: HashModel, other: Seq<HashModel>, what: Change) -> bool {
    match what {
        Change::Differing => hash_of(other, e.path) matches Some(h) && h != e.hash,
        Change::Missing => hash_of(other, e.path) is None,
    }
}

/// The paths of `of` that are of the kind `what`, seen from `other`, in the
/// order of `of`.
pub open spec fn listed(of: Seq<HashModel>, other: Seq<HashModel>, what: Change) -> Seq<Seq<char>>
    decreases of.len(),
{
    if of.len() == 0 {
        Seq::empty()
    } else {
        let before = listed(of.drop_last(), other, what);
        if is_change(of.last(), other, what) {
            before.push(of.last().path)
        } else {
            before
        }
    }
}

/// Lists the paths of `of` that are of the kind `what`, seen from `other`.
pub fn list_changes(of: &Fingerprint, other: &Fingerprint, what: Change) -> (r: Vec<String>)
    ensures
        texts(r@) == listed(of@, other@, what),
{
    let mut out: Vec<String> = Vec::new();
    let mut i: usize = 0;
    proof {
        assert(of@.take(0) =~= Seq::<HashModel>::empty());
        assert(texts(out@) =~= Seq::<Seq<char>>::empty());
    }
    while i < of.len()
        invariant
            i <= of@.len(),
            texts(out@) == listed(of@.take(i as int), other@, what),
        decreases of@.len() - i,
    {
        let e: &PathHash = of.get(i);
        proof {
            assert(of@.take(i + 1).drop_last() =~= of@.take(i as int));
            assert(of@.take(i + 1).last() == e@);
        }
        let found: Option<u64> = lookup(other, e.path.as_str());
        let hit: bool = match what {
            Change::Differing => match found {
                Some(h) => h != e.hash,
                None => false,
            },
            Change::Missing => found.is_none(),
        };
        if hit {
            let ghost before = out@;
            let path: String = e.path.clone();
            out.push(path);
            proof {
                lemma_texts_push(before, path);
            }
        }
        i = i + 1;
    }
    proof {
        assert(of@.take(of@.len() as int) =~= of@);
    }
    out
}

/// The paths whose hash changed from `orig` to `after`.
pub open spec fn changed(orig: Seq<HashModel>, after: Seq<HashModel>) -> Seq<Seq<char>> {
    listed(orig, after, Change::Differing)
}

/// The paths that `after` holds and `orig` does not.
pub open spec fn added(orig: Seq<HashModel>, after: Seq<HashModel>) -> Seq<Seq<char>> {
    listed(after, orig, Change::Missing)
}

/// The paths that `orig` holds and `after` does not.
pub open spec fn removed(orig: Seq<HashModel>, after: Seq<HashModel>) -> Seq<Seq<char>> {
    listed(orig, after, Change::Missing)
}

/// Some path was changed, added or removed.
pub open spec fn has_difference(orig: Seq<HashModel>, after: Seq<HashModel>) -> bool {
    changed(orig, after).len() + added(orig, after).len() + removed(orig, after).len() > 0
}

/// A block of the report: a label and the paths it is about, one to a line.
pub open spec fn block(label: Seq<char>, paths: Seq<Seq<char>>) -> Seq<char> {
    label + joined(paths, "\n\t"@)
}

/// The blocks of the report: one for each kind of change that occurs.
pub open spec fn blocks(orig: Seq<HashModel>, after: Seq<HashModel>) -> Seq<Seq<char>> {
    (if changed(orig, after).len() > 0 {
        seq![block("Changed: "@, changed(orig, after))]
    } else {
        Seq::empty()
    }) + (if added(orig, after).len() > 0 {
        seq![block("Added: "@, added(orig, after))]
    } else {
        Seq::empty()
    }) + (if removed(orig, after).len() > 0 {
        seq![block("Removed: "@, removed(orig, after))]
    } else {
        Seq::empty()
    })
}

/// The report of what differs between two fingerprints.
pub open spec fn diff_report(orig: Seq<HashModel>, after: Seq<HashModel>) -> Seq<char> {
    joined(blocks(orig, after), "\n"@)
}

/// The hash that a fingerprint holds for the path of one of its entries is
/// the hash of that entry.
pub proof fn lemma_hash_of_entry(s: Seq<HashModel>, i: int)
    requires
        strictly_ranked::<PathHash>(s),
        0 <= i < s.len(),
    ensures
        hash_of(s, s[i].path) == Some(s[i].hash),
{
    let probe = HashModel { path: s[i].path, hash: 0 };
    lemma_path_rank(s[i], probe, probe);
    lemma_path_rank(probe, s[i], probe);
    lemma_place_unique::<PathHash>(s, probe, i);
}

/// Where a fingerprint holds a hash for a path, it has an entry of that
/// path and hash.
pub proof fn lemma_hash_of_found(s: Seq<HashModel>, path: Seq<char>)
    requires
        hash_of(s, path) is Some,
    ensures
        s.contains(HashModel { path, hash: hash_of(s, path)->Some_0 }),
{
    let probe = HashModel { path, hash: 0 };
    lemma_lower::<PathHash>(s, probe);
    let k = place_of::<PathHash>(s, probe)->Some_0;
    lemma_path_rank(s[k], probe, probe);
    assert(s[k].path == path);
    assert(s[k] == HashModel { path, hash: s[k].hash });
}

/// `path` is the path of an entry of `of` that is of the kind `what`, seen
/// from `other`.
pub open spec fn names_change(
    of: Seq<HashModel>,
    other: Seq<HashModel>,
    what: Change,
    path: Seq<char>,
) -> bool {
    exists|i: int| 0 <= i < of.len() && is_change(#[trigger] of[i], other, what) && of[i].path == path
}

/// A listing names the path of each entry that is of its kind, and of no
/// other.
pub proof fn lemma_listed(of: Seq<HashModel>, other: Seq<HashModel>, what: Change)
    ensures
        listed(of, other, what).len() <= of.len(),
        forall|i: int|
            0 <= i < of.len() && is_change(#[trigger] of[i], other, what) ==> listed(
                of,
                other,
                what,
            ).contains(of[i].path),
        forall|j: int|
            0 <= j < listed(of, other, what).len() ==> names_change(
                of,
                other,
                what,
                #[trigger] listed(of, other, what)[j],
            ),
    decreases of.len(),
{
    if of.len() > 0 {
        let front = of.drop_last();
        let got = listed(of, other, what);
        let inner = listed(front, other, what);
        lemma_listed(front, other, what);
        assert forall|i: int|
            0 <= i < of.len() && is_change(#[trigger] of[i], other, what) implies got.contains(
            of[i].path,
        ) by {
            if i == of.len() - 1 {
                assert(got[got.len() - 1] == of[i].path);
            } else {
                assert(front[i] == of[i]);
                assert(inner.contains(front[i].path));
                let j = choose|j: int| 0 <= j < inner.len() && inner[j] == front[i].path;
                assert(got[j] == of[i].path);
            }
        }
        assert forall|j: int| 0 <= j < got.len() implies names_change(
            of,
            other,
            what,
            #[trigger] got[j],
        ) by {
            if j < inner.len() {
                assert(got[j] == inner[j]);
                assert(names_change(front, other, what, inner[j]));
                let i = choose|i: int|
                    0 <= i < front.len() && is_change(#[trigger] front[i], other, what)
                        && front[i].path == inner[j];
                assert(of[i] == front[i]);
            } else {
                assert(of[of.len() - 1].path == got[j]);
            }
        }
    }
}

/// Each block of the report names its paths in the order of strings, each
/// path once.
pub proof fn lemma_listed_sorted(of: Seq<HashModel>, other: Seq<HashModel>, what: Change)
    requires
        strictly_ranked::<PathHash>(of),
    ensures
        forall|i: int, j: int|
            0 <= i < j < listed(of, other, what).len() ==> str_lt(
                #[trigger] listed(of, other, what)[i],
                #[trigger] listed(of, other, what)[j],
            ),
    decreases of.len(),
{
    if of.len() > 0 {
        let front = of.drop_last();
        let got = listed(of, other, what);
        let inner = listed(front, other, what);
        assert(strictly_ranked::<PathHash>(front)) by {
            assert forall|i: int, j: int| 0 <= i < j < front.len() implies PathHash::before(
                #[trigger] front[i],
                #[trigger] front[j],
            ) by {
                assert(front[i] == of[i] && front[j] == of[j]);
            }
        }
        lemma_listed_sorted(front, other, what);
        lemma_listed(front, other, what);
        assert forall|i: int, j: int| 0 <= i < j < got.len() implies str_lt(
            #[trigger] got[i],
            #[trigger] got[j],
        ) by {
            if j < inner.len() {
                assert(got[i] == inner[i] && got[j] == inner[j]);
            } else {
                assert(got[i] == inner[i]);
                assert(names_change(front, other, what, inner[i]));
                let k = choose|k: int|
                    0 <= k < front.len() && is_change(#[trigger] front[k], other, what)
                        && front[k].path == inner[i];
                assert(front[k] == of[k]);
                assert(PathHash::before(of[k], of[of.len() - 1]));
            }
        }
    }
}

/// Two fingerprints differ in some path exactly when they are not the same
/// fingerprint.
pub proof fn lemma_difference_iff_unequal(orig: Seq<HashModel>, after: Seq<HashModel>)
    requires
        strictly_ranked::<PathHash>(orig),
        strictly_ranked::<PathHash>(after),
    ensures
        has_difference(orig, after) <==> orig != after,
{
    lemma_listed(orig, after, Change::Differing);
    lemma_listed(orig, after, Change::Missing);
    lemma_listed(after, orig, Change::Missing);
    if orig == after {
        assert forall|i: int| 0 <= i < orig.len() implies !is_change(
            #[trigger] orig[i],
            after,
            Change::Differing,
        ) && !is_change(orig[i], after, Change::Missing) by {
            lemma_hash_of_entry(orig, i);
        }
        if changed(orig, after).len() > 0 {
            let p = changed(orig, after)[0];
        }
        if removed(orig, after).len() > 0 {
            let p = removed(orig, after)[0];
        }
        if added(orig, after).len() > 0 {
            let p = added(orig, after)[0];
        }
        assert(!has_difference(orig, after));
    }
    if !has_difference(orig, after) {
        assert forall|i: int| 0 <= i < orig.len() implies after.contains(#[trigger] orig[i]) by {
            if is_change(orig[i], after, Change::Differing) {
                assert(changed(orig, after).contains(orig[i].path));
            }
            if is_change(orig[i], after, Change::Missing) {
                assert(removed(orig, after).contains(orig[i].path));
            }
            lemma_hash_of_found(after, orig[i].path);
            assert(orig[i] == HashModel { path: orig[i].path, hash: orig[i].hash });
        }
        assert forall|j: int| 0 <= j < after.len() implies orig.contains(#[trigger] after[j]) by {
            if is_change(after[j], orig, Change::Missing) {
                assert(added(orig, after).contains(after[j].path));
            }
            lemma_hash_of_found(orig, after[j].path);
            let e = HashModel { path: after[j].path, hash: hash_of(orig, after[j].path)->Some_0 };
            let k = choose|k: int| 0 <= k < orig.len() && orig[k] == e;
            assert(after.contains(orig[k]));
            let m = choose|m: int| 0 <= m < after.len() && after[m] == orig[k];
            lemma_path_rank(after[m], after[j], after[j]);
            if m < j {
                assert(PathHash::before(after[m], after[j]));
            } else if j < m {
                assert(PathHash::before(after[j], after[m]));
                lemma_path_rank(after[j], after[m], after[m]);
            }
            assert(m == j);
        }
        assert forall|x: HashModel| orig.contains(x) <==> after.contains(x) by {
            if orig.contains(x) {
                let i = choose|i: int| 0 <= i < orig.len() && orig[i] == x;
                assert(after.contains(orig[i]));
            }
            if after.contains(x) {
                let j = choose|j: int| 0 <= j < after.len() && after[j] == x;
                assert(orig.contains(after[j]));
            }
        }
        lemma_ranked_sets_equal::<PathHash>(orig, after);
    }
}

/// Whether the two fingerprints differ in some path.
pub fn differs(orig: &Fingerprint, after: &Fingerprint) -> (r: bool)
    ensures
        r == has_difference(orig@, after@),
{
    let c: Vec<String> = list_changes(orig, after, Change::Differing);
    let a: Vec<String> = list_changes(after, orig, Change::Missing);
    let d: Vec<String> = list_changes(orig, after, Change::Missing);
    c.len() > 0 || a.len() > 0 || d.len() > 0
}

fn labelled(label: &str, paths: &Vec<String>) -> (r: String)
    ensures
        r@ == block(label@, texts(paths@)),
{
    let mut out: String = String::from_str(label);
    out.append(join(paths, "\n\t").as_str());
    out
}

/// Reports what differs between two fingerprints: the paths changed, added
/// and removed, each kind in a block of its own, the paths of a block in the
/// order of strings. There must be a difference to report.
pub fn report_hash_difference(orig: &Fingerprint, after: &Fingerprint) -> (r: String)
    requires
        orig.wf(),
        after.wf(),
        has_difference(orig@, after@),
    ensures
        r@ == diff_report(orig@, after@),
{
    let c: Vec<String> = list_changes(orig, after, Change::Differing);
    let a: Vec<String> = list_changes(after, orig, Change::Missing);
    let d: Vec<String> = list_changes(orig, after, Change::Missing);
    let mut parts: Vec<String> = Vec::new();
    proof {
        assert(texts(parts@) =~= Seq::<Seq<char>>::empty());
    }
    if c.len() > 0 {
        let ghost before = parts@;
        let text: String = labelled("Changed: ", &c);
        parts.push(text);
        proof {
            lemma_texts_push(before, text);
        }
    }
    let ghost first = texts(parts@);
    if a.len() > 0 {
        let ghost before = parts@;
        let text: String = labelled("Added: ", &a);
        parts.push(text);
        proof {
            lemma_texts_push(before, text);
        }
    }
    let ghost second = texts(parts@);
    if d.len() > 0 {
        let ghost before = parts@;
        let text: String = labelled("Removed: ", &d);
        parts.push(text);
        proof {
            lemma_texts_push(before, text);
        }
    }
    proof {
        assert(texts(parts@) =~= blocks(orig@, after@));
    }
    join(&parts, "\n")
}

/// What kind of thing a walk of a directory tree has met.
#[derive(Debug)]
pub enum Walked {
    /// A regular file, with its bytes.
    File(Vec<u8>),
    /// A symbolic link, with the bytes of its target.
    Symlink(Vec<u8>),
    /// A directory.
    Dir,
    /// Something else.
    Other,
    /// Something that could not be read, for the reason given.
    Unreadable(String),
}

/// One step of a walk: a path and what lies there.
#[derive(Debug)]
pub struct WalkEntry {
    pub path: String,
    /// How far below the root of the walk the path lies.
    pub depth: usize,
    pub file_name: String,
    pub found: Walked,
}

/// The first value of a content hash.
pub const HASH_SEED: u64 = 0xcbf29ce484222325;

/// The factor of a content hash.
pub const HASH_FACTOR: u64 = 0x100000001b3;

/// The hash of a run of bytes: from the seed, each byte in turn is mixed in
/// and the whole multiplied, the product cut to 64 bits.
pub open spec fn hashed(bytes: Seq<u8>) -> u64
    decreases bytes.len(),
{
    if bytes.len() == 0 {
        HASH_SEED
    } else {
        ((hashed(bytes.drop_last()) ^ (bytes.last() as u64))).wrapping_mul(HASH_FACTOR)
    }
}

/// Hashes a run of bytes.
pub fn content_hash(bytes: &Vec<u8>) -> (r: u64)
    ensures
        r == hashed(bytes@),
{
    let mut h: u64 = HASH_SEED;
    let mut i: usize = 0;
    proof {
        assert(bytes@.take(0) =~= Seq::<u8>::empty());
    }
    while i < bytes.len()
        invariant
            i <= bytes.len(),
            h == hashed(bytes@.take(i as int)),
        decreases bytes.len() - i,
    {
        proof {
            assert(bytes@.take(i + 1).drop_last() =~= bytes@.take(i as int));
            assert(bytes@.take(i + 1).last() == bytes@[i as int]);
        }
        h = (h ^ (bytes[i] as u64)).wrapping_mul(HASH_FACTOR);
        i = i + 1;
    }
    proof {
        assert(bytes@.take(bytes.len() as int) =~= bytes@);
    }
    h
}

/// The hash that marks a directory: directories count by their presence, not
/// by what they hold.
pub open spec fn dir_marker() -> u64 {
    hashed(Seq::empty())
}

/// The directory that the build writes into lies right below the root and is
/// named `target`. A walk passes it over, with all that it holds.
pub open spec fn is_build_output(depth: usize, file_name: Seq<char>) -> bool {
    depth == 1 && file_name == "target"@
}

/// Whether a walk passes over what it has met at `depth` under `file_name`.
pub fn skips(depth: usize, file_name: &str) -> (r: bool)
    ensures
        r == is_build_output(depth, file_name@),
{
    depth == 1 && same_text(file_name, "target")
}

/// The hash of what a walk has met, if it counts.
pub open spec fn entry_hash(entry: WalkEntry) -> Option<u64> {
    if is_build_output(entry.depth, entry.file_name@) {
        None
    } else {
        match entry.found {
            Walked::File(bytes) => Some(hashed(bytes@)),
            Walked::Symlink(target) => Some(hashed(target@)),
            Walked::Dir => Some(dir_marker()),
            _ => None,
        }
    }
}

/// The text of the failure for a walk that could not read something.
pub open spec fn unreadable_text(root: Seq<char>, reason: Seq<char>) -> Seq<char> {
    "failed to verify output at `"@ + root + "`: "@ + reason
}

/// How far the taking of a fingerprint has come.
pub struct Recorded {
    pub print: Seq<HashModel>,
    pub failure: Option<Failure>,
}

/// Whether the walk failed at `entry`.
pub open spec fn is_unreadable(entry: WalkEntry) -> bool {
    !is_build_output(entry.depth, entry.file_name@) && entry.found is Unreadable
}

/// The fingerprint of the first `n` steps of a walk: each path that counts
/// with its hash, a later step of one path taking the place of an earlier
/// one. The first step that could not be read ends it with a failure.
pub open spec fn recorded(root: Seq<char>, entries: Seq<WalkEntry>, n: int) -> Recorded
    decreases n,
{
    if n <= 0 || n > entries.len() {
        Recorded { print: Seq::empty(), failure: None }
    } else {
        let before = recorded(root, entries, n - 1);
        let entry = entries[n - 1];
        if before.failure is Some {
            before
        } else if is_unreadable(entry) {
            Recorded {
                print: before.print,
                failure: Some(
                    Failure {
                        kind: ErrorKind::Io,
                        message: unreadable_text(root, entry.found->Unreadable_0@),
                    },
                ),
            }
        } else {
            match entry_hash(entry) {
                Some(hash) => Recorded {
                    print: crate::ranked_set::placed::<PathHash>(
                        before.print,
                        HashModel { path: entry.path@, hash },
                    ),
                    failure: None,
                },
                None => before,
            }
        }
    }
}

/// Once a step could not be read, the steps after it change nothing.
pub proof fn lemma_recorded_failure(root: Seq<char>, entries: Seq<WalkEntry>, k: int, n: int)
    requires
        0 <= k <= n <= entries.len(),
        recorded(root, entries, k).failure is Some,
    ensures
        recorded(root, entries, n) == recorded(root, entries, k),
    decreases n - k,
{
    if k < n {
        lemma_recorded_failure(root, entries, k, n - 1);
    }
}

/// Takes the fingerprint of the directory tree at `root` from the steps of a
/// walk of it.
pub fn hash_all(root: &FilePath, entries: &Vec<WalkEntry>) -> (r: Result<Fingerprint, PackageError>)
    ensures
        match recorded(root@.shown(), entries@, entries@.len() as int).failure {
            Some(failure) => r matches Err(e) && e@ == failure,
            None => r matches Ok(print) && print.wf() && print@ == recorded(
                root@.shown(),
                entries@,
                entries@.len() as int,
            ).print,
        },
{
    let mut print: Fingerprint = RankedSet::new();
    let shown: String = root.display();
    let mut i: usize = 0;
    while i < entries.len()
        invariant
            i <= entries.len(),
            print.wf(),
            shown@ == root@.shown(),
            recorded(shown@, entries@, i as int) == (Recorded { print: print@, failure: None }),
        decreases entries.len() - i,
    {
        let entry: &WalkEntry = &entries[i];
        if !skips(entry.depth, entry.file_name.as_str()) {
            match &entry.found {
                Walked::File(bytes) => {
                    print.insert(PathHash { path: entry.path.clone(), hash: content_hash(bytes) });
                },
                Walked::Symlink(target) => {
                    print.insert(PathHash { path: entry.path.clone(), hash: content_hash(target) });
                },
                Walked::Dir => {
                    print.insert(
                        PathHash { path: entry.path.clone(), hash: content_hash(&Vec::new()) },
                    );
                },
                Walked::Other => {},
                Walked::Unreadable(reason) => {
                    let mut message: String = String::from_str("failed to verify output at `");
                    message.append(shown.as_str());
                    message.append("`: ");
                    message.append(reason.as_str());
                    let e = PackageError::new(ErrorKind::Io, message);
                    proof {
                        assert(recorded(shown@, entries@, i + 1).failure == Some(e@));
                        lemma_recorded_failure(shown@, entries@, i + 1, entries@.len() as int);
                    }
                    return Err(e);
                },
            }
        }
        i = i + 1;
    }
    Ok(print)
}

} // verus!
