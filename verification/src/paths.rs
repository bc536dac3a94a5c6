//! File paths as lists of components.

use crate::order::{lemma_lex_strict_total, lemma_str_order, lex_lt, parts_lt, str_before, str_lt, str_order, strict_total};
use crate::text::{
    chars_of, join, joined, lemma_joined_first, lemma_texts_push, same_text, texts,
};
use vstd::prelude::*;

verus! {

/// A path: whether it starts at the root, and its components in order.
#[derive(Debug)]
pub struct FilePath {
    pub absolute: bool,
    pub parts: Vec<String>,
}

/// What a [`FilePath`] stands for.
pub struct PathModel {
    pub absolute: bool,
    pub parts: Seq<Seq<char>>,
}

impl View for FilePath {
    type V = PathModel;

    open spec fn view(&self) -> PathModel {
        PathModel { absolute: self.absolute, parts: texts(self.parts@) }
    }
}

/// A component that names an entry: neither empty nor the current directory.
pub open spec fn names_entry(part: Seq<char>) -> bool {
    part.len() > 0 && part != "."@
}

/// The components read off the text `s`, in two parts: those already closed
/// by a separator, and the one still open at the end of `s`.
pub open spec fn scan(s: Seq<char>) -> (Seq<Seq<char>>, Seq<char>)
    decreases s.len(),
{
    if s.len() == 0 {
        (Seq::empty(), Seq::empty())
    } else {
        let (closed, open) = scan(s.drop_last());
        if s.last() == '/' {
            (
                if names_entry(open) {
                    closed.push(open)
                } else {
                    closed
                },
                Seq::empty(),
            )
        } else {
            (closed, open.push(s.last()))
        }
    }
}

/// The path that the text `s` denotes: its `/`-separated components, without
/// the empty ones and the `.` ones; absolute when `s` starts with `/`.
pub open spec fn parsed(s: Seq<char>) -> PathModel {
    let (closed, open) = scan(s);
    PathModel {
        absolute: s.len() > 0 && s[0] == '/',
        parts: if names_entry(open) {
            closed.push(open)
        } else {
            closed
        },
    }
}

/// The components of `parts` with each `.` dropped and each `..` taking the
/// component before it away, if there is one.
pub open spec fn resolved(parts: Seq<Seq<char>>) -> Seq<Seq<char>>
    decreases parts.len(),
{
    if parts.len() == 0 {
        Seq::empty()
    } else {
        let before = resolved(parts.drop_last());
        if parts.last() == "."@ {
            before
        } else if parts.last() == ".."@ {
            if before.len() > 0 {
                before.drop_last()
            } else {
                before
            }
        } else {
            before.push(parts.last())
        }
    }
}

impl PathModel {
    /// The last component, unless the path is empty or ends in `..`.
    pub open spec fn file_name(self) -> Option<Seq<char>> {
        if self.parts.len() > 0 && self.parts.last() != ".."@ {
            Some(self.parts.last())
        } else {
            None
        }
    }

    /// The text of the path, components separated by `/`.
    pub open spec fn shown(self) -> Seq<char> {
        if self.absolute {
            "/"@ + joined(self.parts, "/"@)
        } else {
            joined(self.parts, "/"@)
        }
    }

    /// `base` is this path or one of the directories above it.
    pub open spec fn starts_with(self, base: PathModel) -> bool {
        &&& self.absolute == base.absolute
        &&& base.parts.len() <= self.parts.len()
        &&& self.parts.take(base.parts.len() as int) == base.parts
    }

    /// This path as seen from `base`.
    pub open spec fn stripped(self, base: PathModel) -> Option<PathModel> {
        if self.starts_with(base) {
            Some(PathModel { absolute: false, parts: self.parts.skip(base.parts.len() as int) })
        } else {
            None
        }
    }

    /// `other` resolved against this path: `other` itself when absolute.
    pub open spec fn joined_with(self, other: PathModel) -> PathModel {
        if other.absolute {
            other
        } else {
            PathModel { absolute: self.absolute, parts: self.parts + other.parts }
        }
    }

    /// This path without `.` and `..` components.
    pub open spec fn normalized(self) -> PathModel {
        PathModel { absolute: self.absolute, parts: resolved(self.parts) }
    }

    /// This path with `suffix` added to its last component.
    pub open spec fn with_suffix(self, suffix: Seq<char>) -> PathModel {
        if self.parts.len() == 0 {
            PathModel { absolute: self.absolute, parts: seq![suffix] }
        } else {
            PathModel {
                absolute: self.absolute,
                parts: self.parts.drop_last().push(self.parts.last() + suffix),
            }
        }
    }
}

/// A component that names an entry and holds no separator: not empty, not
/// `.`, not `..`.
pub open spec fn plain_part(part: Seq<char>) -> bool {
    names_entry(part) && part != ".."@ && !part.contains('/')
}

/// Every component of `parts` is plain.
pub open spec fn plain_parts(parts: Seq<Seq<char>>) -> bool {
    forall|i: int| 0 <= i < parts.len() ==> plain_part(#[trigger] parts[i])
}

/// Reading on over a run without separators adds the run to the open
/// component.
pub proof fn lemma_scan_run(s: Seq<char>, run: Seq<char>)
    requires
        !run.contains('/'),
    ensures
        scan(s + run) == (scan(s).0, scan(s).1 + run),
    decreases run.len(),
{
    if run.len() == 0 {
        assert(s + run =~= s);
        assert(scan(s).1 + run =~= scan(s).1);
    } else {
        let front = run.drop_last();
        assert(!front.contains('/')) by {
            if front.contains('/') {
                let k = choose|k: int| 0 <= k < front.len() && front[k] == '/';
                assert(run[k] == '/');
            }
        }
        lemma_scan_run(s, front);
        assert((s + run).drop_last() =~= s + front);
        assert((s + run).last() == run[run.len() - 1]);
        assert(run.contains(run[run.len() - 1]));
        assert(scan(s).1 + run =~= (scan(s).1 + front).push(run.last()));
    }
}

/// Reading a separator closes the open component.
pub proof fn lemma_scan_separator(s: Seq<char>)
    ensures
        scan(s + "/"@) == (
            if names_entry(scan(s).1) {
                scan(s).0.push(scan(s).1)
            } else {
                scan(s).0
            },
            Seq::<char>::empty(),
        ),
{
    reveal_strlit("/");
    assert((s + "/"@).drop_last() =~= s);
    assert((s + "/"@).last() == '/');
}

/// Reading the text of plain components gives the components back: all but
/// the last closed, the last open.
pub proof fn lemma_scan_joined(parts: Seq<Seq<char>>)
    requires
        parts.len() > 0,
        plain_parts(parts),
    ensures
        scan(joined(parts, "/"@)) == (parts.drop_last(), parts.last()),
    decreases parts.len(),
{
    let nothing = Seq::<char>::empty();
    assert(plain_part(parts[parts.len() - 1]));
    if parts.len() == 1 {
        lemma_scan_run(nothing, parts[0]);
        assert(nothing + parts[0] =~= parts[0]);
        assert(parts.drop_last() =~= Seq::<Seq<char>>::empty());
        assert(scan(nothing).1 + parts[0] =~= parts[0]);
    } else {
        let front = parts.drop_last();
        assert(plain_parts(front)) by {
            assert forall|i: int| 0 <= i < front.len() implies plain_part(#[trigger] front[i]) by {
                assert(front[i] == parts[i]);
            }
        }
        lemma_scan_joined(front);
        let head = joined(front, "/"@);
        lemma_scan_separator(head);
        assert(plain_part(front[front.len() - 1]));
        assert(front.drop_last().push(front.last()) =~= front);
        lemma_scan_run(head + "/"@, parts.last());
        assert(nothing + parts.last() =~= parts.last());
    }
}

/// The text of a relative path of plain components is read back as that
/// path.
pub proof fn lemma_parse_shown(p: PathModel)
    requires
        !p.absolute,
        p.parts.len() > 0,
        plain_parts(p.parts),
    ensures
        parsed(p.shown()) == p,
{
    lemma_scan_joined(p.parts);
    assert(plain_part(p.parts[0]));
    assert(plain_part(p.parts[p.parts.len() - 1]));
    lemma_joined_first(p.parts, "/"@);
    assert(p.parts[0].contains(p.parts[0][0]));
    assert(p.parts.drop_last().push(p.parts.last()) =~= p.parts);
}

/// The order of paths: absolute ones first, then component by component.
pub open spec fn path_lt(a: PathModel, b: PathModel) -> bool {
    if a.absolute != b.absolute {
        a.absolute
    } else {
        parts_lt(a.parts, b.parts)
    }
}

/// The order of lists of strings is a strict total order.
pub proof fn lemma_parts_order()
    ensures
        strict_total(|x: Seq<Seq<char>>, y: Seq<Seq<char>>| parts_lt(x, y)),
{
    lemma_str_order();
    lemma_lex_strict_total(str_order());
    assert((|x: Seq<Seq<char>>, y: Seq<Seq<char>>| parts_lt(x, y)) =~= (|
        x: Seq<Seq<char>>,
        y: Seq<Seq<char>>,
    | lex_lt(x, y, str_order())));
}

/// The order of paths is a strict total order.
pub proof fn lemma_path_order(a: PathModel, b: PathModel, c: PathModel)
    ensures
        !path_lt(a, a),
        path_lt(a, b) && path_lt(b, c) ==> path_lt(a, c),
        a != b ==> path_lt(a, b) || path_lt(b, a),
        !path_lt(a, b) && !path_lt(b, c) ==> !path_lt(a, c),
{
    lemma_parts_order();
    let lt = |x: Seq<Seq<char>>, y: Seq<Seq<char>>| parts_lt(x, y);
    assert(lt(a.parts, a.parts) == parts_lt(a.parts, a.parts));
    assert(lt(a.parts, b.parts) == parts_lt(a.parts, b.parts));
    assert(lt(b.parts, a.parts) == parts_lt(b.parts, a.parts));
    assert(lt(b.parts, c.parts) == parts_lt(b.parts, c.parts));
    assert(lt(c.parts, b.parts) == parts_lt(c.parts, b.parts));
    assert(lt(a.parts, c.parts) == parts_lt(a.parts, c.parts));
    assert(lt(c.parts, a.parts) == parts_lt(c.parts, a.parts));
    if a != b && a.absolute == b.absolute {
        assert(a.parts != b.parts);
    }
}

impl FilePath {
    /// The path without components.
    pub fn empty() -> (r: FilePath)
        ensures
            r@ == (PathModel { absolute: false, parts: Seq::empty() }),
    {
        let r = FilePath { absolute: false, parts: Vec::new() };
        proof {
            assert(r@.parts =~= Seq::empty());
        }
        r
    }

    /// The relative path of the one component `name`.
    pub fn single(name: &str) -> (r: FilePath)
        ensures
            r@ == (PathModel { absolute: false, parts: seq![name@] }),
    {
        let mut parts: Vec<String> = Vec::new();
        parts.push(String::from_str(name));
        let r = FilePath { absolute: false, parts };
        proof {
            assert(r@.parts =~= seq![name@]);
        }
        r
    }

    /// Reads a path from its text.
    pub fn parse(s: &str) -> (r: FilePath)
        ensures
            r@ == parsed(s@),
    {
        let chars: Vec<char> = chars_of(s);
        let n: usize = chars.len();
        let mut parts: Vec<String> = Vec::new();
        let mut open: String = String::new();
        let mut i: usize = 0;
        proof {
            assert(s@.take(0) =~= Seq::<char>::empty());
            assert(texts(parts@) =~= Seq::<Seq<char>>::empty());
        }
        while i < n
            invariant
                chars@ == s@,
                n == chars.len(),
                i <= n,
                scan(s@.take(i as int)) == (texts(parts@), open@),
            decreases n - i,
        {
            let c: char = chars[i];
            proof {
                assert(s@.take(i + 1).drop_last() =~= s@.take(i as int));
                assert(s@.take(i + 1).last() == c);
            }
            if c == '/' {
                if open.as_str().unicode_len() > 0 && !same_text(open.as_str(), ".") {
                    let ghost before = parts@;
                    parts.push(open);
                    proof {
                        lemma_texts_push(before, open);
                    }
                }
                open = String::new();
            } else {
                open.push(c);
            }
            i = i + 1;
        }
        proof {
            assert(s@.take(n as int) =~= s@);
        }
        if open.as_str().unicode_len() > 0 && !same_text(open.as_str(), ".") {
            let ghost before = parts@;
            parts.push(open);
            proof {
                lemma_texts_push(before, open);
            }
        }
        let absolute: bool = n > 0 && chars[0] == '/';
        FilePath { absolute, parts }
    }

    /// A copy of this path.
    pub fn copy(&self) -> (r: FilePath)
        ensures
            r@ == self@,
    {
        let mut parts: Vec<String> = Vec::new();
        let mut i: usize = 0;
        while i < self.parts.len()
            invariant
                i <= self.parts.len(),
                texts(parts@) == texts(self.parts@).take(i as int),
            decreases self.parts.len() - i,
        {
            let ghost before = parts@;
            let part: String = self.parts[i].clone();
            parts.push(part);
            proof {
                lemma_texts_push(before, part);
                assert(texts(parts@) =~= texts(self.parts@).take(i + 1));
            }
            i = i + 1;
        }
        proof {
            assert(texts(self.parts@).take(self.parts.len() as int) =~= texts(self.parts@));
        }
        FilePath { absolute: self.absolute, parts }
    }

    /// The last component, unless the path is empty or ends in `..`.
    pub fn file_name(&self) -> (r: Option<&String>)
        ensures
            match r {
                Some(name) => self@.file_name() == Some(name@),
                None => self@.file_name() is None,
            },
    {
        let n: usize = self.parts.len();
        if n == 0 {
            return None;
        }
        let name: &String = &self.parts[n - 1];
        if same_text(name.as_str(), "..") {
            None
        } else {
            Some(name)
        }
    }

    /// The text of the path.
    pub fn display(&self) -> (r: String)
        ensures
            r@ == self@.shown(),
    {
        let body: String = join(&self.parts, "/");
        if self.absolute {
            let mut out: String = String::from_str("/");
            out.append(body.as_str());
            out
        } else {
            body
        }
    }

    /// Whether the two paths are the same.
    pub fn same(&self, other: &FilePath) -> (r: bool)
        ensures
            r == (self@ == other@),
    {
        if self.absolute != other.absolute || self.parts.len() != other.parts.len() {
            proof {
                assert(self@.parts.len() == self.parts@.len());
                assert(other@.parts.len() == other.parts@.len());
            }
            return false;
        }
        let mut i: usize = 0;
        while i < self.parts.len()
            invariant
                i <= self.parts.len(),
                self.parts.len() == other.parts.len(),
                forall|j: int| 0 <= j < i ==> self@.parts[j] == other@.parts[j],
            decreases self.parts.len() - i,
        {
            if !same_text(self.parts[i].as_str(), other.parts[i].as_str()) {
                proof {
                    assert(self@.parts[i as int] != other@.parts[i as int]);
                }
                return false;
            }
            i = i + 1;
        }
        proof {
            assert(self@.parts =~= other@.parts);
        }
        true
    }

    /// Whether `base` is this path or a directory above it.
    pub fn starts_with(&self, base: &FilePath) -> (r: bool)
        ensures
            r == self@.starts_with(base@),
    {
        if self.absolute != base.absolute || base.parts.len() > self.parts.len() {
            return false;
        }
        let mut i: usize = 0;
        while i < base.parts.len()
            invariant
                i <= base.parts.len(),
                base.parts.len() <= self.parts.len(),
                forall|j: int| 0 <= j < i ==> self@.parts[j] == base@.parts[j],
            decreases base.parts.len() - i,
        {
            if !same_text(self.parts[i].as_str(), base.parts[i].as_str()) {
                proof {
                    assert(self@.parts.take(base@.parts.len() as int)[i as int]
                        != base@.parts[i as int]);
                }
                return false;
            }
            i = i + 1;
        }
        proof {
            assert(self@.parts.take(base@.parts.len() as int) =~= base@.parts);
        }
        true
    }

    /// This path as seen from `base`, if `base` is this path or above it.
    pub fn strip_prefix(&self, base: &FilePath) -> (r: Option<FilePath>)
        ensures
            match r {
                Some(rest) => self@.stripped(base@) == Some(rest@),
                None => self@.stripped(base@) is None,
            },
    {
        if !self.starts_with(base) {
            return None;
        }
        let mut parts: Vec<String> = Vec::new();
        let mut i: usize = base.parts.len();
        while i < self.parts.len()
            invariant
                base.parts.len() <= i <= self.parts.len(),
                texts(parts@) == self@.parts.subrange(base.parts.len() as int, i as int),
            decreases self.parts.len() - i,
        {
            let ghost before = parts@;
            let part: String = self.parts[i].clone();
            parts.push(part);
            proof {
                lemma_texts_push(before, part);
                assert(texts(parts@) =~= self@.parts.subrange(base.parts.len() as int, i + 1));
            }
            i = i + 1;
        }
        let rest = FilePath { absolute: false, parts };
        proof {
            assert(rest@.parts =~= self@.parts.skip(base@.parts.len() as int));
        }
        Some(rest)
    }

    /// `other` resolved against this path.
    pub fn join(&self, other: &FilePath) -> (r: FilePath)
        ensures
            r@ == self@.joined_with(other@),
    {
        if other.absolute {
            return other.copy();
        }
        let mut out: FilePath = self.copy();
        let mut i: usize = 0;
        while i < other.parts.len()
            invariant
                i <= other.parts.len(),
                out.absolute == self.absolute,
                texts(out.parts@) == self@.parts + other@.parts.take(i as int),
            decreases other.parts.len() - i,
        {
            let ghost before = out.parts@;
            let part: String = other.parts[i].clone();
            out.parts.push(part);
            proof {
                lemma_texts_push(before, part);
                assert(texts(out.parts@) =~= self@.parts + other@.parts.take(i + 1));
            }
            i = i + 1;
        }
        proof {
            assert(other@.parts.take(other.parts.len() as int) =~= other@.parts);
        }
        out
    }

    /// This path without its `.` and `..` components.
    pub fn normalize(&self) -> (r: FilePath)
        ensures
            r@ == self@.normalized(),
    {
        let mut parts: Vec<String> = Vec::new();
        let mut i: usize = 0;
        while i < self.parts.len()
            invariant
                i <= self.parts.len(),
                texts(parts@) == resolved(self@.parts.take(i as int)),
            decreases self.parts.len() - i,
        {
            let part: &String = &self.parts[i];
            proof {
                assert(self@.parts.take(i + 1).drop_last() =~= self@.parts.take(i as int));
                assert(self@.parts.take(i + 1).last() == part@);
            }
            if same_text(part.as_str(), ".") {
            } else if same_text(part.as_str(), "..") {
                if parts.len() > 0 {
                    parts.pop();
                    proof {
                        assert(texts(parts@) =~= resolved(self@.parts.take(i as int)).drop_last());
                    }
                }
            } else {
                parts.push(part.clone());
                proof {
                    assert(texts(parts@) =~= resolved(self@.parts.take(i as int)).push(part@));
                }
            }
            i = i + 1;
        }
        proof {
            assert(self@.parts.take(self.parts.len() as int) =~= self@.parts);
        }
        FilePath { absolute: self.absolute, parts }
    }

    /// This path with `suffix` added to its last component.
    pub fn with_suffix(&self, suffix: &str) -> (r: FilePath)
        ensures
            r@ == self@.with_suffix(suffix@),
    {
        let mut out: FilePath = self.copy();
        let ghost whole = out.parts@;
        let last: String = match out.parts.pop() {
            Some(name) => name.concat(suffix),
            None => String::from_str(suffix),
        };
        let ghost front = out.parts@;
        out.parts.push(last);
        proof {
            lemma_texts_push(front, last);
            assert(texts(whole) == self@.parts);
            if self.parts.len() == 0 {
                assert(texts(front) =~= Seq::<Seq<char>>::empty());
                assert(out@.parts =~= seq![suffix@]);
            } else {
                assert(texts(front) =~= self@.parts.drop_last());
                assert(whole.last()@ == self@.parts.last());
            }
        }
        out
    }

    /// Whether this path comes strictly before `other` in the order of paths.
    pub fn is_before(&self, other: &FilePath) -> (r: bool)
        ensures
            r == path_lt(self@, other@),
    {
        if self.absolute != other.absolute {
            return self.absolute;
        }
        let n: usize = self.parts.len();
        let m: usize = other.parts.len();
        let mut i: usize = 0;
        proof {
            assert(self@.parts.skip(0) =~= self@.parts);
            assert(other@.parts.skip(0) =~= other@.parts);
        }
        while i < n && i < m
            invariant
                n == self.parts.len(),
                m == other.parts.len(),
                i <= n,
                i <= m,
                self.absolute == other.absolute,
                parts_lt(self@.parts, other@.parts) == parts_lt(
                    self@.parts.skip(i as int),
                    other@.parts.skip(i as int),
                ),
            decreases n - i,
        {
            proof {
                let x = self@.parts[i as int];
                let y = other@.parts[i as int];
                assert(self@.parts.skip(i as int).skip(1) =~= self@.parts.skip(i + 1));
                assert(other@.parts.skip(i as int).skip(1) =~= other@.parts.skip(i + 1));
                assert(self@.parts.skip(i as int)[0] == x);
                assert(other@.parts.skip(i as int)[0] == y);
                assert(str_order()(x, y) == str_lt(x, y));
                assert(str_order()(y, x) == str_lt(y, x));
            }
            if str_before(self.parts[i].as_str(), other.parts[i].as_str()) {
                return true;
            }
            if str_before(other.parts[i].as_str(), self.parts[i].as_str()) {
                return false;
            }
            i = i + 1;
        }
        i < m
    }
}

} // verus!
