//! Building and inspecting the texts of this crate: joined listings, decimal
//! numbers, character searches.

use crate::order::views;
use vstd::prelude::*;

verus! {

/// The items of `parts` written one after the other with `sep` between each
/// two neighbours.
pub open spec fn joined(parts: Seq<Seq<char>>, sep: Seq<char>) -> Seq<char>
    decreases parts.len(),
{
    if parts.len() == 0 {
        Seq::empty()
    } else if parts.len() == 1 {
        parts[0]
    } else {
        joined(parts.drop_last(), sep) + sep + parts.last()
    }
}

/// A joined list starts as its first item does.
pub proof fn lemma_joined_first(parts: Seq<Seq<char>>, sep: Seq<char>)
    requires
        parts.len() > 0,
        parts[0].len() > 0,
    ensures
        joined(parts, sep).len() > 0,
        joined(parts, sep)[0] == parts[0][0],
    decreases parts.len(),
{
    if parts.len() > 1 {
        let front = parts.drop_last();
        assert(front[0] == parts[0]);
        lemma_joined_first(front, sep);
    }
}

/// A character of a joined list is a character of the separator or of an
/// item.
pub proof fn lemma_joined_chars(parts: Seq<Seq<char>>, sep: Seq<char>, c: char)
    requires
        joined(parts, sep).contains(c),
    ensures
        sep.contains(c) || exists|i: int| 0 <= i < parts.len() && (#[trigger] parts[i]).contains(c),
    decreases parts.len(),
{
    if parts.len() == 1 {
        assert(parts[0].contains(c));
    } else if parts.len() > 1 {
        let front = parts.drop_last();
        let whole = joined(parts, sep);
        let k = choose|k: int| 0 <= k < whole.len() && whole[k] == c;
        let head = joined(front, sep);
        if k < head.len() {
            assert(head[k] == c);
            lemma_joined_chars(front, sep, c);
            if !sep.contains(c) {
                let i = choose|i: int| 0 <= i < front.len() && (#[trigger] front[i]).contains(c);
                assert(parts[i] == front[i]);
            }
        } else if k < head.len() + sep.len() {
            assert(sep[k - head.len()] == c);
        } else {
            assert(parts.last()[k - head.len() - sep.len()] == c);
            assert(parts[parts.len() - 1].contains(c));
        }
    }
}

/// Joining a list behind a first item puts the item and the separator
/// before the joined list.
pub proof fn lemma_joined_prepend(first: Seq<char>, parts: Seq<Seq<char>>, sep: Seq<char>)
    requires
        parts.len() > 0,
    ensures
        joined(seq![first] + parts, sep) == first + sep + joined(parts, sep),
    decreases parts.len(),
{
    let all = seq![first] + parts;
    assert(all.last() == parts.last());
    if parts.len() == 1 {
        assert(all.drop_last() =~= seq![first]);
        assert(seq![first][0] == first);
        assert(joined(seq![first], sep) == first);
        assert(all.len() == 2);
        assert(joined(all, sep) == joined(all.drop_last(), sep) + sep + all.last());
        assert(joined(parts, sep) == parts[0]);
    } else {
        let front = parts.drop_last();
        assert(all.drop_last() =~= seq![first] + front);
        lemma_joined_prepend(first, front, sep);
        assert(joined(all, sep) =~= first + sep + joined(parts, sep));
    }
}

/// The views of a list of strings.
pub open spec fn texts(v: Seq<String>) -> Seq<Seq<char>> {
    views(v)
}

/// `String::push` of std: the character is appended to the end of the string,
/// whose other characters stay as they were.
pub assume_specification[ String::push ](s: &mut String, c: char)
    ensures
        final(s)@ == old(s)@.push(c),
;

/// Adding a string to a list adds its text to the list's texts.
pub proof fn lemma_texts_push(v: Seq<String>, x: String)
    ensures
        texts(v.push(x)) == texts(v).push(x@),
{
    assert(texts(v.push(x)) =~= texts(v).push(x@));
}

/// Writes the strings of `parts` in a row, `sep` between each two.
pub fn join(parts: &Vec<String>, sep: &str) -> (r: String)
    ensures
        r@ == joined(texts(parts@), sep@),
{
    let mut out: String = String::new();
    let mut i: usize = 0;
    while i < parts.len()
        invariant
            i <= parts.len(),
            out@ == joined(texts(parts@).take(i as int), sep@),
        decreases parts.len() - i,
    {
        if i > 0 {
            out.append(sep);
        }
        out.append(parts[i].as_str());
        proof {
            let upto = texts(parts@).take(i + 1);
            assert(upto.drop_last() =~= texts(parts@).take(i as int));
            assert(upto.last() == parts@[i as int]@);
            if i == 0 {
                assert(out@ =~= upto[0]);
            }
        }
        i = i + 1;
    }
    proof {
        assert(texts(parts@).take(parts.len() as int) =~= texts(parts@));
    }
    out
}

/// A copy of a list of strings.
pub fn copy_strings(v: &Vec<String>) -> (r: Vec<String>)
    ensures
        texts(r@) == texts(v@),
{
    let mut out: Vec<String> = Vec::new();
    let mut i: usize = 0;
    while i < v.len()
        invariant
            i <= v.len(),
            texts(out@) == texts(v@).take(i as int),
        decreases v.len() - i,
    {
        let ghost before = out@;
        let item: String = v[i].clone();
        out.push(item);
        proof {
            lemma_texts_push(before, item);
            assert(texts(out@) =~= texts(v@).take(i + 1));
        }
        i = i + 1;
    }
    proof {
        assert(texts(v@).take(v.len() as int) =~= texts(v@));
    }
    out
}

/// The characters of `s`, in order.
pub fn chars_of(s: &str) -> (r: Vec<char>)
    ensures
        r@ == s@,
{
    broadcast use vstd::string::group_string_axioms;

    let mut out: Vec<char> = Vec::new();
    for c in it: s.chars()
        invariant
            it.seq() == s@,
            out@ == s@.take(it.index() as int),
    {
        out.push(c);
        proof {
            assert(out@ =~= s@.take(it.index() + 1));
        }
    }
    proof {
        assert(s@.take(s@.len() as int) =~= s@);
    }
    out
}

/// Whether `c` occurs in `s`.
pub fn has_char(s: &str, c: char) -> (r: bool)
    ensures
        r == s@.contains(c),
{
    let chars: Vec<char> = chars_of(s);
    let mut i: usize = 0;
    while i < chars.len()
        invariant
            chars@ == s@,
            i <= chars.len(),
            forall|j: int| 0 <= j < i ==> s@[j] != c,
        decreases chars.len() - i,
    {
        if chars[i] == c {
            return true;
        }
        i = i + 1;
    }
    false
}

/// The text of one decimal digit.
pub open spec fn digit(d: nat) -> Seq<char> {
    if d == 0 {
        "0"@
    } else if d == 1 {
        "1"@
    } else if d == 2 {
        "2"@
    } else if d == 3 {
        "3"@
    } else if d == 4 {
        "4"@
    } else if d == 5 {
        "5"@
    } else if d == 6 {
        "6"@
    } else if d == 7 {
        "7"@
    } else if d == 8 {
        "8"@
    } else {
        "9"@
    }
}

/// `n` written in base ten, without leading zeros.
pub open spec fn decimal(n: nat) -> Seq<char>
    decreases n,
{
    if n < 10 {
        digit(n)
    } else {
        decimal(n / 10) + digit(n % 10)
    }
}

fn digit_text(d: usize) -> (r: &'static str)
    requires
        d < 10,
    ensures
        r@ == digit(d as nat),
{
    if d == 0 {
        "0"
    } else if d == 1 {
        "1"
    } else if d == 2 {
        "2"
    } else if d == 3 {
        "3"
    } else if d == 4 {
        "4"
    } else if d == 5 {
        "5"
    } else if d == 6 {
        "6"
    } else if d == 7 {
        "7"
    } else if d == 8 {
        "8"
    } else {
        "9"
    }
}

/// Writes `n` in base ten.
pub fn decimal_text(n: usize) -> (r: String)
    ensures
        r@ == decimal(n as nat),
    decreases n,
{
    if n < 10 {
        String::from_str(digit_text(n))
    } else {
        let mut out: String = decimal_text(n / 10);
        out.append(digit_text(n % 10));
        out
    }
}

/// The lower-case form of an ASCII capital letter; any other character is
/// left as it is.
pub open spec fn lower(c: char) -> char {
    if 'A' <= c && c <= 'Z' {
        ((c as u8) + 32) as char
    } else {
        c
    }
}

/// `s` with its ASCII capital letters in lower case.
pub open spec fn lowered(s: Seq<char>) -> Seq<char> {
    s.map_values(|c: char| lower(c))
}

/// The lower-case form of `c`.
pub fn to_lower(c: char) -> (r: char)
    ensures
        r == lower(c),
{
    if 'A' <= c && c <= 'Z' {
        let b: u8 = c as u8;
        (b + 32) as char
    } else {
        c
    }
}

/// Whether `a` and `b` hold the same text when ASCII letter case is ignored.
pub fn same_ignoring_case(a: &str, b: &str) -> (r: bool)
    ensures
        r == (lowered(a@) == lowered(b@)),
{
    let x: Vec<char> = chars_of(a);
    let y: Vec<char> = chars_of(b);
    let n: usize = x.len();
    if n != y.len() {
        proof {
            assert(lowered(a@).len() != lowered(b@).len());
        }
        return false;
    }
    let mut i: usize = 0;
    while i < n
        invariant
            x@ == a@,
            y@ == b@,
            n == x.len(),
            n == y.len(),
            i <= n,
            forall|j: int| 0 <= j < i ==> lower(a@[j]) == lower(b@[j]),
        decreases n - i,
    {
        if to_lower(x[i]) != to_lower(y[i]) {
            proof {
                assert(lowered(a@)[i as int] != lowered(b@)[i as int]);
            }
            return false;
        }
        i = i + 1;
    }
    proof {
        assert(lowered(a@) =~= lowered(b@));
    }
    true
}

/// The part of `s` before the first `stop`; all of `s` where there is none.
pub open spec fn until(s: Seq<char>, stop: char) -> Seq<char>
    decreases s.len(),
{
    if s.len() == 0 || s[0] == stop {
        Seq::empty()
    } else {
        seq![s[0]] + until(s.skip(1), stop)
    }
}

/// Where `k` is the place of the first `stop` in `s`, or the length of `s`
/// without one, the part before the first `stop` is the first `k` characters.
pub proof fn lemma_until(s: Seq<char>, stop: char, k: int)
    requires
        0 <= k <= s.len(),
        forall|j: int| 0 <= j < k ==> s[j] != stop,
        k == s.len() || s[k] == stop,
    ensures
        until(s, stop) == s.take(k),
    decreases k,
{
    if k == 0 {
        assert(s.take(0) =~= Seq::<char>::empty());
    } else {
        let rest = s.skip(1);
        assert forall|j: int| 0 <= j < k - 1 implies rest[j] != stop by {
            assert(rest[j] == s[j + 1]);
        }
        lemma_until(rest, stop, k - 1);
        assert(s.take(k) =~= seq![s[0]] + rest.take(k - 1));
    }
}

/// The part of `s` before its first `stop`.
pub fn prefix_until(s: &str, stop: char) -> (r: &str)
    ensures
        r@ == until(s@, stop),
{
    let chars: Vec<char> = chars_of(s);
    let n: usize = chars.len();
    let mut i: usize = 0;
    while i < n && chars[i] != stop
        invariant
            chars@ == s@,
            n == chars.len(),
            i <= n,
            forall|j: int| 0 <= j < i ==> s@[j] != stop,
        decreases n - i,
    {
        i = i + 1;
    }
    proof {
        lemma_until(s@, stop, i as int);
    }
    s.substring_char(0, i)
}

/// `a` and `b` hold the same text.
pub fn same_text(a: &str, b: &str) -> (r: bool)
    ensures
        r == (a@ == b@),
{
    let x: Vec<char> = chars_of(a);
    let y: Vec<char> = chars_of(b);
    let n: usize = x.len();
    if n != y.len() {
        return false;
    }
    let mut i: usize = 0;
    while i < n
        invariant
            x@ == a@,
            y@ == b@,
            n == x.len(),
            n == y.len(),
            i <= n,
            forall|j: int| 0 <= j < i ==> a@[j] == b@[j],
        decreases n - i,
    {
        if x[i] != y[i] {
            return false;
        }
        i = i + 1;
    }
    proof {
        assert(a@ =~= b@);
    }
    true
}

} // verus!
