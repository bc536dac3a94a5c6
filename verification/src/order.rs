//! Lexicographic order on sequences, the order every sorted listing of this
//! crate is stated in.

use crate::text::chars_of;
use vstd::multiset::Multiset;
use vstd::prelude::*;
use vstd::relations::{sorted_by, total_ordering};

verus! {

/// `a` comes strictly before `b` when the two are compared element by element
/// with `lt`, a shorter sequence coming before each of its extensions.
pub open spec fn lex_lt<T>(a: Seq<T>, b: Seq<T>, lt: spec_fn(T, T) -> bool) -> bool
    decreases a.len(),
{
    if b.len() == 0 {
        false
    } else if a.len() == 0 {
        true
    } else if lt(a[0], b[0]) {
        true
    } else if lt(b[0], a[0]) {
        false
    } else {
        lex_lt(a.skip(1), b.skip(1), lt)
    }
}

/// `lt` is a strict total order: irreflexive, transitive, and any two
/// distinct values are related one way or the other.
pub open spec fn strict_total<T>(lt: spec_fn(T, T) -> bool) -> bool {
    &&& forall|x: T| !#[trigger] lt(x, x)
    &&& forall|x: T, y: T, z: T| #[trigger] lt(x, y) && #[trigger] lt(y, z) ==> lt(x, z)
    &&& forall|x: T, y: T| x != y ==> #[trigger] lt(x, y) || lt(y, x)
}

/// The order of scalar values by code point.
pub open spec fn char_lt() -> spec_fn(char, char) -> bool {
    |x: char, y: char| (x as int) < (y as int)
}

/// Strings compare as their encodings do: code point by code point.
pub open spec fn str_lt(a: Seq<char>, b: Seq<char>) -> bool {
    lex_lt(a, b, char_lt())
}

/// The order of strings as a relation.
pub open spec fn str_order() -> spec_fn(Seq<char>, Seq<char>) -> bool {
    |x: Seq<char>, y: Seq<char>| str_lt(x, y)
}

/// Lists of strings (path components, identity fields) compare string by
/// string.
pub open spec fn parts_lt(a: Seq<Seq<char>>, b: Seq<Seq<char>>) -> bool {
    lex_lt(a, b, str_order())
}

/// No sequence comes before itself.
pub proof fn lemma_lex_irreflexive<T>(a: Seq<T>, lt: spec_fn(T, T) -> bool)
    requires
        strict_total(lt),
    ensures
        !lex_lt(a, a, lt),
    decreases a.len(),
{
    if a.len() > 0 {
        lemma_lex_irreflexive(a.skip(1), lt);
    }
}

/// What comes before a sequence comes before all that the sequence comes
/// before.
pub proof fn lemma_lex_transitive<T>(a: Seq<T>, b: Seq<T>, c: Seq<T>, lt: spec_fn(T, T) -> bool)
    requires
        strict_total(lt),
        lex_lt(a, b, lt),
        lex_lt(b, c, lt),
    ensures
        lex_lt(a, c, lt),
    decreases a.len(),
{
    if a.len() > 0 {
        assert(b.len() > 0 && c.len() > 0);
        if !lt(a[0], b[0]) && !lt(b[0], c[0]) {
            assert(a[0] == b[0]);
            assert(b[0] == c[0]);
            lemma_lex_transitive(a.skip(1), b.skip(1), c.skip(1), lt);
        } else if lt(a[0], b[0]) && lt(b[0], c[0]) {
        } else if lt(a[0], b[0]) {
            assert(b[0] == c[0]);
        } else {
            assert(a[0] == b[0]);
        }
    }
}

/// Of two distinct sequences one comes before the other.
pub proof fn lemma_lex_total<T>(a: Seq<T>, b: Seq<T>, lt: spec_fn(T, T) -> bool)
    requires
        strict_total(lt),
        a != b,
    ensures
        lex_lt(a, b, lt) || lex_lt(b, a, lt),
    decreases a.len(),
{
    if a.len() > 0 && b.len() > 0 {
        if a[0] == b[0] {
            if a.skip(1) == b.skip(1) {
                assert(a =~= seq![a[0]] + a.skip(1));
                assert(b =~= seq![b[0]] + b.skip(1));
            }
            lemma_lex_total(a.skip(1), b.skip(1), lt);
        }
    } else if a.len() == 0 && b.len() == 0 {
        assert(a =~= b);
    }
}

/// A lexicographic order over a strict total order is one itself.
pub proof fn lemma_lex_strict_total<T>(lt: spec_fn(T, T) -> bool)
    requires
        strict_total(lt),
    ensures
        strict_total(|x: Seq<T>, y: Seq<T>| lex_lt(x, y, lt)),
{
    let lifted = |x: Seq<T>, y: Seq<T>| lex_lt(x, y, lt);
    assert forall|x: Seq<T>| !#[trigger] lifted(x, x) by {
        lemma_lex_irreflexive(x, lt);
    }
    assert forall|x: Seq<T>, y: Seq<T>, z: Seq<T>| #[trigger]
        lifted(x, y) && #[trigger] lifted(y, z) implies lifted(x, z) by {
        lemma_lex_transitive(x, y, z, lt);
    }
    assert forall|x: Seq<T>, y: Seq<T>| x != y implies #[trigger] lifted(x, y) || lifted(y, x) by {
        lemma_lex_total(x, y, lt);
    }
}

/// The order of scalar values is a strict total order.
pub proof fn lemma_char_order()
    ensures
        strict_total(char_lt()),
{
    assert forall|x: char, y: char| x != y implies #[trigger] char_lt()(x, y) || char_lt()(y, x) by {
        assert(x as int != y as int);
    }
}

/// The order of strings is a strict total order.
pub proof fn lemma_str_order()
    ensures
        strict_total(str_order()),
{
    lemma_char_order();
    lemma_lex_strict_total(char_lt());
    assert(str_order() =~= (|x: Seq<char>, y: Seq<char>| lex_lt(x, y, char_lt())));
}

/// Whether `a` comes strictly before `b` in the order of strings.
pub fn str_before(a: &str, b: &str) -> (r: bool)
    ensures
        r == str_lt(a@, b@),
{
    let x: Vec<char> = chars_of(a);
    let y: Vec<char> = chars_of(b);
    let n: usize = x.len();
    let m: usize = y.len();
    let mut i: usize = 0;
    proof {
        assert(a@.skip(0) =~= a@);
        assert(b@.skip(0) =~= b@);
    }
    while i < n && i < m
        invariant
            x@ == a@,
            y@ == b@,
            n == x.len(),
            m == y.len(),
            i <= n,
            i <= m,
            str_lt(a@, b@) == str_lt(a@.skip(i as int), b@.skip(i as int)),
        decreases n - i,
    {
        proof {
            assert(a@.skip(i as int).skip(1) =~= a@.skip(i + 1));
            assert(b@.skip(i as int).skip(1) =~= b@.skip(i + 1));
        }
        if x[i] < y[i] {
            return true;
        }
        if y[i] < x[i] {
            return false;
        }
        i = i + 1;
    }
    i < m
}

/// A type whose values are ranked through their views.
pub trait Ranked: View + Sized {
    /// `a` ranks strictly before `b`. A strict weak order: values of which
    /// neither ranks before the other are of one rank.
    spec fn before(a: Self::V, b: Self::V) -> bool;

    fn precedes(&self, other: &Self) -> (r: bool)
        ensures
            r == Self::before(self@, other@),
    ;

    proof fn lemma_weak_order(a: Self::V, b: Self::V, c: Self::V)
        ensures
            !Self::before(a, a),
            Self::before(a, b) && Self::before(b, c) ==> Self::before(a, c),
            !Self::before(a, b) && !Self::before(b, c) ==> !Self::before(a, c),
    ;
}

/// The views of the items of `s`, in order.
pub open spec fn views<T: View>(s: Seq<T>) -> Seq<T::V> {
    s.map_values(|t: T| t@)
}

/// No item of `s` ranks before an earlier one.
pub open spec fn ranked<T: Ranked>(s: Seq<T::V>) -> bool {
    forall|i: int, j: int| 0 <= i < j < s.len() ==> !T::before(#[trigger] s[j], #[trigger] s[i])
}

/// The empty sequence holds nothing.
pub proof fn lemma_empty_to_multiset<A>(s: Seq<A>)
    requires
        s.len() == 0,
    ensures
        s.to_multiset() =~= Multiset::<A>::empty(),
{
    vstd::seq_lib::to_multiset_len(s);
    vstd::multiset::lemma_multiset_empty_len(s.to_multiset());
}

/// Sorts `items` by rank: the result holds the same items, none ranking
/// before an earlier one.
pub fn sort_ranked<T: Ranked>(items: Vec<T>) -> (r: Vec<T>)
    ensures
        ranked::<T>(views(r@)),
        views(r@).to_multiset() == views(items@).to_multiset(),
        r@.len() == items@.len(),
{
    let ghost all = views(items@);
    let mut rest: Vec<T> = items;
    let mut out: Vec<T> = Vec::new();
    proof {
        lemma_empty_to_multiset(views(out@));
        assert(views(out@).to_multiset().add(all.to_multiset()) =~= all.to_multiset());
    }
    while rest.len() > 0
        invariant
            ranked::<T>(views(out@)),
            views(out@).to_multiset().add(views(rest@).to_multiset()) == all.to_multiset(),
            out@.len() + rest@.len() == all.len(),
        decreases rest.len(),
    {
        let ghost before_rest = views(rest@);
        let ghost before_out = views(out@);
        let x: T = rest.pop().unwrap();
        let mut k: usize = out.len();
        while k > 0 && x.precedes(&out[k - 1])
            invariant
                k <= out.len(),
                forall|j: int| k <= j < out.len() ==> T::before(x@, #[trigger] out@[j]@),
            decreases k,
        {
            k = k - 1;
        }
        out.insert(k, x);
        proof {
            let last = before_rest.len() - 1;
            assert(views(rest@) =~= before_rest.remove(last));
            assert(views(out@) =~= before_out.insert(k as int, x@));
            assert(before_rest[last] == x@);
            vstd::seq_lib::to_multiset_remove(before_rest, last);
            vstd::seq_lib::to_multiset_insert(before_out, k as int, x@);
            before_rest.to_multiset_ensures();
            assert(before_rest.to_multiset().count(x@) > 0) by {
                assert(before_rest.contains(x@));
            }
            assert(views(out@).to_multiset().add(views(rest@).to_multiset())
                =~= before_out.to_multiset().add(before_rest.to_multiset()));
            let now = views(out@);
            assert forall|i: int, j: int| 0 <= i < j < now.len() implies !T::before(
                #[trigger] now[j],
                #[trigger] now[i],
            ) by {
                if j == k {
                    // the new item against an earlier one
                    if k > 0 {
                        assert(!T::before(x@, before_out[k - 1]));
                        if i < k - 1 {
                            assert(!T::before(before_out[k - 1], before_out[i]));
                            T::lemma_weak_order(x@, before_out[k - 1], before_out[i]);
                        }
                    }
                } else if i == k {
                    // a later one against the new item
                    assert(T::before(x@, before_out[j - 1]));
                    T::lemma_weak_order(x@, before_out[j - 1], x@);
                } else {
                    let i0 = if i < k { i } else { i - 1 };
                    let j0 = if j < k { j } else { j - 1 };
                    assert(now[i] == before_out[i0]);
                    assert(now[j] == before_out[j0]);
                }
            }
        }
    }
    proof {
        lemma_empty_to_multiset(views(rest@));
        assert(views(out@).to_multiset().add(views(rest@).to_multiset()) =~= views(
            out@,
        ).to_multiset());
    }
    out
}

impl Ranked for String {
    open spec fn before(a: Seq<char>, b: Seq<char>) -> bool {
        str_lt(a, b)
    }

    fn precedes(&self, other: &Self) -> (r: bool) {
        str_before(self.as_str(), other.as_str())
    }

    proof fn lemma_weak_order(a: Seq<char>, b: Seq<char>, c: Seq<char>) {
        lemma_str_order();
        assert(str_order()(a, a) == str_lt(a, a));
        assert(str_order()(a, b) == str_lt(a, b));
        assert(str_order()(b, c) == str_lt(b, c));
        assert(str_order()(a, c) == str_lt(a, c));
        assert(str_order()(b, a) == str_lt(b, a));
        assert(str_order()(c, b) == str_lt(c, b));
        assert(str_order()(c, a) == str_lt(c, a));
    }
}

/// `a` comes before `b` in the order of strings, or is `b`.
pub open spec fn str_le() -> spec_fn(Seq<char>, Seq<char>) -> bool {
    |a: Seq<char>, b: Seq<char>| !str_lt(b, a)
}

/// Before-or-equal on strings is a total order.
pub proof fn lemma_str_le_total()
    ensures
        total_ordering(str_le()),
{
    lemma_str_order();
    let le = str_le();
    let lt = str_order();
    assert forall|x: Seq<char>| #[trigger] le(x, x) by {
        assert(!lt(x, x));
    }
    assert forall|x: Seq<char>, y: Seq<char>| #[trigger] le(x, y) && #[trigger] le(y, x) implies x
        == y by {
        if x != y {
            assert(lt(x, y) || lt(y, x));
        }
    }
    assert forall|x: Seq<char>, y: Seq<char>, z: Seq<char>| #[trigger]
        le(x, y) && #[trigger] le(y, z) implies le(x, z) by {
        if lt(z, x) {
            if y == x {
            } else if y == z {
            } else {
                assert(lt(x, y) || lt(y, x));
                assert(lt(y, z) || lt(z, y));
                assert(lt(x, y) && lt(y, z));
                assert(lt(z, x) && lt(x, y) ==> lt(z, y));
            }
        }
    }
    assert forall|x: Seq<char>, y: Seq<char>| #[trigger] le(x, y) || #[trigger] le(y, x) by {
        if lt(y, x) && lt(x, y) {
            assert(lt(y, y));
        }
    }
}

/// The strings of `s` put in the order of strings.
pub open spec fn sorted_texts(s: Seq<Seq<char>>) -> Seq<Seq<char>> {
    s.sort_by(str_le())
}

/// Ordering a list keeps its length.
pub proof fn lemma_sorted_texts_len(s: Seq<Seq<char>>)
    ensures
        sorted_texts(s).len() == s.len(),
        sorted_texts(s).to_multiset() == s.to_multiset(),
{
    lemma_str_le_total();
    s.lemma_sort_by_ensures(str_le());
    vstd::seq_lib::to_multiset_len(s);
    vstd::seq_lib::to_multiset_len(sorted_texts(s));
}

/// A list of one string is in order.
pub proof fn lemma_sorted_single(x: Seq<char>)
    ensures
        sorted_texts(seq![x]) == seq![x],
{
    let one = seq![x];
    let got = sorted_texts(one);
    lemma_sorted_texts_len(one);
    assert(got.contains(got[0]));
    vstd::seq_lib::to_multiset_contains(got, got[0]);
    vstd::seq_lib::to_multiset_contains(one, got[0]);
    assert(one.contains(got[0]));
    assert(got =~= one);
}

/// Puts a list of strings in the order of strings.
pub fn sort_strings(items: Vec<String>) -> (r: Vec<String>)
    ensures
        views(r@) == sorted_texts(views(items@)),
        r@.len() == items@.len(),
{
    let r: Vec<String> = sort_ranked(items);
    proof {
        let got = views(r@);
        let all = views(items@);
        lemma_str_le_total();
        all.lemma_sort_by_ensures(str_le());
        assert(sorted_by(got, str_le())) by {
            assert forall|i: int, j: int| 0 <= i < j < got.len() implies #[trigger] str_le()(
                got[i],
                got[j],
            ) by {
                assert(!<String as Ranked>::before(got[j], got[i]));
            }
        }
        vstd::seq_lib::lemma_sorted_unique(got, sorted_texts(all), str_le());
    }
    r
}

} // verus!
