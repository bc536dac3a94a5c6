//! A list kept in strict rank order: a set of items, or a map where the rank
//! of an item is its key.

use crate::order::{views, Ranked};
use vstd::prelude::*;

verus! {

/// Each item of `s` ranks strictly before the ones after it.
pub open spec fn strictly_ranked<T: Ranked>(s: Seq<T::V>) -> bool {
    forall|i: int, j: int| 0 <= i < j < s.len() ==> T::before(#[trigger] s[i], #[trigger] s[j])
}

/// Neither of `a` and `b` ranks before the other.
pub open spec fn same_rank<T: Ranked>(a: T::V, b: T::V) -> bool {
    !T::before(a, b) && !T::before(b, a)
}

/// The number of leading items of `s` that rank before `x`.
pub open spec fn lower<T: Ranked>(s: Seq<T::V>, x: T::V) -> int
    decreases s.len(),
{
    if s.len() > 0 && T::before(s[0], x) {
        1 + lower::<T>(s.skip(1), x)
    } else {
        0
    }
}

/// `s` with `x` put at its rank: in the place of the item of its rank, where
/// there is one.
pub open spec fn placed<T: Ranked>(s: Seq<T::V>, x: T::V) -> Seq<T::V> {
    let k = lower::<T>(s, x);
    if k < s.len() && same_rank::<T>(s[k], x) {
        s.update(k, x)
    } else {
        s.insert(k, x)
    }
}

/// The place in `s` of the item of the rank of `x`, if there is one.
pub open spec fn place_of<T: Ranked>(s: Seq<T::V>, x: T::V) -> Option<int> {
    let k = lower::<T>(s, x);
    if k < s.len() && same_rank::<T>(s[k], x) {
        Some(k)
    } else {
        None
    }
}

/// `lower` counts a prefix: the items before it rank before `x`, the item at
/// it does not.
pub proof fn lemma_lower<T: Ranked>(s: Seq<T::V>, x: T::V)
    ensures
        0 <= lower::<T>(s, x) <= s.len(),
        forall|i: int| 0 <= i < lower::<T>(s, x) ==> T::before(#[trigger] s[i], x),
        lower::<T>(s, x) < s.len() ==> !T::before(s[lower::<T>(s, x)], x),
    decreases s.len(),
{
    if s.len() > 0 && T::before(s[0], x) {
        let rest = s.skip(1);
        lemma_lower::<T>(rest, x);
        assert forall|i: int| 0 <= i < lower::<T>(s, x) implies T::before(#[trigger] s[i], x) by {
            if i > 0 {
                assert(s[i] == rest[i - 1]);
            }
        }
        if lower::<T>(s, x) < s.len() {
            assert(s[lower::<T>(s, x)] == rest[lower::<T>(rest, x)]);
        }
    }
}

/// A count of leading items that rank before `x`, followed by one that does
/// not, is `lower`.
pub proof fn lemma_lower_is<T: Ranked>(s: Seq<T::V>, x: T::V, k: int)
    requires
        0 <= k <= s.len(),
        forall|i: int| 0 <= i < k ==> T::before(#[trigger] s[i], x),
        k < s.len() ==> !T::before(s[k], x),
    ensures
        lower::<T>(s, x) == k,
    decreases s.len(),
{
    if k > 0 {
        let rest = s.skip(1);
        assert(T::before(s[0], x));
        assert forall|i: int| 0 <= i < k - 1 implies T::before(#[trigger] rest[i], x) by {
            assert(rest[i] == s[i + 1]);
        }
        if k - 1 < rest.len() {
            assert(rest[k - 1] == s[k]);
        }
        lemma_lower_is::<T>(rest, x, k - 1);
    }
}

/// Putting an item at its rank keeps the strict order.
pub proof fn lemma_placed<T: Ranked>(s: Seq<T::V>, x: T::V)
    requires
        strictly_ranked::<T>(s),
    ensures
        strictly_ranked::<T>(placed::<T>(s, x)),
{
    lemma_lower::<T>(s, x);
    let k = lower::<T>(s, x);
    let t = placed::<T>(s, x);
    assert forall|i: int, j: int| 0 <= i < j < t.len() implies T::before(
        #[trigger] t[i],
        #[trigger] t[j],
    ) by {
        if k < s.len() && same_rank::<T>(s[k], x) {
            if i == k {
                // x against a later item
                assert(T::before(s[k], s[j]));
                T::lemma_weak_order(s[k], x, s[j]);
            } else if j == k {
                assert(T::before(s[i], x));
            } else {
                assert(T::before(s[i], s[j]));
            }
        } else {
            if i == k {
                let j0 = j - 1;
                assert(t[j] == s[j0]);
                assert(T::before(x, s[k]));
                if j0 > k {
                    assert(T::before(s[k], s[j0]));
                    T::lemma_weak_order(x, s[k], s[j0]);
                }
            } else if j == k {
                assert(t[i] == s[i]);
                assert(T::before(s[i], x));
            } else {
                let i0 = if i < k { i } else { i - 1 };
                let j0 = if j < k { j } else { j - 1 };
                assert(t[i] == s[i0]);
                assert(t[j] == s[j0]);
                assert(T::before(s[i0], s[j0]));
            }
        }
    }
}

/// In a strictly ranked list only the item at `lower` can be of the rank of
/// `x`.
pub proof fn lemma_place_unique<T: Ranked>(s: Seq<T::V>, x: T::V, i: int)
    requires
        strictly_ranked::<T>(s),
        0 <= i < s.len(),
        same_rank::<T>(s[i], x),
    ensures
        place_of::<T>(s, x) == Some(i),
{
    lemma_lower::<T>(s, x);
    let k = lower::<T>(s, x);
    if i < k {
        assert(T::before(s[i], x));
    } else if i > k {
        assert(T::before(s[k], s[i]));
        T::lemma_weak_order(s[k], x, s[i]);
        T::lemma_weak_order(x, s[k], s[i]);
    }
}

/// A list of items in strict rank order.
#[derive(Debug)]
pub struct RankedSet<T: Ranked> {
    pub items: Vec<T>,
}

impl<T: Ranked> View for RankedSet<T> {
    type V = Seq<T::V>;

    open spec fn view(&self) -> Seq<T::V> {
        views(self.items@)
    }
}

impl<T: Ranked> RankedSet<T> {
    /// The items are in strict rank order.
    pub open spec fn wf(&self) -> bool {
        strictly_ranked::<T>(self@)
    }

    /// The list without items.
    pub fn new() -> (r: Self)
        ensures
            r.wf(),
            r@ == Seq::<T::V>::empty(),
    {
        let r = RankedSet { items: Vec::new() };
        proof {
            assert(r@ =~= Seq::<T::V>::empty());
        }
        r
    }

    /// The number of items.
    pub fn len(&self) -> (r: usize)
        ensures
            r == self@.len(),
    {
        self.items.len()
    }

    /// The item at `i`.
    pub fn get(&self, i: usize) -> (r: &T)
        requires
            i < self@.len(),
        ensures
            r@ == self@[i as int],
    {
        &self.items[i]
    }

    /// The number of items that rank before `x`.
    pub fn rank(&self, x: &T) -> (r: usize)
        ensures
            r == lower::<T>(self@, x@),
            r <= self@.len(),
    {
        let mut k: usize = 0;
        while k < self.items.len() && self.items[k].precedes(x)
            invariant
                k <= self.items.len(),
                forall|i: int| 0 <= i < k ==> T::before(#[trigger] self@[i], x@),
            decreases self.items.len() - k,
        {
            k = k + 1;
        }
        proof {
            lemma_lower_is::<T>(self@, x@, k as int);
        }
        k
    }

    /// The place of the item of the rank of `x`, if there is one.
    pub fn find(&self, x: &T) -> (r: Option<usize>)
        ensures
            match r {
                Some(k) => place_of::<T>(self@, x@) == Some(k as int) && k < self@.len(),
                None => place_of::<T>(self@, x@) is None,
            },
    {
        let k: usize = self.rank(x);
        if k < self.items.len() && !x.precedes(&self.items[k]) {
            proof {
                lemma_lower::<T>(self@, x@);
            }
            Some(k)
        } else {
            proof {
                lemma_lower::<T>(self@, x@);
            }
            None
        }
    }

    /// Puts `x` at its rank, in the place of the item of that rank where
    /// there is one.
    pub fn insert(&mut self, x: T)
        requires
            old(self).wf(),
        ensures
            final(self).wf(),
            final(self)@ == placed::<T>(old(self)@, x@),
    {
        proof {
            lemma_lower::<T>(self@, x@);
            lemma_placed::<T>(self@, x@);
        }
        let ghost before = self@;
        let k: usize = self.rank(&x);
        if k < self.items.len() && !x.precedes(&self.items[k]) {
            self.items.set(k, x);
            proof {
                assert(self@ =~= before.update(k as int, x@));
            }
        } else {
            self.items.insert(k, x);
            proof {
                assert(self@ =~= before.insert(k as int, x@));
            }
        }
    }
}

/// Two lists in strict rank order that hold the same items are one list.
pub proof fn lemma_ranked_sets_equal<T: Ranked>(s: Seq<T::V>, t: Seq<T::V>)
    requires
        strictly_ranked::<T>(s),
        strictly_ranked::<T>(t),
        forall|x: T::V| s.contains(x) <==> t.contains(x),
    ensures
        s == t,
    decreases s.len(),
{
    if s.len() == 0 {
        if t.len() > 0 {
            assert(t.contains(t[0]));
        }
        assert(s =~= t);
    } else {
        assert(s.contains(s[0]));
        let sl = s.last();
        let tl = t.last();
        assert(s.contains(sl));
        assert(t.contains(tl));
        let p = choose|p: int| 0 <= p < t.len() && t[p] == sl;
        let q = choose|q: int| 0 <= q < s.len() && s[q] == tl;
        T::lemma_weak_order(sl, tl, sl);
        T::lemma_weak_order(tl, tl, tl);
        if p < t.len() - 1 {
            assert(T::before(t[p], t[t.len() - 1]));
        }
        if q < s.len() - 1 {
            assert(T::before(s[q], s[s.len() - 1]));
        }
        assert(sl == tl);
        let s0 = s.drop_last();
        let t0 = t.drop_last();
        assert forall|x: T::V| s0.contains(x) <==> t0.contains(x) by {
            T::lemma_weak_order(x, x, x);
            if s0.contains(x) {
                let i = choose|i: int| 0 <= i < s0.len() && s0[i] == x;
                assert(s[i] == x);
                assert(T::before(s[i], s[s.len() - 1]));
                assert(s.contains(x));
                let r = choose|r: int| 0 <= r < t.len() && t[r] == x;
                assert(r < t.len() - 1);
                assert(t0[r] == x);
            }
            if t0.contains(x) {
                let i = choose|i: int| 0 <= i < t0.len() && t0[i] == x;
                assert(t[i] == x);
                assert(T::before(t[i], t[t.len() - 1]));
                assert(t.contains(x));
                let r = choose|r: int| 0 <= r < s.len() && s[r] == x;
                assert(r < s.len() - 1);
                assert(s0[r] == x);
            }
        }
        assert(strictly_ranked::<T>(s0)) by {
            assert forall|i: int, j: int| 0 <= i < j < s0.len() implies T::before(
                #[trigger] s0[i],
                #[trigger] s0[j],
            ) by {
                assert(s0[i] == s[i] && s0[j] == s[j]);
            }
        }
        assert(strictly_ranked::<T>(t0)) by {
            assert forall|i: int, j: int| 0 <= i < j < t0.len() implies T::before(
                #[trigger] t0[i],
                #[trigger] t0[j],
            ) by {
                assert(t0[i] == t[i] && t0[j] == t[j]);
            }
        }
        lemma_ranked_sets_equal::<T>(s0, t0);
        assert(s =~= s0.push(sl));
        assert(t =~= t0.push(tl));
    }
}

} // verus!
