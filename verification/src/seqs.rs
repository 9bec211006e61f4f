//! Spec vocabulary and small verified helpers over sequences of card ids.

use vstd::prelude::*;
use crate::card::CardId;

verus! {

/// `s` with its first occurrence of `x` removed (unchanged if absent).
pub open spec fn remove_first(s: Seq<CardId>, x: CardId) -> Seq<CardId> {
    if s.contains(x) {
        s.remove(s.index_of_first(x)->0)
    } else {
        s
    }
}

/// Facts about removing the first occurrence of an element.
pub proof fn lemma_remove_first(s: Seq<CardId>, x: CardId)
    ensures
        s.contains(x) ==> remove_first(s, x).len() == s.len() - 1,
        !s.contains(x) ==> remove_first(s, x) == s,
        remove_first(s, x).to_multiset() == s.to_multiset().remove(x),
{
    s.index_of_first_ensures(x);
    if s.contains(x) {
        let i = s.index_of_first(x)->0;
        vstd::seq_lib::to_multiset_remove(s, i);
    } else {
        assert(s.to_multiset().count(x) == 0) by {
            vstd::seq_lib::to_multiset_contains(s, x);
        }
        assert(s.to_multiset().remove(x) =~= s.to_multiset());
    }
}

/// A position before which `x` never occurs is the first index of `x`.
pub proof fn lemma_first_index<T>(s: Seq<T>, x: T, i: int)
    requires
        0 <= i < s.len(),
        s[i] == x,
        forall|j: int| 0 <= j < i ==> s[j] != x,
    ensures
        s.index_of_first(x) == Some(i),
{
    s.index_of_first_ensures(x);
    assert(s.contains(x));
    let k = s.index_of_first(x)->0;
    if k < i {
        assert(s[k] != x);
    }
    if k > i {
        assert(s[i] == x);
    }
}

/// A sequence in which `x` never occurs has no first index of `x`.
pub proof fn lemma_no_index<T>(s: Seq<T>, x: T)
    requires
        forall|j: int| 0 <= j < s.len() ==> s[j] != x,
    ensures
        s.index_of_first(x) is None,
        !s.contains(x),
{
    s.index_of_first_ensures(x);
}

/// Position of the first `x` in `v`, if any.
pub fn position_of(v: &Vec<CardId>, x: CardId) -> (r: Option<usize>)
    ensures
        r is None <==> v@.index_of_first(x) is None,
        r matches Some(i) ==> v@.index_of_first(x) == Some(i as int) && i < v@.len(),
{
    proof {
        v@.index_of_first_ensures(x);
    }
    let mut i: usize = 0;
    while i < v.len()
        invariant
            i <= v@.len(),
            forall|j: int| 0 <= j < i ==> v@[j] != x,
        decreases v@.len() - i,
    {
        if v[i] == x {
            proof {
                lemma_first_index(v@, x, i as int);
            }
            return Some(i);
        }
        i += 1;
    }
    proof {
        lemma_no_index(v@, x);
    }
    None
}

/// Whether `x` occurs in `v`.
pub fn contains_id(v: &Vec<CardId>, x: CardId) -> (r: bool)
    ensures
        r == v@.contains(x),
{
    proof {
        v@.index_of_first_ensures(x);
    }
    position_of(v, x).is_some()
}

/// Removes the first `x` from `v`; returns whether one was there.
pub fn remove_first_id(v: &mut Vec<CardId>, x: CardId) -> (r: bool)
    ensures
        r == old(v)@.contains(x),
        final(v)@ == remove_first(old(v)@, x),
{
    proof {
        v@.index_of_first_ensures(x);
    }
    match position_of(v, x) {
        Some(i) => {
            v.remove(i);
            true
        },
        None => false,
    }
}

/// Whether all elements of `s` are pairwise distinct.
pub open spec fn all_distinct(s: Seq<CardId>) -> bool {
    forall|i: int, j: int| 0 <= i < j < s.len() ==> s[i] != s[j]
}

/// Whether all elements of `v` are pairwise distinct.
pub fn ids_distinct(v: &Vec<CardId>) -> (r: bool)
    ensures
        r == all_distinct(v@),
{
    let n = v.len();
    let mut i: usize = 0;
    while i < n
        invariant
            n == v@.len(),
            i <= n,
            forall|a: int, b: int| 0 <= a < b < n && a < i ==> v@[a] != v@[b],
        decreases n - i,
    {
        let mut j: usize = i + 1;
        while j < n
            invariant
                n == v@.len(),
                i < n,
                i + 1 <= j <= n,
                forall|a: int, b: int| 0 <= a < b < n && a < i ==> v@[a] != v@[b],
                forall|b: int| i < b < j ==> v@[i as int] != v@[b],
            decreases n - j,
        {
            if v[i] == v[j] {
                return false;
            }
            j += 1;
        }
        i += 1;
    }
    true
}

} // verus!
