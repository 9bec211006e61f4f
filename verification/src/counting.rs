//! Counting class multisets: the packed keys that `k` cards of the first
//! `c` classes can have, and how many there are at most.

use vstd::prelude::*;
use crate::card::{CardId, CardKind, class_index_spec};
use crate::combinatorics::combinations_spec;
use crate::legal::{class_weight, class_key, class_in, dedup_by_class, lemma_dedup_subset, lemma_combination_lengths};
use crate::menus::pascal;

verus! {

/// The packed keys of the class multisets of size `k` over the classes
/// below `c` (for `c >= 1`).
pub open spec fn keys_of(c: int, k: int) -> Set<int>
    decreases c, k,
{
    if k < 0 {
        Set::empty()
    } else if c <= 1 {
        set![k]
    } else if k == 0 {
        set![0int]
    } else {
        keys_of(c - 1, k).union(keys_of(c, k - 1).map(|x: int| x + class_weight(c - 1)))
    }
}

/// `n` out of `n` is one way.
proof fn lemma_pascal_diag(n: nat)
    ensures
        pascal(n, n) == 1,
    decreases n,
{
    if n > 0 {
        lemma_pascal_diag((n - 1) as nat);
        assert(pascal((n - 1) as nat, n) == 0);
    }
}

/// There are at most `(c - 1 + k) choose k` keys of class multisets of size
/// `k` over `c` classes.
pub proof fn lemma_keys_of_len(c: int, k: int)
    requires
        c >= 1,
        k >= 0,
    ensures
        keys_of(c, k).finite(),
        keys_of(c, k).len() <= pascal((c - 1 + k) as nat, k as nat),
    decreases c, k,
{
    if c <= 1 {
        lemma_pascal_diag(k as nat);
        assert(keys_of(c, k) == set![k]);
        assert(set![k].len() == 1) by {
            assert(Set::<int>::empty().insert(k).len() == 1);
        }
    } else if k == 0 {
        assert(keys_of(c, k) == set![0int]);
        assert(set![0int].len() == 1) by {
            assert(Set::<int>::empty().insert(0int).len() == 1);
        }
    } else {
        lemma_keys_of_len(c - 1, k);
        lemma_keys_of_len(c, k - 1);
        let f = |x: int| x + class_weight(c - 1);
        let a = keys_of(c - 1, k);
        let b = keys_of(c, k - 1);
        b.lemma_map_finite(f);
        vstd::set_lib::lemma_map_size_bound(b, b.map(f), f);
        vstd::set_lib::lemma_len_union(a, b.map(f));
        assert(keys_of(c, k) == a.union(b.map(f)));
        assert(pascal((c - 1 + k) as nat, k as nat) == pascal((c - 2 + k) as nat, (k - 1) as nat)
            + pascal((c - 2 + k) as nat, k as nat));
    }
}

/// The empty multiset's key is zero.
proof fn lemma_keys_of_zero(c: int)
    requires
        c >= 1,
    ensures
        keys_of(c, 0).contains(0),
{
}

/// Adding a card of a class below `c` to a multiset of `k - 1` cards adds
/// that class's weight to its key.
pub proof fn lemma_keys_of_step(c: int, k: int, y: int, x: int)
    requires
        c >= 1,
        k >= 1,
        0 <= x < c,
        keys_of(c, k - 1).contains(y),
    ensures
        keys_of(c, k).contains(y + class_weight(x)),
    decreases c, k,
{
    if c <= 1 {
        assert(x == 0);
        assert(class_weight(0) == 1);
        assert(keys_of(c, k - 1) == set![k - 1]);
        assert(keys_of(c, k) == set![k]);
    } else {
        let f = |z: int| z + class_weight(c - 1);
        assert(keys_of(c, k) == keys_of(c - 1, k).union(keys_of(c, k - 1).map(f)));
        if x == c - 1 {
            assert(keys_of(c, k - 1).map(f).contains(f(y)));
        } else if k == 1 {
            assert(keys_of(c, 0) == set![0int]);
            assert(y == 0);
            lemma_keys_of_zero(c - 1);
            lemma_keys_of_step(c - 1, 1, 0, x);
        } else {
            assert(keys_of(c, k - 1) == keys_of(c - 1, k - 1).union(keys_of(c, k - 2).map(f)));
            if keys_of(c - 1, k - 1).contains(y) {
                lemma_keys_of_step(c - 1, k, y, x);
            } else {
                let z = choose|z: int| #[trigger] keys_of(c, k - 2).contains(z) && f(z) == y;
                lemma_keys_of_step(c, k - 1, z, x);
                assert(keys_of(c, k - 1).map(f).contains(f(z + class_weight(x))));
            }
        }
    }
}

/// A card's class is one of the twelve.
proof fn lemma_class_in_range(kinds: Seq<CardKind>, id: CardId)
    ensures
        0 <= class_in(kinds, id) < 12,
{
    let k = crate::game::kind_in(kinds, id);
    assert(0 <= class_index_spec(k) < 12);
}

/// The key of `s`'s classes is the key of a class multiset of its size.
pub proof fn lemma_class_key_in(kinds: Seq<CardKind>, s: Seq<CardId>)
    ensures
        keys_of(12, s.len() as int).contains(class_key(kinds, s)),
    decreases s.len(),
{
    if s.len() == 0 {
        assert(keys_of(12, 0) == set![0int]);
    } else {
        lemma_class_key_in(kinds, s.drop_last());
        lemma_class_in_range(kinds, s.last());
        lemma_keys_of_step(12, s.len() as int, class_key(kinds, s.drop_last()), class_in(kinds, s.last()));
    }
}

/// The picks of `k` cards deduplicated by class multiset are at most the
/// `(11 + k) choose k` class multisets of size `k`.
pub proof fn lemma_dedup_multisets_len(kinds: Seq<CardKind>, coll: Seq<CardId>, k: nat)
    ensures
        dedup_by_class(kinds, combinations_spec(coll, k)).len() <= pascal((11 + k) as nat, k),
{
    let cs = combinations_spec(coll, k);
    let d = dedup_by_class(kinds, cs);
    lemma_dedup_subset(kinds, cs);
    lemma_combination_lengths(coll, k);
    crate::menus::lemma_dedup_keys(kinds, cs);
    let t = d.map_values(|c: Seq<CardId>| class_key(kinds, c));
    assert forall|i: int, j: int| 0 <= i < t.len() && 0 <= j < t.len() && i != j implies t[i] != t[j] by {
        if i < j {
            assert(class_key(kinds, d[i]) != class_key(kinds, d[j]));
        } else {
            assert(class_key(kinds, d[j]) != class_key(kinds, d[i]));
        }
    };
    assert(t.no_duplicates());
    lemma_keys_of_len(12, k as int);
    assert forall|x: int| t.to_set().contains(x) implies keys_of(12, k as int).contains(x) by {
        let i = choose|i: int| 0 <= i < t.len() && t[i] == x;
        assert(cs.contains(d[i]));
        let j = choose|j: int| 0 <= j < cs.len() && cs[j] == d[i];
        assert(cs[j].len() == k);
        lemma_class_key_in(kinds, d[i]);
    };
    t.unique_seq_to_set();
    vstd::set_lib::lemma_len_subset(t.to_set(), keys_of(12, k as int));
}

} // verus!
