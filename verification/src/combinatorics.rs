//! Counting and enumerating subsets.

use vstd::prelude::*;

verus! {

/// `n choose k` as computed step by step: `r_{i+1} = sat(r_i * (n - i)) / (i + 1)`
/// for `i < min(k, n - k)`, saturating the product at `usize::MAX`.
pub open spec fn binomial_spec(n: usize, k: usize) -> usize {
    if k > n {
        0
    } else {
        let kk = if k <= n - k { k } else { (n - k) as usize };
        binomial_steps(n, kk as int)
    }
}

/// The running value after `i` steps of [`binomial_spec`].
pub open spec fn binomial_steps(n: usize, i: int) -> usize
    decreases i,
{
    if i <= 0 {
        1
    } else {
        let prev = binomial_steps(n, i - 1);
        let prod = prev * (n - (i - 1));
        let sat = if prod > usize::MAX { usize::MAX as int } else { prod };
        (sat / i) as usize
    }
}

/// `n choose k`, saturating rather than overflowing on absurd inputs.
pub fn binomial(n: usize, k: usize) -> (r: usize)
    ensures
        r == binomial_spec(n, k),
{
    if k > n {
        return 0;
    }
    let k = if k <= n - k { k } else { n - k };
    let mut result: usize = 1;
    let mut i: usize = 0;
    while i < k
        invariant
            k <= n,
            i <= k,
            result == binomial_steps(n, i as int),
        decreases k - i,
    {
        let f = n - i;
        let prod: usize = if f != 0 && result > usize::MAX / f {
            proof {
                assert(result * f > usize::MAX) by (nonlinear_arith)
                    requires
                        f > 0,
                        result > usize::MAX / f;
            }
            usize::MAX
        } else {
            proof {
                assert(result * f <= usize::MAX) by (nonlinear_arith)
                    requires
                        f == 0 || result <= usize::MAX / f;
            }
            result * f
        };
        result = prod / (i + 1);
        i += 1;
    }
    result
}

/// All `k`-element subsequences of `s`, in lexicographic order of positions.
pub open spec fn combinations_spec<T>(s: Seq<T>, k: nat) -> Seq<Seq<T>>
    decreases s.len(), k,
{
    if k == 0 {
        seq![Seq::empty()]
    } else if s.len() < k {
        Seq::empty()
    } else {
        combinations_spec(s.drop_first(), (k - 1) as nat).map_values(|c: Seq<T>| seq![s[0]] + c)
            + combinations_spec(s.drop_first(), k)
    }
}

/// All `k`-element combinations of `items[start..]`, preserving order.
fn combinations_from<T: Copy>(items: &[T], k: usize, start: usize) -> (r: Vec<Vec<T>>)
    requires
        start <= items@.len(),
    ensures
        r@.map_values(|c: Vec<T>| c@) == combinations_spec(items@.skip(start as int), k as nat),
    decreases items@.len() - start, k,
{
    let ghost s = items@.skip(start as int);
    if k == 0 {
        let mut out: Vec<Vec<T>> = Vec::new();
        out.push(Vec::new());
        assert(out@.map_values(|c: Vec<T>| c@) =~= seq![Seq::<T>::empty()]);
        return out;
    }
    if items.len() - start < k {
        let out: Vec<Vec<T>> = Vec::new();
        assert(out@.map_values(|c: Vec<T>| c@) =~= Seq::<Seq<T>>::empty());
        return out;
    }
    assert(s.drop_first() =~= items@.skip(start as int + 1));
    let first = items[start];
    let with_first = combinations_from(items, k - 1, start + 1);
    let without = combinations_from(items, k, start + 1);
    let mut out: Vec<Vec<T>> = Vec::new();
    let ghost wf = combinations_spec(s.drop_first(), (k - 1) as nat);
    let ghost pre = wf.map_values(|c: Seq<T>| seq![s[0]] + c);
    let mut i: usize = 0;
    while i < with_first.len()
        invariant
            s == items@.skip(start as int),
            s.len() > 0,
            first == s[0],
            with_first@.map_values(|c: Vec<T>| c@) == wf,
            pre == wf.map_values(|c: Seq<T>| seq![s[0]] + c),
            i <= with_first@.len(),
            out@.map_values(|c: Vec<T>| c@) == pre.take(i as int),
        decreases with_first@.len() - i,
    {
        let mut c: Vec<T> = Vec::new();
        c.push(first);
        let mut j: usize = 0;
        let src = &with_first[i];
        while j < src.len()
            invariant
                j <= src@.len(),
                c@ == seq![first] + src@.take(j as int),
            decreases src@.len() - j,
        {
            c.push(src[j]);
            j += 1;
            assert(c@ =~= seq![first] + src@.take(j as int));
        }
        assert(src@.take(j as int) =~= src@);
        assert(wf[i as int] == src@);
        let ghost old_out = out@;
        out.push(c);
        proof {
            assert(out@ == old_out.push(c));
            old_out.lemma_push_map_commute(|c: Vec<T>| c@, c);
            assert(pre.take(i as int + 1) =~= pre.take(i as int).push(pre[i as int]));
            assert(pre[i as int] == seq![s[0]] + wf[i as int]);
            assert(c@ =~= pre[i as int]);
        }
        i += 1;
        assert(out@.map_values(|c: Vec<T>| c@) =~= pre.take(i as int));
    }
    assert(pre.take(i as int) =~= pre);
    let ghost rest = combinations_spec(s.drop_first(), k as nat);
    let mut i: usize = 0;
    let ghost base = out@.map_values(|c: Vec<T>| c@);
    while i < without.len()
        invariant
            without@.map_values(|c: Vec<T>| c@) == rest,
            base == pre,
            i <= without@.len(),
            out@.map_values(|c: Vec<T>| c@) == pre + rest.take(i as int),
        decreases without@.len() - i,
    {
        let c = clone_vec(&without[i]);
        let ghost old_out = out@;
        out.push(c);
        proof {
            old_out.lemma_push_map_commute(|c: Vec<T>| c@, c);
            assert(rest.take(i as int + 1) =~= rest.take(i as int).push(rest[i as int]));
            assert(rest[i as int] == without@[i as int]@);
        }
        i += 1;
        assert(out@.map_values(|c: Vec<T>| c@) =~= pre + rest.take(i as int));
    }
    assert(rest.take(i as int) =~= rest);
    out
}

/// Element-by-element copy of a vector of `Copy` values.
fn clone_vec<T: Copy>(v: &Vec<T>) -> (r: Vec<T>)
    ensures
        r@ == v@,
{
    let mut out: Vec<T> = Vec::new();
    let mut i: usize = 0;
    while i < v.len()
        invariant
            i <= v@.len(),
            out@ == v@.take(i as int),
        decreases v@.len() - i,
    {
        out.push(v[i]);
        i += 1;
        assert(out@ =~= v@.take(i as int));
    }
    assert(v@.take(i as int) =~= v@);
    out
}

/// All `k`-element combinations of `items`, preserving relative order.
pub fn combinations<T: Copy>(items: &[T], k: usize) -> (r: Vec<Vec<T>>)
    ensures
        r@.map_values(|c: Vec<T>| c@) == combinations_spec(items@, k as nat),
{
    assert(items@.skip(0) =~= items@);
    combinations_from(items, k, 0)
}

} // verus!
