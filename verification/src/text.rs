//! Small verified helpers over string slices: equality, and splitting at
//! the first occurrence of a separator character.

use vstd::prelude::*;
use vstd::string::StrSliceExecFns;

verus! {

/// Character-by-character equality of two string slices.
pub fn str_eq(a: &str, b: &str) -> (r: bool)
    ensures
        r == (a@ == b@),
{
    let n = a.unicode_len();
    let m = b.unicode_len();
    if n != m {
        return false;
    }
    let mut i: usize = 0;
    while i < n
        invariant
            n == a@.len(),
            m == b@.len(),
            n == m,
            i <= n,
            forall|j: int| 0 <= j < i ==> a@[j] == b@[j],
        decreases n - i,
    {
        if a.get_char(i) != b.get_char(i) {
            return false;
        }
        i += 1;
    }
    assert(a@ =~= b@);
    true
}

/// Position of the first `sep` in `s`, if any.
pub fn find_char(s: &str, sep: char) -> (r: Option<usize>)
    ensures
        r is None <==> s@.index_of_first(sep) is None,
        r matches Some(i) ==> s@.index_of_first(sep) == Some(i as int) && i < s@.len(),
{
    proof {
        s@.index_of_first_ensures(sep);
    }
    let n = s.unicode_len();
    let mut i: usize = 0;
    while i < n
        invariant
            n == s@.len(),
            i <= n,
            forall|j: int| 0 <= j < i ==> s@[j] != sep,
        decreases n - i,
    {
        if s.get_char(i) == sep {
            proof {
                s@.index_of_first_ensures(sep);
                let k = s@.index_of_first(sep).unwrap();
                assert(s@.contains(sep));
                assert(k == i) by {
                    if k < i {
                        assert(s@[k] != sep);
                    }
                    if k > i {
                        assert(s@[i as int] == sep);
                    }
                };
            }
            return Some(i);
        }
        i += 1;
    }
    proof {
        if s@.contains(sep) {
            let k = choose|k: int| 0 <= k < s@.len() && s@[k] == sep;
            assert(s@[k] != sep);
        }
    }
    None
}

} // verus!
