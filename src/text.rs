//! Character-level helpers over string views.

use vstd::prelude::*;

verus! {

/// `p` occurs in `s` starting at index `i`.
pub open spec fn occurs_at(s: Seq<char>, p: Seq<char>, i: int) -> bool {
    0 <= i && i + p.len() <= s.len() && s.subrange(i, i + p.len()) == p
}

/// `p` occurs somewhere in `s`.
pub open spec fn contains_seq(s: Seq<char>, p: Seq<char>) -> bool {
    exists|i: int| occurs_at(s, p, i)
}

/// Whether `s` and `p` hold the same characters.
pub fn str_equals(s: &str, p: &str) -> (r: bool)
    ensures
        r == (s@ == p@),
{
    let n = s.unicode_len();
    let m = p.unicode_len();
    if n != m {
        return false;
    }
    let mut i: usize = 0;
    while i < n
        invariant
            n == s@.len(),
            m == p@.len(),
            n == m,
            i <= n,
            forall|k: int| 0 <= k < i ==> s@[k] == p@[k],
        decreases n - i,
    {
        if s.get_char(i) != p.get_char(i) {
            return false;
        }
        i = i + 1;
    }
    assert(s@ =~= p@);
    true
}

/// Whether `p` occurs in `s` at index `i`.
fn matches_at(s: &str, p: &str, i: usize) -> (r: bool)
    ensures
        r == occurs_at(s@, p@, i as int),
{
    let n = s.unicode_len();
    let m = p.unicode_len();
    if m > n || i > n - m {
        return false;
    }
    let mut k: usize = 0;
    while k < m
        invariant
            n == s@.len(),
            m == p@.len(),
            i + m <= n,
            k <= m,
            forall|j: int| 0 <= j < k ==> s@[i + j] == p@[j],
        decreases m - k,
    {
        if s.get_char(i + k) != p.get_char(k) {
            assert(s@.subrange(i as int, i + m)[k as int] != p@[k as int]);
            return false;
        }
        k = k + 1;
    }
    assert(s@.subrange(i as int, i + m) =~= p@);
    true
}

/// Whether `p` occurs anywhere in `s`.
pub fn str_contains(s: &str, p: &str) -> (r: bool)
    ensures
        r == contains_seq(s@, p@),
{
    let n = s.unicode_len();
    let mut i: usize = 0;
    loop
        invariant
            n == s@.len(),
            i <= n,
            forall|j: int| 0 <= j < i ==> !occurs_at(s@, p@, j),
        decreases n - i,
    {
        if matches_at(s, p, i) {
            return true;
        }
        if i == n {
            assert forall|j: int| !occurs_at(s@, p@, j) by {
                if 0 <= j && j + p@.len() <= s@.len() {
                    assert(j <= n);
                }
            }
            return false;
        }
        i = i + 1;
    }
}

/// `i` is the first index at which `p` occurs in `s`.
pub open spec fn first_occurrence(s: Seq<char>, p: Seq<char>, i: int) -> bool {
    occurs_at(s, p, i) && forall|j: int| 0 <= j < i ==> !occurs_at(s, p, j)
}

/// `i` is the last index at which `p` occurs in `s`.
pub open spec fn last_occurrence(s: Seq<char>, p: Seq<char>, i: int) -> bool {
    occurs_at(s, p, i) && forall|j: int| i < j ==> !occurs_at(s, p, j)
}

/// The index of the first occurrence of `p` in `s`.
pub fn find_first(s: &str, p: &str) -> (r: Option<usize>)
    ensures
        r matches Some(i) ==> first_occurrence(s@, p@, i as int),
        r is None ==> !contains_seq(s@, p@),
{
    let n = s.unicode_len();
    let mut i: usize = 0;
    loop
        invariant
            n == s@.len(),
            i <= n,
            forall|j: int| 0 <= j < i ==> !occurs_at(s@, p@, j),
        decreases n - i,
    {
        if matches_at(s, p, i) {
            return Some(i);
        }
        if i == n {
            assert forall|j: int| !occurs_at(s@, p@, j) by {
                if 0 <= j && j + p@.len() <= s@.len() {
                    assert(j <= n);
                }
            }
            return None;
        }
        i = i + 1;
    }
}

/// The index of the last occurrence of `p` in `s`.
pub fn find_last(s: &str, p: &str) -> (r: Option<usize>)
    ensures
        r matches Some(i) ==> last_occurrence(s@, p@, i as int),
        r is None ==> !contains_seq(s@, p@),
{
    let n = s.unicode_len();
    let mut i: usize = n;
    loop
        invariant
            n == s@.len(),
            i <= n,
            forall|j: int| i < j ==> !occurs_at(s@, p@, j),
        decreases i,
    {
        if matches_at(s, p, i) {
            return Some(i);
        }
        if i == 0 {
            assert forall|j: int| !occurs_at(s@, p@, j) by {
                if 0 <= j && j + p@.len() <= s@.len() {
                    assert(j >= 0);
                }
            }
            return None;
        }
        i = i - 1;
    }
}

/// Whether `s` begins with the character `c`.
pub fn starts_with_char(s: &str, c: char) -> (r: bool)
    ensures
        r == (s@.len() > 0 && s@[0] == c),
{
    let n = s.unicode_len();
    n > 0 && s.get_char(0) == c
}

/// Index of the last occurrence of `c` in `s`.
pub open spec fn last_index_of(s: Seq<char>, c: char) -> Option<int>
    decreases s.len(),
{
    if s.len() == 0 {
        None
    } else if s.last() == c {
        Some(s.len() - 1)
    } else {
        last_index_of(s.drop_last(), c)
    }
}

/// The last occurrence lies inside the sequence, holds `c`, and no later
/// character is `c`.
pub proof fn lemma_last_index_of(s: Seq<char>, c: char)
    ensures
        last_index_of(s, c) matches Some(i) ==> 0 <= i < s.len() && s[i] == c
            && forall|j: int| i < j < s.len() ==> s[j] != c,
        last_index_of(s, c) is None ==> forall|j: int| 0 <= j < s.len() ==> s[j] != c,
    decreases s.len(),
{
    if s.len() > 0 {
        lemma_last_index_of(s.drop_last(), c);
        assert(forall|j: int| 0 <= j < s.len() - 1 ==> s.drop_last()[j] == s[j]);
    }
}

/// Finds the last occurrence of `c` in `s`.
pub fn rfind_char(s: &str, c: char) -> (r: Option<usize>)
    ensures
        r matches Some(i) ==> last_index_of(s@, c) == Some(i as int),
        r is None ==> last_index_of(s@, c) is None,
{
    let n = s.unicode_len();
    let mut i: usize = n;
    assert(s@.subrange(0, n as int) =~= s@);
    while i > 0
        invariant
            n == s@.len(),
            i <= n,
            last_index_of(s@, c) == last_index_of(s@.subrange(0, i as int), c),
        decreases i,
    {
        let ch = s.get_char(i - 1);
        assert(s@.subrange(0, i as int).drop_last() =~= s@.subrange(0, i - 1));
        if ch == c {
            return Some(i - 1);
        }
        i = i - 1;
    }
    assert(s@.subrange(0, 0).len() == 0);
    None
}

} // verus!
