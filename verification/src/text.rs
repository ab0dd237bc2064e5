//! Character-level helpers for URL parsing: occurrence counting, first
//! occurrence of a character or of a pattern, and the start of the last
//! `/`-separated segment, each as a spec function with a verified scanner.

use vstd::prelude::*;

verus! {

/// Number of occurrences of `c` in `s`.
pub open spec fn count_occ(s: Seq<char>, c: char) -> int
    decreases s.len(),
{
    if s.len() == 0 {
        0
    } else {
        count_occ(s.drop_last(), c) + if s.last() == c {
            1int
        } else {
            0int
        }
    }
}

/// Index of the first occurrence of `c` in `s`, or `s.len()` if there is none.
pub open spec fn first_occ(s: Seq<char>, c: char) -> int
    decreases s.len(),
{
    if s.len() == 0 {
        0
    } else if s[0] == c {
        0
    } else {
        1 + first_occ(s.drop_first(), c)
    }
}

/// Index just after the last `/` in `s`, or `0` if `s` holds no `/`;
/// the last path segment of a URL starts here.
pub open spec fn seg_start(s: Seq<char>) -> int
    decreases s.len(),
{
    if s.len() == 0 {
        0
    } else if s.last() == '/' {
        s.len() as int
    } else {
        seg_start(s.drop_last())
    }
}

/// The pattern `p` occurs in `s` starting at index `i`.
pub open spec fn matches_at(s: Seq<char>, p: Seq<char>, i: int) -> bool {
    0 <= i && i + p.len() <= s.len() && s.subrange(i, i + p.len()) == p
}

pub proof fn lemma_count_occ_bounds(s: Seq<char>, c: char)
    ensures
        0 <= count_occ(s, c) <= s.len(),
    decreases s.len(),
{
    if s.len() > 0 {
        lemma_count_occ_bounds(s.drop_last(), c);
    }
}

/// A count of zero means no occurrence at all.
pub proof fn lemma_count_occ_zero(s: Seq<char>, c: char)
    ensures
        (count_occ(s, c) == 0) <==> (forall|j: int| 0 <= j < s.len() ==> s[j] != c),
    decreases s.len(),
{
    lemma_count_occ_bounds(s, c);
    if s.len() > 0 {
        lemma_count_occ_zero(s.drop_last(), c);
        lemma_count_occ_bounds(s.drop_last(), c);
        if count_occ(s, c) == 0 {
            assert forall|j: int| 0 <= j < s.len() implies s[j] != c by {
                if j < s.len() - 1 {
                    assert(s.drop_last()[j] == s[j]);
                }
            }
        } else {
            if forall|j: int| 0 <= j < s.len() ==> s[j] != c {
                assert forall|j: int| 0 <= j < s.len() - 1 implies s.drop_last()[j] != c by {
                    assert(s.drop_last()[j] == s[j]);
                }
            }
        }
    }
}

/// Occurrence counts add up over concatenation.
pub proof fn lemma_count_occ_concat(a: Seq<char>, b: Seq<char>, c: char)
    ensures
        count_occ(a + b, c) == count_occ(a, c) + count_occ(b, c),
    decreases b.len(),
{
    if b.len() == 0 {
        assert(a + b =~= a);
    } else {
        lemma_count_occ_concat(a, b.drop_last(), c);
        assert((a + b).drop_last() =~= a + b.drop_last());
        assert((a + b).last() == b.last());
    }
}

/// The occurrence count splits at any cut point.
pub proof fn lemma_count_occ_split(s: Seq<char>, c: char, i: int)
    requires
        0 <= i <= s.len(),
    ensures
        count_occ(s, c) == count_occ(s.take(i), c) + count_occ(s.subrange(i, s.len() as int), c),
{
    assert(s =~= s.take(i) + s.subrange(i, s.len() as int));
    lemma_count_occ_concat(s.take(i), s.subrange(i, s.len() as int), c);
}

/// Appending `/`-free text does not move the start of the last segment.
pub proof fn lemma_seg_start_concat(a: Seq<char>, t: Seq<char>)
    requires
        count_occ(t, '/') == 0,
    ensures
        seg_start(a + t) == seg_start(a),
    decreases t.len(),
{
    if t.len() == 0 {
        assert(a + t =~= a);
    } else {
        lemma_count_occ_zero(t, '/');
        lemma_count_occ_zero(t.drop_last(), '/');
        assert forall|j: int| 0 <= j < t.len() - 1 implies t.drop_last()[j] != '/' by {
            assert(t.drop_last()[j] == t[j]);
        }
        lemma_seg_start_concat(a, t.drop_last());
        assert((a + t).last() == t.last());
        assert((a + t).drop_last() =~= a + t.drop_last());
    }
}

pub proof fn lemma_first_occ_props(s: Seq<char>, c: char)
    ensures
        0 <= first_occ(s, c) <= s.len(),
        first_occ(s, c) < s.len() ==> s[first_occ(s, c)] == c,
        forall|j: int| 0 <= j < first_occ(s, c) ==> s[j] != c,
    decreases s.len(),
{
    if s.len() > 0 && s[0] != c {
        lemma_first_occ_props(s.drop_first(), c);
        assert forall|j: int| 0 <= j < first_occ(s, c) implies s[j] != c by {
            if j > 0 {
                assert(s.drop_first()[j - 1] == s[j]);
            }
        }
    }
}

/// `first_occ` is exactly the least index holding `c` (or the length if none).
pub proof fn lemma_first_occ_is(s: Seq<char>, c: char, i: int)
    requires
        0 <= i <= s.len(),
        i < s.len() ==> s[i] == c,
        forall|j: int| 0 <= j < i ==> s[j] != c,
        i == s.len() ==> forall|j: int| 0 <= j < s.len() ==> s[j] != c,
    ensures
        first_occ(s, c) == i,
{
    lemma_first_occ_props(s, c);
    if first_occ(s, c) < i {
        assert(s[first_occ(s, c)] == c);
    } else if i < first_occ(s, c) {
        assert(s[i] != c);
    }
}

pub proof fn lemma_seg_start_bounds(s: Seq<char>)
    ensures
        0 <= seg_start(s) <= s.len(),
    decreases s.len(),
{
    if s.len() > 0 && s.last() != '/' {
        lemma_seg_start_bounds(s.drop_last());
    }
}

/// Everything at or after `seg_start` is a non-`/` character.
pub proof fn lemma_seg_start_props(s: Seq<char>)
    ensures
        0 <= seg_start(s) <= s.len(),
        forall|j: int| seg_start(s) <= j < s.len() ==> s[j] != '/',
        seg_start(s) > 0 ==> s[seg_start(s) - 1] == '/',
    decreases s.len(),
{
    lemma_seg_start_bounds(s);
    if s.len() > 0 && s.last() != '/' {
        lemma_seg_start_props(s.drop_last());
        assert forall|j: int| seg_start(s) <= j < s.len() implies s[j] != '/' by {
            if j < s.len() - 1 {
                assert(s.drop_last()[j] == s[j]);
            }
        }
    }
}

/// Counts the occurrences of `c` in `s`.
pub fn char_count(s: &str, c: char) -> (r: usize)
    ensures
        r == count_occ(s@, c),
{
    let n = s.unicode_len();
    let mut i: usize = 0;
    let mut acc: usize = 0;
    while i < n
        invariant
            0 <= i <= n,
            n == s@.len(),
            acc == count_occ(s@.take(i as int), c),
            acc <= i,
        decreases n - i,
    {
        let ch = s.get_char(i);
        proof {
            assert(s@.take(i + 1).drop_last() =~= s@.take(i as int));
            assert(s@.take(i + 1).last() == s@[i as int]);
        }
        if ch == c {
            acc = acc + 1;
        }
        i = i + 1;
    }
    proof {
        assert(s@.take(n as int) =~= s@);
    }
    acc
}

/// Finds the first occurrence of `c` in `s`, returning `s.unicode_len()`
/// when `c` does not occur.
pub fn find_char(s: &str, c: char) -> (r: usize)
    ensures
        r == first_occ(s@, c),
        r <= s@.len(),
{
    let n = s.unicode_len();
    let mut i: usize = 0;
    while i < n
        invariant
            0 <= i <= n,
            n == s@.len(),
            forall|j: int| 0 <= j < i ==> s@[j] != c,
        decreases n - i,
    {
        if s.get_char(i) == c {
            proof {
                lemma_first_occ_is(s@, c, i as int);
            }
            return i;
        }
        i = i + 1;
    }
    proof {
        lemma_first_occ_is(s@, c, n as int);
    }
    n
}

/// Finds the index just after the last `/` in `s`, or `0` if `s` has no `/`.
pub fn last_segment_start(s: &str) -> (r: usize)
    ensures
        r == seg_start(s@),
        r <= s@.len(),
{
    let n = s.unicode_len();
    proof {
        assert(s@.take(n as int) =~= s@);
    }
    let mut i: usize = n;
    while i > 0
        invariant
            0 <= i <= n,
            n == s@.len(),
            seg_start(s@) == seg_start(s@.take(i as int)),
        decreases i,
    {
        let ch = s.get_char(i - 1);
        proof {
            assert(s@.take(i as int).last() == s@[i - 1]);
            assert(s@.take(i as int).drop_last() =~= s@.take(i - 1));
        }
        if ch == '/' {
            proof {
                lemma_seg_start_bounds(s@);
            }
            return i;
        }
        i = i - 1;
    }
    proof {
        assert(s@.take(0) =~= Seq::<char>::empty());
        lemma_seg_start_bounds(s@);
    }
    0
}

/// Decides whether the pattern `p` occurs in `s` at index `i`.
pub fn match_at(s: &str, p: &str, i: usize) -> (r: bool)
    requires
        i + p@.len() <= s@.len(),
    ensures
        r == matches_at(s@, p@, i as int),
{
    let n = s.unicode_len();
    let m = p.unicode_len();
    let mut k: usize = 0;
    while k < m
        invariant
            0 <= k <= m,
            n == s@.len(),
            m == p@.len(),
            i + m <= n,
            forall|t: int| 0 <= t < k ==> s@[i + t] == p@[t],
        decreases m - k,
    {
        if s.get_char(i + k) != p.get_char(k) {
            proof {
                if matches_at(s@, p@, i as int) {
                    assert(s@.subrange(i as int, i + m as int)[k as int] == s@[i + k]);
                }
            }
            return false;
        }
        k = k + 1;
    }
    proof {
        assert(s@.subrange(i as int, i + m as int) =~= p@);
    }
    true
}

} // verus!
