//! Character-level scanning helpers shared by the message parser and the
//! dispatcher: whitespace trimming, substring search, and their specifications.

use vstd::prelude::*;

verus! {

/// The whitespace characters this library trims: ASCII space, tab, carriage
/// return and newline.
pub open spec fn is_space_char(c: char) -> bool {
    c == ' ' || c == '\t' || c == '\r' || c == '\n'
}

/// Runtime test for `is_space_char`.
pub fn is_space(c: char) -> (r: bool)
    ensures
        r == is_space_char(c),
{
    c == ' ' || c == '\t' || c == '\r' || c == '\n'
}

/// `s` without its longest prefix of characters satisfying `p`.
pub open spec fn drop_while(s: Seq<char>, p: spec_fn(char) -> bool) -> Seq<char>
    decreases s.len(),
{
    if s.len() > 0 && p(s[0]) {
        drop_while(s.drop_first(), p)
    } else {
        s
    }
}

/// `s` without its longest suffix of characters satisfying `p`.
pub open spec fn drop_while_right(s: Seq<char>, p: spec_fn(char) -> bool) -> Seq<char>
    decreases s.len(),
{
    if s.len() > 0 && p(s.last()) {
        drop_while_right(s.drop_last(), p)
    } else {
        s
    }
}

/// If the first `k` characters satisfy `p` and the one after them (if any)
/// does not, then `drop_while` drops exactly those `k` characters.
pub proof fn lemma_drop_while_skip(s: Seq<char>, p: spec_fn(char) -> bool, k: int)
    requires
        0 <= k <= s.len(),
        forall|i: int| 0 <= i < k ==> p(s[i]),
        k < s.len() ==> !p(s[k]),
    ensures
        drop_while(s, p) == s.skip(k),
    decreases k,
{
    if k == 0 {
        assert(s.skip(0) =~= s);
    } else {
        assert(p(s[0]));
        lemma_drop_while_skip(s.drop_first(), p, k - 1);
        assert(s.drop_first().skip(k - 1) =~= s.skip(k));
    }
}

/// If the characters from `k` on satisfy `p` and the one before them (if any)
/// does not, then `drop_while_right` keeps exactly the first `k` characters.
pub proof fn lemma_drop_while_right_take(s: Seq<char>, p: spec_fn(char) -> bool, k: int)
    requires
        0 <= k <= s.len(),
        forall|i: int| k <= i < s.len() ==> p(s[i]),
        k > 0 ==> !p(s[k - 1]),
    ensures
        drop_while_right(s, p) == s.take(k),
    decreases s.len(),
{
    if k == s.len() {
        if s.len() > 0 {
            assert(!p(s.last()));
        }
        assert(s.take(k) =~= s);
    } else {
        assert(p(s.last()));
        lemma_drop_while_right_take(s.drop_last(), p, k);
        assert(s.drop_last().take(k) =~= s.take(k));
    }
}

/// `s` with surrounding whitespace removed.
pub open spec fn trim_spec(s: Seq<char>) -> Seq<char> {
    drop_while_right(drop_while(s, |c: char| is_space_char(c)), |c: char| is_space_char(c))
}

/// Removes leading and trailing whitespace, as `trim_spec` describes.
pub fn trim(s: &str) -> (r: &str)
    ensures
        r@ == trim_spec(s@),
{
    let len = s.unicode_len();
    let mut start: usize = 0;
    while start < len && is_space(s.get_char(start))
        invariant
            len == s@.len(),
            start <= len,
            forall|i: int| 0 <= i < start ==> is_space_char(s@[i]),
        decreases len - start,
    {
        start += 1;
    }
    let mut end: usize = len;
    while end > start && is_space(s.get_char(end - 1))
        invariant
            len == s@.len(),
            start <= end <= len,
            forall|i: int| end <= i < len ==> is_space_char(s@[i]),
        decreases end,
    {
        end -= 1;
    }
    let r = s.substring_char(start, end);
    proof {
        let p = |c: char| is_space_char(c);
        lemma_drop_while_skip(s@, p, start as int);
        let t = s@.skip(start as int);
        assert forall|i: int| (end - start) <= i < t.len() implies p(t[i]) by {
            assert(t[i] == s@[i + start]);
        }
        if end > start {
            assert(t[end - start - 1] == s@[end - 1]);
        }
        lemma_drop_while_right_take(t, p, end - start);
        assert(t.take(end - start) =~= s@.subrange(start as int, end as int));
    }
    r
}

/// The pattern `p` occurs in `s` at position `i`.
pub open spec fn pat_at(s: Seq<char>, p: Seq<char>, i: int) -> bool {
    0 <= i && i + p.len() <= s.len() && s.subrange(i, i + p.len() as int) == p
}

/// Position of the first occurrence of the pattern `p` in `s`, if any.
pub open spec fn find_pat(s: Seq<char>, p: Seq<char>) -> Option<int>
    decreases s.len(),
{
    if p.len() == 0 {
        Some(0)
    } else if s.len() < p.len() {
        None
    } else if s.take(p.len() as int) == p {
        Some(0)
    } else {
        match find_pat(s.drop_first(), p) {
            None => None,
            Some(i) => Some(i + 1),
        }
    }
}

/// `find_pat` returns exactly the first position where the pattern occurs,
/// and `None` exactly when it occurs nowhere.
pub proof fn lemma_find_pat(s: Seq<char>, p: Seq<char>)
    ensures
        match find_pat(s, p) {
            None => forall|j: int| !pat_at(s, p, j),
            Some(i) => pat_at(s, p, i) && forall|j: int| 0 <= j < i ==> !pat_at(s, p, j),
        },
    decreases s.len(),
{
    if p.len() == 0 {
        assert(s.subrange(0, 0) =~= p);
    } else if s.len() < p.len() {
        assert forall|j: int| !pat_at(s, p, j) by {
            assert(j >= 0 ==> j + p.len() >= p.len());
        }
    } else if s.take(p.len() as int) == p {
        assert(s.subrange(0, p.len() as int) =~= s.take(p.len() as int));
    } else {
        lemma_find_pat(s.drop_first(), p);
        assert forall|j: int| 1 <= j && pat_at(s, p, j) implies pat_at(s.drop_first(), p, j - 1) by {
            assert(s.drop_first().subrange(j - 1, j - 1 + p.len() as int) =~= s.subrange(
                j,
                j + p.len() as int,
            ));
        }
        assert forall|j: int| pat_at(s.drop_first(), p, j) implies pat_at(s, p, j + 1) by {
            assert(s.subrange(j + 1, j + 1 + p.len() as int) =~= s.drop_first().subrange(
                j,
                j + p.len() as int,
            ));
        }
        assert(!pat_at(s, p, 0)) by {
            assert(s.subrange(0, p.len() as int) =~= s.take(p.len() as int));
        }
    }
}

/// Whether the pattern occurs in `s` at position `i`.
pub fn pat_matches_at(s: &str, pat: &str, i: usize) -> (r: bool)
    requires
        i + pat@.len() <= s@.len(),
    ensures
        r == pat_at(s@, pat@, i as int),
{
    let n = s.unicode_len();
    let m = pat.unicode_len();
    let mut k: usize = 0;
    while k < m
        invariant
            n == s@.len(),
            m == pat@.len(),
            i + m <= n,
            k <= m,
            forall|t: int| 0 <= t < k ==> s@[i + t] == pat@[t],
        decreases m - k,
    {
        if s.get_char(i + k) != pat.get_char(k) {
            proof {
                if pat_at(s@, pat@, i as int) {
                    assert(s@.subrange(i as int, i as int + pat@.len() as int)[k as int] == s@[i
                        + k]);
                }
            }
            return false;
        }
        k += 1;
    }
    proof {
        assert(s@.subrange(i as int, i as int + pat@.len() as int) =~= pat@);
    }
    true
}

/// Position of the first occurrence of `pat` in `s`, as `find_pat` describes.
pub fn find_substr(s: &str, pat: &str) -> (r: Option<usize>)
    ensures
        match find_pat(s@, pat@) {
            None => r is None,
            Some(i) => r matches Some(u) && u as int == i,
        },
{
    let n = s.unicode_len();
    let m = pat.unicode_len();
    if m > n {
        proof {
            lemma_find_pat(s@, pat@);
        }
        return None;
    }
    if m == 0 {
        proof {
            lemma_find_pat(s@, pat@);
            assert(s@.subrange(0, 0) =~= pat@);
        }
        return Some(0);
    }
    let mut i: usize = 0;
    while i <= n - m
        invariant
            n == s@.len(),
            m == pat@.len(),
            0 < m <= n,
            i <= n - m + 1,
            forall|j: int| 0 <= j < i ==> !pat_at(s@, pat@, j),
        decreases n - m + 1 - i,
    {
        if pat_matches_at(s, pat, i) {
            proof {
                lemma_find_pat(s@, pat@);
            }
            return Some(i);
        }
        i += 1;
    }
    proof {
        lemma_find_pat(s@, pat@);
    }
    None
}

/// The two strings hold the same characters.
pub fn str_eq(a: &str, b: &str) -> (r: bool)
    ensures
        r == (a@ == b@),
{
    let n = a.unicode_len();
    if n != b.unicode_len() {
        return false;
    }
    let r = pat_matches_at(a, b, 0);
    proof {
        assert(a@.subrange(0, b@.len() as int) =~= a@);
    }
    r
}

/// Position of the first occurrence of `c` in `s`, if any.
pub open spec fn find_char(s: Seq<char>, c: char) -> Option<int>
    decreases s.len(),
{
    if s.len() == 0 {
        None
    } else if s[0] == c {
        Some(0)
    } else {
        match find_char(s.drop_first(), c) {
            None => None,
            Some(i) => Some(i + 1),
        }
    }
}

/// `find_char` returns exactly the first position holding `c`, and `None`
/// exactly when `c` does not occur.
pub proof fn lemma_find_char(s: Seq<char>, c: char)
    ensures
        match find_char(s, c) {
            None => forall|j: int| 0 <= j < s.len() ==> s[j] != c,
            Some(i) => 0 <= i < s.len() && s[i] == c && forall|j: int| 0 <= j < i ==> s[j] != c,
        },
    decreases s.len(),
{
    if s.len() == 0 {
    } else if s[0] == c {
    } else {
        lemma_find_char(s.drop_first(), c);
        assert forall|j: int| 1 <= j < s.len() implies s.drop_first()[j - 1] == s[j] by {}
    }
}

/// Position of the first occurrence of `c` in `s` at or after `from`,
/// described through `find_char` on the remaining tail.
pub fn find_char_from(s: &str, from: usize, c: char) -> (r: Option<usize>)
    requires
        from <= s@.len(),
    ensures
        match find_char(s@.skip(from as int), c) {
            None => r is None,
            Some(i) => r matches Some(u) && u as int == from + i,
        },
{
    let n = s.unicode_len();
    let mut j: usize = from;
    while j < n
        invariant
            n == s@.len(),
            from <= j <= n,
            forall|t: int| from <= t < j ==> s@[t] != c,
        decreases n - j,
    {
        if s.get_char(j) == c {
            proof {
                lemma_find_char(s@.skip(from as int), c);
                let tail = s@.skip(from as int);
                assert(tail[j - from] == s@[j as int]);
                assert forall|t: int| 0 <= t < j - from implies tail[t] != c by {
                    assert(tail[t] == s@[t + from]);
                }
            }
            return Some(j);
        }
        j += 1;
    }
    proof {
        lemma_find_char(s@.skip(from as int), c);
    }
    proof {
        let tail = s@.skip(from as int);
        assert forall|t: int| 0 <= t < tail.len() implies tail[t] != c by {
            assert(tail[t] == s@[t + from]);
        }
    }
    None
}

/// Position of the last occurrence of `c` in `s`, if any.
pub open spec fn find_last(s: Seq<char>, c: char) -> Option<int>
    decreases s.len(),
{
    if s.len() == 0 {
        None
    } else if s.last() == c {
        Some(s.len() - 1)
    } else {
        find_last(s.drop_last(), c)
    }
}

/// `find_last` returns exactly the last position holding `c`, and `None`
/// exactly when `c` does not occur.
pub proof fn lemma_find_last(s: Seq<char>, c: char)
    ensures
        match find_last(s, c) {
            None => forall|j: int| 0 <= j < s.len() ==> s[j] != c,
            Some(i) => 0 <= i < s.len() && s[i] == c && forall|j: int|
                i < j < s.len() ==> s[j] != c,
        },
    decreases s.len(),
{
    if s.len() == 0 {
    } else if s.last() == c {
    } else {
        lemma_find_last(s.drop_last(), c);
        assert forall|j: int| 0 <= j < s.len() - 1 implies s.drop_last()[j] == s[j] by {}
    }
}

/// Position of the last occurrence of `c` in `s`, as `find_last` describes.
pub fn find_last_char(s: &str, c: char) -> (r: Option<usize>)
    ensures
        match find_last(s@, c) {
            None => r is None,
            Some(i) => r matches Some(u) && u as int == i,
        },
{
    let n = s.unicode_len();
    let mut j: usize = n;
    while j > 0
        invariant
            n == s@.len(),
            j <= n,
            forall|t: int| j <= t < n ==> s@[t] != c,
        decreases j,
    {
        j -= 1;
        if s.get_char(j) == c {
            proof {
                lemma_find_last(s@, c);
            }
            return Some(j);
        }
    }
    proof {
        lemma_find_last(s@, c);
    }
    None
}

/// Relies on `String::push` from std: appends one character at the end.
#[verifier::external_body]
pub fn push_char(s: &mut String, c: char)
    ensures
        final(s)@ == old(s)@ + seq![c],
{
    s.push(c);
}

} // verus!
